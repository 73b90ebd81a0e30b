//! Addition, subtraction, negation and small multiples: the operations that
//! work limb by limb and let the bounds of the limbs grow.

use crate::big::{big_add, big_clone, big_lt, big_mul, big_rem, big_from_u64, nat_of};
use crate::gate::{RegionCtx, Witness};
use crate::integer::{AssignedInteger, AssignedLimb, IntegerChip, Range};
use crate::limbs::{compose, horner};
use crate::modular::{lemma_cong_add, lemma_cong_rem, lemma_cong_sub, lemma_cong_mul};
use crate::reduction::{lemma_horner_multiple, lemma_horner_sum};
use crate::rns::{aux_shift_of, base_aux_of, four, lemma_aux_shift_monotonic, lemma_nats4, max_unreduced_limb_of, nats, params_ok, unreduced_shift_of, Integer};
use num_bigint::BigUint;
use vstd::arithmetic::div_mod::{lemma_mod_multiples_vanish, lemma_small_mod};
use vstd::arithmetic::power2::{lemma_pow2_pos, lemma_pow2_strictly_increases, pow2};
use vstd::prelude::*;

verus! {

impl AssignedInteger {
    /// Whether the bound of some limb is above `bound`.
    pub open spec fn exceeds(self, bound: nat) -> bool {
        self.limb_max(0) > bound || self.limb_max(1) > bound || self.limb_max(2) > bound
            || self.limb_max(3) > bound
    }

    /// Whether the bound of some limb is above `bound`.
    pub fn limbs_exceed(&self, bound: &BigUint) -> (r: bool)
        requires
            self.limbs@.len() == 4,
        ensures
            r == self.exceeds(nat_of(*bound)),
    {
        big_lt(bound, &self.limbs[0].max_val) || big_lt(bound, &self.limbs[1].max_val) || big_lt(
            bound,
            &self.limbs[2].max_val,
        ) || big_lt(bound, &self.limbs[3].max_val)
    }
}

/// Four limbs and the native cell as an element.
fn assemble(
    w0: Witness,
    m0: BigUint,
    w1: Witness,
    m1: BigUint,
    w2: Witness,
    m2: BigUint,
    w3: Witness,
    m3: BigUint,
    native: Witness,
) -> (r: AssignedInteger)
    ensures
        r.limbs@.len() == 4,
        r.limbs@[0] == (AssignedLimb { witness: w0, max_val: m0 }),
        r.limbs@[1] == (AssignedLimb { witness: w1, max_val: m1 }),
        r.limbs@[2] == (AssignedLimb { witness: w2, max_val: m2 }),
        r.limbs@[3] == (AssignedLimb { witness: w3, max_val: m3 }),
        r.native == native,
{
    let mut limbs: Vec<AssignedLimb> = Vec::new();
    limbs.push(AssignedLimb::new(w0, m0));
    limbs.push(AssignedLimb::new(w1, m1));
    limbs.push(AssignedLimb::new(w2, m2));
    limbs.push(AssignedLimb::new(w3, m3));
    AssignedInteger { limbs, native }
}

impl AssignedInteger {
    /// The bounds of the limbs as a sequence.
    pub open spec fn max_seq(self) -> Seq<nat> {
        seq![self.limb_max(0), self.limb_max(1), self.limb_max(2), self.limb_max(3)]
    }
}

impl Integer {
    /// Every limb is below the base.
    pub open spec fn reduced(self, r: nat) -> bool {
        self.limb(0) < r && self.limb(1) < r && self.limb(2) < r && self.limb(3) < r
    }
}

/// The limbs of a difference with a constant added.
proof fn lemma_horner_sub(a: Seq<nat>, b: Seq<nat>, x: Seq<nat>, r: nat)
    requires
        a.len() == 4 && b.len() == 4 && x.len() == 4,
        x[0] >= b[0] && x[1] >= b[1] && x[2] >= b[2] && x[3] >= b[3],
    ensures
        horner(
            (a[0] + x[0] - b[0]) as nat,
            (a[1] + x[1] - b[1]) as nat,
            (a[2] + x[2] - b[2]) as nat,
            (a[3] + x[3] - b[3]) as nat,
            r,
        ) == horner(a[0], a[1], a[2], a[3], r) + horner(x[0], x[1], x[2], x[3], r) - horner(
            b[0],
            b[1],
            b[2],
            b[3],
            r,
        ),
{
    reveal(horner);
    let (a0, a1, a2, a3) = (a[0] as int, a[1] as int, a[2] as int, a[3] as int);
    let (b0, b1, b2, b3) = (b[0] as int, b[1] as int, b[2] as int, b[3] as int);
    let (x0, x1, x2, x3) = (x[0] as int, x[1] as int, x[2] as int, x[3] as int);
    let ri = r as int;
    assert((a0 + x0 - b0) + ri * ((a1 + x1 - b1) + ri * ((a2 + x2 - b2) + ri * (a3 + x3 - b3))) == (
    a0 + ri * (a1 + ri * (a2 + ri * a3))) + (x0 + ri * (x1 + ri * (x2 + ri * x3))) - (b0 + ri * (b1
        + ri * (b2 + ri * b3)))) by (nonlinear_arith);
}

impl IntegerChip {
    /// The value of the constant that makes the subtraction of `b` safe:
    /// `2 * p`, shifted left until its limbs reach the bounds of the limbs
    /// of `b`.
    pub open spec fn aux_value(self, b: AssignedInteger) -> nat {
        2 * self.rns.p() * pow2(
            aux_shift_of(base_aux_of(self.rns.p(), self.rns.r()), b.max_seq()),
        )
    }

    /// The bound of a limb that may still be added to.
    pub open spec fn unreduced(self) -> nat {
        max_unreduced_limb_of(self.rns.bl())
    }

    /// What the thresholds of the lazy operations guarantee: limbs within
    /// the unreduced bound can be added, tripled, and subtracted with the
    /// constants that cover unreduced limbs, without reaching the native
    /// modulus.
    pub proof fn lemma_headroom(self)
        requires
            self.wf(),
        ensures
            3 * self.unreduced() < self.rns.n(),
            self.rns.r() - 1 <= self.unreduced(),
            ({
                let base = base_aux_of(self.rns.p(), self.rns.r());
                let t = pow2(unreduced_shift_of(self.rns.p(), self.rns.bl()));
                &&& base.len() == 4
                &&& base[0] >= 1 && base[1] >= 1 && base[2] >= 1 && base[3] >= 1
                &&& self.unreduced() + base[0] * t < self.rns.n()
                &&& self.unreduced() + base[1] * t < self.rns.n()
                &&& self.unreduced() + base[2] * t < self.rns.n()
                &&& self.unreduced() + base[3] * t < self.rns.n()
            }),
    {
        self.rns.lemma_fields();
        reveal(params_ok);
        let bl = self.rns.bl();
        lemma_pow2_pos(bl);
        if bl / 2 > 0 {
            lemma_pow2_strictly_increases(bl, bl + bl / 2);
        }
        lemma_nats4(self.rns.base_aux@);
    }

    /// Reduces the element where the bound of some limb is above the
    /// unreduced bound, and hands it back as it is otherwise.
    pub fn reduce_if_limb_values_exceeds_unreduced(&self, ctx: &mut RegionCtx, a: &AssignedInteger) -> (res:
        AssignedInteger)
        requires
            self.wf(),
            self.fits(*old(ctx)),
            a.wf(self.rns),
        ensures
            final(ctx).native_modulus == old(ctx).native_modulus,
            final(ctx).satisfied() == old(ctx).satisfied(),
            res.wf(self.rns),
            !res.exceeds(self.unreduced()),
            a.exceeds(self.unreduced()) ==> res.bounded_as(self.rns, Range::Remainder) && res.value(
                self.rns.r(),
            ) == a.value(self.rns.r()) % self.rns.p(),
            !a.exceeds(self.unreduced()) ==> res.limbs@ == a.limbs@ && res.native == a.native,
            res.value(self.rns.r()) % self.rns.p() == a.value(self.rns.r()) % self.rns.p(),
    {
        proof {
            self.rns.lemma_fields();
            self.rns.lemma_basics();
            self.lemma_headroom();
            self.rns.lemma_range(Range::Remainder);
            vstd::arithmetic::div_mod::lemma_mod_twice(
                a.value(self.rns.r()) as int,
                self.rns.p() as int,
            );
        }
        if a.limbs_exceed(&self.rns.max_unreduced_limb) {
            self.reduce(ctx, a)
        } else {
            a.copy()
        }
    }

    /// Reduces the element where the bound of some limb is above the bound
    /// of a reduced limb, and hands it back as it is otherwise.
    pub fn reduce_if_limb_values_exceeds_reduced(&self, ctx: &mut RegionCtx, a: &AssignedInteger) -> (res:
        AssignedInteger)
        requires
            self.wf(),
            self.fits(*old(ctx)),
            a.wf(self.rns),
        ensures
            final(ctx).native_modulus == old(ctx).native_modulus,
            final(ctx).satisfied() == old(ctx).satisfied(),
            res.wf(self.rns),
            !res.exceeds((self.rns.r() - 1) as nat),
            a.exceeds((self.rns.r() - 1) as nat) ==> res.bounded_as(self.rns, Range::Remainder)
                && res.value(self.rns.r()) == a.value(self.rns.r()) % self.rns.p(),
            !a.exceeds((self.rns.r() - 1) as nat) ==> res.limbs@ == a.limbs@ && res.native
                == a.native,
            res.value(self.rns.r()) % self.rns.p() == a.value(self.rns.r()) % self.rns.p(),
    {
        proof {
            self.rns.lemma_fields();
            self.rns.lemma_basics();
            self.rns.lemma_range(Range::Remainder);
            vstd::arithmetic::div_mod::lemma_mod_twice(
                a.value(self.rns.r()) as int,
                self.rns.p() as int,
            );
        }
        if a.limbs_exceed(&self.rns.max_reduced_limb) {
            self.reduce(ctx, a)
        } else {
            a.copy()
        }
    }

    /// Adds limb by limb. The bounds of the limbs add up.
    pub fn add_limbs(&self, ctx: &mut RegionCtx, a: &AssignedInteger, b: &AssignedInteger) -> (res:
        AssignedInteger)
        requires
            self.wf(),
            self.fits(*old(ctx)),
            a.wf(self.rns),
            b.wf(self.rns),
            forall|i: int| 0 <= i < 4 ==> a.limb_max(i) + b.limb_max(i) < self.rns.n(),
        ensures
            final(ctx).native_modulus == old(ctx).native_modulus,
            final(ctx).satisfied() == old(ctx).satisfied(),
            res.wf(self.rns),
            forall|i: int| 0 <= i < 4 ==> res.limb_val(i) == a.limb_val(i) + b.limb_val(i),
            forall|i: int| 0 <= i < 4 ==> res.limb_max(i) == a.limb_max(i) + b.limb_max(i),
            res.value(self.rns.r()) == a.value(self.rns.r()) + b.value(self.rns.r()),
            res.max_value(self.rns.r()) == a.max_value(self.rns.r()) + b.max_value(self.rns.r()),
    {
        let mg = self.main_gate();
        let ghost n = self.rns.n();
        let ghost r = self.rns.r() as int;
        proof {
            assert(a.limb_max(0) + b.limb_max(0) < n);
            assert(a.limb_max(1) + b.limb_max(1) < n);
            assert(a.limb_max(2) + b.limb_max(2) < n);
            assert(a.limb_max(3) + b.limb_max(3) < n);
            lemma_small_mod(a.limb_val(0) + b.limb_val(0), n);
            lemma_small_mod(a.limb_val(1) + b.limb_val(1), n);
            lemma_small_mod(a.limb_val(2) + b.limb_val(2), n);
            lemma_small_mod(a.limb_val(3) + b.limb_val(3), n);
            lemma_horner_sum(
                a.limb_val(0),
                a.limb_val(1),
                a.limb_val(2),
                a.limb_val(3),
                b.limb_val(0),
                b.limb_val(1),
                b.limb_val(2),
                b.limb_val(3),
                self.rns.r(),
            );
            lemma_horner_sum(
                a.limb_max(0),
                a.limb_max(1),
                a.limb_max(2),
                a.limb_max(3),
                b.limb_max(0),
                b.limb_max(1),
                b.limb_max(2),
                b.limb_max(3),
                self.rns.r(),
            );
            lemma_cong_rem(a.value(r as nat) as int, n as int);
            lemma_cong_rem(b.value(r as nat) as int, n as int);
            lemma_cong_add(
                a.native.val() as int,
                a.value(r as nat) as int,
                b.native.val() as int,
                b.value(r as nat) as int,
                n as int,
            );
        }
        let w0 = mg.add(ctx, &a.limbs[0].witness, &b.limbs[0].witness);
        let w1 = mg.add(ctx, &a.limbs[1].witness, &b.limbs[1].witness);
        let w2 = mg.add(ctx, &a.limbs[2].witness, &b.limbs[2].witness);
        let w3 = mg.add(ctx, &a.limbs[3].witness, &b.limbs[3].witness);
        let native = mg.add(ctx, &a.native, &b.native);
        assemble(
            w0,
            big_add(&a.limbs[0].max_val, &b.limbs[0].max_val),
            w1,
            big_add(&a.limbs[1].max_val, &b.limbs[1].max_val),
            w2,
            big_add(&a.limbs[2].max_val, &b.limbs[2].max_val),
            w3,
            big_add(&a.limbs[3].max_val, &b.limbs[3].max_val),
            native,
        )
    }

    /// `a + b`. An operand with a limb above the unreduced bound is reduced
    /// first; the bounds of the limbs of the operands then add up.
    pub fn add(&self, ctx: &mut RegionCtx, a: &AssignedInteger, b: &AssignedInteger) -> (res:
        AssignedInteger)
        requires
            self.wf(),
            self.fits(*old(ctx)),
            a.wf(self.rns),
            b.wf(self.rns),
        ensures
            final(ctx).native_modulus == old(ctx).native_modulus,
            final(ctx).satisfied() == old(ctx).satisfied(),
            res.wf(self.rns),
            res.value(self.rns.r()) % self.rns.p() == (a.value(self.rns.r()) + b.value(self.rns.r()))
                % self.rns.p(),
            !a.exceeds(self.unreduced()) && !b.exceeds(self.unreduced()) ==> res.value(self.rns.r())
                == a.value(self.rns.r()) + b.value(self.rns.r()) && res.max_value(self.rns.r())
                == a.max_value(self.rns.r()) + b.max_value(self.rns.r()),
    {
        let a1 = self.reduce_if_limb_values_exceeds_unreduced(ctx, a);
        let b1 = self.reduce_if_limb_values_exceeds_unreduced(ctx, b);
        proof {
            self.lemma_headroom();
            self.rns.lemma_basics();
            lemma_cong_add(
                a1.value(self.rns.r()) as int,
                a.value(self.rns.r()) as int,
                b1.value(self.rns.r()) as int,
                b.value(self.rns.r()) as int,
                self.rns.p() as int,
            );
        }
        self.add_limbs(ctx, &a1, &b1)
    }
}

impl IntegerChip {
    /// Reduces the element where its largest possible value is above the
    /// bound of an operand, and hands it back as it is otherwise.
    pub fn reduce_if_max_operand_value_exceeds(&self, ctx: &mut RegionCtx, a: &AssignedInteger) -> (res:
        AssignedInteger)
        requires
            self.wf(),
            self.fits(*old(ctx)),
            a.wf(self.rns),
        ensures
            final(ctx).native_modulus == old(ctx).native_modulus,
            final(ctx).satisfied() == old(ctx).satisfied(),
            res.wf(self.rns),
            res.max_value(self.rns.r()) <= self.rns.range_max(Range::Operand),
            a.max_value(self.rns.r()) > self.rns.range_max(Range::Operand) ==> res.bounded_as(
                self.rns,
                Range::Remainder,
            ) && res.value(self.rns.r()) == a.value(self.rns.r()) % self.rns.p(),
            a.max_value(self.rns.r()) <= self.rns.range_max(Range::Operand) ==> res.limbs@
                == a.limbs@ && res.native == a.native,
            res.value(self.rns.r()) % self.rns.p() == a.value(self.rns.r()) % self.rns.p(),
            a.exceeds((self.rns.r() - 1) as nat) || !res.exceeds((self.rns.r() - 1) as nat),
    {
        proof {
            self.rns.lemma_fields();
            self.rns.lemma_basics();
            self.rns.lemma_range(Range::Remainder);
            self.rns.lemma_range(Range::Operand);
            reveal(params_ok);
            crate::limbs::lemma_bit_length_bounds(self.rns.p());
            vstd::arithmetic::div_mod::lemma_mod_twice(
                a.value(self.rns.r()) as int,
                self.rns.p() as int,
            );
        }
        let max = a.max_val(self.rns.bit_len_limb);
        if big_lt(&self.rns.max_operand, &max) {
            let res = self.reduce(ctx, a);
            proof {
                // a remainder is bounded by a number of ones that is not
                // longer than the bound of an operand
                let k = crate::rns::range_bits_of(
                    self.rns.p(),
                    self.rns.n(),
                    self.rns.bl(),
                    Range::Remainder,
                );
                let kx = crate::rns::range_bits_of(
                    self.rns.p(),
                    self.rns.n(),
                    self.rns.bl(),
                    Range::Operand,
                );
                if kx < k {
                    if kx < k - 1 {
                        lemma_pow2_strictly_increases(kx, (k - 1) as nat);
                    }
                }
                if k < kx {
                    lemma_pow2_strictly_increases(k, kx);
                }
            }
            res
        } else {
            a.copy()
        }
    }

    /// Multiplies limb by limb with a small constant.
    pub fn scale_limbs(&self, ctx: &mut RegionCtx, a: &AssignedInteger, k: u64) -> (res:
        AssignedInteger)
        requires
            self.wf(),
            self.fits(*old(ctx)),
            a.wf(self.rns),
            forall|i: int| 0 <= i < 4 ==> k * a.limb_max(i) < self.rns.n(),
        ensures
            final(ctx).native_modulus == old(ctx).native_modulus,
            final(ctx).satisfied() == old(ctx).satisfied(),
            res.wf(self.rns),
            forall|i: int| 0 <= i < 4 ==> res.limb_max(i) == k * a.limb_max(i),
            res.value(self.rns.r()) == k * a.value(self.rns.r()),
            res.max_value(self.rns.r()) == k * a.max_value(self.rns.r()),
    {
        let mg = self.main_gate();
        let ghost n = self.rns.n();
        let ghost r = self.rns.r() as int;
        let kb = big_from_u64(k);
        proof {
            assert(k * a.limb_max(0) < n);
            assert(k * a.limb_max(1) < n);
            assert(k * a.limb_max(2) < n);
            assert(k * a.limb_max(3) < n);
            assert forall|i: int| 0 <= i < 4 implies k * a.limb_val(i) <= k * a.limb_max(i) by {
                assert(k * a.limb_val(i) <= k * a.limb_max(i)) by (nonlinear_arith)
                    requires
                        a.limb_val(i) <= a.limb_max(i),
                ;
            }
            lemma_small_mod((k * a.limb_val(0)) as nat, n);
            lemma_small_mod((k * a.limb_val(1)) as nat, n);
            lemma_small_mod((k * a.limb_val(2)) as nat, n);
            lemma_small_mod((k * a.limb_val(3)) as nat, n);
            lemma_horner_multiple(
                a.limb_val(0),
                a.limb_val(1),
                a.limb_val(2),
                a.limb_val(3),
                k as nat,
                self.rns.r(),
            );
            lemma_horner_multiple(
                a.limb_max(0),
                a.limb_max(1),
                a.limb_max(2),
                a.limb_max(3),
                k as nat,
                self.rns.r(),
            );
            lemma_cong_rem(a.value(r as nat) as int, n as int);
            lemma_cong_mul(
                k as int,
                k as int,
                a.native.val() as int,
                a.value(r as nat) as int,
                n as int,
            );
        }
        let w0 = mg.scale(ctx, &a.limbs[0].witness, k);
        let w1 = mg.scale(ctx, &a.limbs[1].witness, k);
        let w2 = mg.scale(ctx, &a.limbs[2].witness, k);
        let w3 = mg.scale(ctx, &a.limbs[3].witness, k);
        let native = mg.scale(ctx, &a.native, k);
        assemble(
            w0,
            big_mul(&kb, &a.limbs[0].max_val),
            w1,
            big_mul(&kb, &a.limbs[1].max_val),
            w2,
            big_mul(&kb, &a.limbs[2].max_val),
            w3,
            big_mul(&kb, &a.limbs[3].max_val),
            native,
        )
    }

    /// `2 * a`. An operand with a limb above the unreduced bound is reduced
    /// first; the bounds of the limbs then double.
    pub fn mul2(&self, ctx: &mut RegionCtx, a: &AssignedInteger) -> (res: AssignedInteger)
        requires
            self.wf(),
            self.fits(*old(ctx)),
            a.wf(self.rns),
        ensures
            final(ctx).native_modulus == old(ctx).native_modulus,
            final(ctx).satisfied() == old(ctx).satisfied(),
            res.wf(self.rns),
            res.value(self.rns.r()) % self.rns.p() == (2 * a.value(self.rns.r())) % self.rns.p(),
            !a.exceeds(self.unreduced()) ==> res.value(self.rns.r()) == 2 * a.value(self.rns.r())
                && res.max_value(self.rns.r()) == 2 * a.max_value(self.rns.r()),
    {
        let a1 = self.reduce_if_limb_values_exceeds_unreduced(ctx, a);
        proof {
            self.lemma_headroom();
            self.rns.lemma_basics();
            lemma_cong_mul(
                2,
                2,
                a1.value(self.rns.r()) as int,
                a.value(self.rns.r()) as int,
                self.rns.p() as int,
            );
        }
        self.scale_limbs(ctx, &a1, 2)
    }

    /// `3 * a`. An operand with a limb above the unreduced bound is reduced
    /// first; the bounds of the limbs then triple.
    pub fn mul3(&self, ctx: &mut RegionCtx, a: &AssignedInteger) -> (res: AssignedInteger)
        requires
            self.wf(),
            self.fits(*old(ctx)),
            a.wf(self.rns),
        ensures
            final(ctx).native_modulus == old(ctx).native_modulus,
            final(ctx).satisfied() == old(ctx).satisfied(),
            res.wf(self.rns),
            res.value(self.rns.r()) % self.rns.p() == (3 * a.value(self.rns.r())) % self.rns.p(),
            !a.exceeds(self.unreduced()) ==> res.value(self.rns.r()) == 3 * a.value(self.rns.r())
                && res.max_value(self.rns.r()) == 3 * a.max_value(self.rns.r()),
    {
        let a1 = self.reduce_if_limb_values_exceeds_unreduced(ctx, a);
        proof {
            self.lemma_headroom();
            self.rns.lemma_basics();
            lemma_cong_mul(
                3,
                3,
                a1.value(self.rns.r()) as int,
                a.value(self.rns.r()) as int,
                self.rns.p() as int,
            );
        }
        self.scale_limbs(ctx, &a1, 3)
    }

    /// Adds a constant limb by limb. The bound of each limb grows by the
    /// limb of the constant.
    pub fn add_constant_limbs(&self, ctx: &mut RegionCtx, a: &AssignedInteger, b: &Integer) -> (res:
        AssignedInteger)
        requires
            self.wf(),
            self.fits(*old(ctx)),
            a.wf(self.rns),
            b.wf(),
            forall|i: int| 0 <= i < 4 ==> a.limb_max(i) + b.limb(i) < self.rns.n(),
        ensures
            final(ctx).native_modulus == old(ctx).native_modulus,
            final(ctx).satisfied() == old(ctx).satisfied(),
            res.wf(self.rns),
            forall|i: int| 0 <= i < 4 ==> res.limb_max(i) == a.limb_max(i) + b.limb(i),
            res.value(self.rns.r()) == a.value(self.rns.r()) + b.value(self.rns.r()),
            res.max_value(self.rns.r()) == a.max_value(self.rns.r()) + b.value(self.rns.r()),
    {
        let mg = self.main_gate();
        let ghost n = self.rns.n();
        let ghost r = self.rns.r() as int;
        proof {
            self.rns.lemma_basics();
        }
        let b_native = big_rem(&compose(&b.limbs, self.rns.bit_len_limb), &self.rns.native_modulus);
        proof {
            assert(a.limb_max(0) + b.limb(0) < n);
            assert(a.limb_max(1) + b.limb(1) < n);
            assert(a.limb_max(2) + b.limb(2) < n);
            assert(a.limb_max(3) + b.limb(3) < n);
            lemma_small_mod(a.limb_val(0) + b.limb(0), n);
            lemma_small_mod(a.limb_val(1) + b.limb(1), n);
            lemma_small_mod(a.limb_val(2) + b.limb(2), n);
            lemma_small_mod(a.limb_val(3) + b.limb(3), n);
            lemma_horner_sum(
                a.limb_val(0),
                a.limb_val(1),
                a.limb_val(2),
                a.limb_val(3),
                b.limb(0),
                b.limb(1),
                b.limb(2),
                b.limb(3),
                self.rns.r(),
            );
            lemma_horner_sum(
                a.limb_max(0),
                a.limb_max(1),
                a.limb_max(2),
                a.limb_max(3),
                b.limb(0),
                b.limb(1),
                b.limb(2),
                b.limb(3),
                self.rns.r(),
            );
            lemma_cong_rem(a.value(r as nat) as int, n as int);
            lemma_cong_rem(b.value(r as nat) as int, n as int);
            lemma_cong_add(
                a.native.val() as int,
                a.value(r as nat) as int,
                nat_of(b_native) as int,
                b.value(r as nat) as int,
                n as int,
            );
        }
        let w0 = mg.add_constant(ctx, &a.limbs[0].witness, &b.limbs[0]);
        let w1 = mg.add_constant(ctx, &a.limbs[1].witness, &b.limbs[1]);
        let w2 = mg.add_constant(ctx, &a.limbs[2].witness, &b.limbs[2]);
        let w3 = mg.add_constant(ctx, &a.limbs[3].witness, &b.limbs[3]);
        let native = mg.add_constant(ctx, &a.native, &b_native);
        assemble(
            w0,
            big_add(&a.limbs[0].max_val, &b.limbs[0]),
            w1,
            big_add(&a.limbs[1].max_val, &b.limbs[1]),
            w2,
            big_add(&a.limbs[2].max_val, &b.limbs[2]),
            w3,
            big_add(&a.limbs[3].max_val, &b.limbs[3]),
            native,
        )
    }

    /// `a + b` for a constant `b` whose limbs are below the base. An operand
    /// with a limb above the unreduced bound is reduced first.
    pub fn add_constant(&self, ctx: &mut RegionCtx, a: &AssignedInteger, b: &Integer) -> (res:
        AssignedInteger)
        requires
            self.wf(),
            self.fits(*old(ctx)),
            a.wf(self.rns),
            b.wf(),
            b.reduced(self.rns.r()),
        ensures
            final(ctx).native_modulus == old(ctx).native_modulus,
            final(ctx).satisfied() == old(ctx).satisfied(),
            res.wf(self.rns),
            res.value(self.rns.r()) % self.rns.p() == (a.value(self.rns.r()) + b.value(self.rns.r()))
                % self.rns.p(),
            !a.exceeds(self.unreduced()) ==> res.value(self.rns.r()) == a.value(self.rns.r())
                + b.value(self.rns.r()) && res.max_value(self.rns.r()) == a.max_value(self.rns.r())
                + b.value(self.rns.r()),
    {
        let a1 = self.reduce_if_limb_values_exceeds_unreduced(ctx, a);
        proof {
            self.lemma_headroom();
            self.rns.lemma_basics();
            lemma_cong_add(
                a1.value(self.rns.r()) as int,
                a.value(self.rns.r()) as int,
                b.value(self.rns.r()) as int,
                b.value(self.rns.r()) as int,
                self.rns.p() as int,
            );
        }
        self.add_constant_limbs(ctx, &a1, b)
    }

    /// Subtracts limb by limb, with a constant added that keeps each limb
    /// from going below zero.
    pub fn sub_limbs(
        &self,
        ctx: &mut RegionCtx,
        a: &AssignedInteger,
        b: &AssignedInteger,
        aux: &Integer,
    ) -> (res: AssignedInteger)
        requires
            self.wf(),
            self.fits(*old(ctx)),
            a.wf(self.rns),
            b.wf(self.rns),
            aux.wf(),
            forall|i: int| 0 <= i < 4 ==> aux.limb(i) >= b.limb_max(i),
            forall|i: int| 0 <= i < 4 ==> a.limb_max(i) + aux.limb(i) < self.rns.n(),
        ensures
            final(ctx).native_modulus == old(ctx).native_modulus,
            final(ctx).satisfied() == old(ctx).satisfied(),
            res.wf(self.rns),
            forall|i: int| 0 <= i < 4 ==> res.limb_max(i) == a.limb_max(i) + aux.limb(i),
            res.value(self.rns.r()) == a.value(self.rns.r()) + aux.value(self.rns.r()) - b.value(
                self.rns.r(),
            ),
            res.max_value(self.rns.r()) == a.max_value(self.rns.r()) + aux.value(self.rns.r()),
    {
        let mg = self.main_gate();
        let ghost n = self.rns.n();
        let ghost r = self.rns.r();
        proof {
            self.rns.lemma_basics();
        }
        let aux_native = big_rem(
            &compose(&aux.limbs, self.rns.bit_len_limb),
            &self.rns.native_modulus,
        );
        proof {
            let sa = seq![a.limb_val(0), a.limb_val(1), a.limb_val(2), a.limb_val(3)];
            let sb = seq![b.limb_val(0), b.limb_val(1), b.limb_val(2), b.limb_val(3)];
            let sx = seq![aux.limb(0), aux.limb(1), aux.limb(2), aux.limb(3)];
            assert(aux.limb(0) >= b.limb_max(0) && a.limb_max(0) + aux.limb(0) < n);
            assert(aux.limb(1) >= b.limb_max(1) && a.limb_max(1) + aux.limb(1) < n);
            assert(aux.limb(2) >= b.limb_max(2) && a.limb_max(2) + aux.limb(2) < n);
            assert(aux.limb(3) >= b.limb_max(3) && a.limb_max(3) + aux.limb(3) < n);
            lemma_small_mod((a.limb_val(0) + aux.limb(0) - b.limb_val(0)) as nat, n);
            lemma_small_mod((a.limb_val(1) + aux.limb(1) - b.limb_val(1)) as nat, n);
            lemma_small_mod((a.limb_val(2) + aux.limb(2) - b.limb_val(2)) as nat, n);
            lemma_small_mod((a.limb_val(3) + aux.limb(3) - b.limb_val(3)) as nat, n);
            lemma_horner_sub(sa, sb, sx, r);
            lemma_horner_sum(
                a.limb_max(0),
                a.limb_max(1),
                a.limb_max(2),
                a.limb_max(3),
                aux.limb(0),
                aux.limb(1),
                aux.limb(2),
                aux.limb(3),
                self.rns.r(),
            );
            lemma_cong_rem(a.value(r) as int, n as int);
            lemma_cong_rem(b.value(r) as int, n as int);
            lemma_cong_rem(aux.value(r) as int, n as int);
            lemma_cong_sub(
                a.native.val() as int,
                a.value(r) as int,
                b.native.val() as int,
                b.value(r) as int,
                n as int,
            );
            lemma_cong_add(
                a.native.val() - b.native.val(),
                a.value(r) - b.value(r),
                nat_of(aux_native) as int,
                aux.value(r) as int,
                n as int,
            );
        }
        let w0 = mg.sub_with_constant(ctx, &a.limbs[0].witness, &b.limbs[0].witness, &aux.limbs[0]);
        let w1 = mg.sub_with_constant(ctx, &a.limbs[1].witness, &b.limbs[1].witness, &aux.limbs[1]);
        let w2 = mg.sub_with_constant(ctx, &a.limbs[2].witness, &b.limbs[2].witness, &aux.limbs[2]);
        let w3 = mg.sub_with_constant(ctx, &a.limbs[3].witness, &b.limbs[3].witness, &aux.limbs[3]);
        let native = mg.sub_with_constant(ctx, &a.native, &b.native, &aux_native);
        assemble(
            w0,
            big_add(&a.limbs[0].max_val, &aux.limbs[0]),
            w1,
            big_add(&a.limbs[1].max_val, &aux.limbs[1]),
            w2,
            big_add(&a.limbs[2].max_val, &aux.limbs[2]),
            w3,
            big_add(&a.limbs[3].max_val, &aux.limbs[3]),
            native,
        )
    }

    /// The constant that makes the subtraction of an element within the
    /// unreduced bound safe. Its limbs leave room for a minuend within the
    /// unreduced bound.
    pub fn aux_for(&self, b: &AssignedInteger) -> (aux: Integer)
        requires
            self.wf(),
            b.wf(self.rns),
            !b.exceeds(self.unreduced()),
        ensures
            aux.wf(),
            forall|i: int| 0 <= i < 4 ==> aux.limb(i) >= b.limb_max(i),
            forall|i: int| 0 <= i < 4 ==> self.unreduced() + aux.limb(i) < self.rns.n(),
            aux.value(self.rns.r()) == self.aux_value(*b),
            aux.limb(0) >= self.rns.r(),
    {
        let max_vals = b.max_vals();
        let aux = self.rns.make_aux(&max_vals);
        proof {
            let base = base_aux_of(self.rns.p(), self.rns.r());
            let u = self.unreduced();
            assert(aux.limb(0) >= self.rns.r()) by {
                let s = aux_shift_of(base, nats(max_vals@));
                lemma_pow2_pos(s);
                assert(aux.limb(0) == base[0] * pow2(s));
                assert(base[0] >= self.rns.r());
                assert(base[0] * pow2(s) >= base[0]) by (nonlinear_arith)
                    requires
                        pow2(s) >= 1,
                ;
            }
            self.lemma_headroom();
            lemma_nats4(max_vals@);
            assert(nats(max_vals@) =~= b.max_seq());
            lemma_aux_shift_monotonic(base, b.max_seq(), four(u));
            let t1 = pow2(aux_shift_of(base, b.max_seq()));
            let t2 = pow2(unreduced_shift_of(self.rns.p(), self.rns.bl()));
            assert forall|i: int| 0 <= i < 4 implies u + aux.limb(i) < self.rns.n() by {
                assert(base[i] * t1 <= base[i] * t2) by (nonlinear_arith)
                    requires
                        t1 <= t2,
                ;
            }
        }
        aux
    }

    /// `a - b`. An operand with a limb above the unreduced bound is reduced
    /// first. The result holds `a - b` plus a multiple of the foreign
    /// modulus, and the bounds of its limbs are those of `a` raised by that
    /// multiple.
    pub fn sub(&self, ctx: &mut RegionCtx, a: &AssignedInteger, b: &AssignedInteger) -> (res:
        AssignedInteger)
        requires
            self.wf(),
            self.fits(*old(ctx)),
            a.wf(self.rns),
            b.wf(self.rns),
        ensures
            final(ctx).native_modulus == old(ctx).native_modulus,
            final(ctx).satisfied() == old(ctx).satisfied(),
            res.wf(self.rns),
            res.value(self.rns.r()) % self.rns.p() == (a.value(self.rns.r()) - b.value(self.rns.r()))
                % (self.rns.p() as int),
            !a.exceeds(self.unreduced()) && !b.exceeds(self.unreduced()) ==> res.value(self.rns.r())
                == a.value(self.rns.r()) + self.aux_value(*b) - b.value(self.rns.r())
                && res.max_value(self.rns.r()) == a.max_value(self.rns.r()) + self.aux_value(*b),
            res.exceeds((self.rns.r() - 1) as nat),
    {
        let a1 = self.reduce_if_limb_values_exceeds_unreduced(ctx, a);
        let b1 = self.reduce_if_limb_values_exceeds_unreduced(ctx, b);
        let aux = self.aux_for(&b1);
        proof {
            let p = self.rns.p() as int;
            let r = self.rns.r();
            self.rns.lemma_basics();
            assert(b1.limbs@ == b.limbs@ ==> b1.max_seq() == b.max_seq());
            lemma_cong_sub(a1.value(r) as int, a.value(r) as int, b1.value(r) as int, b.value(r) as int, p);
            let k = 2 * pow2(aux_shift_of(base_aux_of(self.rns.p(), r), b1.max_seq()));
            assert(aux.value(r) == p * k) by (nonlinear_arith)
                requires
                    aux.value(r) == 2 * p * pow2(
                        aux_shift_of(base_aux_of(self.rns.p(), r), b1.max_seq()),
                    ),
                    k == 2 * pow2(aux_shift_of(base_aux_of(self.rns.p(), r), b1.max_seq())),
            ;
            lemma_mod_multiples_vanish(k as int, a1.value(r) - b1.value(r), p);
        }
        self.sub_limbs(ctx, &a1, &b1, &aux)
    }

    /// `-a`. An operand with a limb above the unreduced bound is reduced
    /// first. The result holds a multiple of the foreign modulus less `a`.
    pub fn neg(&self, ctx: &mut RegionCtx, a: &AssignedInteger) -> (res: AssignedInteger)
        requires
            self.wf(),
            self.fits(*old(ctx)),
            a.wf(self.rns),
        ensures
            final(ctx).native_modulus == old(ctx).native_modulus,
            final(ctx).satisfied() == old(ctx).satisfied(),
            res.wf(self.rns),
            res.value(self.rns.r()) % self.rns.p() == (-(a.value(self.rns.r()) as int)) % (
            self.rns.p() as int),
            !a.exceeds(self.unreduced()) ==> res.value(self.rns.r()) == self.aux_value(*a) - a.value(
                self.rns.r(),
            ) && res.max_value(self.rns.r()) == self.aux_value(*a),
    {
        let mg = self.main_gate();
        let a1 = self.reduce_if_limb_values_exceeds_unreduced(ctx, a);
        let aux = self.aux_for(&a1);
        let ghost n = self.rns.n();
        let ghost r = self.rns.r();
        proof {
            self.rns.lemma_basics();
        }
        let aux_native = big_rem(
            &compose(&aux.limbs, self.rns.bit_len_limb),
            &self.rns.native_modulus,
        );
        proof {
            let p = self.rns.p() as int;
            let sz = seq![0nat, 0nat, 0nat, 0nat];
            let sa = seq![a1.limb_val(0), a1.limb_val(1), a1.limb_val(2), a1.limb_val(3)];
            let sx = seq![aux.limb(0), aux.limb(1), aux.limb(2), aux.limb(3)];
            assert(a1.limbs@ == a.limbs@ ==> a1.max_seq() == a.max_seq());
            assert(aux.limb(0) >= a1.limb_max(0) && self.unreduced() + aux.limb(0) < n);
            assert(aux.limb(1) >= a1.limb_max(1) && self.unreduced() + aux.limb(1) < n);
            assert(aux.limb(2) >= a1.limb_max(2) && self.unreduced() + aux.limb(2) < n);
            assert(aux.limb(3) >= a1.limb_max(3) && self.unreduced() + aux.limb(3) < n);
            lemma_small_mod((aux.limb(0) - a1.limb_val(0)) as nat, n);
            lemma_small_mod((aux.limb(1) - a1.limb_val(1)) as nat, n);
            lemma_small_mod((aux.limb(2) - a1.limb_val(2)) as nat, n);
            lemma_small_mod((aux.limb(3) - a1.limb_val(3)) as nat, n);
            lemma_horner_sub(sz, sa, sx, r);
            assert(horner(0, 0, 0, 0, r) == 0) by {
                reveal(horner);
                assert(0 + r * (0 + r * (0 + r * 0)) == 0) by (nonlinear_arith);
            }
            lemma_cong_rem(a1.value(r) as int, n as int);
            lemma_cong_rem(aux.value(r) as int, n as int);
            lemma_cong_sub(
                nat_of(aux_native) as int,
                aux.value(r) as int,
                a1.native.val() as int,
                a1.value(r) as int,
                n as int,
            );
            lemma_cong_sub(0, 0, a1.value(r) as int, a.value(r) as int, p);
            let k = 2 * pow2(aux_shift_of(base_aux_of(self.rns.p(), r), a1.max_seq()));
            assert(aux.value(r) == p * k) by (nonlinear_arith)
                requires
                    aux.value(r) == 2 * p * pow2(
                        aux_shift_of(base_aux_of(self.rns.p(), r), a1.max_seq()),
                    ),
                    k == 2 * pow2(aux_shift_of(base_aux_of(self.rns.p(), r), a1.max_seq())),
            ;
            lemma_mod_multiples_vanish(k as int, -(a1.value(r) as int), p);
        }
        let w0 = mg.neg_with_constant(ctx, &a1.limbs[0].witness, &aux.limbs[0]);
        let w1 = mg.neg_with_constant(ctx, &a1.limbs[1].witness, &aux.limbs[1]);
        let w2 = mg.neg_with_constant(ctx, &a1.limbs[2].witness, &aux.limbs[2]);
        let w3 = mg.neg_with_constant(ctx, &a1.limbs[3].witness, &aux.limbs[3]);
        let native = mg.neg_with_constant(ctx, &a1.native, &aux_native);
        assemble(
            w0,
            big_clone(&aux.limbs[0]),
            w1,
            big_clone(&aux.limbs[1]),
            w2,
            big_clone(&aux.limbs[2]),
            w3,
            big_clone(&aux.limbs[3]),
            native,
        )
    }
}

} // verus!
