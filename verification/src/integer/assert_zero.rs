//! The assertion that an element is zero in the foreign field, and the
//! equality assertions built on it.

use crate::big::{big_add, big_clone, big_mul, nat_of};
use crate::gate::{Cell, Coeff, RegionCtx, Witness};
use crate::integer::reduce::intermediate;
use crate::integer::{AssignedInteger, IntegerChip, Range, ReductionWitness};
use crate::limbs::{horner, lemma_limbs_compose, lemma_top_limb_small};
use crate::main_gate::{invertible, Term};
use crate::modular::{cong, lemma_cong_add, lemma_cong_lin, lemma_cong_mul, lemma_cong_rem, lemma_cong_sub};
use crate::reduction::lemma_pair_bound;
use vstd::arithmetic::div_mod::{lemma_fundamental_div_mod, lemma_mod_decreases, lemma_small_mod};
use vstd::prelude::*;

verus! {

/// The cell of `a_i + q * p'_i`, placed as the value itself reduced into
/// the field, meets the row `a_i + q * p'_i - t_i = 0`.
proof fn lemma_zero_cell(a: nat, ni: nat, q: nat, n: nat)
    requires
        n > 0,
    ensures
        (a + ni * (q % n) - (a + q * ni) % n) % (n as int) == 0,
        cong(((a + q * ni) % n) as int, (a + q * ni) as int, n as int),
{
    let m = n as int;
    lemma_cong_rem((a + q * ni) as int, m);
    lemma_cong_rem(q as int, m);
    lemma_cong_mul(ni as int, ni as int, (q % n) as int, q as int, m);
    lemma_cong_add(a as int, a as int, (ni * (q % n)) as int, (ni * q) as int, m);
    assert(ni * q == q * ni) by (nonlinear_arith);
    lemma_cong_sub(
        (a + ni * (q % n)) as int,
        (a + q * ni) as int,
        ((a + q * ni) % n) as int,
        (a + q * ni) as int,
        m,
    );
    lemma_small_mod(0, n);
}

/// What the three rows of the assertion come to: with the cells of
/// `a_i + q * p'_i`, the rows of the carries hold exactly when the remainder
/// of `a` is zero in its low and in its high half, and the row of the native
/// field holds where the remainder is zero.
proof fn lemma_zero_rows(
    t: Seq<int>,
    tw: Seq<nat>,
    rem: Seq<nat>,
    v0: nat,
    v0w: nat,
    v1: nat,
    v1w: nat,
    r: nat,
    n: nat,
)
    requires
        t.len() == 4 && tw.len() == 4 && rem.len() == 4,
        n > 0,
        r > 0,
        r * r < n,
        rem[0] < r && rem[1] < r && rem[2] < r && rem[3] < r,
        forall|i: int| 0 <= i < 4 ==> cong(#[trigger] tw[i] as int, t[i] + rem[i], n as int),
        v0w == v0 % n,
        v1w == v1 % n,
        t[0] + r * t[1] == v0 * (r * r),
        t[2] + r * t[3] + v0 == v1 * (r * r),
    ensures
        ((tw[0] + r * tw[1] - (r * r) * v0w) % (n as int) == 0) == (rem[0] + r * rem[1] == 0),
        ((tw[2] + r * tw[3] + v0w - (r * r) * v1w) % (n as int) == 0) == (rem[2] + r * rem[3]
            == 0),
{
    let ni = n as int;
    let ri = r as int;
    let r2 = -((r * r) as int);
    lemma_cong_rem(v0 as int, ni);
    lemma_cong_rem(v1 as int, ni);
    assert(cong(tw[0] as int, t[0] + rem[0], ni));
    assert(cong(tw[1] as int, t[1] + rem[1], ni));
    assert(cong(tw[2] as int, t[2] + rem[2], ni));
    assert(cong(tw[3] as int, t[3] + rem[3], ni));
    lemma_cong_lin(
        tw[0] as int,
        t[0] + rem[0],
        ri,
        tw[1] as int,
        t[1] + rem[1],
        r2,
        v0w as int,
        v0 as int,
        0,
        0,
        0,
        ni,
    );
    lemma_cong_lin(
        tw[2] as int,
        t[2] + rem[2],
        ri,
        tw[3] as int,
        t[3] + rem[3],
        1,
        v0w as int,
        v0 as int,
        r2,
        v1w as int,
        v1 as int,
        ni,
    );
    assert(r2 * (v0 as int) == -(v0 * (r * r))) by (nonlinear_arith)
        requires
            r2 == -((r * r) as int),
    ;
    assert(r2 * (v1 as int) == -(v1 * (r * r))) by (nonlinear_arith)
        requires
            r2 == -((r * r) as int),
    ;
    assert(r2 * (v0w as int) == -((r * r) * v0w)) by (nonlinear_arith)
        requires
            r2 == -((r * r) as int),
    ;
    assert(r2 * (v1w as int) == -((r * r) * v1w)) by (nonlinear_arith)
        requires
            r2 == -((r * r) as int),
    ;
    assert(ri * (t[1] + rem[1]) == ri * t[1] + ri * rem[1]) by (nonlinear_arith);
    assert(ri * (t[3] + rem[3]) == ri * t[3] + ri * rem[3]) by (nonlinear_arith);
    lemma_pair_bound(rem[0], rem[1], r);
    lemma_pair_bound(rem[2], rem[3], r);
    lemma_small_mod(rem[0] + r * rem[1], n);
    lemma_small_mod(rem[2] + r * rem[3], n);
}

/// The row of the native field of the assertion, `-a + q * p = 0`, holds
/// where the remainder of `a` is zero.
proof fn lemma_zero_native(a: nat, q: nat, p: nat, n: nat)
    requires
        n > 0,
        a == p * q,
    ensures
        (-((a % n) as int) + (p % n) * (q % n)) % (n as int) == 0,
{
    let m = n as int;
    lemma_cong_rem(a as int, m);
    lemma_cong_rem(p as int, m);
    lemma_cong_rem(q as int, m);
    lemma_cong_mul((p % n) as int, p as int, (q % n) as int, q as int, m);
    lemma_cong_sub(((p % n) * (q % n)) as int, (p * q) as int, (a % n) as int, a as int, m);
    lemma_small_mod(0, n);
}

/// The verdict of the assertion: the three rows hold together exactly when
/// the remainder of `a` by the foreign modulus is zero.
proof fn lemma_zero_verdict(
    a: Seq<nat>,
    neg: Seq<nat>,
    tw: Seq<nat>,
    rem: Seq<nat>,
    q: nat,
    v0: nat,
    v0w: nat,
    v1: nat,
    v1w: nat,
    av: nat,
    p: nat,
    r: nat,
    n: nat,
)
    requires
        a.len() == 4 && neg.len() == 4 && tw.len() == 4 && rem.len() == 4,
        n > 0,
        r > 0,
        p > 0,
        r * r < n,
        rem[0] < r && rem[1] < r && rem[2] < r && rem[3] < r,
        horner(rem[0], rem[1], rem[2], rem[3], r) == av % p,
        q == av / p,
        forall|i: int| 0 <= i < 4 ==> cong(#[trigger] tw[i] as int, (a[i] + q * neg[i]) as int, n as int),
        v0w == v0 % n,
        v1w == v1 % n,
        intermediate(a[0], q, neg[0], rem[0]) + r * intermediate(a[1], q, neg[1], rem[1]) == v0 * (r
            * r),
        intermediate(a[2], q, neg[2], rem[2]) + r * intermediate(a[3], q, neg[3], rem[3]) + v0 == v1
            * (r * r),
    ensures
        ((tw[0] + r * tw[1] - (r * r) * v0w) % (n as int) == 0 && (tw[2] + r * tw[3] + v0w - (r * r)
            * v1w) % (n as int) == 0 && (-((av % n) as int) + (p % n) * (q % n)) % (n as int) == 0)
            == (av % p == 0),
{
    reveal(intermediate);
    let t = seq![
        intermediate(a[0], q, neg[0], rem[0]),
        intermediate(a[1], q, neg[1], rem[1]),
        intermediate(a[2], q, neg[2], rem[2]),
        intermediate(a[3], q, neg[3], rem[3]),
    ];
    assert forall|i: int| 0 <= i < 4 implies cong(#[trigger] tw[i] as int, t[i] + rem[i], n as int) by {
        assert(cong(tw[i] as int, (a[i] + q * neg[i]) as int, n as int));
    }
    lemma_zero_rows(t, tw, rem, v0, v0w, v1, v1w, r, n);
    crate::reduction::lemma_horner_halves(rem[0], rem[1], rem[2], rem[3], r);
    lemma_fundamental_div_mod(av as int, p as int);
    let hi = rem[2] + r * rem[3];
    assert((r * r) * hi >= 0 && (hi > 0 ==> (r * r) * hi > 0)) by (nonlinear_arith)
        requires
            r > 0,
            hi >= 0,
    ;
    if av % p == 0 {
        lemma_zero_native(av, q, p, n);
    }
}

impl IntegerChip {
    /// The bit length that the quotient of the assertion is range-checked
    /// with: that of the largest quotient that the bounds of the limbs allow.
    fn assert_zero_quotient_range_tune(&self, w: &ReductionWitness) -> (r: u64)
        ensures
            r == w.quotient_bits,
    {
        w.quotient_bits
    }

    /// The bit length that the first carry is range-checked with.
    fn assert_zero_v0_range_tune(&self, w: &ReductionWitness) -> (r: u64)
        ensures
            r == w.v0_bits,
    {
        w.v0_bits
    }

    /// The bit length that the second carry is range-checked with.
    fn assert_zero_v1_range_tune(&self, w: &ReductionWitness) -> (r: u64)
        ensures
            r == w.v1_bits,
    {
        w.v1_bits
    }

    /// One of the four rows `a_i + q * p'_i - t_i = 0`, with the cell of
    /// `t_i` placed in it.
    fn zero_cell(
        &self,
        ctx: &mut RegionCtx,
        a: &AssignedInteger,
        q: &Witness,
        i: usize,
        Ghost(qn): Ghost<nat>,
    ) -> (t: Witness)
        requires
            self.wf(),
            self.fits(*old(ctx)),
            a.limbs@.len() == 4,
            i < 4,
            q.val() == qn % self.rns.n(),
        ensures
            final(ctx).native_modulus == old(ctx).native_modulus,
            final(ctx).satisfied() == old(ctx).satisfied(),
            cong(
                t.val() as int,
                (a.limb_val(i as int) + qn * self.rns.neg_p(i as int)) as int,
                self.rns.n() as int,
            ),
    {
        let mg = self.main_gate();
        let rns = &self.rns;
        proof {
            rns.lemma_limbs();
            rns.lemma_basics();
        }
        let ni = &rns.negative_wrong_modulus_decomposed[i];
        // the value of the cell, computed from the cells it is bound to
        let value = big_add(&a.limbs[i].witness.value, &big_mul(&q.value, ni));
        proof {
            let n = rns.n();
            let ai = a.limb_val(i as int);
            let nn = rns.neg_p(i as int);
            let m = n as int;
            lemma_zero_cell(ai, nn, qn, n);
            lemma_cong_rem((ai + q.val() * nn) as int, m);
            lemma_cong_rem(qn as int, m);
            lemma_cong_mul(q.val() as int, qn as int, nn as int, nn as int, m);
            lemma_cong_add(ai as int, ai as int, (q.val() * nn) as int, (qn * nn) as int, m);
            lemma_cong_mul(nn as int, nn as int, q.val() as int, q.val() as int, m);
            assert(nn * q.val() == q.val() * nn) by (nonlinear_arith);
            let x = (ai + q.val() * nn) as int;
            crate::gate::lemma_minus_remainder(x, m);
        }
        let cells = mg.combine(
            ctx,
            Term::Assigned(a.limbs[i].witness.copy(), Coeff::from_u64(1)),
            Term::Assigned(q.copy(), Coeff::plus(big_clone(ni))),
            Term::Unassigned(value, Coeff::minus_u64(1)),
            Term::Zero,
            Term::Zero,
            Coeff::from_u64(0),
            false,
        );
        cells[2].copy()
    }

    /// Asserts that an element is zero in the foreign field: places the
    /// quotient `q` of its value by the foreign modulus and the two carries,
    /// each range-checked, the four cells `t_i = a_i + q * p'_i`, and the
    /// rows `t0 + r * t1 - r^2 * v0 = 0`, `t2 + r * t3 + v0 - r^2 * v1 = 0`
    /// and, in the native field, `-a + q * p = 0`. The circuit stays
    /// satisfied exactly when the value is a multiple of the foreign modulus.
    pub fn _assert_zero(&self, ctx: &mut RegionCtx, a: &AssignedInteger)
        requires
            self.wf(),
            self.fits(*old(ctx)),
            a.wf(self.rns),
        ensures
            final(ctx).native_modulus == old(ctx).native_modulus,
            final(ctx).satisfied() == (old(ctx).satisfied() && a.value(self.rns.r()) % self.rns.p()
                == 0),
    {
        let mg = self.main_gate();
        let rns = &self.rns;
        let ghost n = rns.n();
        let ghost r = rns.r();
        let ghost p = rns.p();
        let ghost av = a.value(r);
        let w = self.reduction_witness(a);
        let range_chip = self.range_chip();
        proof {
            rns.lemma_basics();
            rns.lemma_fields();
            lemma_mod_decreases(nat_of(w.quotient), n);
            lemma_mod_decreases(nat_of(w.v0), n);
            lemma_mod_decreases(nat_of(w.v1), n);
        }
        let quotient = range_chip.range_value(
            ctx,
            &w.quotient,
            self.assert_zero_quotient_range_tune(&w),
        );
        let v_0 = range_chip.range_value(ctx, &w.v0, self.assert_zero_v0_range_tune(&w));
        let v_1 = range_chip.range_value(ctx, &w.v1, self.assert_zero_v1_range_tune(&w));
        let ghost qn = nat_of(w.quotient);
        let t_0 = self.zero_cell(ctx, a, &quotient, 0, Ghost(qn));
        let t_1 = self.zero_cell(ctx, a, &quotient, 1, Ghost(qn));
        let t_2 = self.zero_cell(ctx, a, &quotient, 2, Ghost(qn));
        let t_3 = self.zero_cell(ctx, a, &quotient, 3, Ghost(qn));
        proof {
            let rem = seq![w.result.limb(0), w.result.limb(1), w.result.limb(2), w.result.limb(3)];
            let sa = seq![a.limb_val(0), a.limb_val(1), a.limb_val(2), a.limb_val(3)];
            let sn = seq![rns.neg_p(0), rns.neg_p(1), rns.neg_p(2), rns.neg_p(3)];
            let tw = seq![t_0.val(), t_1.val(), t_2.val(), t_3.val()];
            lemma_limbs_compose(av % p, r);
            lemma_top_limb_small(av % p, r);
            lemma_zero_verdict(
                sa,
                sn,
                tw,
                rem,
                qn,
                nat_of(w.v0),
                v_0.val(),
                nat_of(w.v1),
                v_1.val(),
                av,
                p,
                r,
                n,
            );
        }
        self.constrain_carries(ctx, &t_0, &t_1, &t_2, &t_3, &v_0, &v_1);
        ctx.constrain_sum3(
            Cell::minus_times(&a.native, 1),
            Cell::scaled(&quotient, &rns.wrong_modulus_in_native_modulus),
            Cell::times(&quotient, 0),
            Coeff::from_u64(0),
        );
    }

    /// Asserts that an element is zero in the foreign field. An element
    /// whose largest possible value is above the bound of an operand is
    /// reduced first.
    pub fn assert_zero(&self, ctx: &mut RegionCtx, a: &AssignedInteger)
        requires
            self.wf(),
            self.fits(*old(ctx)),
            a.wf(self.rns),
        ensures
            final(ctx).native_modulus == old(ctx).native_modulus,
            final(ctx).satisfied() == (old(ctx).satisfied() && a.value(self.rns.r()) % self.rns.p()
                == 0),
    {
        let a1 = self.reduce_if_max_operand_value_exceeds(ctx, a);
        self._assert_zero(ctx, &a1)
    }

    /// Asserts that two elements are equal in the foreign field: their
    /// difference is asserted to be zero.
    pub fn assert_equal(&self, ctx: &mut RegionCtx, a: &AssignedInteger, b: &AssignedInteger)
        requires
            self.wf(),
            self.fits(*old(ctx)),
            a.wf(self.rns),
            b.wf(self.rns),
        ensures
            final(ctx).native_modulus == old(ctx).native_modulus,
            final(ctx).satisfied() == (old(ctx).satisfied() && a.value(self.rns.r()) % self.rns.p()
                == b.value(self.rns.r()) % self.rns.p()),
    {
        proof {
            self.rns.lemma_basics();
            vstd::arithmetic::div_mod::lemma_mod_equivalence(
                a.value(self.rns.r()) as int,
                b.value(self.rns.r()) as int,
                self.rns.p() as int,
            );
        }
        let c = self.sub(ctx, a, b);
        self.assert_zero(ctx, &c);
    }

    /// Asserts that two elements have the same limbs.
    pub fn assert_strict_equal(&self, ctx: &mut RegionCtx, a: &AssignedInteger, b: &AssignedInteger)
        requires
            self.wf(),
            self.fits(*old(ctx)),
            a.wf(self.rns),
            b.wf(self.rns),
        ensures
            final(ctx).native_modulus == old(ctx).native_modulus,
            final(ctx).satisfied() == (old(ctx).satisfied() && a.val_seq() == b.val_seq()),
    {
        let mg = self.main_gate();
        proof {
            let n = self.rns.n();
            lemma_small_mod(a.limb_val(0), n);
            lemma_small_mod(a.limb_val(1), n);
            lemma_small_mod(a.limb_val(2), n);
            lemma_small_mod(a.limb_val(3), n);
            lemma_small_mod(b.limb_val(0), n);
            lemma_small_mod(b.limb_val(1), n);
            lemma_small_mod(b.limb_val(2), n);
            lemma_small_mod(b.limb_val(3), n);
            assert((a.val_seq() == b.val_seq()) == (a.limb_val(0) == b.limb_val(0) && a.limb_val(1)
                == b.limb_val(1) && a.limb_val(2) == b.limb_val(2) && a.limb_val(3) == b.limb_val(
                3,
            ))) by {
                if a.limb_val(0) == b.limb_val(0) && a.limb_val(1) == b.limb_val(1) && a.limb_val(2)
                    == b.limb_val(2) && a.limb_val(3) == b.limb_val(3) {
                    assert(a.val_seq() =~= b.val_seq());
                } else {
                    assert(a.val_seq()[0] == a.limb_val(0) && a.val_seq()[1] == a.limb_val(1)
                        && a.val_seq()[2] == a.limb_val(2) && a.val_seq()[3] == a.limb_val(3));
                    assert(b.val_seq()[0] == b.limb_val(0) && b.val_seq()[1] == b.limb_val(1)
                        && b.val_seq()[2] == b.limb_val(2) && b.val_seq()[3] == b.limb_val(3));
                }
            }
        }
        mg.assert_equal(ctx, &a.limbs[0].witness, &b.limbs[0].witness);
        mg.assert_equal(ctx, &a.limbs[1].witness, &b.limbs[1].witness);
        mg.assert_equal(ctx, &a.limbs[2].witness, &b.limbs[2].witness);
        mg.assert_equal(ctx, &a.limbs[3].witness, &b.limbs[3].witness);
    }

    /// Asserts that the limbs of an element are `[1, 0, 0, 0]`.
    pub fn assert_strict_one(&self, ctx: &mut RegionCtx, a: &AssignedInteger)
        requires
            self.wf(),
            self.fits(*old(ctx)),
            a.wf(self.rns),
        ensures
            final(ctx).native_modulus == old(ctx).native_modulus,
            final(ctx).satisfied() == (old(ctx).satisfied() && a.limb_val(0) == 1 && a.limb_val(1)
                == 0 && a.limb_val(2) == 0 && a.limb_val(3) == 0),
    {
        let mg = self.main_gate();
        proof {
            let n = self.rns.n();
            lemma_small_mod(a.limb_val(0), n);
            lemma_small_mod(a.limb_val(1), n);
            lemma_small_mod(a.limb_val(2), n);
            lemma_small_mod(a.limb_val(3), n);
        }
        mg.assert_zero(ctx, &a.limbs[1].witness);
        mg.assert_zero(ctx, &a.limbs[2].witness);
        mg.assert_zero(ctx, &a.limbs[3].witness);
        mg.assert_one(ctx, &a.limbs[0].witness);
    }

    /// Asserts that the limbs of an element are `[b, 0, 0, 0]` with `b` a
    /// bit: the three upper limbs are asserted to be zero and the lowest to
    /// meet `b * b - b = 0`.
    pub fn assert_strict_bit(&self, ctx: &mut RegionCtx, a: &AssignedInteger)
        requires
            self.wf(),
            self.fits(*old(ctx)),
            a.wf(self.rns),
        ensures
            final(ctx).native_modulus == old(ctx).native_modulus,
            final(ctx).satisfied() == (old(ctx).satisfied() && a.limb_val(1) == 0 && a.limb_val(2)
                == 0 && a.limb_val(3) == 0 && (a.limb_val(0) * a.limb_val(0) - a.limb_val(0)) % (
            self.rns.n() as int) == 0),
    {
        let mg = self.main_gate();
        proof {
            let n = self.rns.n();
            lemma_small_mod(a.limb_val(1), n);
            lemma_small_mod(a.limb_val(2), n);
            lemma_small_mod(a.limb_val(3), n);
        }
        mg.assert_zero(ctx, &a.limbs[1].witness);
        mg.assert_zero(ctx, &a.limbs[2].witness);
        mg.assert_zero(ctx, &a.limbs[3].witness);
        mg.assert_bit(ctx, &a.limbs[0].witness);
    }

    /// The value that [`IntegerChip::assert_not_zero`] tests: the value of
    /// the element, or its remainder by the foreign modulus where the element
    /// is reduced first.
    pub open spec fn tested_value(self, a: AssignedInteger) -> nat {
        if a.exceeds((self.rns.r() - 1) as nat) || a.max_value(self.rns.r()) > self.rns.range_max(
            Range::Operand,
        ) {
            a.value(self.rns.r()) % self.rns.p()
        } else {
            a.value(self.rns.r())
        }
    }

    /// Asserts that an element is not zero, by asserting that its cell in
    /// the native field has an inverse. An element with a limb above the
    /// bound of a reduced limb, or with a largest possible value above the
    /// bound of an operand, is reduced first.
    pub fn assert_not_zero(&self, ctx: &mut RegionCtx, a: &AssignedInteger)
        requires
            self.wf(),
            self.fits(*old(ctx)),
            a.wf(self.rns),
        ensures
            final(ctx).native_modulus == old(ctx).native_modulus,
            final(ctx).satisfied() == (old(ctx).satisfied() && invertible(
                self.tested_value(*a) % self.rns.n(),
                self.rns.n(),
            )),
    {
        let mg = self.main_gate();
        let a1 = self.reduce_if_limb_values_exceeds_reduced(ctx, a);
        let a2 = self.reduce_if_max_operand_value_exceeds(ctx, &a1);
        proof {
            self.rns.lemma_range(Range::Remainder);
            self.rns.lemma_range(Range::Operand);
            vstd::arithmetic::div_mod::lemma_mod_twice(
                a.value(self.rns.r()) as int,
                self.rns.p() as int,
            );
            assert(a1.limbs@ == a.limbs@ ==> a1.max_value(self.rns.r()) == a.max_value(self.rns.r())
                && a1.value(self.rns.r()) == a.value(self.rns.r()));
            assert(a2.limbs@ == a1.limbs@ ==> a2.value(self.rns.r()) == a1.value(self.rns.r()));
        }
        mg.assert_not_zero(ctx, &a2.native);
    }

    /// Asserts that two elements differ in the foreign field, by asserting
    /// that the remainder of their difference by the foreign modulus has an
    /// inverse in the native field.
    pub fn assert_not_equal(&self, ctx: &mut RegionCtx, a: &AssignedInteger, b: &AssignedInteger)
        requires
            self.wf(),
            self.fits(*old(ctx)),
            a.wf(self.rns),
            b.wf(self.rns),
        ensures
            final(ctx).native_modulus == old(ctx).native_modulus,
            final(ctx).satisfied() == (old(ctx).satisfied() && invertible(
                (((a.value(self.rns.r()) - b.value(self.rns.r())) % (self.rns.p() as int)) as nat)
                    % self.rns.n(),
                self.rns.n(),
            )),
    {
        let c = self.sub(ctx, a, b);
        self.assert_not_zero(ctx, &c);
    }
}

} // verus!
