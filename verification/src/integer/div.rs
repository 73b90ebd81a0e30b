//! The public forms of inversion and division, the conditional selection
//! of elements, and the assignment of elements and constants.

use crate::big::{big_clone, big_lt, big_mul, big_rem, is_inverse_mod, nat_of};
use crate::gate::{Coeff, RegionCtx, Witness};
use crate::integer::invert::lemma_inverse_of_congruent;
use crate::integer::{AssignedInteger, AssignedLimb, IntegerChip, Range};
use crate::limbs::{compose, horner};
use crate::main_gate::invertible;
use crate::modular::{lemma_cong_mul, lemma_cong_rem};
use crate::rns::Integer;
use num_bigint::BigUint;
use vstd::arithmetic::div_mod::lemma_small_mod;
use vstd::prelude::*;

verus! {

/// The larger of two numbers.
fn larger(a: &BigUint, b: &BigUint) -> (r: BigUint)
    ensures
        nat_of(r) == if nat_of(*a) > nat_of(*b) {
            nat_of(*a)
        } else {
            nat_of(*b)
        },
{
    if big_lt(b, a) {
        big_clone(a)
    } else {
        big_clone(b)
    }
}

/// A number whose limbs are `[1, 0, 0, 0]` is one, and the other way round
/// where the lower limbs are below the base.
proof fn lemma_one_limbs(l0: nat, l1: nat, l2: nat, l3: nat, r: nat)
    requires
        r >= 2,
        l0 < r,
        l1 < r,
        l2 < r,
    ensures
        (l0 == 1 && l1 == 0 && l2 == 0 && l3 == 0) == (horner(l0, l1, l2, l3, r) == 1),
{
    reveal(horner);
    let x = l1 + r * (l2 + r * l3);
    if l0 == 1 && l1 == 0 && l2 == 0 && l3 == 0 {
        assert(r * (0 + r * (0 + r * 0)) == 0) by (nonlinear_arith);
    }
    if horner(l0, l1, l2, l3, r) == 1 {
        assert(x == 0) by (nonlinear_arith)
            requires
                l0 + r * x == 1,
                r >= 2,
                x >= 0,
                l0 >= 0,
        ;
        let y = l2 + r * l3;
        assert(y == 0) by (nonlinear_arith)
            requires
                l1 + r * y == 0,
                r >= 2,
                y >= 0,
                l1 >= 0,
        ;
        assert(l3 == 0) by (nonlinear_arith)
            requires
                l2 + r * l3 == 0,
                r >= 2,
                l3 >= 0,
                l2 >= 0,
        ;
    }
}

impl IntegerChip {
    /// Places an element in the circuit, range-checked as a remainder.
    pub fn assign_integer(&self, ctx: &mut RegionCtx, integer: &Integer) -> (res: AssignedInteger)
        requires
            self.wf(),
            self.fits(*old(ctx)),
            integer.wf(),
        ensures
            final(ctx).native_modulus == old(ctx).native_modulus,
            res.limbs@.len() == 4,
            forall|i: int| 0 <= i < 4 ==> res.limb_val(i) == integer.limb(i) % self.rns.n(),
            res.bounded_as(self.rns, Range::Remainder),
            final(ctx).satisfied() == (old(ctx).satisfied() && res.within(
                self.rns,
                Range::Remainder,
            )),
            res.within(self.rns, Range::Remainder) ==> res.wf(self.rns),
    {
        self.range_assign_integer(ctx, integer, Range::Remainder)
    }

    /// Places a constant element whose limbs are below the base: each cell
    /// is bound to its constant by a row, and the bound of each limb is the
    /// limb itself.
    pub fn assign_constant(&self, ctx: &mut RegionCtx, integer: &Integer) -> (res: AssignedInteger)
        requires
            self.wf(),
            self.fits(*old(ctx)),
            integer.wf(),
            integer.reduced(self.rns.r()),
        ensures
            final(ctx).native_modulus == old(ctx).native_modulus,
            final(ctx).satisfied() == old(ctx).satisfied(),
            res.wf(self.rns),
            forall|i: int| 0 <= i < 4 ==> res.limb_val(i) == integer.limb(i),
            forall|i: int| 0 <= i < 4 ==> res.limb_max(i) == integer.limb(i),
            res.value(self.rns.r()) == integer.value(self.rns.r()),
    {
        let rns = &self.rns;
        let ghost n = rns.n();
        proof {
            rns.lemma_basics();
            lemma_small_mod(integer.limb(0), n);
            lemma_small_mod(integer.limb(1), n);
            lemma_small_mod(integer.limb(2), n);
            lemma_small_mod(integer.limb(3), n);
        }
        let native = big_rem(&compose(&integer.limbs, rns.bit_len_limb), &rns.native_modulus);
        proof {
            lemma_small_mod(nat_of(native), n);
        }
        let w0 = ctx.derive(Vec::new(), Coeff::plus(big_clone(&integer.limbs[0])), false);
        let w1 = ctx.derive(Vec::new(), Coeff::plus(big_clone(&integer.limbs[1])), false);
        let w2 = ctx.derive(Vec::new(), Coeff::plus(big_clone(&integer.limbs[2])), false);
        let w3 = ctx.derive(Vec::new(), Coeff::plus(big_clone(&integer.limbs[3])), false);
        let wn = ctx.derive(Vec::new(), Coeff::plus(native), false);
        let mut limbs: Vec<AssignedLimb> = Vec::new();
        limbs.push(AssignedLimb::new(w0, big_clone(&integer.limbs[0])));
        limbs.push(AssignedLimb::new(w1, big_clone(&integer.limbs[1])));
        limbs.push(AssignedLimb::new(w2, big_clone(&integer.limbs[2])));
        limbs.push(AssignedLimb::new(w3, big_clone(&integer.limbs[3])));
        AssignedInteger { limbs, native: wn }
    }

    /// Selects `a` where the condition is one and `b` where it is zero,
    /// limb by limb. The bound of each limb is the larger of the two.
    pub fn cond_select(
        &self,
        ctx: &mut RegionCtx,
        a: &AssignedInteger,
        b: &AssignedInteger,
        cond: &Witness,
    ) -> (res: AssignedInteger)
        requires
            self.wf(),
            self.fits(*old(ctx)),
            a.wf(self.rns),
            b.wf(self.rns),
            cond.val() <= 1,
        ensures
            final(ctx).native_modulus == old(ctx).native_modulus,
            final(ctx).satisfied() == old(ctx).satisfied(),
            res.wf(self.rns),
            forall|i: int|
                0 <= i < 4 ==> res.limb_max(i) == if a.limb_max(i) > b.limb_max(i) {
                    a.limb_max(i)
                } else {
                    b.limb_max(i)
                },
            cond.val() == 1 ==> res.val_seq() == a.val_seq() && res.value(self.rns.r()) == a.value(
                self.rns.r(),
            ),
            cond.val() == 0 ==> res.val_seq() == b.val_seq() && res.value(self.rns.r()) == b.value(
                self.rns.r(),
            ),
    {
        let main_gate = self.main_gate();
        let ghost n = self.rns.n();
        proof {
            self.rns.lemma_basics();
            lemma_small_mod(a.limb_val(0), n);
            lemma_small_mod(a.limb_val(1), n);
            lemma_small_mod(a.limb_val(2), n);
            lemma_small_mod(a.limb_val(3), n);
            lemma_small_mod(b.limb_val(0), n);
            lemma_small_mod(b.limb_val(1), n);
            lemma_small_mod(b.limb_val(2), n);
            lemma_small_mod(b.limb_val(3), n);
            lemma_small_mod(a.native.val(), n);
            lemma_small_mod(b.native.val(), n);
        }
        let w0 = main_gate.cond_select(ctx, &a.limbs[0].witness, &b.limbs[0].witness, cond);
        let w1 = main_gate.cond_select(ctx, &a.limbs[1].witness, &b.limbs[1].witness, cond);
        let w2 = main_gate.cond_select(ctx, &a.limbs[2].witness, &b.limbs[2].witness, cond);
        let w3 = main_gate.cond_select(ctx, &a.limbs[3].witness, &b.limbs[3].witness, cond);
        let native_value = main_gate.cond_select(ctx, &a.native, &b.native, cond);
        let mut limbs: Vec<AssignedLimb> = Vec::new();
        limbs.push(AssignedLimb::new(w0, larger(&a.limbs[0].max_val, &b.limbs[0].max_val)));
        limbs.push(AssignedLimb::new(w1, larger(&a.limbs[1].max_val, &b.limbs[1].max_val)));
        limbs.push(AssignedLimb::new(w2, larger(&a.limbs[2].max_val, &b.limbs[2].max_val)));
        limbs.push(AssignedLimb::new(w3, larger(&a.limbs[3].max_val, &b.limbs[3].max_val)));
        let res = self.new_assigned_integer(limbs, native_value);
        proof {
            if cond.val() == 1 {
                assert(res.val_seq() =~= a.val_seq());
            } else {
                assert(res.val_seq() =~= b.val_seq());
            }
        }
        res
    }

    /// Selects `a` where the condition is one and the constant `b` where it
    /// is zero, limb by limb. The bounds of the limbs are those of `a`, which
    /// the limbs of the constant must respect.
    pub fn cond_select_or_assign(
        &self,
        ctx: &mut RegionCtx,
        a: &AssignedInteger,
        b: &Integer,
        cond: &Witness,
    ) -> (res: AssignedInteger)
        requires
            self.wf(),
            self.fits(*old(ctx)),
            a.wf(self.rns),
            b.wf(),
            forall|i: int| 0 <= i < 4 ==> b.limb(i) <= a.limb_max(i),
            cond.val() <= 1,
        ensures
            final(ctx).native_modulus == old(ctx).native_modulus,
            final(ctx).satisfied() == old(ctx).satisfied(),
            res.wf(self.rns),
            forall|i: int| 0 <= i < 4 ==> res.limb_max(i) == a.limb_max(i),
            cond.val() == 1 ==> res.val_seq() == a.val_seq() && res.value(self.rns.r()) == a.value(
                self.rns.r(),
            ),
            cond.val() == 0 ==> res.val_seq() == b.seq() && res.value(self.rns.r()) == b.value(
                self.rns.r(),
            ),
    {
        let main_gate = self.main_gate();
        let ghost n = self.rns.n();
        proof {
            self.rns.lemma_basics();
            assert(b.limb(0) <= a.limb_max(0) && b.limb(1) <= a.limb_max(1) && b.limb(2)
                <= a.limb_max(2) && b.limb(3) <= a.limb_max(3));
            lemma_small_mod(a.limb_val(0), n);
            lemma_small_mod(a.limb_val(1), n);
            lemma_small_mod(a.limb_val(2), n);
            lemma_small_mod(a.limb_val(3), n);
            lemma_small_mod(b.limb(0), n);
            lemma_small_mod(b.limb(1), n);
            lemma_small_mod(b.limb(2), n);
            lemma_small_mod(b.limb(3), n);
            lemma_small_mod(a.native.val(), n);
        }
        let b_native = big_rem(&compose(&b.limbs, self.rns.bit_len_limb), &self.rns.native_modulus);
        proof {
            lemma_small_mod(nat_of(b_native), n);
        }
        let w0 = main_gate.cond_select_or_assign(ctx, &a.limbs[0].witness, &b.limbs[0], cond);
        let w1 = main_gate.cond_select_or_assign(ctx, &a.limbs[1].witness, &b.limbs[1], cond);
        let w2 = main_gate.cond_select_or_assign(ctx, &a.limbs[2].witness, &b.limbs[2], cond);
        let w3 = main_gate.cond_select_or_assign(ctx, &a.limbs[3].witness, &b.limbs[3], cond);
        let native_value = main_gate.cond_select_or_assign(ctx, &a.native, &b_native, cond);
        let mut limbs: Vec<AssignedLimb> = Vec::new();
        // the constant is taken to be within the bounds of `a`
        limbs.push(AssignedLimb::new(w0, big_clone(&a.limbs[0].max_val)));
        limbs.push(AssignedLimb::new(w1, big_clone(&a.limbs[1].max_val)));
        limbs.push(AssignedLimb::new(w2, big_clone(&a.limbs[2].max_val)));
        limbs.push(AssignedLimb::new(w3, big_clone(&a.limbs[3].max_val)));
        let res = self.new_assigned_integer(limbs, native_value);
        proof {
            if cond.val() == 1 {
                assert(res.val_seq() =~= a.val_seq());
            } else {
                assert(res.val_seq() =~= b.seq());
            }
        }
        res
    }

    /// Asserts `a * b = 1` in the foreign field: the product is asserted to
    /// have the limbs `[1, 0, 0, 0]`.
    pub fn mul_into_one(&self, ctx: &mut RegionCtx, a: &AssignedInteger, b: &AssignedInteger)
        requires
            self.wf(),
            self.fits(*old(ctx)),
            a.wf(self.rns),
            b.wf(self.rns),
        ensures
            final(ctx).native_modulus == old(ctx).native_modulus,
            final(ctx).satisfied() == (old(ctx).satisfied() && is_inverse_mod(
                a.value(self.rns.r()),
                b.value(self.rns.r()),
                self.rns.p(),
            )),
    {
        let product = self.mul(ctx, a, b);
        proof {
            self.rns.lemma_basics();
            self.rns.lemma_range(Range::Remainder);
            lemma_small_mod(1, self.rns.p());
            lemma_one_limbs(
                product.limb_val(0),
                product.limb_val(1),
                product.limb_val(2),
                product.limb_val(3),
                self.rns.r(),
            );
        }
        self.assert_strict_one(ctx, &product);
    }

    /// `a * b` for a constant `b` whose limbs are below the base.
    pub fn mul_constant(&self, ctx: &mut RegionCtx, a: &AssignedInteger, b: &Integer) -> (res:
        AssignedInteger)
        requires
            self.wf(),
            self.fits(*old(ctx)),
            a.wf(self.rns),
            b.wf(),
            b.reduced(self.rns.r()),
        ensures
            final(ctx).native_modulus == old(ctx).native_modulus,
            final(ctx).satisfied() == old(ctx).satisfied(),
            res.wf(self.rns),
            res.bounded_as(self.rns, Range::Remainder),
            res.max_value(self.rns.r()) == self.rns.range_max(Range::Remainder),
            res.value(self.rns.r()) == (a.value(self.rns.r()) * b.value(self.rns.r())) % self.rns.p(),
    {
        let b = self.assign_constant(ctx, b);
        self.mul(ctx, a, &b)
    }

    /// Inverts an element. Returns the inverse, or one where there is none,
    /// and the condition that tells a failure: zero where the element has an
    /// inverse, one where it is zero in the foreign field. An element with a
    /// limb above the bound of a reduced limb, or with a largest possible
    /// value above the bound of an operand, is reduced first.
    pub fn invert(&self, ctx: &mut RegionCtx, a: &AssignedInteger) -> (res: (AssignedInteger, Witness))
        requires
            self.wf(),
            self.fits(*old(ctx)),
            a.wf(self.rns),
        ensures
            final(ctx).native_modulus == old(ctx).native_modulus,
            res.0.wf(self.rns),
            res.0.bounded_as(self.rns, Range::Remainder),
            res.0.value(self.rns.r()) < self.rns.p(),
            invertible(a.value(self.rns.r()), self.rns.p()) ==> is_inverse_mod(
                a.value(self.rns.r()),
                res.0.value(self.rns.r()),
                self.rns.p(),
            ) && res.1.val() == 0 && final(ctx).satisfied() == old(ctx).satisfied(),
            !invertible(a.value(self.rns.r()), self.rns.p()) ==> res.0.value(self.rns.r()) == 1,
            a.value(self.rns.r()) % self.rns.p() == 0 ==> res.1.val() == 1
                && final(ctx).satisfied() == old(ctx).satisfied(),
            final(ctx).satisfied() ==> old(ctx).satisfied(),
    {
        let a1 = self.reduce_if_limb_values_exceeds_reduced(ctx, a);
        let a2 = self.reduce_if_max_operand_value_exceeds(ctx, &a1);
        let res = self._invert(ctx, &a2);
        proof {
            let r = self.rns.r();
            self.rns.lemma_basics();
            lemma_inverse_of_congruent(a.value(r), a2.value(r), res.0.value(r), self.rns.p());
            lemma_inverse_of_congruent(a2.value(r), a.value(r), res.0.value(r), self.rns.p());
        }
        res
    }

    /// Inverts an element that the caller knows to have an inverse. An
    /// element with a limb above the bound of a reduced limb, or with a
    /// largest possible value above the bound of an operand, is reduced
    /// first. The circuit stays satisfied exactly when the element has an
    /// inverse.
    pub fn invert_incomplete(&self, ctx: &mut RegionCtx, a: &AssignedInteger) -> (res:
        AssignedInteger)
        requires
            self.wf(),
            self.fits(*old(ctx)),
            a.wf(self.rns),
        ensures
            final(ctx).native_modulus == old(ctx).native_modulus,
            res.wf(self.rns),
            res.bounded_as(self.rns, Range::Remainder),
            res.value(self.rns.r()) < self.rns.p(),
            invertible(a.value(self.rns.r()), self.rns.p()) ==> is_inverse_mod(
                a.value(self.rns.r()),
                res.value(self.rns.r()),
                self.rns.p(),
            ),
            !invertible(a.value(self.rns.r()), self.rns.p()) ==> res.value(self.rns.r()) == 1,
            final(ctx).satisfied() == (old(ctx).satisfied() && invertible(
                a.value(self.rns.r()),
                self.rns.p(),
            )),
    {
        let a1 = self.reduce_if_limb_values_exceeds_reduced(ctx, a);
        let a2 = self.reduce_if_max_operand_value_exceeds(ctx, &a1);
        let inv = self._invert_incomplete(ctx, &a2);
        proof {
            let r = self.rns.r();
            self.rns.lemma_basics();
            lemma_inverse_of_congruent(a.value(r), a2.value(r), inv.value(r), self.rns.p());
            lemma_inverse_of_congruent(a2.value(r), a.value(r), inv.value(r), self.rns.p());
        }
        inv
    }

    /// Inverts an element that the caller knows to have an inverse, as it
    /// stands. The candidate, the inverse or one where there is none, is
    /// placed as a remainder and its product with the element is asserted
    /// to be one.
    pub fn _invert_incomplete(&self, ctx: &mut RegionCtx, a: &AssignedInteger) -> (res:
        AssignedInteger)
        requires
            self.wf(),
            self.fits(*old(ctx)),
            a.wf(self.rns),
        ensures
            final(ctx).native_modulus == old(ctx).native_modulus,
            res.wf(self.rns),
            res.bounded_as(self.rns, Range::Remainder),
            res.value(self.rns.r()) < self.rns.p(),
            invertible(a.value(self.rns.r()), self.rns.p()) ==> is_inverse_mod(
                a.value(self.rns.r()),
                res.value(self.rns.r()),
                self.rns.p(),
            ),
            !invertible(a.value(self.rns.r()), self.rns.p()) ==> res.value(self.rns.r()) == 1,
            final(ctx).satisfied() == (old(ctx).satisfied() && invertible(
                a.value(self.rns.r()),
                self.rns.p(),
            )),
    {
        proof {
            self.rns.lemma_basics();
        }
        let a_int = a.integer();
        let a_val = compose(&a_int.limbs, self.rns.bit_len_limb);
        let inv = self.inverse_or_one(&a_val);
        let inv = self.assign_remainder(ctx, &inv);
        self.mul_into_one(ctx, a, &inv);
        inv
    }

    /// `a / b`, with the condition that tells a failure. Returns `a` times
    /// the inverse of `b`, or `a` itself, reduced, where `b` has none; the
    /// condition is zero where `b` has an inverse and one where `b` is zero
    /// in the foreign field.
    pub fn div(&self, ctx: &mut RegionCtx, a: &AssignedInteger, b: &AssignedInteger) -> (res: (
        AssignedInteger,
        Witness,
    ))
        requires
            self.wf(),
            self.fits(*old(ctx)),
            a.wf(self.rns),
            b.wf(self.rns),
        ensures
            final(ctx).native_modulus == old(ctx).native_modulus,
            res.0.wf(self.rns),
            res.0.bounded_as(self.rns, Range::Remainder),
            res.0.value(self.rns.r()) < self.rns.p(),
            invertible(b.value(self.rns.r()), self.rns.p()) ==> (res.0.value(self.rns.r())
                * b.value(self.rns.r())) % self.rns.p() == a.value(self.rns.r()) % self.rns.p()
                && res.1.val() == 0 && final(ctx).satisfied() == old(ctx).satisfied(),
            !invertible(b.value(self.rns.r()), self.rns.p()) ==> res.0.value(self.rns.r())
                == a.value(self.rns.r()) % self.rns.p(),
            b.value(self.rns.r()) % self.rns.p() == 0 ==> res.1.val() == 1
                && final(ctx).satisfied() == old(ctx).satisfied(),
            a.value(self.rns.r()) % self.rns.p() == 0 ==> res.0.value(self.rns.r()) == 0,
            final(ctx).satisfied() ==> old(ctx).satisfied(),
    {
        let (b_inv, cond) = self.invert(ctx, b);
        let a_mul_b_inv = self.mul(ctx, a, &b_inv);
        proof {
            let r = self.rns.r();
            let p = self.rns.p();
            let m = p as int;
            let (av, bv, x) = (a.value(r), b.value(r), b_inv.value(r));
            self.rns.lemma_basics();
            vstd::arithmetic::div_mod::lemma_mod_bound((av * x) as int, m);
            if invertible(bv, p) {
                // (a * x) * b = a * (b * x) = a, all modulo p
                lemma_cong_rem((av * x) as int, m);
                lemma_cong_mul(a_mul_b_inv.value(r) as int, (av * x) as int, bv as int, bv as int, m);
                lemma_cong_mul(av as int, av as int, (bv * x) as int, 1, m);
                assert((av * x) * bv == av * (bv * x)) by (nonlinear_arith);
                assert(av * 1 == av) by (nonlinear_arith);
            } else {
                assert(av * 1 == av) by (nonlinear_arith);
            }
            if av % p == 0 {
                lemma_cong_mul(av as int, 0, x as int, x as int, m);
                assert(0 * (x as int) == 0) by (nonlinear_arith);
                lemma_small_mod(0, p);
            }
        }
        (a_mul_b_inv, cond)
    }

    /// `a / b` for a divisor that the caller knows to have an inverse. The
    /// quotient is placed as a remainder and its product with `b` is
    /// asserted to equal `a` in the foreign field.
    pub fn div_incomplete(&self, ctx: &mut RegionCtx, a: &AssignedInteger, b: &AssignedInteger) -> (res:
        AssignedInteger)
        requires
            self.wf(),
            self.fits(*old(ctx)),
            a.wf(self.rns),
            b.wf(self.rns),
        ensures
            final(ctx).native_modulus == old(ctx).native_modulus,
            res.wf(self.rns),
            res.bounded_as(self.rns, Range::Remainder),
            res.value(self.rns.r()) < self.rns.p(),
            final(ctx).satisfied() == (old(ctx).satisfied() && (res.value(self.rns.r()) * b.value(
                self.rns.r(),
            )) % self.rns.p() == a.value(self.rns.r()) % self.rns.p()),
            invertible(b.value(self.rns.r()), self.rns.p()) ==> final(ctx).satisfied()
                == old(ctx).satisfied() && (res.value(self.rns.r()) * b.value(self.rns.r()))
                % self.rns.p() == a.value(self.rns.r()) % self.rns.p(),
            !invertible(b.value(self.rns.r()), self.rns.p()) ==> res.value(self.rns.r()) == a.value(
                self.rns.r(),
            ) % self.rns.p(),
    {
        let a1 = self.reduce_if_limb_values_exceeds_reduced(ctx, a);
        let b1 = self.reduce_if_limb_values_exceeds_reduced(ctx, b);
        let a2 = self.reduce_if_max_operand_value_exceeds(ctx, &a1);
        let b2 = self.reduce_if_max_operand_value_exceeds(ctx, &b1);
        proof {
            self.rns.lemma_basics();
        }
        let bl = self.rns.bit_len_limb;
        let a_val = compose(&a2.integer().limbs, bl);
        let b_val = compose(&b2.integer().limbs, bl);
        let inv = self.inverse_or_one(&b_val);
        let quotient = big_rem(&big_mul(&a_val, &inv), &self.rns.wrong_modulus);
        let c = self.assign_remainder(ctx, &quotient);
        let d = self.mul(ctx, &c, &b2);
        proof {
            let r = self.rns.r();
            let p = self.rns.p();
            let m = p as int;
            let (av, bv, x) = (a2.value(r), b2.value(r), nat_of(inv));
            lemma_cong_mul(c.value(r) as int, c.value(r) as int, bv as int, b.value(r) as int, m);
            vstd::arithmetic::div_mod::lemma_mod_twice((c.value(r) * bv) as int, m);
            lemma_inverse_of_congruent(b.value(r), bv, x, p);
            lemma_inverse_of_congruent(bv, b.value(r), x, p);
            if invertible(bv, p) {
                // c * b = (a * x) * b = a * (b * x) = a, all modulo p
                lemma_cong_rem((av * x) as int, m);
                lemma_cong_mul(c.value(r) as int, (av * x) as int, bv as int, bv as int, m);
                lemma_cong_mul(av as int, av as int, (bv * x) as int, 1, m);
                assert((av * x) * bv == av * (bv * x)) by (nonlinear_arith);
                assert(av * 1 == av) by (nonlinear_arith);
            } else {
                assert(av * 1 == av) by (nonlinear_arith);
            }
        }
        self.assert_equal(ctx, &d, &a2);
        c
    }
}

} // verus!
