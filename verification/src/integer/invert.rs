//! Inversion and division in the foreign field: the inverse is placed as a
//! witness and bound to its operand by a multiplication.

use crate::big::{big_from_u64, big_modinv, big_rem, big_sub, is_inverse_mod, nat_of};
use crate::gate::{Coeff, RegionCtx, Witness};
use crate::integer::{AssignedInteger, IntegerChip, Range};
use crate::limbs::{
    compose, decompose, horner, lemma_bit_length_bounds, lemma_limbs_compose,
    lemma_top_limb_monotonic, lemma_top_limb_small, limb_of,
};
use crate::main_gate::{invertible, Term};
use crate::modular::lemma_cong_mul;
use crate::rns::Integer;
use num_bigint::BigUint;
use vstd::arithmetic::div_mod::lemma_small_mod;
use vstd::prelude::*;

verus! {

/// Congruent numbers have the same inverses.
pub proof fn lemma_inverse_of_congruent(a: nat, b: nat, x: nat, p: nat)
    requires
        p > 0,
        a % p == b % p,
    ensures
        is_inverse_mod(a, x, p) == is_inverse_mod(b, x, p),
        invertible(a, p) ==> invertible(b, p),
{
    lemma_cong_mul(a as int, b as int, x as int, x as int, p as int);
    if invertible(a, p) {
        let y = choose|y: nat| is_inverse_mod(a, y, p);
        lemma_cong_mul(a as int, b as int, y as int, y as int, p as int);
        assert(is_inverse_mod(b, y, p));
    }
}

/// A multiple of the modulus has no inverse.
pub proof fn lemma_zero_not_invertible(a: nat, p: nat)
    requires
        p >= 2,
        a % p == 0,
    ensures
        !invertible(a, p),
{
    assert forall|x: nat| !is_inverse_mod(a, x, p) by {
        lemma_cong_mul(a as int, 0, x as int, x as int, p as int);
        lemma_small_mod(0, p);
        lemma_small_mod(1, p);
        assert(0 * (x as int) == 0) by (nonlinear_arith);
    }
}

/// Two inverses of a number below the modulus are the same number.
pub proof fn lemma_inverse_unique(a: nat, x: nat, y: nat, p: nat)
    requires
        p > 0,
        x < p,
        y < p,
        is_inverse_mod(a, x, p),
        is_inverse_mod(a, y, p),
    ensures
        x == y,
{
    let m = p as int;
    // x = x * (a * y) = (a * x) * y = y, all modulo p
    lemma_cong_mul(x as int, x as int, (a * y) as int, 1, m);
    lemma_cong_mul((a * x) as int, 1, y as int, y as int, m);
    assert(x * (a * y) == (a * x) * y) by (nonlinear_arith);
    lemma_small_mod(x, p);
    lemma_small_mod(y, p);
}

/// The limbs of a number below the base that are `[b, 0, 0, 0]`.
proof fn lemma_small_limbs(v: nat, r: nat)
    requires
        r > 0,
        v < r,
    ensures
        limb_of(v, 0, r) == v,
        limb_of(v, 1, r) == 0,
        limb_of(v, 2, r) == 0,
        limb_of(v, 3, r) == 0,
{
    reveal(limb_of);
    lemma_small_mod(v, r);
    vstd::arithmetic::div_mod::lemma_basic_div(v as int, r as int);
    vstd::arithmetic::div_mod::lemma_div_basics_1(r as int);
}

impl IntegerChip {
    /// The inverse of `v` modulo the foreign modulus, or one where there is
    /// none.
    pub fn inverse_or_one(&self, v: &BigUint) -> (x: BigUint)
        requires
            self.wf(),
        ensures
            nat_of(x) < self.rns.p(),
            invertible(nat_of(*v), self.rns.p()) ==> is_inverse_mod(
                nat_of(*v),
                nat_of(x),
                self.rns.p(),
            ),
            !invertible(nat_of(*v), self.rns.p()) ==> nat_of(x) == 1,
    {
        proof {
            self.rns.lemma_basics();
        }
        match big_modinv(v, &self.rns.wrong_modulus) {
            Some(x) => {
                proof {
                    assert(is_inverse_mod(nat_of(*v), nat_of(x), self.rns.p()));
                }
                x
            },
            None => big_from_u64(1),
        }
    }

    /// Places a number below the foreign modulus in the circuit, as a
    /// remainder.
    pub fn assign_remainder(&self, ctx: &mut RegionCtx, v: &BigUint) -> (res: AssignedInteger)
        requires
            self.wf(),
            self.fits(*old(ctx)),
            nat_of(*v) < self.rns.p(),
        ensures
            final(ctx).native_modulus == old(ctx).native_modulus,
            final(ctx).satisfied() == old(ctx).satisfied(),
            res.wf(self.rns),
            res.bounded_as(self.rns, Range::Remainder),
            res.value(self.rns.r()) == nat_of(*v),
    {
        let rns = &self.rns;
        let ghost r = rns.r();
        let ghost n = rns.n();
        proof {
            rns.lemma_basics();
        }
        let integer = Integer { limbs: decompose(v, rns.bit_len_limb) };
        proof {
            rns.lemma_range(Range::Remainder);
            lemma_limbs_compose(nat_of(*v), r);
            lemma_top_limb_small(nat_of(*v), r);
            lemma_bit_length_bounds(rns.p());
            lemma_top_limb_monotonic(nat_of(*v), rns.range_max(Range::Remainder), r);
            assert forall|i: int| 0 <= i < 4 implies integer.limb(i) % n == integer.limb(i) by {
                lemma_small_mod(integer.limb(i), n);
            }
        }
        self.range_assign_integer(ctx, &integer, Range::Remainder)
    }

    /// Inverts an element within the bounds of an operand. Returns the
    /// inverse, or one where there is none, and the condition that tells a
    /// failure. The candidate is placed as a remainder and multiplied with
    /// the operand; the product is asserted to be a bit in its lowest limb
    /// and zero in the others; where the product is not one, the candidate
    /// must be one in its native cell and in its lowest limb; and the
    /// condition is bound to be one less the product.
    pub fn _invert(&self, ctx: &mut RegionCtx, a: &AssignedInteger) -> (res: (
        AssignedInteger,
        Witness,
    ))
        requires
            self.wf(),
            self.fits(*old(ctx)),
            a.wf(self.rns),
        ensures
            final(ctx).native_modulus == old(ctx).native_modulus,
            res.0.wf(self.rns),
            res.0.bounded_as(self.rns, Range::Remainder),
            res.0.value(self.rns.r()) < self.rns.p(),
            invertible(a.value(self.rns.r()), self.rns.p()) ==> is_inverse_mod(
                a.value(self.rns.r()),
                res.0.value(self.rns.r()),
                self.rns.p(),
            ) && res.1.val() == 0 && final(ctx).satisfied() == old(ctx).satisfied(),
            !invertible(a.value(self.rns.r()), self.rns.p()) ==> res.0.value(self.rns.r()) == 1,
            a.value(self.rns.r()) % self.rns.p() == 0 ==> res.1.val() == 1
                && final(ctx).satisfied() == old(ctx).satisfied(),
            final(ctx).satisfied() ==> old(ctx).satisfied(),
    {
        let main_gate = self.main_gate();
        let rns = &self.rns;
        let ghost r = rns.r();
        let ghost p = rns.p();
        let ghost n = rns.n();
        let ghost av = a.value(r);
        proof {
            rns.lemma_basics();
        }
        let a_int = a.integer();
        let a_val = compose(&a_int.limbs, rns.bit_len_limb);
        let inv_or_one = self.inverse_or_one(&a_val);
        let inv_or_one = self.assign_remainder(ctx, &inv_or_one);
        let a_mul_inv = self.mul(ctx, a, &inv_or_one);
        let ghost m = a_mul_inv.value(r);
        proof {
            rns.lemma_range(Range::Remainder);
            lemma_small_mod(1, p);
            lemma_small_mod(1, n);
            lemma_small_mod(0, n);
            if invertible(av, p) {
                // the product is one
                lemma_small_limbs(1, r);
            } else {
                assert(av * 1 == av) by (nonlinear_arith);
            }
            if av % p == 0 {
                lemma_zero_not_invertible(av, p);
                lemma_small_limbs(0, r);
            }
            assert(inv_or_one.native.val() == inv_or_one.value(r) % n);
            if inv_or_one.value(r) == 1 {
                assert(inv_or_one.limb_val(0) == 1) by {
                    self.lemma_value_limbs(inv_or_one, Range::Remainder);
                    lemma_small_limbs(1, r);
                }
            }
            self.lemma_value_limbs(a_mul_inv, Range::Remainder);
        }
        // the product is strictly below the foreign modulus, so its limbs
        // are asserted as they are
        self.assert_strict_bit(ctx, &a_mul_inv);
        // where the product is zero the candidate must be one
        main_gate.one_or_one(ctx, &a_mul_inv.limbs[0].witness, &inv_or_one.native);
        main_gate.one_or_one(ctx, &a_mul_inv.limbs[0].witness, &inv_or_one.limbs[0].witness);
        let ghost x = a_mul_inv.limb_val(0);
        let cond_value = if crate::big::big_is_zero(&a_mul_inv.limbs[0].witness.value) {
            big_from_u64(1)
        } else {
            let one_plus_n = crate::big::big_add(&rns.native_modulus, &big_from_u64(1));
            big_rem(
                &big_sub(&one_plus_n, &a_mul_inv.limbs[0].witness.value),
                &rns.native_modulus,
            )
        };
        proof {
            if x == 1 {
                vstd::arithmetic::div_mod::lemma_mod_self_0(n as int);
                assert(1 * 0 + 1 + 0 - 1 == 0);
                assert((x - 1) * (inv_or_one.native.val() - 1) == 0) by (nonlinear_arith)
                    requires
                        x == 1,
                ;
                assert((x - 1) * (inv_or_one.limb_val(0) - 1) == 0) by (nonlinear_arith)
                    requires
                        x == 1,
                ;
                assert(x * x - x == 0) by (nonlinear_arith)
                    requires
                        x == 1,
                ;
            }
            if x == 0 {
                assert(0 * 1 + 0 + 1 - 1 == 0);
                assert(x * x - x == 0) by (nonlinear_arith)
                    requires
                        x == 0,
                ;
                if inv_or_one.value(r) == 1 {
                    assert((x - 1) * (inv_or_one.native.val() - 1) == 0) by (nonlinear_arith)
                        requires
                            inv_or_one.native.val() == 1,
                    ;
                    assert((x - 1) * (inv_or_one.limb_val(0) - 1) == 0) by (nonlinear_arith)
                        requires
                            inv_or_one.limb_val(0) == 1,
                    ;
                }
            }
        }
        let cells = main_gate.combine(
            ctx,
            Term::Assigned(a_mul_inv.limbs[0].witness.copy(), Coeff::from_u64(1)),
            Term::Unassigned(cond_value, Coeff::from_u64(1)),
            Term::Zero,
            Term::Zero,
            Term::Zero,
            Coeff::minus_u64(1),
            true,
        );
        (inv_or_one, cells[1].copy())
    }

    /// The limbs of an element that is within the bounds of a class of
    /// values are the limbs of its value.
    pub proof fn lemma_value_limbs(self, a: AssignedInteger, range: Range)
        requires
            self.wf(),
            a.wf(self.rns),
            a.bounded_as(self.rns, range),
        ensures
            forall|i: int|
                0 <= i < 4 ==> a.limb_val(i) == limb_of(a.value(self.rns.r()), i as nat, self.rns.r()),
    {
        let r = self.rns.r();
        self.rns.lemma_basics();
        self.rns.lemma_range(range);
        crate::integer::invert::lemma_limbs_are_unique(
            a.limb_val(0),
            a.limb_val(1),
            a.limb_val(2),
            a.limb_val(3),
            r,
        );
    }
}

/// Four limbs, the lower three of which are below the base, are the limbs
/// of the number they denote.
pub proof fn lemma_limbs_are_unique(l0: nat, l1: nat, l2: nat, l3: nat, r: nat)
    requires
        r > 0,
        l0 < r,
        l1 < r,
        l2 < r,
    ensures
        limb_of(horner(l0, l1, l2, l3, r), 0, r) == l0,
        limb_of(horner(l0, l1, l2, l3, r), 1, r) == l1,
        limb_of(horner(l0, l1, l2, l3, r), 2, r) == l2,
        limb_of(horner(l0, l1, l2, l3, r), 3, r) == l3,
{
    reveal(horner);
    reveal(limb_of);
    let v = horner(l0, l1, l2, l3, r);
    let v1 = l1 + r * (l2 + r * l3);
    let v2 = l2 + r * l3;
    assert(v == v1 * r + l0) by (nonlinear_arith)
        requires
            v == l0 + r * v1,
    ;
    assert(v1 == v2 * r + l1) by (nonlinear_arith)
        requires
            v1 == l1 + r * v2,
    ;
    assert(v2 == l3 * r + l2) by (nonlinear_arith)
        requires
            v2 == l2 + r * l3,
    ;
    vstd::arithmetic::div_mod::lemma_fundamental_div_mod_converse(
        v as int,
        r as int,
        v1 as int,
        l0 as int,
    );
    vstd::arithmetic::div_mod::lemma_fundamental_div_mod_converse(
        v1 as int,
        r as int,
        v2 as int,
        l1 as int,
    );
    vstd::arithmetic::div_mod::lemma_fundamental_div_mod_converse(
        v2 as int,
        r as int,
        l3 as int,
        l2 as int,
    );
}

} // verus!
