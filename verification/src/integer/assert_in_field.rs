//! The assertion that an element is below the foreign modulus.

use crate::big::{big_add, big_clone, big_from_u64, big_lt, big_sub, nat_of};
use crate::gate::{Coeff, RegionCtx, Witness};
use crate::integer::{AssignedInteger, IntegerChip, Range};
use crate::limbs::{horner, lemma_limbs_compose, lemma_top_limb_monotonic, lemma_top_limb_small, limb_of};
use crate::main_gate::Term;
use crate::modular::lemma_small_cong_zero;
use crate::rns::{Integer, Rns};
use num_bigint::BigUint;
use vstd::arithmetic::div_mod::lemma_small_mod;
use vstd::prelude::*;

verus! {

/// The result of subtracting an element from the foreign modulus less one,
/// limb by limb with borrows.
pub struct ComparisonResult {
    pub result: Integer,
    pub borrow: Vec<bool>,
}

/// A borrow as a number.
pub open spec fn bit(b: bool) -> nat {
    if b {
        1
    } else {
        0
    }
}

/// Whether limb `a`, with the borrow `prev` of the limb below it, must
/// borrow to be subtracted from limb `m`.
pub open spec fn borrows(m: nat, a: nat, prev: bool) -> bool {
    m < a + bit(prev)
}

/// The limb of the difference: `m - a`, less the borrow of the limb below,
/// plus the base where this limb borrows.
pub open spec fn difference_limb(m: nat, a: nat, prev: bool, r: nat) -> int {
    m + bit(borrows(m, a, prev)) * r - bit(prev) - a
}

/// The four limbs of a difference with their borrows put together: the
/// difference of the numbers, plus the fourth power of the base where the
/// last limb borrows.
proof fn lemma_borrow_chain(m: Seq<nat>, a: Seq<nat>, r: nat)
    requires
        m.len() == 4 && a.len() == 4,
        r > 0,
        m[0] < r && m[1] < r && m[2] < r && m[3] < r,
        a[0] < r && a[1] < r && a[2] < r && a[3] < r,
    ensures
        ({
            let b0 = borrows(m[0], a[0], false);
            let b1 = borrows(m[1], a[1], b0);
            let b2 = borrows(m[2], a[2], b1);
            let b3 = borrows(m[3], a[3], b2);
            let c0 = difference_limb(m[0], a[0], false, r);
            let c1 = difference_limb(m[1], a[1], b0, r);
            let c2 = difference_limb(m[2], a[2], b1, r);
            let c3 = difference_limb(m[3], a[3], b2, r);
            &&& 0 <= c0 < r && 0 <= c1 < r && 0 <= c2 < r && 0 <= c3 < r
            &&& b3 == (horner(a[0], a[1], a[2], a[3], r) > horner(m[0], m[1], m[2], m[3], r))
            &&& !b3 ==> c3 <= m[3]
        }),
{
    reveal(horner);
    let b0 = borrows(m[0], a[0], false);
    let b1 = borrows(m[1], a[1], b0);
    let b2 = borrows(m[2], a[2], b1);
    let b3 = borrows(m[3], a[3], b2);
    let c0 = difference_limb(m[0], a[0], false, r);
    let c1 = difference_limb(m[1], a[1], b0, r);
    let c2 = difference_limb(m[2], a[2], b1, r);
    let c3 = difference_limb(m[3], a[3], b2, r);
    let ri = r as int;
    let (k0, k1, k2, k3) = (bit(b0) as int, bit(b1) as int, bit(b2) as int, bit(b3) as int);
    assert(k0 * ri == (if b0 { ri } else { 0 })) by (nonlinear_arith)
        requires
            k0 == (if b0 { 1int } else { 0 }),
    ;
    assert(k1 * ri == (if b1 { ri } else { 0 })) by (nonlinear_arith)
        requires
            k1 == (if b1 { 1int } else { 0 }),
    ;
    assert(k2 * ri == (if b2 { ri } else { 0 })) by (nonlinear_arith)
        requires
            k2 == (if b2 { 1int } else { 0 }),
    ;
    assert(k3 * ri == (if b3 { ri } else { 0 })) by (nonlinear_arith)
        requires
            k3 == (if b3 { 1int } else { 0 }),
    ;
    let mv = horner(m[0], m[1], m[2], m[3], r) as int;
    let av = horner(a[0], a[1], a[2], a[3], r) as int;
    let cv = c0 + ri * (c1 + ri * (c2 + ri * c3));
    // the borrows cancel pair by pair
    assert(cv == mv - av + k3 * (ri * (ri * (ri * ri)))) by (nonlinear_arith)
        requires
            c0 == m[0] + k0 * ri - a[0],
            c1 == m[1] + k1 * ri - k0 - a[1],
            c2 == m[2] + k2 * ri - k1 - a[2],
            c3 == m[3] + k3 * ri - k2 - a[3],
            mv == m[0] + ri * (m[1] + ri * (m[2] + ri * m[3])),
            av == a[0] + ri * (a[1] + ri * (a[2] + ri * a[3])),
            cv == c0 + ri * (c1 + ri * (c2 + ri * c3)),
    ;
    assert(0 <= cv < ri * (ri * (ri * ri))) by (nonlinear_arith)
        requires
            0 <= c0 < ri && 0 <= c1 < ri && 0 <= c2 < ri && 0 <= c3 < ri,
            cv == c0 + ri * (c1 + ri * (c2 + ri * c3)),
    ;
    assert(0 <= mv < ri * (ri * (ri * ri))) by (nonlinear_arith)
        requires
            0 <= m[0] < ri && 0 <= m[1] < ri && 0 <= m[2] < ri && 0 <= m[3] < ri,
            mv == m[0] + ri * (m[1] + ri * (m[2] + ri * m[3])),
    ;
    assert(0 <= av < ri * (ri * (ri * ri))) by (nonlinear_arith)
        requires
            0 <= a[0] < ri && 0 <= a[1] < ri && 0 <= a[2] < ri && 0 <= a[3] < ri,
            av == a[0] + ri * (a[1] + ri * (a[2] + ri * a[3])),
    ;
    assert(k3 * (ri * (ri * (ri * ri))) == (if b3 { ri * (ri * (ri * ri)) } else { 0 }))
        by (nonlinear_arith)
        requires
            k3 == (if b3 { 1int } else { 0 }),
    ;
}

/// One limb of the subtraction with borrows.
fn difference_limb_exec(m: &BigUint, a: &BigUint, prev: bool, base: &BigUint) -> (res: (
    BigUint,
    bool,
))
    requires
        nat_of(*m) < nat_of(*base),
        nat_of(*a) < nat_of(*base),
    ensures
        res.1 == borrows(nat_of(*m), nat_of(*a), prev),
        nat_of(res.0) == difference_limb(nat_of(*m), nat_of(*a), prev, nat_of(*base)),
{
    let prev_big = if prev {
        big_from_u64(1)
    } else {
        big_from_u64(0)
    };
    let cur = big_lt(m, &big_add(a, &prev_big));
    let ghost k = bit(cur) as int;
    proof {
        assert(k * nat_of(*base) == (if cur { nat_of(*base) as int } else { 0 })) by (nonlinear_arith)
            requires
                k == (if cur { 1int } else { 0 }),
        ;
    }
    let top = if cur {
        big_add(m, base)
    } else {
        big_clone(m)
    };
    (big_sub(&big_sub(&top, &prev_big), a), cur)
}

impl Rns {
    /// Limb `i` of the foreign modulus less one.
    pub open spec fn p_minus_one(self, i: int) -> nat {
        nat_of(self.wrong_modulus_minus_one@[i])
    }

    /// Subtracts an element whose limbs are below the base from the foreign
    /// modulus less one, limb by limb with borrows. The last borrow tells
    /// whether the element is above the foreign modulus less one.
    pub fn compare_to_modulus(&self, a: &Integer) -> (res: ComparisonResult)
        requires
            self.wf(),
            a.wf(),
            a.reduced(self.r()),
        ensures
            res.result.wf(),
            res.borrow@.len() == 4,
            res.borrow@[0] == borrows(self.p_minus_one(0), a.limb(0), false),
            res.borrow@[1] == borrows(self.p_minus_one(1), a.limb(1), res.borrow@[0]),
            res.borrow@[2] == borrows(self.p_minus_one(2), a.limb(2), res.borrow@[1]),
            res.borrow@[3] == borrows(self.p_minus_one(3), a.limb(3), res.borrow@[2]),
            res.result.limb(0) == difference_limb(self.p_minus_one(0), a.limb(0), false, self.r()),
            res.result.limb(1) == difference_limb(
                self.p_minus_one(1),
                a.limb(1),
                res.borrow@[0],
                self.r(),
            ),
            res.result.limb(2) == difference_limb(
                self.p_minus_one(2),
                a.limb(2),
                res.borrow@[1],
                self.r(),
            ),
            res.result.limb(3) == difference_limb(
                self.p_minus_one(3),
                a.limb(3),
                res.borrow@[2],
                self.r(),
            ),
            res.result.reduced(self.r()),
            res.borrow@[3] == (a.value(self.r()) >= self.p()),
            !res.borrow@[3] ==> res.result.limb(3) <= self.range_top(Range::Remainder),
    {
        proof {
            self.lemma_basics();
            self.lemma_fields();
            self.lemma_limbs();
            let r = self.r();
            let pm = (self.p() - 1) as nat;
            lemma_limbs_compose(pm, r);
            lemma_top_limb_small(pm, r);
            assert(self.p_minus_one(0) == limb_of(pm, 0, r));
            assert(self.p_minus_one(1) == limb_of(pm, 1, r));
            assert(self.p_minus_one(2) == limb_of(pm, 2, r));
            assert(self.p_minus_one(3) == limb_of(pm, 3, r));
            let m = seq![
                self.p_minus_one(0),
                self.p_minus_one(1),
                self.p_minus_one(2),
                self.p_minus_one(3),
            ];
            let sa = seq![a.limb(0), a.limb(1), a.limb(2), a.limb(3)];
            lemma_borrow_chain(m, sa, r);
            self.lemma_range(Range::Remainder);
            crate::limbs::lemma_bit_length_bounds(self.p());
            lemma_top_limb_monotonic(pm, self.range_max(Range::Remainder), r);
        }
        let base = &self.left_shifter_r;
        let m = &self.wrong_modulus_minus_one;
        let (c0, b0) = difference_limb_exec(&m[0], &a.limbs[0], false, base);
        let (c1, b1) = difference_limb_exec(&m[1], &a.limbs[1], b0, base);
        let (c2, b2) = difference_limb_exec(&m[2], &a.limbs[2], b1, base);
        let (c3, b3) = difference_limb_exec(&m[3], &a.limbs[3], b2, base);
        let mut limbs: Vec<BigUint> = Vec::new();
        limbs.push(c0);
        limbs.push(c1);
        limbs.push(c2);
        limbs.push(c3);
        let mut borrow: Vec<bool> = Vec::new();
        borrow.push(b0);
        borrow.push(b1);
        borrow.push(b2);
        borrow.push(b3);
        ComparisonResult { result: Integer { limbs }, borrow }
    }
}

/// A borrow as a value of the native field.
fn bit_value(b: bool) -> (r: BigUint)
    ensures
        nat_of(r) == bit(b),
{
    if b {
        big_from_u64(1)
    } else {
        big_from_u64(0)
    }
}

/// The row of one limb holds of the cells of the subtraction: with a
/// difference limb made by the rule, `-c + m - a + b * r - prev` is zero.
proof fn lemma_limb_row(m: nat, a: nat, prev: bool, cur: bool, r: nat, n: nat)
    requires
        n > 0,
        cur == borrows(m, a, prev),
    ensures
        (-difference_limb(m, a, prev, r) - a + r * bit(cur) - bit(prev) + m) % (n as int) == 0,
{
    assert(bit(cur) * r == r * bit(cur)) by (nonlinear_arith);
    lemma_small_mod(0, n);
}

/// The row of the last limb, which takes no borrow: it holds exactly when
/// the limb does not borrow.
proof fn lemma_last_row(m: nat, a: nat, prev: bool, r: nat, n: nat)
    requires
        0 < r < n,
    ensures
        ((-difference_limb(m, a, prev, r) - a - bit(prev) + m) % (n as int) == 0) == !borrows(
            m,
            a,
            prev,
        ),
{
    let k = bit(borrows(m, a, prev)) as int;
    assert(k * r == (if borrows(m, a, prev) { r as int } else { 0 })) by (nonlinear_arith)
        requires
            k == (if borrows(m, a, prev) { 1int } else { 0 }),
    ;
    let x = -difference_limb(m, a, prev, r) - a - bit(prev) + m;
    if borrows(m, a, prev) {
        assert(x == -(r as int));
        if x % (n as int) == 0 {
            lemma_small_cong_zero(x, n as int);
        }
    } else {
        lemma_small_mod(0, n);
    }
}

impl IntegerChip {
    /// Asserts that an element whose limbs are below the base is below the
    /// foreign modulus. The element is subtracted from the foreign modulus
    /// less one, limb by limb with borrows; the difference is placed and
    /// range-checked as a remainder, and the borrows are placed as bits. One
    /// row for each limb binds them: `-c_i + m_i - a_i + b_i * r - b_(i-1)
    /// = 0`, with no borrow out of the last limb. The circuit stays satisfied
    /// exactly when the value is below the foreign modulus.
    pub fn _assert_in_field(&self, ctx: &mut RegionCtx, input: &AssignedInteger)
        requires
            self.wf(),
            self.fits(*old(ctx)),
            input.wf(self.rns),
            !input.exceeds((self.rns.r() - 1) as nat),
        ensures
            final(ctx).native_modulus == old(ctx).native_modulus,
            final(ctx).satisfied() == (old(ctx).satisfied() && input.value(self.rns.r())
                < self.rns.p()),
    {
        let main_gate = self.main_gate();
        let rns = &self.rns;
        let ghost n = rns.n();
        let ghost r = rns.r();
        proof {
            rns.lemma_basics();
            rns.lemma_fields();
            rns.lemma_limbs();
        }
        // to make the case a = p fail, the element is compared with p - 1
        let integer = input.integer();
        let comparison_result = rns.compare_to_modulus(&integer);
        proof {
            assert forall|i: int| 0 <= i < 4 implies comparison_result.result.limb(i) % n
                == comparison_result.result.limb(i) by {
                lemma_small_mod(comparison_result.result.limb(i), n);
            }
        }
        let result = self.range_assign_integer(ctx, &comparison_result.result, Range::Remainder);
        let borrow = &comparison_result.borrow;
        let b_0 = main_gate.assign_bit(ctx, &bit_value(borrow[0]));
        let b_1 = main_gate.assign_bit(ctx, &bit_value(borrow[1]));
        let b_2 = main_gate.assign_bit(ctx, &bit_value(borrow[2]));
        proof {
            let (m0, m1, m2, m3) = (
                rns.p_minus_one(0),
                rns.p_minus_one(1),
                rns.p_minus_one(2),
                rns.p_minus_one(3),
            );
            lemma_limb_row(m0, input.limb_val(0), false, borrow@[0], r, n);
            lemma_limb_row(m1, input.limb_val(1), borrow@[0], borrow@[1], r, n);
            lemma_limb_row(m2, input.limb_val(2), borrow@[1], borrow@[2], r, n);
            lemma_last_row(m3, input.limb_val(3), borrow@[2], r, n);
        }
        // 0 = -c_0 + p_0 - a_0 + b_0 * R
        self.limb_row(ctx, &result.limbs[0].witness, &input.limbs[0].witness, &b_0, true, &b_0, false, 0);
        // 0 = -c_1 + p_1 - a_1 + b_1 * R - b_0
        self.limb_row(ctx, &result.limbs[1].witness, &input.limbs[1].witness, &b_1, true, &b_0, true, 1);
        // 0 = -c_2 + p_2 - a_2 + b_2 * R - b_1
        self.limb_row(ctx, &result.limbs[2].witness, &input.limbs[2].witness, &b_2, true, &b_1, true, 2);
        // 0 = -c_3 + p_3 - a_3 - b_2
        self.limb_row(ctx, &result.limbs[3].witness, &input.limbs[3].witness, &b_2, false, &b_2, true, 3);
    }

    /// The row of one limb of the subtraction: `-c - a + r * cur - prev + m
    /// = 0`, where `m` is limb `i` of the foreign modulus less one, `cur` is
    /// the borrow of this limb, if it may borrow, and `prev` the borrow of
    /// the limb below, if there is one.
    fn limb_row(
        &self,
        ctx: &mut RegionCtx,
        c: &Witness,
        a: &Witness,
        cur: &Witness,
        with_cur: bool,
        prev: &Witness,
        with_prev: bool,
        i: usize,
    )
        requires
            self.wf(),
            self.fits(*old(ctx)),
            i < 4,
        ensures
            final(ctx).native_modulus == old(ctx).native_modulus,
            final(ctx).satisfied() == (old(ctx).satisfied() && (-(c.val() as int) - a.val() + (
            if with_cur {
                self.rns.r() * cur.val()
            } else {
                0
            }) - (if with_prev {
                prev.val()
            } else {
                0
            }) + self.rns.p_minus_one(i as int)) % (self.rns.n() as int) == 0),
    {
        let main_gate = self.main_gate();
        proof {
            self.rns.lemma_fields();
            self.rns.lemma_limbs();
        }
        let cur_term = if with_cur {
            Term::Assigned(cur.copy(), Coeff::plus(big_clone(&self.rns.left_shifter_r)))
        } else {
            Term::Zero
        };
        let prev_term = if with_prev {
            Term::Assigned(prev.copy(), Coeff::minus_u64(1))
        } else {
            Term::Zero
        };
        main_gate.combine(
            ctx,
            Term::Assigned(c.copy(), Coeff::minus_u64(1)),
            Term::Assigned(a.copy(), Coeff::minus_u64(1)),
            cur_term,
            prev_term,
            Term::Zero,
            Coeff::plus(big_clone(&self.rns.wrong_modulus_minus_one[i])),
            false,
        );
    }

    /// Asserts that an element is below the foreign modulus. An element with
    /// a limb above the bound of a reduced limb, or with a largest possible
    /// value above the bound of an operand, is reduced first, and is then
    /// below the foreign modulus.
    pub fn assert_in_field(&self, ctx: &mut RegionCtx, a: &AssignedInteger)
        requires
            self.wf(),
            self.fits(*old(ctx)),
            a.wf(self.rns),
        ensures
            final(ctx).native_modulus == old(ctx).native_modulus,
            final(ctx).satisfied() == (old(ctx).satisfied() && self.tested_value(*a)
                < self.rns.p()),
    {
        let a1 = self.reduce_if_limb_values_exceeds_reduced(ctx, a);
        let a2 = self.reduce_if_max_operand_value_exceeds(ctx, &a1);
        proof {
            self.rns.lemma_range(Range::Remainder);
            self.rns.lemma_range(Range::Operand);
            vstd::arithmetic::div_mod::lemma_mod_twice(
                a.value(self.rns.r()) as int,
                self.rns.p() as int,
            );
            assert(a1.limbs@ == a.limbs@ ==> a1.max_value(self.rns.r()) == a.max_value(self.rns.r())
                && a1.value(self.rns.r()) == a.value(self.rns.r()));
            assert(a2.limbs@ == a1.limbs@ ==> a2.value(self.rns.r()) == a1.value(self.rns.r()));
        }
        self._assert_in_field(ctx, &a2)
    }
}

} // verus!
