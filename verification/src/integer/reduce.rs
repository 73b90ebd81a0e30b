//! Reduction: from an element with large limbs to the remainder of its
//! value by the foreign modulus, with the carries that tie the two together.

use crate::big::{big_add, big_div, big_mul, big_rem, big_sub, nat_of};
use crate::gate::{Cell, Coeff, RegionCtx, Witness};
use crate::integer::{AssignedInteger, IntegerChip, Range};
use crate::limbs::{
    big_bit_length, compose, decompose, horner, lemma_below_pow2_bits, lemma_bit_length_bounds,
    lemma_limbs_compose, lemma_top_limb_monotonic, lemma_top_limb_small, limb_of,
};
use crate::modular::{cong, lemma_cong_add, lemma_cong_lin, lemma_cong_mul, lemma_cong_rem, lemma_cong_sub};
use crate::reduction::{
    lemma_carries, lemma_horner_monotonic, lemma_horner_split, lemma_pair_bound,
    lemma_quotient_monotonic, lemma_reduce_identity,
};
use crate::rns::{binary_of, Integer};
use num_bigint::BigUint;
use vstd::arithmetic::div_mod::{lemma_fundamental_div_mod, lemma_mod_decreases, lemma_small_mod};
use vstd::arithmetic::power2::pow2;
use vstd::prelude::*;

verus! {

/// What a reduction places in the circuit beside its operand: the remainder,
/// the quotient, the two carries, and the bit lengths that the quotient and
/// the carries are range-checked with.
pub struct ReductionWitness {
    pub result: Integer,
    pub quotient: BigUint,
    pub v0: BigUint,
    pub v1: BigUint,
    pub quotient_bits: u64,
    pub v0_bits: u64,
    pub v1_bits: u64,
}

/// The intermediate value of limb `i`: `a_i + q * p'_i - r_i`, where `p'` is
/// the binary modulus less the foreign modulus.
#[verifier::opaque]
pub open spec fn intermediate(a_i: nat, q: nat, neg_p_i: nat, r_i: nat) -> int {
    a_i + q * neg_p_i - r_i
}

/// The two halves of a number of four limbs, and the half of a scaled sum.
proof fn lemma_half(a0: nat, a1: nat, n0: nat, n1: nat, q: nat, r: nat)
    ensures
        (a0 + q * n0) + r * (a1 + q * n1) == (a0 + r * a1) + q * (n0 + r * n1),
{
    assert((a0 + q * n0) + r * (a1 + q * n1) == (a0 + r * a1) + q * (n0 + r * n1))
        by (nonlinear_arith);
}

/// A half grows with its limbs and with the quotient.
proof fn lemma_half_monotonic(
    a0: nat,
    a1: nat,
    m0: nat,
    m1: nat,
    n0: nat,
    n1: nat,
    q: nat,
    qm: nat,
    r: nat,
)
    requires
        a0 <= m0,
        a1 <= m1,
        q <= qm,
    ensures
        (a0 + q * n0) + r * (a1 + q * n1) <= (m0 + qm * n0) + r * (m1 + qm * n1),
{
    assert(q * n0 <= qm * n0) by (nonlinear_arith)
        requires
            q <= qm,
    ;
    assert(q * n1 <= qm * n1) by (nonlinear_arith)
        requires
            q <= qm,
    ;
    assert(r * (a1 + q * n1) <= r * (m1 + qm * n1)) by (nonlinear_arith)
        requires
            a1 + q * n1 <= m1 + qm * n1,
    ;
}

/// A pair of limbs, each with `q` times the limb of a constant added.
#[verifier::opaque]
pub open spec fn half(a0: nat, a1: nat, n0: nat, n1: nat, q: nat, r: nat) -> nat {
    (a0 + q * n0) + r * (a1 + q * n1)
}

/// A pair of limbs as a number.
#[verifier::opaque]
pub open spec fn pair(r0: nat, r1: nat, r: nat) -> nat {
    r0 + r * r1
}

/// The exact carries of a reduction: with `a = p * q + rem`, and `n` the
/// limbs of the binary modulus less `p`, each half of `a + q * n - rem` is a
/// non-negative multiple of the square of the base once the carry of the
/// half below it is added.
pub proof fn lemma_reduction_carries(
    a: Seq<nat>,
    n: Seq<nat>,
    rem: Seq<nat>,
    q: nat,
    p: nat,
    r: nat,
)
    requires
        a.len() == 4 && n.len() == 4 && rem.len() == 4,
        r > 0,
        horner(a[0], a[1], a[2], a[3], r) == p * q + horner(rem[0], rem[1], rem[2], rem[3], r),
        horner(n[0], n[1], n[2], n[3], r) + p == (r * r) * (r * r),
        rem[0] < r && rem[1] < r && rem[2] < r && rem[3] < r,
    ensures
        ({
            let t_lo = half(a[0], a[1], n[0], n[1], q, r);
            let t_hi = half(a[2], a[3], n[2], n[3], q, r);
            let r_lo = pair(rem[0], rem[1], r);
            let r_hi = pair(rem[2], rem[3], r);
            let v0 = ((t_lo - r_lo) / ((r * r) as int)) as nat;
            let v1 = ((t_hi + v0 - r_hi) / ((r * r) as int)) as nat;
            &&& t_lo >= r_lo
            &&& t_hi + v0 >= r_hi
            &&& r * r > 0
            &&& intermediate(a[0], q, n[0], rem[0]) + r * intermediate(a[1], q, n[1], rem[1]) == v0
                * (r * r)
            &&& intermediate(a[2], q, n[2], rem[2]) + r * intermediate(a[3], q, n[3], rem[3]) + v0
                == v1 * (r * r)
        }),
{
    reveal(horner);
    reveal(half);
    reveal(pair);
    reveal(intermediate);
    let (a0, a1, a2, a3) = (a[0], a[1], a[2], a[3]);
    let (n0, n1, n2, n3) = (n[0], n[1], n[2], n[3]);
    let (r0, r1, r2, r3) = (rem[0], rem[1], rem[2], rem[3]);
    let r_sq = r * r;
    assert(r_sq > 0) by (nonlinear_arith)
        requires
            r > 0,
            r_sq == r * r,
    ;
    lemma_pair_bound(r0, r1, r);
    lemma_pair_bound(r2, r3, r);
    lemma_horner_split(a0 as int, a1 as int, a2 as int, a3 as int, r as int);
    lemma_horner_split(n0 as int, n1 as int, n2 as int, n3 as int, r as int);
    lemma_horner_split(r0 as int, r1 as int, r2 as int, r3 as int, r as int);
    lemma_half(a0, a1, n0, n1, q, r);
    lemma_half(a2, a3, n2, n3, q, r);
    assert(p * q == q * p) by (nonlinear_arith);
    lemma_reduce_identity(
        (a0 + r * a1) as int,
        (a2 + r * a3) as int,
        (n0 + r * n1) as int,
        (n2 + r * n3) as int,
        (r0 + r * r1) as int,
        (r2 + r * r3) as int,
        q as int,
        p as int,
        r_sq as int,
    );
    let t_lo = half(a0, a1, n0, n1, q, r);
    let t_hi = half(a2, a3, n2, n3, q, r);
    lemma_carries(
        t_lo as int,
        t_hi as int,
        pair(r0, r1, r) as int,
        pair(r2, r3, r) as int,
        q as int,
        r_sq as int,
    );
    let t1 = intermediate(a1, q, n1, r1);
    let t3 = intermediate(a3, q, n3, r3);
    assert(r * t1 == r * (a1 + q * n1) - r * r1) by (nonlinear_arith)
        requires
            t1 == a1 + q * n1 - r1,
    ;
    assert(r * t3 == r * (a3 + q * n3) - r * r3) by (nonlinear_arith)
        requires
            t3 == a3 + q * n3 - r3,
    ;
}

/// The carries of a reduction are at most the carries of the bounds.
pub proof fn lemma_reduction_bounds(
    a: Seq<nat>,
    m: Seq<nat>,
    n: Seq<nat>,
    rem: Seq<nat>,
    q: nat,
    q_max: nat,
    r: nat,
)
    requires
        a.len() == 4 && n.len() == 4 && rem.len() == 4 && m.len() == 4,
        r > 0,
        a[0] <= m[0] && a[1] <= m[1] && a[2] <= m[2] && a[3] <= m[3],
        q <= q_max,
        half(a[0], a[1], n[0], n[1], q, r) >= pair(rem[0], rem[1], r),
        half(a[2], a[3], n[2], n[3], q, r) + (half(a[0], a[1], n[0], n[1], q, r) - pair(
            rem[0],
            rem[1],
            r,
        )) / ((r * r) as int) >= pair(rem[2], rem[3], r),
    ensures
        ({
            let t_lo = half(a[0], a[1], n[0], n[1], q, r);
            let t_hi = half(a[2], a[3], n[2], n[3], q, r);
            let r_lo = pair(rem[0], rem[1], r);
            let r_hi = pair(rem[2], rem[3], r);
            let v0 = ((t_lo - r_lo) / ((r * r) as int)) as nat;
            let v1 = ((t_hi + v0 - r_hi) / ((r * r) as int)) as nat;
            let v0_max = half(m[0], m[1], n[0], n[1], q_max, r) / (r * r);
            let v1_max = (half(m[2], m[3], n[2], n[3], q_max, r) + v0_max) / (r * r);
            v0 <= v0_max && v1 <= v1_max
        }),
{
    reveal(half);
    reveal(pair);
    let r_sq = r * r;
    assert(r_sq > 0) by (nonlinear_arith)
        requires
            r > 0,
            r_sq == r * r,
    ;
    lemma_half_monotonic(a[0], a[1], m[0], m[1], n[0], n[1], q, q_max, r);
    lemma_half_monotonic(a[2], a[3], m[2], m[3], n[2], n[3], q, q_max, r);
    let t_lo = half(a[0], a[1], n[0], n[1], q, r);
    let t_hi = half(a[2], a[3], n[2], n[3], q, r);
    let r_lo = pair(rem[0], rem[1], r);
    let r_hi = pair(rem[2], rem[3], r);
    let m_lo = half(m[0], m[1], n[0], n[1], q_max, r);
    let m_hi = half(m[2], m[3], n[2], n[3], q_max, r);
    lemma_quotient_monotonic((t_lo - r_lo) as nat, m_lo, r_sq);
    let v0 = ((t_lo - r_lo) / (r_sq as int)) as nat;
    let v0_max = m_lo / r_sq;
    lemma_quotient_monotonic((t_hi + v0 - r_hi) as nat, m_hi + v0_max, r_sq);
}

/// The rows that check the carries hold of the cells that a reduction
/// places: each cell is congruent to the exact number it stands for, and the
/// exact numbers meet the equations.
pub proof fn lemma_carry_rows(
    t: Seq<int>,
    tw: Seq<nat>,
    v0: nat,
    v0w: nat,
    v1: nat,
    v1w: nat,
    r: nat,
    n: nat,
)
    requires
        t.len() == 4 && tw.len() == 4,
        n > 0,
        forall|i: int| 0 <= i < 4 ==> cong(#[trigger] tw[i] as int, t[i], n as int),
        v0w == v0 % n,
        v1w == v1 % n,
        t[0] + r * t[1] == v0 * (r * r),
        t[2] + r * t[3] + v0 == v1 * (r * r),
    ensures
        (tw[0] + r * tw[1] - (r * r) * v0w) % (n as int) == 0,
        (tw[2] + r * tw[3] + v0w - (r * r) * v1w) % (n as int) == 0,
{
    let ni = n as int;
    let ri = r as int;
    let r2 = -((r * r) as int);
    lemma_cong_rem(v0 as int, ni);
    lemma_cong_rem(v1 as int, ni);
    assert(cong(tw[0] as int, t[0], ni));
    assert(cong(tw[1] as int, t[1], ni));
    assert(cong(tw[2] as int, t[2], ni));
    assert(cong(tw[3] as int, t[3], ni));
    lemma_cong_lin(tw[0] as int, t[0], ri, tw[1] as int, t[1], r2, v0w as int, v0 as int, 0, 0, 0, ni);
    lemma_cong_lin(
        tw[2] as int,
        t[2],
        ri,
        tw[3] as int,
        t[3],
        1,
        v0w as int,
        v0 as int,
        r2,
        v1w as int,
        v1 as int,
        ni,
    );
    assert(r2 * (v0 as int) == -(v0 * (r * r))) by (nonlinear_arith)
        requires
            r2 == -((r * r) as int),
    ;
    assert(r2 * (v1 as int) == -(v1 * (r * r))) by (nonlinear_arith)
        requires
            r2 == -((r * r) as int),
    ;
    assert(r2 * (v0w as int) == -((r * r) * v0w)) by (nonlinear_arith)
        requires
            r2 == -((r * r) as int),
    ;
    assert(r2 * (v1w as int) == -((r * r) * v1w)) by (nonlinear_arith)
        requires
            r2 == -((r * r) as int),
    ;
    lemma_small_mod(0, n);
}

/// The cell of an intermediate value is congruent to the exact value.
pub proof fn lemma_intermediate_cell(a: nat, ni: nat, q: nat, r: nat, n: nat)
    requires
        n > 0,
    ensures
        cong((a + ni * (q % n) - r) % (n as int), intermediate(a, q, ni, r), n as int),
{
    reveal(intermediate);
    let m = n as int;
    lemma_cong_rem(a + ni * (q % n) - r, m);
    lemma_cong_rem(q as int, m);
    lemma_cong_mul(ni as int, ni as int, (q % n) as int, q as int, m);
    lemma_cong_add(a as int, a as int, (ni * (q % n)) as int, (ni * q) as int, m);
    lemma_cong_sub((a + ni * (q % n)) as int, (a + ni * q) as int, r as int, r as int, m);
    assert(ni * q == q * ni) by (nonlinear_arith);
}

/// The row of the native field holds: from `a = p * q + rem`, the cells of
/// the three numbers in the native field meet `a - p * q - rem = 0`.
pub proof fn lemma_native_row(a: nat, q: nat, p: nat, rem: nat, n: nat)
    requires
        n > 0,
        a == p * q + rem,
    ensures
        ((a % n) - (p % n) * (q % n) - (rem % n)) % (n as int) == 0,
{
    let m = n as int;
    lemma_cong_rem(a as int, m);
    lemma_cong_rem(p as int, m);
    lemma_cong_rem(q as int, m);
    lemma_cong_rem(rem as int, m);
    lemma_cong_mul((p % n) as int, p as int, (q % n) as int, q as int, m);
    lemma_cong_sub((a % n) as int, a as int, ((p % n) * (q % n)) as int, (p * q) as int, m);
    lemma_cong_sub((a % n) - (p % n) * (q % n), a - p * q, (rem % n) as int, rem as int, m);
    lemma_small_mod(0, n);
}

/// A pair of limbs with the limbs of a scaled constant added.
fn half_exec(a0: &BigUint, a1: &BigUint, n0: &BigUint, n1: &BigUint, q: &BigUint, r: &BigUint) -> (res:
    BigUint)
    ensures
        nat_of(res) == half(nat_of(*a0), nat_of(*a1), nat_of(*n0), nat_of(*n1), nat_of(*q), nat_of(*r)),
{
    proof {
        reveal(half);
    }
    big_add(&big_add(a0, &big_mul(q, n0)), &big_mul(r, &big_add(a1, &big_mul(q, n1))))
}

/// A pair of limbs as a number.
pub fn pair_exec(r0: &BigUint, r1: &BigUint, r: &BigUint) -> (res: BigUint)
    ensures
        nat_of(res) == pair(nat_of(*r0), nat_of(*r1), nat_of(*r)),
{
    proof {
        reveal(pair);
    }
    big_add(r0, &big_mul(r, r1))
}

impl IntegerChip {
    /// The limbs of the binary modulus less the foreign modulus denote that
    /// number.
    pub proof fn lemma_neg_p(self)
        requires
            self.wf(),
        ensures
            horner(
                self.rns.neg_p(0),
                self.rns.neg_p(1),
                self.rns.neg_p(2),
                self.rns.neg_p(3),
                self.rns.r(),
            ) + self.rns.p() == (self.rns.r() * self.rns.r()) * (self.rns.r() * self.rns.r()),
    {
        self.rns.lemma_basics();
        self.rns.lemma_limbs();
        lemma_limbs_compose((binary_of(self.rns.bl()) - self.rns.p()) as nat, self.rns.r());
    }

    /// Computes what a reduction of `a` places in the circuit.
    pub fn reduction_witness(&self, a: &AssignedInteger) -> (w: ReductionWitness)
        requires
            self.wf(),
            a.wf(self.rns),
        ensures
            w.result.wf(),
            nat_of(w.quotient) == a.value(self.rns.r()) / self.rns.p(),
            w.result.value(self.rns.r()) == a.value(self.rns.r()) % self.rns.p(),
            forall|i: int|
                0 <= i < 4 ==> w.result.limb(i) == limb_of(
                    a.value(self.rns.r()) % self.rns.p(),
                    i as nat,
                    self.rns.r(),
                ),
            intermediate(a.limb_val(0), nat_of(w.quotient), self.rns.neg_p(0), w.result.limb(0))
                + self.rns.r() * intermediate(
                a.limb_val(1),
                nat_of(w.quotient),
                self.rns.neg_p(1),
                w.result.limb(1),
            ) == nat_of(w.v0) * (self.rns.r() * self.rns.r()),
            intermediate(a.limb_val(2), nat_of(w.quotient), self.rns.neg_p(2), w.result.limb(2))
                + self.rns.r() * intermediate(
                a.limb_val(3),
                nat_of(w.quotient),
                self.rns.neg_p(3),
                w.result.limb(3),
            ) + nat_of(w.v0) == nat_of(w.v1) * (self.rns.r() * self.rns.r()),
            nat_of(w.quotient) < pow2(w.quotient_bits as nat),
            nat_of(w.v0) < pow2(w.v0_bits as nat),
            nat_of(w.v1) < pow2(w.v1_bits as nat),
    {
        let rns = &self.rns;
        let bl = rns.bit_len_limb;
        let ghost r = rns.r();
        let ghost p = rns.p();
        proof {
            rns.lemma_basics();
            rns.lemma_fields();
            rns.lemma_limbs();
            self.lemma_neg_p();
        }
        let a_int = a.integer();
        let value = compose(&a_int.limbs, bl);
        let q = big_div(&value, &rns.wrong_modulus);
        let rem = big_rem(&value, &rns.wrong_modulus);
        let result = Integer { limbs: decompose(&rem, bl) };
        let a_max = a.max_val(bl);
        let q_max = big_div(&a_max, &rns.wrong_modulus);
        let base = &rns.left_shifter_r;
        let base2 = &rns.left_shifter_2r;
        let n = &rns.negative_wrong_modulus_decomposed;
        let t_lo = half_exec(&a_int.limbs[0], &a_int.limbs[1], &n[0], &n[1], &q, base);
        let t_hi = half_exec(&a_int.limbs[2], &a_int.limbs[3], &n[2], &n[3], &q, base);
        let r_lo = pair_exec(&result.limbs[0], &result.limbs[1], base);
        let r_hi = pair_exec(&result.limbs[2], &result.limbs[3], base);
        let m_lo = half_exec(&a.limbs[0].max_val, &a.limbs[1].max_val, &n[0], &n[1], &q_max, base);
        let m_hi = half_exec(&a.limbs[2].max_val, &a.limbs[3].max_val, &n[2], &n[3], &q_max, base);
        let v0_max = big_div(&m_lo, base2);
        let v1_max = big_div(&big_add(&m_hi, &v0_max), base2);
        let ghost sa = seq![a.limb_val(0), a.limb_val(1), a.limb_val(2), a.limb_val(3)];
        let ghost sm = seq![a.limb_max(0), a.limb_max(1), a.limb_max(2), a.limb_max(3)];
        let ghost sn = seq![rns.neg_p(0), rns.neg_p(1), rns.neg_p(2), rns.neg_p(3)];
        let ghost sr = seq![result.limb(0), result.limb(1), result.limb(2), result.limb(3)];
        proof {
            lemma_fundamental_div_mod(nat_of(value) as int, p as int);
            lemma_limbs_compose(nat_of(rem), r);
            lemma_top_limb_small(nat_of(rem), r);
            lemma_reduction_carries(sa, sn, sr, nat_of(q), p, r);
            lemma_horner_monotonic(sa[0], sa[1], sa[2], sa[3], sm[0], sm[1], sm[2], sm[3], r);
            lemma_quotient_monotonic(a.value(r), a.max_value(r), p);
            lemma_reduction_bounds(sa, sm, sn, sr, nat_of(q), nat_of(q_max), r);
        }
        let l0 = big_sub(&t_lo, &r_lo);
        let v0 = big_div(&l0, base2);
        let l1 = big_sub(&big_add(&t_hi, &v0), &r_hi);
        let v1 = big_div(&l1, base2);
        proof {
            lemma_below_pow2_bits(nat_of(q), nat_of(q_max));
            lemma_below_pow2_bits(nat_of(v0), nat_of(v0_max));
            lemma_below_pow2_bits(nat_of(v1), nat_of(v1_max));
        }
        ReductionWitness {
            result,
            quotient_bits: big_bit_length(&q_max),
            v0_bits: big_bit_length(&v0_max),
            v1_bits: big_bit_length(&v1_max),
            quotient: q,
            v0,
            v1,
        }
    }
}

impl IntegerChip {
    /// The two rows that check the carries: `t0 + r * t1 - r^2 * v0 = 0`
    /// and `t2 + r * t3 + v0 - r^2 * v1 = 0`.
    pub fn constrain_carries(
        &self,
        ctx: &mut RegionCtx,
        t0: &Witness,
        t1: &Witness,
        t2: &Witness,
        t3: &Witness,
        v0: &Witness,
        v1: &Witness,
    )
        requires
            self.wf(),
            self.fits(*old(ctx)),
        ensures
            final(ctx).native_modulus == old(ctx).native_modulus,
            final(ctx).satisfied() == (old(ctx).satisfied() && (t0.val() + self.rns.r() * t1.val() - (
            self.rns.r() * self.rns.r()) * v0.val()) % (self.rns.n() as int) == 0 && (t2.val()
                + self.rns.r() * t3.val() + v0.val() - (self.rns.r() * self.rns.r()) * v1.val()) % (
            self.rns.n() as int) == 0),
    {
        let rns = &self.rns;
        proof {
            rns.lemma_fields();
        }
        ctx.constrain_sum3(
            Cell::times(t0, 1),
            Cell::scaled(t1, &rns.left_shifter_r),
            Cell::minus_scaled(v0, &rns.left_shifter_2r),
            Coeff::from_u64(0),
        );
        ctx.constrain_sum4(
            Cell::times(t2, 1),
            Cell::scaled(t3, &rns.left_shifter_r),
            Cell::times(v0, 1),
            Cell::minus_scaled(v1, &rns.left_shifter_2r),
            Coeff::from_u64(0),
        );
    }

    /// Reduces an element: places the remainder of its value by the foreign
    /// modulus, range-checked as a remainder, together with the quotient and
    /// the two carries, and the rows that tie them to the operand: one row
    /// for each intermediate value `a_i + q * p'_i - r_i`, one for each pair
    /// of them with its carry, and one in the native field.
    pub fn reduce(&self, ctx: &mut RegionCtx, a: &AssignedInteger) -> (res: AssignedInteger)
        requires
            self.wf(),
            self.fits(*old(ctx)),
            a.wf(self.rns),
        ensures
            final(ctx).native_modulus == old(ctx).native_modulus,
            final(ctx).satisfied() == old(ctx).satisfied(),
            res.wf(self.rns),
            res.bounded_as(self.rns, Range::Remainder),
            res.value(self.rns.r()) == a.value(self.rns.r()) % self.rns.p(),
    {
        let rns = &self.rns;
        let ghost r = rns.r();
        let ghost p = rns.p();
        let ghost n = rns.n();
        let ghost av = a.value(r);
        let w = self.reduction_witness(a);
        proof {
            rns.lemma_basics();
            rns.lemma_fields();
            rns.lemma_limbs();
            rns.lemma_range(Range::Remainder);
            lemma_limbs_compose(av % p, r);
            lemma_top_limb_small(av % p, r);
            lemma_bit_length_bounds(p);
            lemma_top_limb_monotonic(av % p, rns.range_max(Range::Remainder), r);
            assert forall|i: int| 0 <= i < 4 implies w.result.limb(i) % n == w.result.limb(i) by {
                lemma_small_mod(w.result.limb(i), n);
            }
            lemma_mod_decreases(nat_of(w.quotient), n);
            lemma_mod_decreases(nat_of(w.v0), n);
            lemma_mod_decreases(nat_of(w.v1), n);
        }
        let range_chip = self.range_chip();
        let res = self.range_assign_integer(ctx, &w.result, Range::Remainder);
        let q = range_chip.range_value(ctx, &w.quotient, w.quotient_bits);
        let v0 = range_chip.range_value(ctx, &w.v0, w.v0_bits);
        let v1 = range_chip.range_value(ctx, &w.v1, w.v1_bits);
        let neg = &rns.negative_wrong_modulus_decomposed;
        let zero = Coeff::from_u64(0);
        let t0 = ctx.derive_sum3(
            Cell::times(&a.limbs[0].witness, 1),
            Cell::scaled(&q, &neg[0]),
            Cell::minus_times(&res.limbs[0].witness, 1),
            Coeff::from_u64(0),
        );
        let t1 = ctx.derive_sum3(
            Cell::times(&a.limbs[1].witness, 1),
            Cell::scaled(&q, &neg[1]),
            Cell::minus_times(&res.limbs[1].witness, 1),
            Coeff::from_u64(0),
        );
        let t2 = ctx.derive_sum3(
            Cell::times(&a.limbs[2].witness, 1),
            Cell::scaled(&q, &neg[2]),
            Cell::minus_times(&res.limbs[2].witness, 1),
            Coeff::from_u64(0),
        );
        let t3 = ctx.derive_sum3(
            Cell::times(&a.limbs[3].witness, 1),
            Cell::scaled(&q, &neg[3]),
            Cell::minus_times(&res.limbs[3].witness, 1),
            Coeff::from_u64(0),
        );
        proof {
            let qn = nat_of(w.quotient);
            let t = seq![
                intermediate(a.limb_val(0), qn, rns.neg_p(0), w.result.limb(0)),
                intermediate(a.limb_val(1), qn, rns.neg_p(1), w.result.limb(1)),
                intermediate(a.limb_val(2), qn, rns.neg_p(2), w.result.limb(2)),
                intermediate(a.limb_val(3), qn, rns.neg_p(3), w.result.limb(3)),
            ];
            let tw = seq![t0.val(), t1.val(), t2.val(), t3.val()];
            lemma_intermediate_cell(a.limb_val(0), rns.neg_p(0), qn, w.result.limb(0), n);
            lemma_intermediate_cell(a.limb_val(1), rns.neg_p(1), qn, w.result.limb(1), n);
            lemma_intermediate_cell(a.limb_val(2), rns.neg_p(2), qn, w.result.limb(2), n);
            lemma_intermediate_cell(a.limb_val(3), rns.neg_p(3), qn, w.result.limb(3), n);
            lemma_carry_rows(t, tw, nat_of(w.v0), v0.val(), nat_of(w.v1), v1.val(), r, n);
            lemma_fundamental_div_mod(av as int, p as int);
            lemma_native_row(av, qn, p, av % p, n);
        }
        self.constrain_carries(ctx, &t0, &t1, &t2, &t3, &v0, &v1);
        ctx.constrain_sum3(
            Cell::times(&a.native, 1),
            Cell::minus_scaled(&q, &rns.wrong_modulus_in_native_modulus),
            Cell::minus_times(&res.native, 1),
            zero,
        );
        res
    }
}

} // verus!
