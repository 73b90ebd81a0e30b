//! Multiplication: the product of two elements as a quotient and a
//! remainder by the foreign modulus, checked limb by limb.

use crate::big::{big_add, big_div, big_mul, big_rem, big_sub, nat_of};
use crate::gate::{cell_int, Cell, Coeff, RegionCtx, Witness};
use crate::integer::reduce::{pair, pair_exec};
use crate::integer::{AssignedInteger, IntegerChip, Range};
use crate::limbs::{big_bit_length, compose, decompose, horner, lemma_below_pow2_bits, lemma_bit_length_bounds, lemma_limbs_compose, lemma_top_limb_monotonic, lemma_top_limb_small};
use crate::modular::{cong, lemma_cong_add, lemma_cong_mul, lemma_cong_rem, lemma_cong_sub};
use crate::reduction::{
    lemma_carries, lemma_horner_monotonic, lemma_horner_split, lemma_pair_bound,
    lemma_quotient_monotonic,
};
use crate::rns::{lemma_nats4, nats, params_ok, Integer, Rns};
use num_bigint::BigUint;
use vstd::arithmetic::div_mod::{lemma_fundamental_div_mod, lemma_mod_decreases, lemma_small_mod};
use vstd::arithmetic::power2::pow2;
use vstd::prelude::*;

verus! {

/// Limb `k` of the product of two numbers of four limbs, before any carry:
/// the sum of the products of the limbs whose places add up to `k`.
#[verifier::opaque]
pub open spec fn conv(a: Seq<nat>, b: Seq<nat>, k: int) -> nat {
    if k == 0 {
        a[0] * b[0]
    } else if k == 1 {
        a[0] * b[1] + a[1] * b[0]
    } else if k == 2 {
        a[0] * b[2] + a[1] * b[1] + a[2] * b[0]
    } else {
        a[0] * b[3] + a[1] * b[2] + a[2] * b[1] + a[3] * b[0]
    }
}

/// What the product of two numbers of four limbs holds above its four
/// lowest limbs.
#[verifier::opaque]
pub open spec fn high(a: Seq<nat>, b: Seq<nat>, r: nat) -> nat {
    a[1] * b[3] + a[3] * b[1] + (a[2] + r * a[3]) * (b[2] + r * b[3])
}

/// The number that a sequence of four limbs denotes.
pub open spec fn seq_value(a: Seq<nat>, r: nat) -> nat {
    horner(a[0], a[1], a[2], a[3], r)
}

/// The intermediate value of limb `i` of a multiplication:
/// `conv(a, b, i) + conv(q, n, i) - rem_i`.
pub open spec fn mul_intermediate(
    a: Seq<nat>,
    b: Seq<nat>,
    q: Seq<nat>,
    n: Seq<nat>,
    rem: Seq<nat>,
    i: int,
) -> int {
    conv(a, b, i) + conv(q, n, i) - rem[i]
}

/// The product of two pairs of limbs.
proof fn lemma_pair_product(x0: int, x1: int, y0: int, y1: int, r: int)
    ensures
        (x0 + r * x1) * (y0 + r * y1) == x0 * y0 + r * (x0 * y1 + x1 * y0) + (r * r) * (x1 * y1),
{
    let x = x0 + r * x1;
    assert(x * (y0 + r * y1) == x * y0 + x * (r * y1)) by (nonlinear_arith);
    assert(x * y0 == x0 * y0 + (r * x1) * y0) by (nonlinear_arith)
        requires
            x == x0 + r * x1,
    ;
    assert(x * (r * y1) == x0 * (r * y1) + (r * x1) * (r * y1)) by (nonlinear_arith)
        requires
            x == x0 + r * x1,
    ;
    assert((r * x1) * y0 == r * (x1 * y0)) by (nonlinear_arith);
    assert(x0 * (r * y1) == r * (x0 * y1)) by (nonlinear_arith);
    assert((r * x1) * (r * y1) == (r * r) * (x1 * y1)) by (nonlinear_arith);
    assert(r * (x0 * y1 + x1 * y0) == r * (x0 * y1) + r * (x1 * y0)) by (nonlinear_arith);
}

/// The product of two numbers written in halves.
proof fn lemma_halves_product(xl: int, xh: int, yl: int, yh: int, r2: int)
    ensures
        (xl + r2 * xh) * (yl + r2 * yh) == xl * yl + r2 * (xl * yh + xh * yl) + (r2 * r2) * (xh
            * yh),
{
    lemma_pair_product(xl, xh, yl, yh, r2);
}

/// The product of two numbers of four limbs: its four lowest limbs are the
/// sums `conv`, and the rest is a multiple of the fourth power of the base.
pub proof fn lemma_product_low(a: Seq<nat>, b: Seq<nat>, r: nat)
    requires
        a.len() == 4 && b.len() == 4,
    ensures
        seq_value(a, r) * seq_value(b, r) == (conv(a, b, 0) + r * conv(a, b, 1)) + (r * r) * (conv(
            a,
            b,
            2,
        ) + r * conv(a, b, 3)) + ((r * r) * (r * r)) * high(a, b, r),
{
    reveal(conv);
    reveal(high);
    reveal(horner);
    let (a0, a1, a2, a3) = (a[0] as int, a[1] as int, a[2] as int, a[3] as int);
    let (b0, b1, b2, b3) = (b[0] as int, b[1] as int, b[2] as int, b[3] as int);
    let ri = r as int;
    let r2 = ri * ri;
    lemma_horner_split(a0, a1, a2, a3, ri);
    lemma_horner_split(b0, b1, b2, b3, ri);
    let al = a0 + ri * a1;
    let ah = a2 + ri * a3;
    let bl = b0 + ri * b1;
    let bh = b2 + ri * b3;
    lemma_halves_product(al, ah, bl, bh, r2);
    lemma_pair_product(a0, a1, b0, b1, ri);
    lemma_pair_product(a0, a1, b2, b3, ri);
    lemma_pair_product(a2, a3, b0, b1, ri);
    let c0 = a0 * b0;
    let c1 = a0 * b1 + a1 * b0;
    let c2 = a0 * b2 + a1 * b1 + a2 * b0;
    let c3 = a0 * b3 + a1 * b2 + a2 * b1 + a3 * b0;
    let h = a1 * b3 + a3 * b1 + ah * bh;
    let x = al * bl;
    let y = al * bh + ah * bl;
    assert(x == c0 + ri * c1 + r2 * (a1 * b1));
    assert(y == (a0 * b2 + a2 * b0) + ri * (a0 * b3 + a1 * b2 + a2 * b1 + a3 * b0) + r2 * (a1 * b3
        + a3 * b1)) by (nonlinear_arith)
        requires
            al * bh == a0 * b2 + ri * (a0 * b3 + a1 * b2) + r2 * (a1 * b3),
            ah * bl == a2 * b0 + ri * (a2 * b1 + a3 * b0) + r2 * (a3 * b1),
            y == al * bh + ah * bl,
    ;
    assert(x + r2 * y + (r2 * r2) * (ah * bh) == (c0 + ri * c1) + r2 * (c2 + ri * c3) + (r2 * r2)
        * h) by (nonlinear_arith)
        requires
            x == c0 + ri * c1 + r2 * (a1 * b1),
            y == (a0 * b2 + a2 * b0) + ri * c3 + r2 * (a1 * b3 + a3 * b1),
            c2 == a0 * b2 + a1 * b1 + a2 * b0,
            h == a1 * b3 + a3 * b1 + ah * bh,
    ;
}

/// The exact carries of a multiplication: with `a * b = p * q + rem`, and
/// `n` the limbs of the binary modulus less `p`, each half of the lowest
/// four limbs of `a * b + q * n - rem` is a non-negative multiple of the
/// square of the base once the carry of the half below it is added.
pub proof fn lemma_mul_carries(
    a: Seq<nat>,
    b: Seq<nat>,
    q: Seq<nat>,
    n: Seq<nat>,
    rem: Seq<nat>,
    p: nat,
    r: nat,
)
    requires
        a.len() == 4 && b.len() == 4 && q.len() == 4 && n.len() == 4 && rem.len() == 4,
        r > 0,
        seq_value(a, r) * seq_value(b, r) == p * seq_value(q, r) + seq_value(rem, r),
        seq_value(n, r) + p == (r * r) * (r * r),
        rem[0] < r && rem[1] < r && rem[2] < r && rem[3] < r,
    ensures
        ({
            let t_lo = pair(conv(a, b, 0) + conv(q, n, 0), conv(a, b, 1) + conv(q, n, 1), r);
            let t_hi = pair(conv(a, b, 2) + conv(q, n, 2), conv(a, b, 3) + conv(q, n, 3), r);
            let r_lo = pair(rem[0], rem[1], r);
            let r_hi = pair(rem[2], rem[3], r);
            let v0 = ((t_lo - r_lo) / ((r * r) as int)) as nat;
            let v1 = ((t_hi + v0 - r_hi) / ((r * r) as int)) as nat;
            &&& t_lo >= r_lo
            &&& t_hi + v0 >= r_hi
            &&& r * r > 0
            &&& mul_intermediate(a, b, q, n, rem, 0) + r * mul_intermediate(a, b, q, n, rem, 1) == v0
                * (r * r)
            &&& mul_intermediate(a, b, q, n, rem, 2) + r * mul_intermediate(a, b, q, n, rem, 3) + v0
                == v1 * (r * r)
        }),
{
    reveal(pair);
    reveal(horner);
    let r2 = (r * r) as int;
    let ri = r as int;
    assert(r2 > 0) by (nonlinear_arith)
        requires
            r > 0,
            r2 == r * r,
    ;
    lemma_product_low(a, b, r);
    lemma_product_low(q, n, r);
    lemma_pair_bound(rem[0], rem[1], r);
    lemma_pair_bound(rem[2], rem[3], r);
    lemma_horner_split(rem[0] as int, rem[1] as int, rem[2] as int, rem[3] as int, ri);
    let qv = seq_value(q, r) as int;
    let nv = seq_value(n, r) as int;
    let t_lo = pair(conv(a, b, 0) + conv(q, n, 0), conv(a, b, 1) + conv(q, n, 1), r) as int;
    let t_hi = pair(conv(a, b, 2) + conv(q, n, 2), conv(a, b, 3) + conv(q, n, 3), r) as int;
    let r_lo = pair(rem[0], rem[1], r) as int;
    let r_hi = pair(rem[2], rem[3], r) as int;
    let k = qv - high(a, b, r) - high(q, n, r);
    let ab_lo = conv(a, b, 0) + ri * conv(a, b, 1);
    let ab_hi = conv(a, b, 2) + ri * conv(a, b, 3);
    let qn_lo = conv(q, n, 0) + ri * conv(q, n, 1);
    let qn_hi = conv(q, n, 2) + ri * conv(q, n, 3);
    assert(t_lo == ab_lo + qn_lo) by (nonlinear_arith)
        requires
            t_lo == (conv(a, b, 0) + conv(q, n, 0)) + ri * (conv(a, b, 1) + conv(q, n, 1)),
            ab_lo == conv(a, b, 0) + ri * conv(a, b, 1),
            qn_lo == conv(q, n, 0) + ri * conv(q, n, 1),
    ;
    assert(t_hi == ab_hi + qn_hi) by (nonlinear_arith)
        requires
            t_hi == (conv(a, b, 2) + conv(q, n, 2)) + ri * (conv(a, b, 3) + conv(q, n, 3)),
            ab_hi == conv(a, b, 2) + ri * conv(a, b, 3),
            qn_hi == conv(q, n, 2) + ri * conv(q, n, 3),
    ;
    assert(qv * nv + p * qv == qv * (r2 * r2)) by (nonlinear_arith)
        requires
            nv + p == r2 * r2,
    ;
    assert((t_lo - r_lo) + r2 * (t_hi - r_hi) == k * (r2 * r2)) by (nonlinear_arith)
        requires
            seq_value(a, r) * seq_value(b, r) == ab_lo + r2 * ab_hi + (r2 * r2) * high(a, b, r),
            qv * nv == qn_lo + r2 * qn_hi + (r2 * r2) * high(q, n, r),
            seq_value(a, r) * seq_value(b, r) == p * qv + (r_lo + r2 * r_hi),
            qv * nv + p * qv == qv * (r2 * r2),
            t_lo == ab_lo + qn_lo,
            t_hi == ab_hi + qn_hi,
            k == qv - high(a, b, r) - high(q, n, r),
    ;
    lemma_carries(t_lo, t_hi, r_lo, r_hi, k, r2);
    assert(ri * mul_intermediate(a, b, q, n, rem, 1) == ri * (conv(a, b, 1) + conv(q, n, 1)) - ri
        * rem[1]) by (nonlinear_arith);
    assert(ri * mul_intermediate(a, b, q, n, rem, 3) == ri * (conv(a, b, 3) + conv(q, n, 3)) - ri
        * rem[3]) by (nonlinear_arith);
}

/// `conv` grows with the limbs.
pub proof fn lemma_conv_monotonic(a: Seq<nat>, b: Seq<nat>, am: Seq<nat>, bm: Seq<nat>, k: int)
    requires
        a.len() == 4 && b.len() == 4 && am.len() == 4 && bm.len() == 4,
        0 <= k < 4,
        forall|i: int| 0 <= i < 4 ==> a[i] <= am[i],
        forall|i: int| 0 <= i < 4 ==> b[i] <= bm[i],
    ensures
        conv(a, b, k) <= conv(am, bm, k),
{
    reveal(conv);
    assert forall|i: int, j: int| 0 <= i < 4 && 0 <= j < 4 implies #[trigger] (a[i] * b[j])
        <= am[i] * bm[j] by {
        assert(a[i] * b[j] <= am[i] * bm[j]) by (nonlinear_arith)
            requires
                a[i] <= am[i],
                b[j] <= bm[j],
        ;
    }
    assert(a[0] * b[0] <= am[0] * bm[0]);
    assert(a[0] * b[1] <= am[0] * bm[1]);
    assert(a[1] * b[0] <= am[1] * bm[0]);
    assert(a[0] * b[2] <= am[0] * bm[2]);
    assert(a[1] * b[1] <= am[1] * bm[1]);
    assert(a[2] * b[0] <= am[2] * bm[0]);
    assert(a[0] * b[3] <= am[0] * bm[3]);
    assert(a[1] * b[2] <= am[1] * bm[2]);
    assert(a[2] * b[1] <= am[2] * bm[1]);
    assert(a[3] * b[0] <= am[3] * bm[0]);
}

/// The carries of a multiplication are at most the carries of the bounds.
pub proof fn lemma_mul_bounds(
    a: Seq<nat>,
    b: Seq<nat>,
    q: Seq<nat>,
    n: Seq<nat>,
    rem: Seq<nat>,
    am: Seq<nat>,
    bm: Seq<nat>,
    qm: Seq<nat>,
    r: nat,
)
    requires
        a.len() == 4 && b.len() == 4 && q.len() == 4 && n.len() == 4 && rem.len() == 4,
        am.len() == 4 && bm.len() == 4 && qm.len() == 4,
        r > 0,
        forall|i: int| 0 <= i < 4 ==> a[i] <= am[i],
        forall|i: int| 0 <= i < 4 ==> b[i] <= bm[i],
        forall|i: int| 0 <= i < 4 ==> q[i] <= qm[i],
        pair(conv(a, b, 0) + conv(q, n, 0), conv(a, b, 1) + conv(q, n, 1), r) >= pair(
            rem[0],
            rem[1],
            r,
        ),
        pair(conv(a, b, 2) + conv(q, n, 2), conv(a, b, 3) + conv(q, n, 3), r) + (pair(
            conv(a, b, 0) + conv(q, n, 0),
            conv(a, b, 1) + conv(q, n, 1),
            r,
        ) - pair(rem[0], rem[1], r)) / ((r * r) as int) >= pair(rem[2], rem[3], r),
    ensures
        ({
            let t_lo = pair(conv(a, b, 0) + conv(q, n, 0), conv(a, b, 1) + conv(q, n, 1), r);
            let t_hi = pair(conv(a, b, 2) + conv(q, n, 2), conv(a, b, 3) + conv(q, n, 3), r);
            let m_lo = pair(conv(am, bm, 0) + conv(qm, n, 0), conv(am, bm, 1) + conv(qm, n, 1), r);
            let m_hi = pair(conv(am, bm, 2) + conv(qm, n, 2), conv(am, bm, 3) + conv(qm, n, 3), r);
            let r_lo = pair(rem[0], rem[1], r);
            let r_hi = pair(rem[2], rem[3], r);
            let v0 = ((t_lo - r_lo) / ((r * r) as int)) as nat;
            let v1 = ((t_hi + v0 - r_hi) / ((r * r) as int)) as nat;
            let v0_max = m_lo / (r * r);
            let v1_max = (m_hi + v0_max) / (r * r);
            v0 <= v0_max && v1 <= v1_max
        }),
{
    reveal(pair);
    let r_sq = r * r;
    assert(r_sq > 0) by (nonlinear_arith)
        requires
            r > 0,
            r_sq == r * r,
    ;
    lemma_conv_monotonic(a, b, am, bm, 0);
    lemma_conv_monotonic(a, b, am, bm, 1);
    lemma_conv_monotonic(a, b, am, bm, 2);
    lemma_conv_monotonic(a, b, am, bm, 3);
    lemma_conv_monotonic(q, n, qm, n, 0);
    lemma_conv_monotonic(q, n, qm, n, 1);
    lemma_conv_monotonic(q, n, qm, n, 2);
    lemma_conv_monotonic(q, n, qm, n, 3);
    let t_lo = pair(conv(a, b, 0) + conv(q, n, 0), conv(a, b, 1) + conv(q, n, 1), r);
    let t_hi = pair(conv(a, b, 2) + conv(q, n, 2), conv(a, b, 3) + conv(q, n, 3), r);
    let m_lo = pair(conv(am, bm, 0) + conv(qm, n, 0), conv(am, bm, 1) + conv(qm, n, 1), r);
    let m_hi = pair(conv(am, bm, 2) + conv(qm, n, 2), conv(am, bm, 3) + conv(qm, n, 3), r);
    assert(t_lo <= m_lo) by (nonlinear_arith)
        requires
            t_lo == (conv(a, b, 0) + conv(q, n, 0)) + r * (conv(a, b, 1) + conv(q, n, 1)),
            m_lo == (conv(am, bm, 0) + conv(qm, n, 0)) + r * (conv(am, bm, 1) + conv(qm, n, 1)),
            conv(a, b, 0) + conv(q, n, 0) <= conv(am, bm, 0) + conv(qm, n, 0),
            conv(a, b, 1) + conv(q, n, 1) <= conv(am, bm, 1) + conv(qm, n, 1),
    ;
    assert(t_hi <= m_hi) by (nonlinear_arith)
        requires
            t_hi == (conv(a, b, 2) + conv(q, n, 2)) + r * (conv(a, b, 3) + conv(q, n, 3)),
            m_hi == (conv(am, bm, 2) + conv(qm, n, 2)) + r * (conv(am, bm, 3) + conv(qm, n, 3)),
            conv(a, b, 2) + conv(q, n, 2) <= conv(am, bm, 2) + conv(qm, n, 2),
            conv(a, b, 3) + conv(q, n, 3) <= conv(am, bm, 3) + conv(qm, n, 3),
    ;
    let r_lo = pair(rem[0], rem[1], r);
    let r_hi = pair(rem[2], rem[3], r);
    lemma_quotient_monotonic((t_lo - r_lo) as nat, m_lo, r_sq);
    let v0 = ((t_lo - r_lo) / (r_sq as int)) as nat;
    let v0_max = m_lo / r_sq;
    lemma_quotient_monotonic((t_hi + v0 - r_hi) as nat, m_hi + v0_max, r_sq);
}

/// Limb `k` of the product of two numbers of four limbs, before any carry.
pub fn conv_exec(a: &Vec<BigUint>, b: &Vec<BigUint>, k: usize) -> (r: BigUint)
    requires
        a@.len() == 4,
        b@.len() == 4,
        k < 4,
    ensures
        nat_of(r) == conv(nats(a@), nats(b@), k as int),
{
    proof {
        reveal(conv);
        lemma_nats4(a@);
        lemma_nats4(b@);
    }
    if k == 0 {
        big_mul(&a[0], &b[0])
    } else if k == 1 {
        big_add(&big_mul(&a[0], &b[1]), &big_mul(&a[1], &b[0]))
    } else if k == 2 {
        big_add(&big_add(&big_mul(&a[0], &b[2]), &big_mul(&a[1], &b[1])), &big_mul(&a[2], &b[0]))
    } else {
        big_add(
            &big_add(&big_add(&big_mul(&a[0], &b[3]), &big_mul(&a[1], &b[2])), &big_mul(&a[2], &b[1])),
            &big_mul(&a[3], &b[0]),
        )
    }
}

/// A half of the lowest limbs of `a * b + q * n`.
fn mul_half(
    a: &Vec<BigUint>,
    b: &Vec<BigUint>,
    q: &Vec<BigUint>,
    n: &Vec<BigUint>,
    k: usize,
    base: &BigUint,
) -> (r: BigUint)
    requires
        a@.len() == 4 && b@.len() == 4 && q@.len() == 4 && n@.len() == 4,
        k == 0 || k == 2,
    ensures
        nat_of(r) == pair(
            conv(nats(a@), nats(b@), k as int) + conv(nats(q@), nats(n@), k as int),
            conv(nats(a@), nats(b@), k + 1) + conv(nats(q@), nats(n@), k + 1),
            nat_of(*base),
        ),
{
    proof {
        reveal(pair);
    }
    let lo = big_add(&conv_exec(a, b, k), &conv_exec(q, n, k));
    let hi = big_add(&conv_exec(a, b, k + 1), &conv_exec(q, n, k + 1));
    big_add(&lo, &big_mul(base, &hi))
}

/// What a multiplication places in the circuit beside its operands: the
/// quotient and the remainder of the product by the foreign modulus, the
/// two carries, and the bit lengths the carries are range-checked with.
pub struct MulWitness {
    pub quotient: Integer,
    pub result: Integer,
    pub v0: BigUint,
    pub v1: BigUint,
    pub v0_bits: u64,
    pub v1_bits: u64,
}

impl AssignedInteger {
    /// The values of the limbs as a sequence.
    pub open spec fn val_seq(self) -> Seq<nat> {
        seq![self.limb_val(0), self.limb_val(1), self.limb_val(2), self.limb_val(3)]
    }
}

impl Integer {
    /// The limbs as a sequence of naturals.
    pub open spec fn seq(self) -> Seq<nat> {
        seq![self.limb(0), self.limb(1), self.limb(2), self.limb(3)]
    }
}

impl Rns {
    /// The limbs of the binary modulus less the foreign modulus.
    pub open spec fn neg_seq(self) -> Seq<nat> {
        seq![self.neg_p(0), self.neg_p(1), self.neg_p(2), self.neg_p(3)]
    }
}

/// A product below `(m + 1) * p` has a quotient by `p` of at most `m`.
proof fn lemma_quotient_bound(x: nat, y: nat, top: nat, m: nat, p: nat)
    requires
        p > 0,
        x <= top,
        y <= top,
        top * top < (m + 1) * p,
    ensures
        (x * y) / p <= m,
{
    assert(x * y <= top * top) by (nonlinear_arith)
        requires
            x <= top,
            y <= top,
    ;
    assert((m + 1) * p == p * (m + 1)) by (nonlinear_arith);
    vstd::arithmetic::div_mod::lemma_multiply_divide_lt((x * y) as int, p as int, (m + 1) as int);
}

/// The row of the native field of a multiplication, on the cells of the
/// four numbers in the native field, is congruent to `a * b - p * q - rem`.
pub proof fn lemma_native_mul_row(a: nat, b: nat, q: nat, p: nat, rem: nat, n: nat)
    requires
        n > 0,
    ensures
        cong((a % n) * (b % n) - (p % n) * (q % n) - (rem % n), a * b - p * q - rem, n as int),
{
    let m = n as int;
    lemma_cong_rem(a as int, m);
    lemma_cong_rem(b as int, m);
    lemma_cong_rem(p as int, m);
    lemma_cong_rem(q as int, m);
    lemma_cong_rem(rem as int, m);
    lemma_cong_mul((a % n) as int, a as int, (b % n) as int, b as int, m);
    lemma_cong_mul((p % n) as int, p as int, (q % n) as int, q as int, m);
    lemma_cong_sub(
        ((a % n) * (b % n)) as int,
        (a * b) as int,
        ((p % n) * (q % n)) as int,
        (p * q) as int,
        m,
    );
    lemma_cong_sub(
        (a % n) * (b % n) - (p % n) * (q % n),
        a * b - p * q,
        (rem % n) as int,
        rem as int,
        m,
    );
}

/// The rows that check the carries, on cells that are congruent to the
/// intermediate values, are congruent to the rows on the intermediate values
/// themselves.
pub proof fn lemma_carry_rows_congruent(t: Seq<int>, tw: Seq<nat>, w0: nat, w1: nat, r: nat, n: nat)
    requires
        t.len() == 4 && tw.len() == 4,
        n > 0,
        forall|i: int| 0 <= i < 4 ==> cong(#[trigger] tw[i] as int, t[i], n as int),
    ensures
        cong(tw[0] + r * tw[1] - (r * r) * w0, t[0] + r * t[1] - (r * r) * w0, n as int),
        cong(
            tw[2] + r * tw[3] + w0 - (r * r) * w1,
            t[2] + r * t[3] + w0 - (r * r) * w1,
            n as int,
        ),
{
    let m = n as int;
    assert(cong(tw[0] as int, t[0], m));
    assert(cong(tw[1] as int, t[1], m));
    assert(cong(tw[2] as int, t[2], m));
    assert(cong(tw[3] as int, t[3], m));
    lemma_cong_mul(r as int, r as int, tw[1] as int, t[1], m);
    lemma_cong_mul(r as int, r as int, tw[3] as int, t[3], m);
    lemma_cong_add(tw[0] as int, t[0], (r * tw[1]) as int, r * t[1], m);
    lemma_cong_add(tw[2] as int, t[2], (r * tw[3]) as int, r * t[3], m);
    let c0 = (r * r) * w0;
    let c1 = w0 - (r * r) * w1;
    lemma_cong_sub((tw[0] + r * tw[1]) as int, t[0] + r * t[1], c0 as int, c0 as int, m);
    lemma_cong_add((tw[2] + r * tw[3]) as int, t[2] + r * t[3], c1, c1, m);
}

/// The rows that check the carries hold of carries that are exact: from
/// `t0 + r * t1 = v0 * r^2` and `t2 + r * t3 + v0 = v1 * r^2`, the rows hold
/// of the carries taken in the native field.
pub proof fn lemma_exact_carries(t0: int, t1: int, t2: int, t3: int, v0: nat, v1: nat, r: nat, n: nat)
    requires
        n > 0,
        t0 + r * t1 == v0 * (r * r),
        t2 + r * t3 + v0 == v1 * (r * r),
    ensures
        (t0 + r * t1 - (r * r) * (v0 % n)) % (n as int) == 0,
        (t2 + r * t3 + (v0 % n) - (r * r) * (v1 % n)) % (n as int) == 0,
{
    let m = n as int;
    let r2 = (r * r) as int;
    let (w0, w1) = ((v0 % n) as int, (v1 % n) as int);
    lemma_cong_rem(v0 as int, m);
    lemma_cong_rem(v1 as int, m);
    lemma_cong_mul(r2, r2, w0, v0 as int, m);
    lemma_cong_mul(r2, r2, w1, v1 as int, m);
    lemma_cong_sub(t0 + r * t1, t0 + r * t1, r2 * w0, r2 * v0, m);
    lemma_cong_add(t2 + r * t3, t2 + r * t3, w0, v0 as int, m);
    lemma_cong_sub(t2 + r * t3 + w0, t2 + r * t3 + v0, r2 * w1, r2 * v1, m);
    assert(r2 * v0 == v0 * (r * r) && r2 * v1 == v1 * (r * r)) by (nonlinear_arith)
        requires
            r2 == r * r,
    ;
    lemma_small_mod(0, n);
}

/// A cell that holds a sum reduced into the field, one term of which is a
/// cell congruent to an exact number, is congruent to the exact sum.
pub proof fn lemma_chain(y: int, w: int, x: int, n: int)
    requires
        n > 0,
        cong(w, x, n),
    ensures
        cong((y + w) % n, y + x, n),
{
    lemma_cong_rem(y + w, n);
    lemma_cong_add(y, y, w, x, n);
}

/// The carries of a multiplication and the bit lengths they are
/// range-checked with, from the limbs of the operands, of the quotient and
/// of the remainder, and from the bounds of the limbs.
fn mul_carries_exec(
    a: &Vec<BigUint>,
    b: &Vec<BigUint>,
    q: &Vec<BigUint>,
    n: &Vec<BigUint>,
    rem: &Vec<BigUint>,
    am: &Vec<BigUint>,
    bm: &Vec<BigUint>,
    qm: &Vec<BigUint>,
    base: &BigUint,
    base2: &BigUint,
    Ghost(p): Ghost<nat>,
) -> (w: (BigUint, BigUint, u64, u64))
    requires
        a@.len() == 4 && b@.len() == 4 && q@.len() == 4 && n@.len() == 4 && rem@.len() == 4,
        am@.len() == 4 && bm@.len() == 4 && qm@.len() == 4,
        nat_of(*base) > 0,
        nat_of(*base2) == nat_of(*base) * nat_of(*base),
        seq_value(nats(a@), nat_of(*base)) * seq_value(nats(b@), nat_of(*base)) == p * seq_value(
            nats(q@),
            nat_of(*base),
        ) + seq_value(nats(rem@), nat_of(*base)),
        seq_value(nats(n@), nat_of(*base)) + p == (nat_of(*base) * nat_of(*base)) * (nat_of(*base)
            * nat_of(*base)),
        forall|i: int| 0 <= i < 4 ==> nat_of(#[trigger] rem@[i]) < nat_of(*base),
        forall|i: int| 0 <= i < 4 ==> nat_of(#[trigger] a@[i]) <= nat_of(am@[i]),
        forall|i: int| 0 <= i < 4 ==> nat_of(#[trigger] b@[i]) <= nat_of(bm@[i]),
        forall|i: int| 0 <= i < 4 ==> nat_of(#[trigger] q@[i]) <= nat_of(qm@[i]),
    ensures
        mul_intermediate(nats(a@), nats(b@), nats(q@), nats(n@), nats(rem@), 0) + nat_of(*base)
            * mul_intermediate(nats(a@), nats(b@), nats(q@), nats(n@), nats(rem@), 1) == nat_of(w.0)
            * (nat_of(*base) * nat_of(*base)),
        mul_intermediate(nats(a@), nats(b@), nats(q@), nats(n@), nats(rem@), 2) + nat_of(*base)
            * mul_intermediate(nats(a@), nats(b@), nats(q@), nats(n@), nats(rem@), 3) + nat_of(w.0)
            == nat_of(w.1) * (nat_of(*base) * nat_of(*base)),
        nat_of(w.0) < pow2(w.2 as nat),
        nat_of(w.1) < pow2(w.3 as nat),
{
    let ghost r = nat_of(*base);
    proof {
        lemma_nats4(a@);
        lemma_nats4(b@);
        lemma_nats4(q@);
        lemma_nats4(rem@);
        lemma_nats4(am@);
        lemma_nats4(bm@);
        lemma_nats4(qm@);
        lemma_nats4(n@);
        assert(nat_of(rem@[0]) < r && nat_of(rem@[1]) < r && nat_of(rem@[2]) < r && nat_of(rem@[3])
            < r);
        lemma_mul_carries(nats(a@), nats(b@), nats(q@), nats(n@), nats(rem@), p, r);
        lemma_mul_bounds(
            nats(a@),
            nats(b@),
            nats(q@),
            nats(n@),
            nats(rem@),
            nats(am@),
            nats(bm@),
            nats(qm@),
            r,
        );
    }
    let t_lo = mul_half(a, b, q, n, 0, base);
    let t_hi = mul_half(a, b, q, n, 2, base);
    let m_lo = mul_half(am, bm, qm, n, 0, base);
    let m_hi = mul_half(am, bm, qm, n, 2, base);
    let r_lo = pair_exec(&rem[0], &rem[1], base);
    let r_hi = pair_exec(&rem[2], &rem[3], base);
    let v0_max = big_div(&m_lo, base2);
    let v1_max = big_div(&big_add(&m_hi, &v0_max), base2);
    let l0 = big_sub(&t_lo, &r_lo);
    let v0 = big_div(&l0, base2);
    let l1 = big_sub(&big_add(&t_hi, &v0), &r_hi);
    let v1 = big_div(&l1, base2);
    proof {
        lemma_below_pow2_bits(nat_of(v0), nat_of(v0_max));
        lemma_below_pow2_bits(nat_of(v1), nat_of(v1_max));
    }
    let b0 = big_bit_length(&v0_max);
    let b1 = big_bit_length(&v1_max);
    (v0, v1, b0, b1)
}

impl IntegerChip {
    /// The quotient of a product of two operands is within the class of
    /// quotients.
    pub proof fn lemma_operand_product(self, x: nat, y: nat)
        requires
            self.wf(),
            x <= self.rns.range_max(Range::Operand),
            y <= self.rns.range_max(Range::Operand),
        ensures
            (x * y) / self.rns.p() <= self.rns.range_max(Range::MulQuotient),
            self.rns.range_max(Range::MulQuotient) < (self.rns.r() * self.rns.r()) * (self.rns.r()
                * self.rns.r()),
    {
        self.rns.lemma_basics();
        self.rns.lemma_fields();
        reveal(params_ok);
        lemma_quotient_bound(
            x,
            y,
            self.rns.range_max(Range::Operand),
            self.rns.range_max(Range::MulQuotient),
            self.rns.p(),
        );
    }

    /// The bounds of the limbs of a quotient of a multiplication.
    fn quotient_bounds(&self) -> (r: Vec<BigUint>)
        requires
            self.wf(),
        ensures
            r@.len() == 4,
            nat_of(r@[0]) == self.rns.r() - 1,
            nat_of(r@[1]) == self.rns.r() - 1,
            nat_of(r@[2]) == self.rns.r() - 1,
            nat_of(r@[3]) == self.rns.range_top(Range::MulQuotient),
    {
        proof {
            self.rns.lemma_fields();
        }
        let mut q_max: Vec<BigUint> = Vec::new();
        q_max.push(crate::big::big_clone(&self.rns.max_reduced_limb));
        q_max.push(crate::big::big_clone(&self.rns.max_reduced_limb));
        q_max.push(crate::big::big_clone(&self.rns.max_reduced_limb));
        q_max.push(crate::big::big_clone(&self.rns.max_most_significant_mul_quotient_limb));
        q_max
    }

    /// The quotient and the remainder of the product of two operands by the
    /// foreign modulus, each cut into limbs.
    fn product_parts(&self, a: &AssignedInteger, b: &AssignedInteger) -> (w: (Integer, Integer))
        requires
            self.wf(),
            a.wf(self.rns),
            b.wf(self.rns),
            a.max_value(self.rns.r()) <= self.rns.range_max(Range::Operand),
            b.max_value(self.rns.r()) <= self.rns.range_max(Range::Operand),
        ensures
            w.0.wf(),
            w.1.wf(),
            w.0.value(self.rns.r()) == (a.value(self.rns.r()) * b.value(self.rns.r()))
                / self.rns.p(),
            w.1.value(self.rns.r()) == (a.value(self.rns.r()) * b.value(self.rns.r()))
                % self.rns.p(),
            w.1.reduced(self.rns.r()),
            w.1.limb(3) <= self.rns.range_top(Range::Remainder),
            w.0.reduced(self.rns.r()),
            w.0.limb(3) <= self.rns.range_top(Range::MulQuotient),
    {
        let rns = &self.rns;
        let bl = rns.bit_len_limb;
        let ghost r = rns.r();
        let ghost p = rns.p();
        proof {
            rns.lemma_basics();
        }
        let a_int = a.integer();
        let b_int = b.integer();
        let product = big_mul(&compose(&a_int.limbs, bl), &compose(&b_int.limbs, bl));
        let q = big_div(&product, &rns.wrong_modulus);
        let rem = big_rem(&product, &rns.wrong_modulus);
        let quotient = Integer { limbs: decompose(&q, bl) };
        let result = Integer { limbs: decompose(&rem, bl) };
        proof {
            let av = a.value(r);
            let bv = b.value(r);
            lemma_limbs_compose(nat_of(rem), r);
            lemma_limbs_compose(nat_of(q), r);
            assert(result.limb(3) < r && result.limb(3) <= rns.range_top(Range::Remainder)) by {
                rns.lemma_range(Range::Remainder);
                lemma_top_limb_small(nat_of(rem), r);
                lemma_bit_length_bounds(p);
                lemma_top_limb_monotonic(nat_of(rem), rns.range_max(Range::Remainder), r);
            }
            assert(quotient.limb(3) < r && quotient.limb(3) <= rns.range_top(Range::MulQuotient))
                by {
                lemma_horner_monotonic(
                    a.limb_val(0),
                    a.limb_val(1),
                    a.limb_val(2),
                    a.limb_val(3),
                    a.limb_max(0),
                    a.limb_max(1),
                    a.limb_max(2),
                    a.limb_max(3),
                    r,
                );
                lemma_horner_monotonic(
                    b.limb_val(0),
                    b.limb_val(1),
                    b.limb_val(2),
                    b.limb_val(3),
                    b.limb_max(0),
                    b.limb_max(1),
                    b.limb_max(2),
                    b.limb_max(3),
                    r,
                );
                self.lemma_operand_product(av, bv);
                lemma_top_limb_small(nat_of(q), r);
                lemma_top_limb_monotonic(nat_of(q), rns.range_max(Range::MulQuotient), r);
            }
        }
        (quotient, result)
    }

    /// Computes what the multiplication of `a` and `b` places in the
    /// circuit.
    pub fn mul_witness(&self, a: &AssignedInteger, b: &AssignedInteger) -> (w: MulWitness)
        requires
            self.wf(),
            a.wf(self.rns),
            b.wf(self.rns),
            a.max_value(self.rns.r()) <= self.rns.range_max(Range::Operand),
            b.max_value(self.rns.r()) <= self.rns.range_max(Range::Operand),
        ensures
            w.quotient.wf(),
            w.result.wf(),
            w.quotient.value(self.rns.r()) == (a.value(self.rns.r()) * b.value(self.rns.r()))
                / self.rns.p(),
            w.result.value(self.rns.r()) == (a.value(self.rns.r()) * b.value(self.rns.r()))
                % self.rns.p(),
            w.result.reduced(self.rns.r()),
            w.result.limb(3) <= self.rns.range_top(Range::Remainder),
            w.quotient.reduced(self.rns.r()),
            w.quotient.limb(3) <= self.rns.range_top(Range::MulQuotient),
            mul_intermediate(
                a.val_seq(),
                b.val_seq(),
                w.quotient.seq(),
                self.rns.neg_seq(),
                w.result.seq(),
                0,
            ) + self.rns.r() * mul_intermediate(
                a.val_seq(),
                b.val_seq(),
                w.quotient.seq(),
                self.rns.neg_seq(),
                w.result.seq(),
                1,
            ) == nat_of(w.v0) * (self.rns.r() * self.rns.r()),
            mul_intermediate(
                a.val_seq(),
                b.val_seq(),
                w.quotient.seq(),
                self.rns.neg_seq(),
                w.result.seq(),
                2,
            ) + self.rns.r() * mul_intermediate(
                a.val_seq(),
                b.val_seq(),
                w.quotient.seq(),
                self.rns.neg_seq(),
                w.result.seq(),
                3,
            ) + nat_of(w.v0) == nat_of(w.v1) * (self.rns.r() * self.rns.r()),
            nat_of(w.v0) < pow2(w.v0_bits as nat),
            nat_of(w.v1) < pow2(w.v1_bits as nat),
    {
        let rns = &self.rns;
        let ghost r = rns.r();
        let ghost p = rns.p();
        let (quotient, result) = self.product_parts(a, b);
        let a_int = a.integer();
        let b_int = b.integer();
        let a_max = a.max_vals();
        let b_max = b.max_vals();
        let q_max = self.quotient_bounds();
        proof {
            rns.lemma_basics();
            rns.lemma_fields();
            rns.lemma_limbs();
            self.lemma_neg_p();
            lemma_nats4(a_int.limbs@);
            lemma_nats4(b_int.limbs@);
            lemma_nats4(quotient.limbs@);
            lemma_nats4(result.limbs@);
            lemma_nats4(rns.negative_wrong_modulus_decomposed@);
            assert(nats(a_int.limbs@) =~= a.val_seq());
            assert(nats(b_int.limbs@) =~= b.val_seq());
            assert(nats(quotient.limbs@) =~= quotient.seq());
            assert(nats(result.limbs@) =~= result.seq());
            assert(nats(rns.negative_wrong_modulus_decomposed@) =~= rns.neg_seq());
            lemma_fundamental_div_mod((a.value(r) * b.value(r)) as int, p as int);
        }
        let (v0, v1, v0_bits, v1_bits) = mul_carries_exec(
            &a_int.limbs,
            &b_int.limbs,
            &quotient.limbs,
            &rns.negative_wrong_modulus_decomposed,
            &result.limbs,
            &a_max,
            &b_max,
            &q_max,
            &rns.left_shifter_r,
            &rns.left_shifter_2r,
            Ghost(p),
        );
        MulWitness { quotient, result, v0, v1, v0_bits, v1_bits }
    }
}

impl IntegerChip {
    /// One row with a product: the new cell holds `x * y + e1 + e2`.
    fn product_row(&self, ctx: &mut RegionCtx, x: &Witness, y: &Witness, e1: Cell, e2: Cell) -> (w:
        Witness)
        requires
            old(ctx).wf(),
        ensures
            final(ctx).native_modulus == old(ctx).native_modulus,
            final(ctx).satisfied() == old(ctx).satisfied(),
            w.val() == (x.val() * y.val() + cell_int(e1) + cell_int(e2)) % (old(ctx).modulus() as int),
    {
        ctx.derive_product(x, y, e1, e2)
    }

    /// The cell of the intermediate value of limb 0.
    fn mul_cell_0(
        &self,
        ctx: &mut RegionCtx,
        a: &AssignedInteger,
        b: &AssignedInteger,
        q: &AssignedInteger,
        res: &AssignedInteger,
    ) -> (t: Witness)
        requires
            self.wf(),
            self.fits(*old(ctx)),
            a.limbs@.len() == 4 && b.limbs@.len() == 4 && q.limbs@.len() == 4 && res.limbs@.len()
                == 4,
        ensures
            final(ctx).native_modulus == old(ctx).native_modulus,
            final(ctx).satisfied() == old(ctx).satisfied(),
            cong(
                t.val() as int,
                mul_intermediate(
                    a.val_seq(),
                    b.val_seq(),
                    q.val_seq(),
                    self.rns.neg_seq(),
                    res.val_seq(),
                    0,
                ),
                self.rns.n() as int,
            ),
    {
        let n = &self.rns.negative_wrong_modulus_decomposed;
        proof {
            reveal(conv);
            self.rns.lemma_limbs();
            let m = self.rns.n() as int;
            let x = a.limb_val(0) * b.limb_val(0) + self.rns.neg_p(0) * q.limb_val(0) - res.limb_val(
                0,
            );
            lemma_cong_rem(x, m);
            assert(self.rns.neg_p(0) * q.limb_val(0) == q.limb_val(0) * self.rns.neg_p(0))
                by (nonlinear_arith);
        }
        self.product_row(
            ctx,
            &a.limbs[0].witness,
            &b.limbs[0].witness,
            Cell::scaled(&q.limbs[0].witness, &n[0]),
            Cell::minus_times(&res.limbs[0].witness, 1),
        )
    }

    /// The cell of the intermediate value of limb 1.
    fn mul_cell_1(
        &self,
        ctx: &mut RegionCtx,
        a: &AssignedInteger,
        b: &AssignedInteger,
        q: &AssignedInteger,
        res: &AssignedInteger,
    ) -> (t: Witness)
        requires
            self.wf(),
            self.fits(*old(ctx)),
            a.limbs@.len() == 4 && b.limbs@.len() == 4 && q.limbs@.len() == 4 && res.limbs@.len()
                == 4,
        ensures
            final(ctx).native_modulus == old(ctx).native_modulus,
            final(ctx).satisfied() == old(ctx).satisfied(),
            cong(
                t.val() as int,
                mul_intermediate(
                    a.val_seq(),
                    b.val_seq(),
                    q.val_seq(),
                    self.rns.neg_seq(),
                    res.val_seq(),
                    1,
                ),
                self.rns.n() as int,
            ),
    {
        let n = &self.rns.negative_wrong_modulus_decomposed;
        proof {
            self.rns.lemma_limbs();
        }
        let p1 = self.product_row(
            ctx,
            &a.limbs[0].witness,
            &b.limbs[1].witness,
            Cell::scaled(&q.limbs[0].witness, &n[1]),
            Cell::scaled(&q.limbs[1].witness, &n[0]),
        );
        let t = self.product_row(
            ctx,
            &a.limbs[1].witness,
            &b.limbs[0].witness,
            Cell::times(&p1, 1),
            Cell::minus_times(&res.limbs[1].witness, 1),
        );
        proof {
            reveal(conv);
            let m = self.rns.n() as int;
            let (q0, q1) = (q.limb_val(0) as int, q.limb_val(1) as int);
            let (n0, n1) = (self.rns.neg_p(0) as int, self.rns.neg_p(1) as int);
            let x1 = a.limb_val(0) * b.limb_val(1) + n1 * q0 + n0 * q1;
            lemma_cong_rem(x1, m);
            lemma_chain(a.limb_val(1) * b.limb_val(0) - res.limb_val(1), p1.val() as int, x1, m);
            assert(n1 * q0 == q0 * n1 && n0 * q1 == q1 * n0) by (nonlinear_arith);
        }
        t
    }

    /// The cell of the intermediate value of limb 2.
    fn mul_cell_2(
        &self,
        ctx: &mut RegionCtx,
        a: &AssignedInteger,
        b: &AssignedInteger,
        q: &AssignedInteger,
        res: &AssignedInteger,
    ) -> (t: Witness)
        requires
            self.wf(),
            self.fits(*old(ctx)),
            a.limbs@.len() == 4 && b.limbs@.len() == 4 && q.limbs@.len() == 4 && res.limbs@.len()
                == 4,
        ensures
            final(ctx).native_modulus == old(ctx).native_modulus,
            final(ctx).satisfied() == old(ctx).satisfied(),
            cong(
                t.val() as int,
                mul_intermediate(
                    a.val_seq(),
                    b.val_seq(),
                    q.val_seq(),
                    self.rns.neg_seq(),
                    res.val_seq(),
                    2,
                ),
                self.rns.n() as int,
            ),
    {
        let n = &self.rns.negative_wrong_modulus_decomposed;
        proof {
            self.rns.lemma_limbs();
        }
        let p1 = self.product_row(
            ctx,
            &a.limbs[0].witness,
            &b.limbs[2].witness,
            Cell::scaled(&q.limbs[0].witness, &n[2]),
            Cell::scaled(&q.limbs[1].witness, &n[1]),
        );
        let p2 = self.product_row(
            ctx,
            &a.limbs[1].witness,
            &b.limbs[1].witness,
            Cell::times(&p1, 1),
            Cell::scaled(&q.limbs[2].witness, &n[0]),
        );
        let t = self.product_row(
            ctx,
            &a.limbs[2].witness,
            &b.limbs[0].witness,
            Cell::times(&p2, 1),
            Cell::minus_times(&res.limbs[2].witness, 1),
        );
        proof {
            reveal(conv);
            let m = self.rns.n() as int;
            let (q0, q1, q2) = (q.limb_val(0) as int, q.limb_val(1) as int, q.limb_val(2) as int);
            let (n0, n1, n2) = (
                self.rns.neg_p(0) as int,
                self.rns.neg_p(1) as int,
                self.rns.neg_p(2) as int,
            );
            let x1 = a.limb_val(0) * b.limb_val(2) + n2 * q0 + n1 * q1;
            let y2 = a.limb_val(1) * b.limb_val(1) + n0 * q2;
            lemma_cong_rem(x1, m);
            lemma_chain(y2, p1.val() as int, x1, m);
            lemma_chain(
                a.limb_val(2) * b.limb_val(0) - res.limb_val(2),
                p2.val() as int,
                y2 + x1,
                m,
            );
            assert(n2 * q0 == q0 * n2 && n1 * q1 == q1 * n1 && n0 * q2 == q2 * n0)
                by (nonlinear_arith);
        }
        t
    }

    /// The cell of the intermediate value of limb 3.
    fn mul_cell_3(
        &self,
        ctx: &mut RegionCtx,
        a: &AssignedInteger,
        b: &AssignedInteger,
        q: &AssignedInteger,
        res: &AssignedInteger,
    ) -> (t: Witness)
        requires
            self.wf(),
            self.fits(*old(ctx)),
            a.limbs@.len() == 4 && b.limbs@.len() == 4 && q.limbs@.len() == 4 && res.limbs@.len()
                == 4,
        ensures
            final(ctx).native_modulus == old(ctx).native_modulus,
            final(ctx).satisfied() == old(ctx).satisfied(),
            cong(
                t.val() as int,
                mul_intermediate(
                    a.val_seq(),
                    b.val_seq(),
                    q.val_seq(),
                    self.rns.neg_seq(),
                    res.val_seq(),
                    3,
                ),
                self.rns.n() as int,
            ),
    {
        let n = &self.rns.negative_wrong_modulus_decomposed;
        proof {
            self.rns.lemma_limbs();
        }
        let p1 = self.product_row(
            ctx,
            &a.limbs[0].witness,
            &b.limbs[3].witness,
            Cell::scaled(&q.limbs[0].witness, &n[3]),
            Cell::scaled(&q.limbs[1].witness, &n[2]),
        );
        let p2 = self.product_row(
            ctx,
            &a.limbs[1].witness,
            &b.limbs[2].witness,
            Cell::times(&p1, 1),
            Cell::scaled(&q.limbs[2].witness, &n[1]),
        );
        let p3 = self.product_row(
            ctx,
            &a.limbs[2].witness,
            &b.limbs[1].witness,
            Cell::times(&p2, 1),
            Cell::scaled(&q.limbs[3].witness, &n[0]),
        );
        let t = self.product_row(
            ctx,
            &a.limbs[3].witness,
            &b.limbs[0].witness,
            Cell::times(&p3, 1),
            Cell::minus_times(&res.limbs[3].witness, 1),
        );
        proof {
            reveal(conv);
            let m = self.rns.n() as int;
            let (q0, q1, q2, q3) = (
                q.limb_val(0) as int,
                q.limb_val(1) as int,
                q.limb_val(2) as int,
                q.limb_val(3) as int,
            );
            let (n0, n1, n2, n3) = (
                self.rns.neg_p(0) as int,
                self.rns.neg_p(1) as int,
                self.rns.neg_p(2) as int,
                self.rns.neg_p(3) as int,
            );
            let x1 = a.limb_val(0) * b.limb_val(3) + n3 * q0 + n2 * q1;
            let y2 = a.limb_val(1) * b.limb_val(2) + n1 * q2;
            let y3 = a.limb_val(2) * b.limb_val(1) + n0 * q3;
            lemma_cong_rem(x1, m);
            lemma_chain(y2, p1.val() as int, x1, m);
            lemma_chain(y3, p2.val() as int, y2 + x1, m);
            lemma_chain(
                a.limb_val(3) * b.limb_val(0) - res.limb_val(3),
                p3.val() as int,
                y3 + (y2 + x1),
                m,
            );
            assert(n3 * q0 == q0 * n3 && n2 * q1 == q1 * n2 && n1 * q2 == q2 * n1 && n0 * q3 == q3
                * n0) by (nonlinear_arith);
        }
        t
    }

    /// What the rows of a multiplication demand of the operands `a` and
    /// `b`, the quotient `q`, the result `res` and the two carries: the
    /// carries, taken in the native field, are within their bit lengths; the
    /// intermediate values `t_i` of the limbs meet
    /// `t_0 + r * t_1 = v_0 * r^2` and `t_2 + r * t_3 + v_0 = v_1 * r^2` in
    /// the native field; and so do the values `a * b = p * q + res`.
    pub open spec fn product_checks(
        self,
        a: AssignedInteger,
        b: AssignedInteger,
        q: AssignedInteger,
        res: AssignedInteger,
        v0: nat,
        v1: nat,
        v0_bits: nat,
        v1_bits: nat,
    ) -> bool {
        let n = self.rns.n();
        let r = self.rns.r();
        let (w0, w1) = (v0 % n, v1 % n);
        let (sa, sb, sq, sr) = (a.val_seq(), b.val_seq(), q.val_seq(), res.val_seq());
        let sn = self.rns.neg_seq();
        let t0 = mul_intermediate(sa, sb, sq, sn, sr, 0);
        let t1 = mul_intermediate(sa, sb, sq, sn, sr, 1);
        let t2 = mul_intermediate(sa, sb, sq, sn, sr, 2);
        let t3 = mul_intermediate(sa, sb, sq, sn, sr, 3);
        &&& w0 < pow2(v0_bits)
        &&& w1 < pow2(v1_bits)
        &&& (t0 + r * t1 - (r * r) * w0) % (n as int) == 0
        &&& (t2 + r * t3 + w0 - (r * r) * w1) % (n as int) == 0
        &&& (a.value(r) * b.value(r) - self.rns.p() * q.value(r) - res.value(r)) % (n as int) == 0
    }

    /// The rows of a multiplication hold of a quotient, a result and carries
    /// that are exact: where `a * b = p * q + res` and the carries are those
    /// of the intermediate values and within their bit lengths.
    pub proof fn lemma_exact_product(
        self,
        a: AssignedInteger,
        b: AssignedInteger,
        q: AssignedInteger,
        res: AssignedInteger,
        v0: nat,
        v1: nat,
        v0_bits: nat,
        v1_bits: nat,
    )
        requires
            self.wf(),
            a.value(self.rns.r()) * b.value(self.rns.r()) == self.rns.p() * q.value(self.rns.r())
                + res.value(self.rns.r()),
            mul_intermediate(
                a.val_seq(),
                b.val_seq(),
                q.val_seq(),
                self.rns.neg_seq(),
                res.val_seq(),
                0,
            ) + self.rns.r() * mul_intermediate(
                a.val_seq(),
                b.val_seq(),
                q.val_seq(),
                self.rns.neg_seq(),
                res.val_seq(),
                1,
            ) == v0 * (self.rns.r() * self.rns.r()),
            mul_intermediate(
                a.val_seq(),
                b.val_seq(),
                q.val_seq(),
                self.rns.neg_seq(),
                res.val_seq(),
                2,
            ) + self.rns.r() * mul_intermediate(
                a.val_seq(),
                b.val_seq(),
                q.val_seq(),
                self.rns.neg_seq(),
                res.val_seq(),
                3,
            ) + v0 == v1 * (self.rns.r() * self.rns.r()),
            v0 < pow2(v0_bits),
            v1 < pow2(v1_bits),
        ensures
            self.product_checks(a, b, q, res, v0, v1, v0_bits, v1_bits),
    {
        let n = self.rns.n();
        let r = self.rns.r();
        self.rns.lemma_basics();
        lemma_mod_decreases(v0, n);
        lemma_mod_decreases(v1, n);
        let (sa, sb, sq, sr) = (a.val_seq(), b.val_seq(), q.val_seq(), res.val_seq());
        let sn = self.rns.neg_seq();
        lemma_exact_carries(
            mul_intermediate(sa, sb, sq, sn, sr, 0),
            mul_intermediate(sa, sb, sq, sn, sr, 1),
            mul_intermediate(sa, sb, sq, sn, sr, 2),
            mul_intermediate(sa, sb, sq, sn, sr, 3),
            v0,
            v1,
            r,
            n,
        );
        lemma_small_mod(0, n);
    }

    /// Constrains `a * b = p * q + res`: the four intermediate values, the
    /// two carries with their range checks, the two rows that check the
    /// carries, and the row of the native field. The circuit stays satisfied
    /// exactly where the numbers meet what the rows demand.
    pub fn constrain_product(
        &self,
        ctx: &mut RegionCtx,
        a: &AssignedInteger,
        b: &AssignedInteger,
        q: &AssignedInteger,
        res: &AssignedInteger,
        v0: &BigUint,
        v1: &BigUint,
        v0_bits: u64,
        v1_bits: u64,
    )
        requires
            self.wf(),
            self.fits(*old(ctx)),
            a.wf(self.rns),
            b.wf(self.rns),
            q.wf(self.rns),
            res.wf(self.rns),
        ensures
            final(ctx).native_modulus == old(ctx).native_modulus,
            final(ctx).satisfied() == (old(ctx).satisfied() && self.product_checks(
                *a,
                *b,
                *q,
                *res,
                nat_of(*v0),
                nat_of(*v1),
                v0_bits as nat,
                v1_bits as nat,
            )),
    {
        let rns = &self.rns;
        let ghost n = rns.n();
        let ghost r = rns.r();
        proof {
            rns.lemma_basics();
            rns.lemma_fields();
        }
        let range_chip = self.range_chip();
        let t0 = self.mul_cell_0(ctx, a, b, q, res);
        let t1 = self.mul_cell_1(ctx, a, b, q, res);
        let t2 = self.mul_cell_2(ctx, a, b, q, res);
        let t3 = self.mul_cell_3(ctx, a, b, q, res);
        let v0w = range_chip.range_value(ctx, v0, v0_bits);
        let v1w = range_chip.range_value(ctx, v1, v1_bits);
        proof {
            let sa = a.val_seq();
            let sb = b.val_seq();
            let sq = q.val_seq();
            let sn = rns.neg_seq();
            let sr = res.val_seq();
            let t = seq![
                mul_intermediate(sa, sb, sq, sn, sr, 0),
                mul_intermediate(sa, sb, sq, sn, sr, 1),
                mul_intermediate(sa, sb, sq, sn, sr, 2),
                mul_intermediate(sa, sb, sq, sn, sr, 3),
            ];
            let tw = seq![t0.val(), t1.val(), t2.val(), t3.val()];
            lemma_carry_rows_congruent(t, tw, v0w.val(), v1w.val(), r, n);
            lemma_native_mul_row(a.value(r), b.value(r), q.value(r), rns.p(), res.value(r), n);
        }
        self.constrain_carries(ctx, &t0, &t1, &t2, &t3, &v0w, &v1w);
        ctx.constrain_product(
            &a.native,
            &b.native,
            Cell::minus_scaled(&q.native, &rns.wrong_modulus_in_native_modulus),
            Cell::minus_times(&res.native, 1),
            Coeff::from_u64(0),
        );
    }

    /// Multiplies two elements whose largest possible values are within the
    /// bound of an operand.
    pub fn mul_operands(&self, ctx: &mut RegionCtx, a: &AssignedInteger, b: &AssignedInteger) -> (res:
        AssignedInteger)
        requires
            self.wf(),
            self.fits(*old(ctx)),
            a.wf(self.rns),
            b.wf(self.rns),
            a.max_value(self.rns.r()) <= self.rns.range_max(Range::Operand),
            b.max_value(self.rns.r()) <= self.rns.range_max(Range::Operand),
        ensures
            final(ctx).native_modulus == old(ctx).native_modulus,
            final(ctx).satisfied() == old(ctx).satisfied(),
            res.wf(self.rns),
            res.bounded_as(self.rns, Range::Remainder),
            res.value(self.rns.r()) == (a.value(self.rns.r()) * b.value(self.rns.r())) % self.rns.p(),
    {
        let ghost n = self.rns.n();
        let ghost r = self.rns.r();
        let w = self.mul_witness(a, b);
        proof {
            self.rns.lemma_basics();
            assert forall|i: int| 0 <= i < 4 implies w.quotient.limb(i) % n == w.quotient.limb(i)
                && w.result.limb(i) % n == w.result.limb(i) by {
                self.rns.lemma_range(Range::MulQuotient);
                self.rns.lemma_range(Range::Remainder);
                lemma_small_mod(w.quotient.limb(i), n);
                lemma_small_mod(w.result.limb(i), n);
            }
            lemma_fundamental_div_mod((a.value(r) * b.value(r)) as int, self.rns.p() as int);
        }
        let q = self.range_assign_integer(ctx, &w.quotient, Range::MulQuotient);
        let res = self.range_assign_integer(ctx, &w.result, Range::Remainder);
        proof {
            assert(q.val_seq() =~= w.quotient.seq());
            assert(res.val_seq() =~= w.result.seq());
        }
        proof {
            self.lemma_exact_product(
                *a,
                *b,
                q,
                res,
                nat_of(w.v0),
                nat_of(w.v1),
                w.v0_bits as nat,
                w.v1_bits as nat,
            );
        }
        self.constrain_product(ctx, a, b, &q, &res, &w.v0, &w.v1, w.v0_bits, w.v1_bits);
        res
    }

    /// `a * b`. An operand with a limb above the bound of a reduced limb,
    /// or with a largest possible value above the bound of an operand, is
    /// reduced first. The result is a remainder by the foreign modulus.
    pub fn mul(&self, ctx: &mut RegionCtx, a: &AssignedInteger, b: &AssignedInteger) -> (res:
        AssignedInteger)
        requires
            self.wf(),
            self.fits(*old(ctx)),
            a.wf(self.rns),
            b.wf(self.rns),
        ensures
            final(ctx).native_modulus == old(ctx).native_modulus,
            final(ctx).satisfied() == old(ctx).satisfied(),
            res.wf(self.rns),
            res.bounded_as(self.rns, Range::Remainder),
            res.max_value(self.rns.r()) == self.rns.range_max(Range::Remainder),
            res.value(self.rns.r()) == (a.value(self.rns.r()) * b.value(self.rns.r())) % self.rns.p(),
    {
        let a1 = self.reduce_if_limb_values_exceeds_reduced(ctx, a);
        let b1 = self.reduce_if_limb_values_exceeds_reduced(ctx, b);
        let a2 = self.reduce_if_max_operand_value_exceeds(ctx, &a1);
        let b2 = self.reduce_if_max_operand_value_exceeds(ctx, &b1);
        proof {
            let r = self.rns.r();
            self.rns.lemma_basics();
            self.rns.lemma_range(Range::Remainder);
            lemma_cong_mul(
                a2.value(r) as int,
                a.value(r) as int,
                b2.value(r) as int,
                b.value(r) as int,
                self.rns.p() as int,
            );
        }
        self.mul_operands(ctx, &a2, &b2)
    }

    /// `a * a`, by the rules of [`IntegerChip::mul`].
    pub fn square(&self, ctx: &mut RegionCtx, a: &AssignedInteger) -> (res: AssignedInteger)
        requires
            self.wf(),
            self.fits(*old(ctx)),
            a.wf(self.rns),
        ensures
            final(ctx).native_modulus == old(ctx).native_modulus,
            final(ctx).satisfied() == old(ctx).satisfied(),
            res.wf(self.rns),
            res.bounded_as(self.rns, Range::Remainder),
            res.max_value(self.rns.r()) == self.rns.range_max(Range::Remainder),
            res.value(self.rns.r()) == (a.value(self.rns.r()) * a.value(self.rns.r())) % self.rns.p(),
    {
        let a1 = self.reduce_if_limb_values_exceeds_reduced(ctx, a);
        let a2 = self.reduce_if_max_operand_value_exceeds(ctx, &a1);
        proof {
            let r = self.rns.r();
            self.rns.lemma_basics();
            self.rns.lemma_range(Range::Remainder);
            lemma_cong_mul(
                a2.value(r) as int,
                a.value(r) as int,
                a2.value(r) as int,
                a.value(r) as int,
                self.rns.p() as int,
            );
        }
        self.mul_operands(ctx, &a2, &a2)
    }
}

} // verus!
