//! The residue number system: every constant that follows from the foreign
//! modulus, the native modulus and the bit length of a limb.

use crate::big::{
    big_add, big_clone, big_div, big_from_u64, big_lt, big_mul, big_rem, big_shl, big_shr,
    big_sub, nat_of,
};
use crate::integer::Range;
use crate::limbs::{big_bit_length, big_pow2, big_pow2_minus_one, bit_length, copy_limbs, decompose, horner, lemma_bit_length_bounds, lemma_bit_length_le, lemma_bit_length_unique, lemma_limbs_compose, lemma_ones_limbs, lemma_top_limb_positive, limb_of, limbs_value, NUMBER_OF_LOOKUP_LIMBS};
use num_bigint::BigUint;
use vstd::arithmetic::power2::{lemma_pow2_adds, lemma_pow2_pos, lemma_pow2_strictly_increases, pow2};
use vstd::prelude::*;

verus! {

/// The largest accepted bit length of a limb.
pub const MAX_BIT_LEN_LIMB: usize = 1024;

/// `2^(4 * bl)`: the modulus of four limbs of `bl` bits.
pub open spec fn binary_of(bl: nat) -> nat {
    (pow2(bl) * pow2(bl)) * (pow2(bl) * pow2(bl))
}

/// The bound of a reduced value: the largest number with as many bits as `p`.
pub open spec fn max_remainder_of(p: nat) -> nat {
    (pow2(bit_length(p)) - 1) as nat
}

/// A first bound for operands of a multiplication, from the size of the
/// product of the binary and the native modulus.
pub open spec fn pre_max_operand_of(n: nat, bl: nat) -> nat {
    (pow2((bit_length(binary_of(bl) * n) / 2 - 1) as nat) - 1) as nat
}

/// The bound of the quotient of a multiplication.
pub open spec fn max_mul_quotient_of(p: nat, n: nat, bl: nat) -> nat {
    let pre = pre_max_operand_of(n, bl);
    (pow2(bit_length((pre * pre) / p)) - 1) as nat
}

/// The bound of an operand of a multiplication.
pub open spec fn max_operand_of(p: nat, n: nat, bl: nat) -> nat {
    let x = max_mul_quotient_of(p, n, bl) * p + max_remainder_of(p);
    (pow2((bit_length(x) / 2 - 1) as nat) - 1) as nat
}

/// The bound of a limb that may still be added to.
pub open spec fn max_unreduced_limb_of(bl: nat) -> nat {
    (pow2(bl + bl / 2) - 1) as nat
}

/// The doubled limbs of `p`.
pub open spec fn doubled_limbs(p: nat, r: nat) -> Seq<nat> {
    seq![2 * limb_of(p, 0, r), 2 * limb_of(p, 1, r), 2 * limb_of(p, 2, r), 2 * limb_of(p, 3, r)]
}

/// Whether limb `lo` must borrow from the limb above it to reach `r`.
pub open spec fn must_borrow(s: Seq<nat>, lo: int, r: nat) -> bool {
    s[lo] < r
}

/// Limb `lo` raised by `r` at the cost of one unit of the limb above it,
/// where limb `lo` is below `r`.
pub open spec fn borrow_step(s: Seq<nat>, lo: int, r: nat) -> Seq<nat> {
    if must_borrow(s, lo, r) {
        s.update(lo + 1, (s[lo + 1] - 1) as nat).update(lo, s[lo] + r)
    } else {
        s
    }
}

/// The limbs of `2 * p` from which the constants of a subtraction are made:
/// the doubled limbs of `p`, with each of the three lower limbs raised to at
/// least `r` by borrowing.
pub open spec fn base_aux_of(p: nat, r: nat) -> Seq<nat> {
    borrow_step(borrow_step(borrow_step(doubled_limbs(p, r), 2, r), 1, r), 0, r)
}

/// No borrow takes from an empty limb, and no limb ends up zero.
pub open spec fn base_aux_ok(p: nat, r: nat) -> bool {
    let s0 = doubled_limbs(p, r);
    let s1 = borrow_step(s0, 2, r);
    let s2 = borrow_step(s1, 1, r);
    let s3 = borrow_step(s2, 0, r);
    &&& must_borrow(s0, 2, r) ==> s0[3] >= 1
    &&& must_borrow(s1, 1, r) ==> s1[2] >= 1
    &&& must_borrow(s2, 0, r) ==> s2[1] >= 1
    &&& s3[0] >= 1 && s3[1] >= 1 && s3[2] >= 1 && s3[3] >= 1
}

/// Whether the limbs `base`, shifted left by `s` bits, are at least `max`.
pub open spec fn covers(base: Seq<nat>, max: Seq<nat>, s: nat) -> bool {
    &&& base[0] * pow2(s) >= max[0]
    &&& base[1] * pow2(s) >= max[1]
    &&& base[2] * pow2(s) >= max[2]
    &&& base[3] * pow2(s) >= max[3]
}

/// The first shift from `s` on, and at most `bound`, at which `base` covers
/// `max`.
pub open spec fn shift_search(base: Seq<nat>, max: Seq<nat>, s: nat, bound: nat) -> nat
    decreases bound - s,
{
    if s >= bound || covers(base, max, s) {
        s
    } else {
        shift_search(base, max, s + 1, bound)
    }
}

/// The largest bit length among four limbs.
pub open spec fn max_bit_length(max: Seq<nat>) -> nat {
    let a = bit_length(max[0]);
    let b = bit_length(max[1]);
    let c = bit_length(max[2]);
    let d = bit_length(max[3]);
    let ab = if a >= b { a } else { b };
    let cd = if c >= d { c } else { d };
    if ab >= cd { ab } else { cd }
}

/// The least shift at which `base` covers `max`.
pub open spec fn aux_shift_of(base: Seq<nat>, max: Seq<nat>) -> nat {
    shift_search(base, max, 0, max_bit_length(max))
}

/// Four times the same limb.
pub open spec fn four(x: nat) -> Seq<nat> {
    seq![x, x, x, x]
}

/// The shift of the subtraction constants that cover unreduced limbs.
pub open spec fn unreduced_shift_of(p: nat, bl: nat) -> nat {
    aux_shift_of(base_aux_of(p, pow2(bl)), four(max_unreduced_limb_of(bl)))
}

/// Whether a number system can be built on these parameters.
#[verifier::opaque]
pub open spec fn params_ok(p: nat, n: nat, bl: nat) -> bool {
    let r = pow2(bl);
    let mq = max_mul_quotient_of(p, n, bl);
    let mop = max_operand_of(p, n, bl);
    let mr = max_remainder_of(p);
    let u = max_unreduced_limb_of(bl);
    let base = base_aux_of(p, r);
    let t = pow2(unreduced_shift_of(p, bl));
    &&& 1 <= bl <= MAX_BIT_LEN_LIMB
    &&& p >= 2
    &&& n >= 2
    &&& p < binary_of(bl)
    &&& n < binary_of(bl)
    &&& mop > p
    &&& mq > p
    &&& mq < binary_of(bl)
    &&& mq * p + mr < binary_of(bl) * n
    &&& mop * mop < (mq + 1) * p
    &&& base_aux_ok(p, r)
    &&& u + base[0] * t < n
    &&& u + base[1] * t < n
    &&& u + base[2] * t < n
    &&& u + base[3] * t < n
    &&& 3 * u < n
    &&& r * r < n
}

/// The constants of one pair of moduli and one limb length.
pub struct Rns {
    pub bit_len_limb: usize,
    pub bit_len_lookup: usize,
    pub wrong_modulus: BigUint,
    pub native_modulus: BigUint,
    pub binary_modulus: BigUint,
    pub crt_modulus: BigUint,
    pub left_shifter_r: BigUint,
    pub left_shifter_2r: BigUint,
    pub wrong_modulus_decomposed: Vec<BigUint>,
    pub negative_wrong_modulus_decomposed: Vec<BigUint>,
    pub wrong_modulus_minus_one: Vec<BigUint>,
    pub wrong_modulus_in_native_modulus: BigUint,
    pub base_aux: Vec<BigUint>,
    pub max_reduced_limb: BigUint,
    pub max_unreduced_limb: BigUint,
    pub max_remainder: BigUint,
    pub max_operand: BigUint,
    pub max_mul_quotient: BigUint,
    pub max_most_significant_reduced_limb: BigUint,
    pub max_most_significant_operand_limb: BigUint,
    pub max_most_significant_mul_quotient_limb: BigUint,
}

/// The naturals that a vector of numbers holds.
pub open spec fn nats(v: Seq<BigUint>) -> Seq<nat> {
    v.map_values(|b: BigUint| nat_of(b))
}

impl Rns {
    /// The foreign modulus.
    pub open spec fn p(self) -> nat {
        nat_of(self.wrong_modulus)
    }

    /// The native modulus.
    pub open spec fn n(self) -> nat {
        nat_of(self.native_modulus)
    }

    /// The bit length of a limb.
    pub open spec fn bl(self) -> nat {
        self.bit_len_limb as nat
    }

    /// The base of the limbs, `2^bit_len_limb`.
    pub open spec fn r(self) -> nat {
        pow2(self.bit_len_limb as nat)
    }

    /// Limb `i` of `2^(4 * bit_len_limb) - p`.
    pub open spec fn neg_p(self, i: int) -> nat {
        nat_of(self.negative_wrong_modulus_decomposed@[i])
    }

    /// Every constant is what the parameters determine.
    pub closed spec fn wf(self) -> bool {
        let p = self.p();
        let n = self.n();
        let bl = self.bl();
        let r = self.r();
        &&& params_ok(p, n, bl)
        &&& self.bit_len_lookup == self.bit_len_limb / NUMBER_OF_LOOKUP_LIMBS
        &&& nat_of(self.binary_modulus) == binary_of(bl)
        &&& nat_of(self.crt_modulus) == binary_of(bl) * n
        &&& nat_of(self.left_shifter_r) == r
        &&& nat_of(self.left_shifter_2r) == r * r
        &&& self.wrong_modulus_decomposed@.len() == 4
        &&& forall|i: int|
            0 <= i < 4 ==> nat_of(#[trigger] self.wrong_modulus_decomposed@[i]) == limb_of(
                p,
                i as nat,
                r,
            )
        &&& self.negative_wrong_modulus_decomposed@.len() == 4
        &&& forall|i: int|
            0 <= i < 4 ==> nat_of(#[trigger] self.negative_wrong_modulus_decomposed@[i])
                == limb_of((binary_of(bl) - p) as nat, i as nat, r)
        &&& self.wrong_modulus_minus_one@.len() == 4
        &&& forall|i: int|
            0 <= i < 4 ==> nat_of(#[trigger] self.wrong_modulus_minus_one@[i]) == limb_of(
                (p - 1) as nat,
                i as nat,
                r,
            )
        &&& nat_of(self.wrong_modulus_in_native_modulus) == p % n
        &&& self.base_aux@.len() == 4
        &&& nats(self.base_aux@) == base_aux_of(p, r)
        &&& nat_of(self.max_reduced_limb) == r - 1
        &&& nat_of(self.max_unreduced_limb) == max_unreduced_limb_of(bl)
        &&& nat_of(self.max_remainder) == max_remainder_of(p)
        &&& nat_of(self.max_operand) == max_operand_of(p, n, bl)
        &&& nat_of(self.max_mul_quotient) == max_mul_quotient_of(p, n, bl)
        &&& nat_of(self.max_most_significant_reduced_limb) == limb_of(max_remainder_of(p), 3, r)
        &&& nat_of(self.max_most_significant_operand_limb) == limb_of(
            max_operand_of(p, n, bl),
            3,
            r,
        )
        &&& nat_of(self.max_most_significant_mul_quotient_limb) == limb_of(
            max_mul_quotient_of(p, n, bl),
            3,
            r,
        )
    }
}

/// `2^(4 * bl)` written as a power of two.
pub proof fn lemma_binary_is_pow2(bl: nat)
    ensures
        binary_of(bl) == pow2(4 * bl),
        binary_of(bl) > 0,
{
    lemma_pow2_adds(bl, bl);
    lemma_pow2_adds(2 * bl, 2 * bl);
    lemma_pow2_pos(4 * bl);
}

/// The product of two numbers below powers of two is below the power of
/// the sum of the exponents.
pub proof fn lemma_mul_lt_pow2(a: nat, b: nat, i: nat, j: nat)
    requires
        a < pow2(i),
        b < pow2(j),
    ensures
        a * b < pow2(i + j),
{
    lemma_pow2_adds(i, j);
    assert(a * b < pow2(i) * pow2(j)) by (nonlinear_arith)
        requires
            a < pow2(i),
            b < pow2(j),
    ;
}

/// A number of at least two has at least two bits.
pub proof fn lemma_two_bits(x: nat)
    requires
        x >= 2,
    ensures
        bit_length(x) >= 2,
{
    assert(bit_length(x) == 1 + bit_length(x / 2));
    assert(x / 2 >= 1);
    assert(bit_length(x / 2) == 1 + bit_length(x / 2 / 2));
}

/// The three bounds of values: of a remainder, of a quotient of a
/// multiplication and of an operand.
fn value_bounds(p: &BigUint, crt: &BigUint, Ghost(n): Ghost<nat>, Ghost(bl): Ghost<nat>) -> (r: (
    BigUint,
    BigUint,
    BigUint,
))
    requires
        1 <= bl <= MAX_BIT_LEN_LIMB,
        nat_of(*p) >= 2,
        n >= 2,
        nat_of(*p) < binary_of(bl),
        n < binary_of(bl),
        nat_of(*crt) == binary_of(bl) * n,
    ensures
        nat_of(r.0) == max_remainder_of(nat_of(*p)),
        nat_of(r.1) == max_mul_quotient_of(nat_of(*p), n, bl),
        nat_of(r.2) == max_operand_of(nat_of(*p), n, bl),
{
    let ghost pn = nat_of(*p);
    proof {
        lemma_binary_is_pow2(bl);
        lemma_bit_length_le(pn, 4 * bl);
    }
    let k = big_bit_length(p);
    let mr = big_pow2_minus_one(k as usize);
    proof {
        lemma_pow2_adds(4 * bl, 4 * bl);
        assert(binary_of(bl) * n < binary_of(bl) * binary_of(bl)) by (nonlinear_arith)
            requires
                n < binary_of(bl),
                binary_of(bl) > 0,
        ;
        lemma_bit_length_le(nat_of(*crt), 8 * bl);
        assert(nat_of(*crt) >= 2) by (nonlinear_arith)
            requires
                nat_of(*crt) == binary_of(bl) * n,
                binary_of(bl) > 0,
                n >= 2,
        ;
        lemma_two_bits(nat_of(*crt));
    }
    let j = big_bit_length(crt) / 2 - 1;
    let pre = big_pow2_minus_one(j as usize);
    let pre2 = big_mul(&pre, &pre);
    let quot = big_div(&pre2, p);
    proof {
        lemma_pow2_pos(j as nat);
        lemma_mul_lt_pow2(nat_of(pre), nat_of(pre), j as nat, j as nat);
        vstd::arithmetic::div_mod::lemma_div_is_ordered_by_denominator(
            nat_of(pre2) as int,
            1,
            pn as int,
        );
        lemma_bit_length_le(nat_of(quot), (j + j) as nat);
    }
    let kq = big_bit_length(&quot);
    let mq = big_pow2_minus_one(kq as usize);
    let x = big_add(&big_mul(&mq, p), &mr);
    proof {
        lemma_pow2_pos(kq as nat);
        lemma_pow2_pos(k as nat);
        lemma_bit_length_bounds(pn);
        lemma_mul_lt_pow2(nat_of(mq), pn, kq as nat, 4 * bl);
        if (k as nat) < kq + 4 * bl {
            lemma_pow2_strictly_increases(k as nat, kq as nat + 4 * bl);
        }
        lemma_pow2_adds(kq as nat + 4 * bl, 1);
        vstd::arithmetic::power2::lemma2_to64();
        lemma_bit_length_le(nat_of(x), kq as nat + 4 * bl + 1);
        assert(nat_of(x) >= 2) by (nonlinear_arith)
            requires
                nat_of(x) == nat_of(mq) * pn + nat_of(mr),
                nat_of(mr) >= pn,
                pn >= 2,
        ;
        lemma_two_bits(nat_of(x));
    }
    let kx = big_bit_length(&x) / 2 - 1;
    let mop = big_pow2_minus_one(kx as usize);
    (mr, mq, mop)
}

/// Four limbs shifted by the same amount denote the shifted number.
pub proof fn lemma_horner_scaled(l0: nat, l1: nat, l2: nat, l3: nat, t: nat, r: nat)
    ensures
        horner(l0 * t, l1 * t, l2 * t, l3 * t, r) == horner(l0, l1, l2, l3, r) * t,
{
    reveal(horner);
    assert(l0 * t + r * (l1 * t + r * (l2 * t + r * (l3 * t))) == (l0 + r * (l1 + r * (l2 + r
        * l3))) * t) by (nonlinear_arith);
}

/// The limbs from which subtraction constants are made denote `2 * p`.
pub proof fn lemma_base_aux_value(p: nat, r: nat)
    requires
        r > 0,
        base_aux_ok(p, r),
    ensures
        ({
            let b = base_aux_of(p, r);
            horner(b[0], b[1], b[2], b[3], r) == 2 * p
        }),
{
    lemma_limbs_compose(p, r);
    reveal(horner);
    let s0 = doubled_limbs(p, r);
    let s1 = borrow_step(s0, 2, r);
    let s2 = borrow_step(s1, 1, r);
    let s3 = borrow_step(s2, 0, r);
    let l0 = limb_of(p, 0, r);
    let l1 = limb_of(p, 1, r);
    let l2 = limb_of(p, 2, r);
    let l3 = limb_of(p, 3, r);
    assert(s0[0] + r * (s0[1] + r * (s0[2] + r * s0[3])) == 2 * (l0 + r * (l1 + r * (l2 + r
        * l3)))) by (nonlinear_arith)
        requires
            s0[0] == 2 * l0,
            s0[1] == 2 * l1,
            s0[2] == 2 * l2,
            s0[3] == 2 * l3,
    ;
    assert(horner(s1[0], s1[1], s1[2], s1[3], r) == horner(s0[0], s0[1], s0[2], s0[3], r)) by {
        if must_borrow(s0, 2, r) {
            let a = s0[2];
            let b = s0[3];
            assert(r * ((a + r) + r * ((b - 1) as nat)) == r * (a + r * b)) by (nonlinear_arith)
                requires
                    b >= 1,
            ;
        }
    }
    assert(horner(s2[0], s2[1], s2[2], s2[3], r) == horner(s1[0], s1[1], s1[2], s1[3], r)) by {
        if must_borrow(s1, 1, r) {
            let a = s1[1];
            let b = s1[2];
            let c = s1[3];
            assert((a + r) + r * (((b - 1) as nat) + r * c) == a + r * (b + r * c)) by (nonlinear_arith)
                requires
                    b >= 1,
            ;
        }
    }
    assert(horner(s3[0], s3[1], s3[2], s3[3], r) == horner(s2[0], s2[1], s2[2], s2[3], r)) by {
        if must_borrow(s2, 0, r) {
            let a = s2[0];
            let b = s2[1];
            let c = s2[2] + r * s2[3];
            assert((a + r) + r * (((b - 1) as nat) + r * c) == a + r * (b + r * c)) by (nonlinear_arith)
                requires
                    b >= 1,
            ;
        }
    }
}

/// The search for a shift ends at a shift that covers, where the bound does.
pub proof fn lemma_shift_search(base: Seq<nat>, max: Seq<nat>, s: nat, bound: nat)
    requires
        s <= bound,
        covers(base, max, bound),
    ensures
        covers(base, max, shift_search(base, max, s, bound)),
        s <= shift_search(base, max, s, bound) <= bound,
    decreases bound - s,
{
    if !(s >= bound || covers(base, max, s)) {
        lemma_shift_search(base, max, s + 1, bound);
    }
}

/// Limbs that are not zero cover, at a shift of the largest bit length, the
/// limbs that the bit length was taken of.
pub proof fn lemma_covers_at_bound(base: Seq<nat>, max: Seq<nat>)
    requires
        base.len() == 4,
        max.len() == 4,
        base[0] >= 1 && base[1] >= 1 && base[2] >= 1 && base[3] >= 1,
    ensures
        covers(base, max, max_bit_length(max)),
{
    let b = max_bit_length(max);
    assert forall|i: int| 0 <= i < 4 implies base[i] * pow2(b) >= max[i] by {
        lemma_bit_length_bounds(max[i]);
        if bit_length(max[i]) < b {
            lemma_pow2_strictly_increases(bit_length(max[i]), b);
        }
        assert(base[i] * pow2(b) >= pow2(b)) by (nonlinear_arith)
            requires
                base[i] >= 1,
        ;
    }
}

/// The numbers of a vector of four, as a sequence of naturals.
pub proof fn lemma_nats4(v: Seq<BigUint>)
    requires
        v.len() == 4,
    ensures
        nats(v) =~= seq![nat_of(v[0]), nat_of(v[1]), nat_of(v[2]), nat_of(v[3])],
        nats(v).len() == 4,
        nats(v)[0] == nat_of(v[0]),
        nats(v)[1] == nat_of(v[1]),
        nats(v)[2] == nat_of(v[2]),
        nats(v)[3] == nat_of(v[3]),
{
}

/// The limbs of `2 * p` from which subtraction constants are made, or
/// `None` where a borrow would take from an empty limb or a limb ends up
/// zero.
fn base_aux_exec(p_limbs: &Vec<BigUint>, r: &BigUint, Ghost(p): Ghost<nat>) -> (res: Option<
    Vec<BigUint>,
>)
    requires
        p_limbs@.len() == 4,
        forall|i: int| 0 <= i < 4 ==> nat_of(#[trigger] p_limbs@[i]) == limb_of(p, i as nat, nat_of(*r)),
    ensures
        res is Some <==> base_aux_ok(p, nat_of(*r)),
        res matches Some(v) ==> v@.len() == 4 && nats(v@) == base_aux_of(p, nat_of(*r)),
{
    let ghost rn = nat_of(*r);
    let two = big_from_u64(2);
    let one = big_from_u64(1);
    let mut d0 = big_mul(&two, &p_limbs[0]);
    let mut d1 = big_mul(&two, &p_limbs[1]);
    let mut d2 = big_mul(&two, &p_limbs[2]);
    let mut d3 = big_mul(&two, &p_limbs[3]);
    let ghost s0 = doubled_limbs(p, rn);
    let ghost s1 = borrow_step(s0, 2, rn);
    let ghost s2 = borrow_step(s1, 1, rn);
    let ghost s3 = borrow_step(s2, 0, rn);
    assert(s0 =~= seq![nat_of(d0), nat_of(d1), nat_of(d2), nat_of(d3)]);
    if big_lt(&d2, r) {
        if big_lt(&d3, &one) {
            return None;
        }
        d3 = big_sub(&d3, &one);
        d2 = big_add(&d2, r);
    }
    assert(s1 =~= seq![nat_of(d0), nat_of(d1), nat_of(d2), nat_of(d3)]);
    if big_lt(&d1, r) {
        if big_lt(&d2, &one) {
            return None;
        }
        d2 = big_sub(&d2, &one);
        d1 = big_add(&d1, r);
    }
    assert(s2 =~= seq![nat_of(d0), nat_of(d1), nat_of(d2), nat_of(d3)]);
    if big_lt(&d0, r) {
        if big_lt(&d1, &one) {
            return None;
        }
        d1 = big_sub(&d1, &one);
        d0 = big_add(&d0, r);
    }
    assert(s3 =~= seq![nat_of(d0), nat_of(d1), nat_of(d2), nat_of(d3)]);
    if big_lt(&d0, &one) || big_lt(&d1, &one) || big_lt(&d2, &one) || big_lt(&d3, &one) {
        return None;
    }
    let mut v: Vec<BigUint> = Vec::new();
    v.push(d0);
    v.push(d1);
    v.push(d2);
    v.push(d3);
    proof {
        lemma_nats4(v@);
    }
    Some(v)
}

/// Whether `base`, shifted left by `s` bits, covers `max`.
fn covers_exec(base: &Vec<BigUint>, max: &Vec<BigUint>, s: usize) -> (r: bool)
    requires
        base@.len() == 4,
        max@.len() == 4,
        s <= 0xffff_ffff,
    ensures
        r == covers(nats(base@), nats(max@), s as nat),
{
    proof {
        lemma_nats4(base@);
        lemma_nats4(max@);
    }
    !big_lt(&big_shl(&base[0], s), &max[0]) && !big_lt(&big_shl(&base[1], s), &max[1]) && !big_lt(
        &big_shl(&base[2], s),
        &max[2],
    ) && !big_lt(&big_shl(&base[3], s), &max[3])
}

/// The larger of two numbers.
fn larger(a: u64, b: u64) -> (r: u64)
    ensures
        r == if a >= b {
            a
        } else {
            b
        },
{
    if a >= b {
        a
    } else {
        b
    }
}

/// The least shift at which `base` covers `max`.
fn aux_shift(base: &Vec<BigUint>, max: &Vec<BigUint>) -> (s: usize)
    requires
        base@.len() == 4,
        max@.len() == 4,
        forall|i: int| 0 <= i < 4 ==> nat_of(#[trigger] max@[i]) < pow2(0x1_0000),
    ensures
        s == aux_shift_of(nats(base@), nats(max@)),
        s <= 0x1_0000,
{
    proof {
        lemma_nats4(max@);
        lemma_bit_length_le(nat_of(max@[0]), 0x1_0000);
        lemma_bit_length_le(nat_of(max@[1]), 0x1_0000);
        lemma_bit_length_le(nat_of(max@[2]), 0x1_0000);
        lemma_bit_length_le(nat_of(max@[3]), 0x1_0000);
    }
    let bound = larger(
        larger(big_bit_length(&max[0]), big_bit_length(&max[1])),
        larger(big_bit_length(&max[2]), big_bit_length(&max[3])),
    );
    let ghost b = nats(base@);
    let ghost m = nats(max@);
    assert(bound == max_bit_length(m));
    let mut s: usize = 0;
    while (s as u64) < bound && !covers_exec(base, max, s)
        invariant
            base@.len() == 4,
            max@.len() == 4,
            b == nats(base@),
            m == nats(max@),
            s <= bound,
            bound <= 0x1_0000,
            shift_search(b, m, s as nat, bound as nat) == shift_search(b, m, 0, bound as nat),
        decreases bound - s,
    {
        s = s + 1;
    }
    s
}

/// A search that meets a covering shift does not pass it.
pub proof fn lemma_shift_search_stops(base: Seq<nat>, max: Seq<nat>, s: nat, bound: nat, c: nat)
    requires
        s <= c,
        covers(base, max, c),
    ensures
        shift_search(base, max, s, bound) <= c,
    decreases bound - s,
{
    if !(s >= bound || covers(base, max, s)) {
        lemma_shift_search_stops(base, max, s + 1, bound, c);
    }
}

/// Smaller limbs are covered at a shift that is not larger.
pub proof fn lemma_aux_shift_monotonic(base: Seq<nat>, max1: Seq<nat>, max2: Seq<nat>)
    requires
        base.len() == 4,
        max1.len() == 4,
        max2.len() == 4,
        base[0] >= 1 && base[1] >= 1 && base[2] >= 1 && base[3] >= 1,
        forall|i: int| 0 <= i < 4 ==> max1[i] <= max2[i],
    ensures
        aux_shift_of(base, max1) <= aux_shift_of(base, max2),
        covers(base, max1, aux_shift_of(base, max1)),
        pow2(aux_shift_of(base, max1)) <= pow2(aux_shift_of(base, max2)),
{
    lemma_covers_at_bound(base, max1);
    lemma_covers_at_bound(base, max2);
    lemma_shift_search(base, max1, 0, max_bit_length(max1));
    lemma_shift_search(base, max2, 0, max_bit_length(max2));
    let s2 = aux_shift_of(base, max2);
    assert(covers(base, max1, s2));
    lemma_shift_search_stops(base, max1, 0, max_bit_length(max1), s2);
    if aux_shift_of(base, max1) < s2 {
        lemma_pow2_strictly_increases(aux_shift_of(base, max1), s2);
    }
}

/// Whether every limb of `base`, shifted left by `s` bits and added to `u`,
/// stays below `n`.
fn headroom_exec(base: &Vec<BigUint>, s: usize, u: &BigUint, n: &BigUint) -> (r: bool)
    requires
        base@.len() == 4,
        s <= 0xffff_ffff,
    ensures
        r == ({
            let b = nats(base@);
            let t = pow2(s as nat);
            &&& nat_of(*u) + b[0] * t < nat_of(*n)
            &&& nat_of(*u) + b[1] * t < nat_of(*n)
            &&& nat_of(*u) + b[2] * t < nat_of(*n)
            &&& nat_of(*u) + b[3] * t < nat_of(*n)
        }),
{
    proof {
        lemma_nats4(base@);
    }
    big_lt(&big_add(u, &big_shl(&base[0], s)), n) && big_lt(
        &big_add(u, &big_shl(&base[1], s)),
        n,
    ) && big_lt(&big_add(u, &big_shl(&base[2], s)), n) && big_lt(
        &big_add(u, &big_shl(&base[3], s)),
        n,
    )
}

/// The fourth limb of a number: what is left above three limbs.
fn top_limb(v: &BigUint, bit_len: usize) -> (r: BigUint)
    ensures
        nat_of(r) == limb_of(nat_of(*v), 3, pow2(bit_len as nat)),
{
    proof {
        reveal(limb_of);
    }
    big_shr(&big_shr(&big_shr(v, bit_len), bit_len), bit_len)
}

/// Four copies of a number.
fn four_of(u: &BigUint) -> (r: Vec<BigUint>)
    ensures
        r@.len() == 4,
        nats(r@) == four(nat_of(*u)),
        forall|i: int| 0 <= i < 4 ==> #[trigger] r@[i] == *u,
{
    let mut v: Vec<BigUint> = Vec::new();
    v.push(big_clone(u));
    v.push(big_clone(u));
    v.push(big_clone(u));
    v.push(big_clone(u));
    proof {
        lemma_nats4(v@);
        assert(nats(v@) =~= four(nat_of(*u)));
    }
    v
}

impl Rns {
    /// Builds the number system of the foreign modulus `p`, the native
    /// modulus `n` and limbs of `bit_len_limb` bits, or `None` where the
    /// parameters do not fit together.
    pub fn construct(p: BigUint, n: BigUint, bit_len_limb: usize) -> (res: Option<Rns>)
        ensures
            res is Some <==> params_ok(nat_of(p), nat_of(n), bit_len_limb as nat),
            res matches Some(rns) ==> rns.wf() && rns.wrong_modulus == p && rns.native_modulus
                == n && rns.bit_len_limb == bit_len_limb,
    {
        let ghost pn = nat_of(p);
        let ghost nn = nat_of(n);
        let ghost bl = bit_len_limb as nat;
        reveal(params_ok);
        if bit_len_limb < 1 || bit_len_limb > MAX_BIT_LEN_LIMB {
            return None;
        }
        let two = big_from_u64(2);
        let one = big_from_u64(1);
        if big_lt(&p, &two) || big_lt(&n, &two) {
            return None;
        }
        let r = big_pow2(bit_len_limb);
        let r2 = big_mul(&r, &r);
        let binary = big_mul(&r2, &r2);
        if !big_lt(&p, &binary) || !big_lt(&n, &binary) {
            return None;
        }
        let crt = big_mul(&binary, &n);
        let (mr, mq, mop) = value_bounds(&p, &crt, Ghost(nn), Ghost(bl));
        if !big_lt(&p, &mop) || !big_lt(&p, &mq) || !big_lt(&mq, &binary) {
            return None;
        }
        let x = big_add(&big_mul(&mq, &p), &mr);
        if !big_lt(&x, &crt) {
            return None;
        }
        if !big_lt(&big_mul(&mop, &mop), &big_mul(&big_add(&mq, &one), &p)) {
            return None;
        }
        let p_limbs = decompose(&p, bit_len_limb);
        let base = match base_aux_exec(&p_limbs, &r, Ghost(pn)) {
            Some(base) => base,
            None => {
                return None;
            },
        };
        let u = big_pow2_minus_one(bit_len_limb + bit_len_limb / 2);
        let max_u = four_of(&u);
        proof {
            lemma_pow2_pos(bl + bl / 2);
            lemma_pow2_strictly_increases(bl + bl / 2, 0x1_0000);
        }
        let s_u = aux_shift(&base, &max_u);
        if !headroom_exec(&base, s_u, &u, &n) {
            return None;
        }
        if !big_lt(&big_mul(&big_from_u64(3), &u), &n) || !big_lt(&r2, &n) {
            return None;
        }
        let neg = decompose(&big_sub(&binary, &p), bit_len_limb);
        let minus_one = decompose(&big_sub(&p, &one), bit_len_limb);
        let rns = Rns {
            bit_len_limb,
            bit_len_lookup: bit_len_limb / NUMBER_OF_LOOKUP_LIMBS,
            wrong_modulus_in_native_modulus: big_rem(&p, &n),
            max_reduced_limb: big_sub(&r, &one),
            max_unreduced_limb: u,
            max_most_significant_reduced_limb: top_limb(&mr, bit_len_limb),
            max_most_significant_operand_limb: top_limb(&mop, bit_len_limb),
            max_most_significant_mul_quotient_limb: top_limb(&mq, bit_len_limb),
            max_remainder: mr,
            max_operand: mop,
            max_mul_quotient: mq,
            wrong_modulus: p,
            native_modulus: n,
            binary_modulus: binary,
            crt_modulus: crt,
            left_shifter_r: r,
            left_shifter_2r: r2,
            wrong_modulus_decomposed: p_limbs,
            negative_wrong_modulus_decomposed: neg,
            wrong_modulus_minus_one: minus_one,
            base_aux: base,
        };
        Some(rns)
    }

    /// The constant that makes a subtraction safe: a multiple of the foreign
    /// modulus whose limbs are at least the given bounds, namely the limbs of
    /// `2 * p`, raised by borrowing, shifted left by the least number of bits
    /// that reaches every bound.
    pub fn make_aux(&self, max_vals: &Vec<BigUint>) -> (r: Integer)
        requires
            self.wf(),
            max_vals@.len() == 4,
            forall|i: int| 0 <= i < 4 ==> nat_of(#[trigger] max_vals@[i]) < self.n(),
        ensures
            r.wf(),
            forall|i: int|
                0 <= i < 4 ==> r.limb(i) == #[trigger] base_aux_of(self.p(), self.r())[i] * pow2(
                    aux_shift_of(base_aux_of(self.p(), self.r()), nats(max_vals@)),
                ),
            forall|i: int| 0 <= i < 4 ==> r.limb(i) >= nat_of(#[trigger] max_vals@[i]),
            r.value(self.r()) == 2 * self.p() * pow2(
                aux_shift_of(base_aux_of(self.p(), self.r()), nats(max_vals@)),
            ),
    {
        let ghost base = base_aux_of(self.p(), self.r());
        let ghost max = nats(max_vals@);
        proof {
            reveal(params_ok);
            lemma_nats4(self.base_aux@);
            lemma_nats4(max_vals@);
            lemma_binary_is_pow2(self.bl());
            lemma_pow2_strictly_increases(4 * self.bl(), 0x1_0000);
            assert forall|i: int| 0 <= i < 4 implies nat_of(#[trigger] max_vals@[i]) < pow2(
                0x1_0000,
            ) by {}
            lemma_covers_at_bound(base, max);
            lemma_shift_search(base, max, 0, max_bit_length(max));
            lemma_pow2_pos(self.bl());
            lemma_base_aux_value(self.p(), self.r());
        }
        let s = aux_shift(&self.base_aux, max_vals);
        let mut limbs: Vec<BigUint> = Vec::new();
        limbs.push(big_shl(&self.base_aux[0], s));
        limbs.push(big_shl(&self.base_aux[1], s));
        limbs.push(big_shl(&self.base_aux[2], s));
        limbs.push(big_shl(&self.base_aux[3], s));
        proof {
            lemma_horner_scaled(base[0], base[1], base[2], base[3], pow2(s as nat), self.r());
        }
        Integer { limbs }
    }
}

/// The exponent `k` of the bound `2^k - 1` of each class of values.
pub open spec fn range_bits_of(p: nat, n: nat, bl: nat, range: Range) -> nat {
    match range {
        Range::Remainder => bit_length(p),
        Range::Operand => (bit_length(max_mul_quotient_of(p, n, bl) * p + max_remainder_of(p)) / 2
            - 1) as nat,
        Range::MulQuotient => {
            let pre = pre_max_operand_of(n, bl);
            bit_length((pre * pre) / p)
        },
    }
}

/// The bound of each class of values.
pub open spec fn range_max_of(p: nat, n: nat, bl: nat, range: Range) -> nat {
    match range {
        Range::Remainder => max_remainder_of(p),
        Range::Operand => max_operand_of(p, n, bl),
        Range::MulQuotient => max_mul_quotient_of(p, n, bl),
    }
}

/// A bound `2^k - 1` that is above a number of four limbs and below the
/// binary modulus has between three and four limbs' worth of bits.
proof fn lemma_bits_between(m: nat, k: nat, p: nat, bl: nat)
    requires
        m == pow2(k) - 1,
        m >= p,
        p >= pow2(bl) * pow2(bl) * pow2(bl),
        m < binary_of(bl),
    ensures
        3 * bl <= k <= 4 * bl,
{
    lemma_binary_is_pow2(bl);
    lemma_pow2_adds(bl, bl);
    lemma_pow2_adds(2 * bl, bl);
    if k < 3 * bl {
        lemma_pow2_strictly_increases(k, 3 * bl);
    }
    if k > 4 * bl {
        lemma_pow2_strictly_increases(4 * bl, k);
    }
}

impl Rns {
    /// The plain facts about the moduli and the base that every gadget
    /// leans on.
    pub proof fn lemma_basics(self)
        requires
            self.wf(),
        ensures
            self.p() >= 2,
            self.n() >= 2,
            self.r() >= 2,
            self.r() < self.n(),
            self.r() * self.r() < self.n(),
            self.r() * self.r() > 0,
            self.p() < (self.r() * self.r()) * (self.r() * self.r()),
            1 <= self.bl() <= MAX_BIT_LEN_LIMB,
            binary_of(self.bl()) == (self.r() * self.r()) * (self.r() * self.r()),
    {
        reveal(params_ok);
        lemma_pow2_pos(self.bl());
        vstd::arithmetic::power2::lemma2_to64();
        if self.bl() > 1 {
            lemma_pow2_strictly_increases(1, self.bl());
        }
        assert(0 < self.r() <= self.r() * self.r()) by (nonlinear_arith)
            requires
                self.r() >= 1,
        ;
    }

    /// What the fields hold.
    pub proof fn lemma_fields(self)
        requires
            self.wf(),
        ensures
            params_ok(self.p(), self.n(), self.bl()),
            self.bit_len_lookup == self.bit_len_limb / NUMBER_OF_LOOKUP_LIMBS,
            nat_of(self.binary_modulus) == binary_of(self.bl()),
            nat_of(self.crt_modulus) == binary_of(self.bl()) * self.n(),
            nat_of(self.left_shifter_r) == self.r(),
            nat_of(self.left_shifter_2r) == self.r() * self.r(),
            nat_of(self.wrong_modulus_in_native_modulus) == self.p() % self.n(),
            nat_of(self.max_reduced_limb) == self.r() - 1,
            nat_of(self.max_unreduced_limb) == max_unreduced_limb_of(self.bl()),
            nat_of(self.max_remainder) == max_remainder_of(self.p()),
            nat_of(self.max_operand) == max_operand_of(self.p(), self.n(), self.bl()),
            nat_of(self.max_mul_quotient) == max_mul_quotient_of(self.p(), self.n(), self.bl()),
            nat_of(self.max_most_significant_reduced_limb) == self.range_top(Range::Remainder),
            nat_of(self.max_most_significant_operand_limb) == self.range_top(Range::Operand),
            nat_of(self.max_most_significant_mul_quotient_limb) == self.range_top(
                Range::MulQuotient,
            ),
            self.base_aux@.len() == 4,
            nats(self.base_aux@) == base_aux_of(self.p(), self.r()),
    {
    }

    /// What the limbs of the constants hold.
    pub proof fn lemma_limbs(self)
        requires
            self.wf(),
        ensures
            self.wrong_modulus_decomposed@.len() == 4,
            self.negative_wrong_modulus_decomposed@.len() == 4,
            self.wrong_modulus_minus_one@.len() == 4,
            forall|i: int|
                0 <= i < 4 ==> nat_of(#[trigger] self.wrong_modulus_decomposed@[i]) == limb_of(
                    self.p(),
                    i as nat,
                    self.r(),
                ),
            forall|i: int|
                0 <= i < 4 ==> #[trigger] self.neg_p(i) == limb_of(
                    (binary_of(self.bl()) - self.p()) as nat,
                    i as nat,
                    self.r(),
                ),
            forall|i: int|
                0 <= i < 4 ==> nat_of(#[trigger] self.wrong_modulus_minus_one@[i]) == limb_of(
                    (self.p() - 1) as nat,
                    i as nat,
                    self.r(),
                ),
    {
    }

    /// The bound of a class of values.
    pub open spec fn range_max(self, range: Range) -> nat {
        range_max_of(self.p(), self.n(), self.bl(), range)
    }

    /// The bound of the fourth limb of a class of values.
    pub open spec fn range_top(self, range: Range) -> nat {
        limb_of(self.range_max(range), 3, self.r())
    }

    /// The bit length of the fourth limb of a class of values.
    pub open spec fn range_top_bits(self, range: Range) -> nat {
        (range_bits_of(self.p(), self.n(), self.bl(), range) - 3 * self.bl()) as nat
    }

    /// What the bounds of a class of values look like limb by limb: three
    /// full limbs and a fourth limb of ones.
    pub proof fn lemma_range(self, range: Range)
        requires
            self.wf(),
        ensures
            self.r() >= 2,
            self.r() < self.n(),
            self.r() * self.r() < self.n(),
            self.p() >= self.r() * self.r() * self.r(),
            self.range_max(range) == pow2(range_bits_of(self.p(), self.n(), self.bl(), range)) - 1,
            3 * self.bl() <= range_bits_of(self.p(), self.n(), self.bl(), range) <= 4 * self.bl(),
            self.range_top(range) == pow2(self.range_top_bits(range)) - 1,
            self.range_top(range) <= self.r() - 1,
            bit_length(self.range_top(range)) == self.range_top_bits(range),
            horner(
                (self.r() - 1) as nat,
                (self.r() - 1) as nat,
                (self.r() - 1) as nat,
                self.range_top(range),
                self.r(),
            ) == self.range_max(range),
    {
        reveal(params_ok);
        let p = self.p();
        let n = self.n();
        let bl = self.bl();
        let r = self.r();
        let k = range_bits_of(p, n, bl, range);
        let m = self.range_max(range);
        lemma_pow2_pos(bl);
        vstd::arithmetic::power2::lemma2_to64();
        if bl > 1 {
            lemma_pow2_strictly_increases(1, bl);
        }
        assert(r <= r * r) by (nonlinear_arith)
            requires
                r >= 1,
        ;
        // the fourth limb of p is not zero
        let s0 = doubled_limbs(p, r);
        let s1 = borrow_step(s0, 2, r);
        let s2 = borrow_step(s1, 1, r);
        let s3 = borrow_step(s2, 0, r);
        assert(s3[3] == s1[3]);
        assert(limb_of(p, 3, r) >= 1);
        lemma_top_limb_positive(p, r);
        lemma_pow2_pos(k);
        lemma_bit_length_bounds(p);
        lemma_binary_is_pow2(bl);
        let mq = max_mul_quotient_of(p, n, bl);
        let mop = max_operand_of(p, n, bl);
        match range {
            Range::Remainder => {
                lemma_bit_length_le(p, 4 * bl);
                if bit_length(p) < 4 * bl {
                    lemma_pow2_strictly_increases(bit_length(p), 4 * bl);
                }
            },
            Range::Operand => {
                assert(mop < binary_of(bl)) by (nonlinear_arith)
                    requires
                        mop * mop < (mq + 1) * p,
                        mq < binary_of(bl),
                        p < binary_of(bl),
                ;
            },
            Range::MulQuotient => {},
        }
        lemma_bits_between(m, k, p, bl);
        lemma_ones_limbs(k, bl);
        lemma_limbs_compose(m, r);
        let tb = (k - 3 * bl) as nat;
        lemma_pow2_pos(tb);
        if tb < bl {
            lemma_pow2_strictly_increases(tb, bl);
        }
        if tb > 0 {
            lemma_pow2_strictly_increases((tb - 1) as nat, tb);
        }
        lemma_bit_length_unique(self.range_top(range), tb);
    }
}

/// A foreign-field element outside the circuit: four limbs of big naturals.
pub struct Integer {
    pub limbs: Vec<BigUint>,
}

impl Integer {
    /// The element has four limbs.
    pub open spec fn wf(self) -> bool {
        self.limbs@.len() == 4
    }

    /// Limb `i` as a natural.
    pub open spec fn limb(self, i: int) -> nat {
        nat_of(self.limbs@[i])
    }

    /// The number the limbs denote in base `r`.
    pub open spec fn value(self, r: nat) -> nat {
        limbs_value(self.limbs@, r)
    }

    /// The element with the given limbs.
    pub fn from_limbs(limbs: Vec<BigUint>) -> (r: Integer)
        ensures
            r.limbs == limbs,
    {
        Integer { limbs }
    }

    /// A copy of the limbs.
    pub fn limbs(&self) -> (r: Vec<BigUint>)
        ensures
            r@ == self.limbs@,
    {
        copy_limbs(&self.limbs)
    }

    /// A copy of the element.
    pub fn copy(&self) -> (r: Integer)
        ensures
            r.limbs@ == self.limbs@,
    {
        Integer { limbs: copy_limbs(&self.limbs) }
    }
}

} // verus!
