//! Numbers as four limbs: how a natural is cut into limbs of a fixed bit
//! length and put together again, and the bit length of a natural.

use crate::big::{big_bits, big_clone, big_add, big_from_u64, big_mul, big_rem, big_shl, big_shr, big_sub, nat_of};
use num_bigint::BigUint;
use vstd::arithmetic::div_mod::{
    lemma_div_is_ordered, lemma_fundamental_div_mod, lemma_multiply_divide_lt,
};
use vstd::arithmetic::power2::{lemma_pow2_pos, lemma_pow2_strictly_increases, lemma_pow2_unfold, pow2};
use vstd::prelude::*;

verus! {

/// The number of limbs of a foreign-field element.
pub const NUMBER_OF_LIMBS: usize = 4;

/// The number of lookup chunks a limb is range-checked in.
pub const NUMBER_OF_LOOKUP_LIMBS: usize = 4;

/// The number whose limbs in base `r`, least significant first, are
/// `l0, l1, l2, l3`. A limb may exceed the base.
#[verifier::opaque]
pub open spec fn horner(l0: nat, l1: nat, l2: nat, l3: nat, r: nat) -> nat {
    l0 + r * (l1 + r * (l2 + r * l3))
}

/// The number that four limbs in base `r` denote.
pub open spec fn limbs_value(limbs: Seq<BigUint>, r: nat) -> nat
    recommends
        limbs.len() == 4,
{
    horner(nat_of(limbs[0]), nat_of(limbs[1]), nat_of(limbs[2]), nat_of(limbs[3]), r)
}

/// Limb `i` of `v` in base `r`: the three lower limbs are below `r`, the
/// fourth takes what is left.
#[verifier::opaque]
pub open spec fn limb_of(v: nat, i: nat, r: nat) -> nat {
    if i == 0 {
        v % r
    } else if i == 1 {
        (v / r) % r
    } else if i == 2 {
        (v / r / r) % r
    } else {
        v / r / r / r
    }
}

/// The fewest bits that express `x`: the least `k` with `x < 2^k`.
pub open spec fn bit_length(x: nat) -> nat
    decreases x,
{
    if x == 0 {
        0
    } else {
        1 + bit_length(x / 2)
    }
}

/// `bit_length(x)` is the one `k` with `2^(k-1) <= x < 2^k`.
pub proof fn lemma_bit_length_unique(x: nat, k: nat)
    requires
        x < pow2(k),
        k > 0 ==> pow2((k - 1) as nat) <= x,
    ensures
        bit_length(x) == k,
    decreases k,
{
    if k == 0 {
        vstd::arithmetic::power2::lemma2_to64();
    } else {
        lemma_pow2_pos((k - 1) as nat);
        lemma_pow2_unfold(k);
        if k - 1 > 0 {
            lemma_pow2_unfold((k - 1) as nat);
        } else {
            vstd::arithmetic::power2::lemma2_to64();
        }
        lemma_bit_length_unique(x / 2, (k - 1) as nat);
    }
}

/// The bounds that `bit_length` stands for.
pub proof fn lemma_bit_length_bounds(x: nat)
    ensures
        x < pow2(bit_length(x)),
        x > 0 ==> pow2((bit_length(x) - 1) as nat) <= x,
    decreases x,
{
    vstd::arithmetic::power2::lemma2_to64();
    if x > 0 {
        lemma_bit_length_bounds(x / 2);
        lemma_pow2_unfold(bit_length(x));
        if x / 2 > 0 {
            lemma_pow2_unfold(bit_length(x / 2));
        }
    }
}

/// A number below `2^m` has at most `m` bits.
pub proof fn lemma_bit_length_le(x: nat, m: nat)
    requires
        x < pow2(m),
    ensures
        bit_length(x) <= m,
{
    lemma_bit_length_bounds(x);
    if bit_length(x) > m {
        if (bit_length(x) - 1) as nat > m {
            lemma_pow2_strictly_increases(m, (bit_length(x) - 1) as nat);
        }
    }
}

/// A number is below two to the power of its bit length, and so is every
/// number that is not larger.
pub proof fn lemma_below_pow2_bits(x: nat, max: nat)
    requires
        x <= max,
    ensures
        x < pow2(bit_length(max)),
{
    lemma_bit_length_bounds(max);
}

/// The limbs of a number put together give the number back.
pub proof fn lemma_limbs_compose(v: nat, r: nat)
    requires
        r > 0,
    ensures
        horner(limb_of(v, 0, r), limb_of(v, 1, r), limb_of(v, 2, r), limb_of(v, 3, r), r) == v,
        limb_of(v, 0, r) < r,
        limb_of(v, 1, r) < r,
        limb_of(v, 2, r) < r,
{
    reveal(horner);
    reveal(limb_of);
    let v1 = v / r;
    let v2 = v1 / r;
    lemma_fundamental_div_mod(v as int, r as int);
    lemma_fundamental_div_mod(v1 as int, r as int);
    lemma_fundamental_div_mod(v2 as int, r as int);
}

/// The top limb of a number below `r^4` is below `r`.
pub proof fn lemma_top_limb_small(v: nat, r: nat)
    requires
        r > 0,
        v < (r * r) * (r * r),
    ensures
        limb_of(v, 3, r) < r,
{
    reveal(limb_of);
    assert((r * r) * (r * r) == r * (r * (r * r))) by (nonlinear_arith);
    assert(r * (r * r) > 0 && r * r > 0) by (nonlinear_arith)
        requires
            r > 0,
    ;
    lemma_multiply_divide_lt(v as int, r as int, (r * (r * r)) as int);
    lemma_multiply_divide_lt((v / r) as int, r as int, (r * r) as int);
    lemma_multiply_divide_lt((v / r / r) as int, r as int, r as int);
}

/// The top limb grows with the number.
pub proof fn lemma_top_limb_monotonic(v: nat, w: nat, r: nat)
    requires
        r > 0,
        v <= w,
    ensures
        limb_of(v, 3, r) <= limb_of(w, 3, r),
{
    reveal(limb_of);
    lemma_div_is_ordered(v as int, w as int, r as int);
    lemma_div_is_ordered((v / r) as int, (w / r) as int, r as int);
    lemma_div_is_ordered((v / r / r) as int, (w / r / r) as int, r as int);
}

/// A number of `k` ones in binary, cut after its `m` lowest bits, leaves
/// `k - m` ones above and `m` ones below.
pub proof fn lemma_ones_split(k: nat, m: nat)
    requires
        k >= m,
    ensures
        (pow2(k) - 1) / (pow2(m) as int) == pow2((k - m) as nat) - 1,
        (pow2(k) - 1) % (pow2(m) as int) == pow2(m) - 1,
{
    vstd::arithmetic::power2::lemma_pow2_adds(m, (k - m) as nat);
    lemma_pow2_pos(m);
    lemma_pow2_pos((k - m) as nat);
    let d = pow2(m) as int;
    let q = pow2((k - m) as nat) - 1;
    assert(pow2(k) - 1 == q * d + (d - 1)) by (nonlinear_arith)
        requires
            pow2(k) == d * (q + 1),
    ;
    vstd::arithmetic::div_mod::lemma_fundamental_div_mod_converse(pow2(k) - 1, d, q, d - 1);
}

/// The limbs of a number of `k` ones in binary: the three lower limbs are
/// full, the fourth holds the ones that are left.
pub proof fn lemma_ones_limbs(k: nat, bl: nat)
    requires
        k >= 3 * bl,
    ensures
        limb_of((pow2(k) - 1) as nat, 0, pow2(bl)) == pow2(bl) - 1,
        limb_of((pow2(k) - 1) as nat, 1, pow2(bl)) == pow2(bl) - 1,
        limb_of((pow2(k) - 1) as nat, 2, pow2(bl)) == pow2(bl) - 1,
        limb_of((pow2(k) - 1) as nat, 3, pow2(bl)) == pow2((k - 3 * bl) as nat) - 1,
{
    reveal(limb_of);
    lemma_pow2_pos(k);
    lemma_pow2_pos((k - bl) as nat);
    lemma_pow2_pos((k - 2 * bl) as nat);
    lemma_ones_split(k, bl);
    lemma_ones_split((k - bl) as nat, bl);
    lemma_ones_split((k - 2 * bl) as nat, bl);
}

/// A number whose fourth limb is not zero is at least the cube of the base.
pub proof fn lemma_top_limb_positive(v: nat, r: nat)
    requires
        r > 0,
        limb_of(v, 3, r) >= 1,
    ensures
        v >= r * r * r,
{
    lemma_limbs_compose(v, r);
    reveal(horner);
    let l3 = limb_of(v, 3, r);
    assert(r * (r * (r * l3)) >= r * r * r) by (nonlinear_arith)
        requires
            l3 >= 1,
            r > 0,
    ;
    let (l0, l1, l2) = (limb_of(v, 0, r), limb_of(v, 1, r), limb_of(v, 2, r));
    assert(l0 + r * (l1 + r * (l2 + r * l3)) >= r * (r * (r * l3))) by (nonlinear_arith);
}

/// The number `2^k`.
pub fn big_pow2(k: usize) -> (r: BigUint)
    requires
        k <= 0xffff_ffff,
    ensures
        nat_of(r) == pow2(k as nat),
{
    let r = big_shl(&big_from_u64(1), k);
    proof {
        assert(1 * pow2(k as nat) == pow2(k as nat)) by (nonlinear_arith);
    }
    r
}

/// The number `2^k - 1`.
pub fn big_pow2_minus_one(k: usize) -> (r: BigUint)
    requires
        k <= 0xffff_ffff,
    ensures
        nat_of(r) == pow2(k as nat) - 1,
{
    proof {
        lemma_pow2_pos(k as nat);
    }
    big_sub(&big_pow2(k), &big_from_u64(1))
}

/// The bit length of a number.
pub fn big_bit_length(a: &BigUint) -> (r: u64)
    ensures
        r == bit_length(nat_of(*a)),
{
    let r = big_bits(a);
    proof {
        lemma_bit_length_unique(nat_of(*a), r as nat);
    }
    r
}

/// Cuts a number into four limbs of `bit_len` bits, the last of which takes
/// what is left.
pub fn decompose(v: &BigUint, bit_len: usize) -> (r: Vec<BigUint>)
    requires
        bit_len <= 0xffff_ffff,
    ensures
        r@.len() == 4,
        forall|i: int| 0 <= i < 4 ==> nat_of(#[trigger] r@[i]) == limb_of(nat_of(*v), i as nat, pow2(bit_len as nat)),
        limbs_value(r@, pow2(bit_len as nat)) == nat_of(*v),
{
    let base = big_pow2(bit_len);
    proof {
        reveal(limb_of);
        lemma_pow2_pos(bit_len as nat);
        lemma_limbs_compose(nat_of(*v), pow2(bit_len as nat));
    }
    let v1 = big_shr(v, bit_len);
    let v2 = big_shr(&v1, bit_len);
    let v3 = big_shr(&v2, bit_len);
    let mut r: Vec<BigUint> = Vec::new();
    r.push(big_rem(v, &base));
    r.push(big_rem(&v1, &base));
    r.push(big_rem(&v2, &base));
    r.push(v3);
    r
}

/// Puts four limbs of `bit_len` bits together.
pub fn compose(limbs: &Vec<BigUint>, bit_len: usize) -> (r: BigUint)
    requires
        limbs@.len() == 4,
        bit_len <= 0xffff_ffff,
    ensures
        nat_of(r) == limbs_value(limbs@, pow2(bit_len as nat)),
{
    proof {
        reveal(horner);
    }
    let base = big_pow2(bit_len);
    let acc = big_add(&limbs[2], &big_mul(&base, &limbs[3]));
    let acc = big_add(&limbs[1], &big_mul(&base, &acc));
    big_add(&limbs[0], &big_mul(&base, &acc))
}

/// A copy of a vector of numbers.
pub fn copy_limbs(limbs: &Vec<BigUint>) -> (r: Vec<BigUint>)
    ensures
        r@ == limbs@,
{
    let mut r: Vec<BigUint> = Vec::new();
    let mut i: usize = 0;
    while i < limbs.len()
        invariant
            i <= limbs.len(),
            r@ == limbs@.take(i as int),
        decreases limbs.len() - i,
    {
        r.push(big_clone(&limbs[i]));
        proof {
            assert(limbs@.take(i + 1) =~= limbs@.take(i as int).push(limbs@[i as int]));
        }
        i = i + 1;
    }
    proof {
        assert(limbs@.take(limbs.len() as int) =~= limbs@);
    }
    r
}

} // verus!
