//! Arbitrary-precision naturals: the `num_bigint::BigUint` operations the
//! gadgets compute with, each with the arithmetic fact it is trusted for.

use num_bigint::BigUint;
use vstd::arithmetic::power2::pow2;
use vstd::prelude::*;

verus! {

/// `num_bigint::BigUint`, carried as a value whose inside is not seen.
#[verifier::external_type_specification]
#[verifier::external_body]
pub struct ExBigUint(BigUint);

/// What `BigUint::to_u32_digits` returns: the base 2^32 digits of a big
/// natural, least significant first.
pub uninterp spec fn digits_of(b: BigUint) -> Seq<u32>;

/// The natural that a little-endian sequence of base 2^32 digits denotes.
pub open spec fn digits_value(d: Seq<u32>) -> nat
    decreases d.len(),
{
    if d.len() == 0 {
        0
    } else {
        d[0] as nat + 0x1_0000_0000 * digits_value(d.drop_first())
    }
}

/// The natural number a `BigUint` holds.
pub open spec fn nat_of(b: BigUint) -> nat {
    digits_value(digits_of(b))
}

/// `BigUint::clone`: the copy is the same number.
#[verifier::external_body]
pub(crate) fn big_clone(a: &BigUint) -> (r: BigUint)
    ensures
        r == *a,
{
    a.clone()
}

/// `BigUint::to_u32_digits`: the digits the number is made of, without a
/// zero in the most significant place.
#[verifier::external_body]
pub(crate) fn big_digits(a: &BigUint) -> (r: Vec<u32>)
    ensures
        r@ == digits_of(*a),
        r@.len() > 0 ==> r@.last() != 0,
{
    a.to_u32_digits()
}

/// `BigUint::from(u64)`: the big natural with the value of `x`.
#[verifier::external_body]
pub(crate) fn big_from_u64(x: u64) -> (r: BigUint)
    ensures
        nat_of(r) == x,
{
    BigUint::from(x)
}

/// `&BigUint + &BigUint`: the exact sum.
#[verifier::external_body]
pub(crate) fn big_add(a: &BigUint, b: &BigUint) -> (r: BigUint)
    ensures
        nat_of(r) == nat_of(*a) + nat_of(*b),
{
    a + b
}

/// `&BigUint - &BigUint`: the exact difference. The outside subtraction
/// panics when the result would be negative, which `requires` rules out.
#[verifier::external_body]
pub(crate) fn big_sub(a: &BigUint, b: &BigUint) -> (r: BigUint)
    requires
        nat_of(*a) >= nat_of(*b),
    ensures
        nat_of(r) == nat_of(*a) - nat_of(*b),
{
    a - b
}

/// `&BigUint * &BigUint`: the exact product.
#[verifier::external_body]
pub(crate) fn big_mul(a: &BigUint, b: &BigUint) -> (r: BigUint)
    ensures
        nat_of(r) == nat_of(*a) * nat_of(*b),
{
    a * b
}

/// `&BigUint / &BigUint`: the floor of the quotient. The outside division
/// panics on a zero divisor, which `requires` rules out.
#[verifier::external_body]
pub(crate) fn big_div(a: &BigUint, b: &BigUint) -> (r: BigUint)
    requires
        nat_of(*b) > 0,
    ensures
        nat_of(r) == nat_of(*a) / nat_of(*b),
{
    a / b
}

/// `&BigUint % &BigUint`: the remainder of the division. The outside
/// operation panics on a zero divisor, which `requires` rules out.
#[verifier::external_body]
pub(crate) fn big_rem(a: &BigUint, b: &BigUint) -> (r: BigUint)
    requires
        nat_of(*b) > 0,
    ensures
        nat_of(r) == nat_of(*a) % nat_of(*b),
{
    a % b
}

/// `&BigUint << usize`: multiplication by a power of two. The bound on the
/// shift keeps the result within what can be allocated.
#[verifier::external_body]
pub(crate) fn big_shl(a: &BigUint, n: usize) -> (r: BigUint)
    requires
        n <= 0xffff_ffff,
    ensures
        nat_of(r) == nat_of(*a) * pow2(n as nat),
{
    a << n
}

/// `&BigUint >> usize`: floor division by a power of two.
#[verifier::external_body]
pub(crate) fn big_shr(a: &BigUint, n: usize) -> (r: BigUint)
    ensures
        nat_of(r) == nat_of(*a) / pow2(n as nat),
{
    a >> n
}

/// `BigUint::bits`: the fewest bits that express the number, 0 for zero.
#[verifier::external_body]
pub(crate) fn big_bits(a: &BigUint) -> (r: u64)
    ensures
        nat_of(*a) < pow2(r as nat),
        r > 0 ==> pow2((r - 1) as nat) <= nat_of(*a),
{
    a.bits()
}

/// `BigUint::bit`: whether the binary digit of weight 2^i is set.
#[verifier::external_body]
pub(crate) fn big_bit(a: &BigUint, i: u64) -> (r: bool)
    ensures
        r == ((nat_of(*a) / pow2(i as nat)) % 2 == 1),
{
    a.bit(i)
}

/// `BigUint < BigUint`: the order of the naturals.
#[verifier::external_body]
pub(crate) fn big_lt(a: &BigUint, b: &BigUint) -> (r: bool)
    ensures
        r == (nat_of(*a) < nat_of(*b)),
{
    a < b
}

/// `BigUint == BigUint`: equality of the naturals.
#[verifier::external_body]
pub(crate) fn big_eq(a: &BigUint, b: &BigUint) -> (r: bool)
    ensures
        r == (nat_of(*a) == nat_of(*b)),
{
    a == b
}

/// Whether `x` is a multiplicative inverse of `a` modulo `m`.
pub open spec fn is_inverse_mod(a: nat, x: nat, m: nat) -> bool {
    (a * x) % m == 1nat % m
}

/// `BigUint::modinv`: the multiplicative inverse modulo `m` in `[0, m)`,
/// or `None` when no number has that property. The outside function panics
/// on a zero modulus, which `requires` rules out.
#[verifier::external_body]
pub(crate) fn big_modinv(a: &BigUint, m: &BigUint) -> (r: Option<BigUint>)
    requires
        nat_of(*m) > 0,
    ensures
        match r {
            Some(x) => nat_of(x) < nat_of(*m) && is_inverse_mod(nat_of(*a), nat_of(x), nat_of(*m)),
            None => forall|y: nat| !is_inverse_mod(nat_of(*a), y, nat_of(*m)),
        },
{
    a.modinv(m)
}

/// A digit sequence whose most significant digit is not zero denotes a
/// positive number.
pub proof fn lemma_digits_positive(d: Seq<u32>)
    requires
        d.len() > 0,
        d.last() != 0,
    ensures
        digits_value(d) > 0,
    decreases d.len(),
{
    if d.len() > 1 {
        assert(d.drop_first().last() == d.last());
        lemma_digits_positive(d.drop_first());
        assert(0x1_0000_0000 * digits_value(d.drop_first()) > 0) by (nonlinear_arith)
            requires
                digits_value(d.drop_first()) > 0,
        ;
    } else {
        assert(d[0] == d.last());
    }
}

/// Whether the number is zero.
pub fn big_is_zero(a: &BigUint) -> (r: bool)
    ensures
        r == (nat_of(*a) == 0),
{
    let d = big_digits(a);
    proof {
        if d@.len() > 0 {
            lemma_digits_positive(d@);
        }
    }
    d.len() == 0
}

} // verus!
