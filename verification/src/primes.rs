//! Inverses modulo a prime: every number that the prime does not divide has
//! one.

use crate::big::is_inverse_mod;
use crate::main_gate::invertible;
use crate::modular::{lemma_cong_add, lemma_cong_mul, lemma_cong_rem};
use vstd::arithmetic::div_mod::{
    lemma_fundamental_div_mod, lemma_mod_bound, lemma_mod_multiples_vanish, lemma_small_mod,
};
use vstd::prelude::*;

verus! {

/// Whether `p` is a prime: at least two, with no divisor between one and
/// itself.
pub open spec fn is_prime(p: nat) -> bool {
    p >= 2 && forall|d: nat| 1 < d < p ==> #[trigger] (p % d) != 0
}

/// The greatest common divisor, by the algorithm of Euclid.
pub open spec fn gcd(a: nat, b: nat) -> nat
    decreases b,
{
    if b == 0 {
        a
    } else {
        gcd(b, a % b)
    }
}

/// The greatest common divisor divides both numbers, and is not zero unless
/// both are.
pub proof fn lemma_gcd_divides(a: nat, b: nat)
    ensures
        gcd(a, b) > 0 || (a == 0 && b == 0),
        gcd(a, b) > 0 ==> a % gcd(a, b) == 0 && b % gcd(a, b) == 0,
    decreases b,
{
    if b == 0 {
        if a > 0 {
            vstd::arithmetic::div_mod::lemma_mod_self_0(a as int);
            lemma_small_mod(0, a);
        }
    } else {
        lemma_gcd_divides(b, a % b);
        let g = gcd(a, b);
        assert(g == gcd(b, a % b));
        // a = b * (a / b) + a % b, and g divides both terms
        lemma_fundamental_div_mod(a as int, b as int);
        let q = (a / b) as int;
        lemma_cong_mul(b as int, 0, q, q, g as int);
        assert(0 * q == 0) by (nonlinear_arith);
        lemma_cong_add((b * q) as int, 0, (a % b) as int, 0, g as int);
        lemma_small_mod(0, g);
    }
}

/// The greatest common divisor is a combination of the two numbers.
pub proof fn lemma_bezout(a: nat, b: nat) -> (c: (int, int))
    ensures
        a * c.0 + b * c.1 == gcd(a, b),
    decreases b,
{
    if b == 0 {
        (1, 0)
    } else {
        let (x, y) = lemma_bezout(b, a % b);
        lemma_fundamental_div_mod(a as int, b as int);
        let q = (a / b) as int;
        let r = (a % b) as int;
        let g = gcd(a, b) as int;
        assert(a * y + b * (x - q * y) == g) by (nonlinear_arith)
            requires
                b * x + r * y == g,
                a == b * q + r,
        ;
        (y, x - q * y)
    }
}

/// Every number that a prime does not divide has an inverse modulo the
/// prime.
pub proof fn lemma_prime_inverse(a: nat, p: nat)
    requires
        is_prime(p),
        a % p != 0,
    ensures
        invertible(a, p),
{
    let g = gcd(a, p);
    lemma_gcd_divides(a, p);
    assert(g > 0);
    // g divides p, so it is one or p; it is not p, since it divides a
    assert(g <= p) by {
        if g > p {
            lemma_small_mod(p, g);
        }
    }
    if g == p {
        assert(false);
    }
    if g > 1 {
        assert(p % g != 0);
    }
    assert(g == 1);
    let (x, y) = lemma_bezout(a, p);
    // a * x = 1 - p * y, and a * (x mod p) is congruent to a * x
    let m = p as int;
    let inv = (x % m) as nat;
    lemma_mod_bound(x, m);
    lemma_cong_rem(x, m);
    lemma_cong_mul(a as int, a as int, inv as int, x, m);
    assert(a * x == (-y) * m + 1) by (nonlinear_arith)
        requires
            a * x + p * y == 1,
            m == p,
    ;
    lemma_mod_multiples_vanish(-y, 1, m);
    assert(is_inverse_mod(a, inv, p));
}

/// Modulo a prime a number has an inverse exactly when the prime does not
/// divide it.
pub proof fn lemma_prime_invertible_iff(a: nat, p: nat)
    requires
        is_prime(p),
    ensures
        invertible(a, p) <==> a % p != 0,
{
    if a % p != 0 {
        lemma_prime_inverse(a, p);
    } else {
        crate::integer::lemma_zero_not_invertible(a, p);
    }
}

} // verus!
