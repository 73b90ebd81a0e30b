//! Congruences: what may be replaced by what under a modulus.

use vstd::arithmetic::div_mod::{
    lemma_add_mod_noop, lemma_mod_multiples_basic, lemma_mul_mod_noop_general, lemma_small_mod,
    lemma_sub_mod_noop,
};
use vstd::prelude::*;

verus! {

/// Whether two integers leave the same remainder.
pub open spec fn cong(a: int, b: int, n: int) -> bool {
    a % n == b % n
}

/// A remainder is congruent to what it is the remainder of.
pub proof fn lemma_cong_rem(a: int, n: int)
    requires
        n > 0,
    ensures
        cong(a % n, a, n),
{
    vstd::arithmetic::div_mod::lemma_mod_twice(a, n);
}

/// Sums of congruent numbers are congruent.
pub proof fn lemma_cong_add(a: int, a2: int, b: int, b2: int, n: int)
    requires
        n > 0,
        cong(a, a2, n),
        cong(b, b2, n),
    ensures
        cong(a + b, a2 + b2, n),
{
    lemma_add_mod_noop(a, b, n);
    lemma_add_mod_noop(a2, b2, n);
}

/// Differences of congruent numbers are congruent.
pub proof fn lemma_cong_sub(a: int, a2: int, b: int, b2: int, n: int)
    requires
        n > 0,
        cong(a, a2, n),
        cong(b, b2, n),
    ensures
        cong(a - b, a2 - b2, n),
{
    lemma_sub_mod_noop(a, b, n);
    lemma_sub_mod_noop(a2, b2, n);
}

/// Products of congruent numbers are congruent.
pub proof fn lemma_cong_mul(a: int, a2: int, b: int, b2: int, n: int)
    requires
        n > 0,
        cong(a, a2, n),
        cong(b, b2, n),
    ensures
        cong(a * b, a2 * b2, n),
{
    lemma_mul_mod_noop_general(a, b, n);
    lemma_mul_mod_noop_general(a2, b2, n);
}

/// A scaled number stays congruent where the number is replaced by a
/// congruent one.
pub proof fn lemma_cong_scale(c: int, a: int, a2: int, n: int)
    requires
        n > 0,
        cong(a, a2, n),
    ensures
        cong(c * a, c * a2, n),
{
    lemma_cong_mul(c, c, a, a2, n);
}

/// `x0 + c1 * x1 + c2 * x2 + c3 * x3` stays congruent where each `x` is
/// replaced by a congruent number.
pub proof fn lemma_cong_lin(
    x0: int,
    y0: int,
    c1: int,
    x1: int,
    y1: int,
    c2: int,
    x2: int,
    y2: int,
    c3: int,
    x3: int,
    y3: int,
    n: int,
)
    requires
        n > 0,
        cong(x0, y0, n),
        cong(x1, y1, n),
        cong(x2, y2, n),
        cong(x3, y3, n),
    ensures
        cong(x0 + c1 * x1 + c2 * x2 + c3 * x3, y0 + c1 * y1 + c2 * y2 + c3 * y3, n),
{
    lemma_cong_scale(c1, x1, y1, n);
    lemma_cong_scale(c2, x2, y2, n);
    lemma_cong_scale(c3, x3, y3, n);
    lemma_cong_add(x0, y0, c1 * x1, c1 * y1, n);
    lemma_cong_add(x0 + c1 * x1, y0 + c1 * y1, c2 * x2, c2 * y2, n);
    lemma_cong_add(x0 + c1 * x1 + c2 * x2, y0 + c1 * y1 + c2 * y2, c3 * x3, c3 * y3, n);
}

/// A multiple of the modulus is congruent to zero.
pub proof fn lemma_cong_multiple(k: int, n: int)
    requires
        n > 0,
    ensures
        (k * n) % n == 0,
        (n * k) % n == 0,
{
    lemma_mod_multiples_basic(k, n);
    assert(k * n == n * k) by (nonlinear_arith);
}

/// A number that is congruent to zero and lies in `(-n, n)` is zero.
pub proof fn lemma_small_cong_zero(a: int, n: int)
    requires
        n > 0,
        -n < a < n,
        a % n == 0,
    ensures
        a == 0,
{
    if a > 0 {
        lemma_small_mod(a as nat, n as nat);
    } else if a < 0 {
        vstd::arithmetic::div_mod::lemma_mod_add_multiples_vanish(a, n);
        lemma_small_mod((a + n) as nat, n as nat);
    }
}

} // verus!
