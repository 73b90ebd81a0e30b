//! The arithmetic behind the carry checks: why, limb by limb, the identity
//! `a + q * (2^(4 * bl) - p) - r = q * 2^(4 * bl)` collapses pair by pair
//! into exact multiples of the square of the limb base.

use crate::limbs::horner;
use vstd::arithmetic::div_mod::{lemma_div_is_ordered, lemma_div_multiples_vanish};
use vstd::prelude::*;

verus! {

/// Four limbs as a low pair and a high pair.
pub proof fn lemma_horner_halves(x0: nat, x1: nat, x2: nat, x3: nat, r: nat)
    ensures
        horner(x0, x1, x2, x3, r) == (x0 + r * x1) + (r * r) * (x2 + r * x3),
{
    reveal(horner);
    lemma_horner_split(x0 as int, x1 as int, x2 as int, x3 as int, r as int);
}

/// Four limbs as a sum of powers of the base.
pub proof fn lemma_horner_as_powers(x0: nat, x1: nat, x2: nat, x3: nat, r: nat)
    ensures
        horner(x0, x1, x2, x3, r) == x0 + r * x1 + (r * r) * x2 + ((r * r) * r) * x3,
{
    reveal(horner);
    lemma_horner_powers(x0 as int, x1 as int, x2 as int, x3 as int, r as int);
}

/// The limbs of a sum are the sums of the limbs.
pub proof fn lemma_horner_sum(
    x0: nat,
    x1: nat,
    x2: nat,
    x3: nat,
    y0: nat,
    y1: nat,
    y2: nat,
    y3: nat,
    r: nat,
)
    ensures
        horner(x0 + y0, x1 + y1, x2 + y2, x3 + y3, r) == horner(x0, x1, x2, x3, r) + horner(
            y0,
            y1,
            y2,
            y3,
            r,
        ),
{
    reveal(horner);
    lemma_horner_add(
        x0 as int,
        x1 as int,
        x2 as int,
        x3 as int,
        y0 as int,
        y1 as int,
        y2 as int,
        y3 as int,
        r as int,
    );
}

/// The limbs of a multiple are the multiples of the limbs.
pub proof fn lemma_horner_multiple(x0: nat, x1: nat, x2: nat, x3: nat, k: nat, r: nat)
    ensures
        horner(k * x0, k * x1, k * x2, k * x3, r) == k * horner(x0, x1, x2, x3, r),
{
    reveal(horner);
    lemma_horner_times(x0 as int, x1 as int, x2 as int, x3 as int, k as int, r as int);
}

/// Four limbs as a low pair and a high pair, in integers.
pub proof fn lemma_horner_split(x0: int, x1: int, x2: int, x3: int, r: int)
    ensures
        x0 + r * (x1 + r * (x2 + r * x3)) == (x0 + r * x1) + (r * r) * (x2 + r * x3),
{
    assert(r * (x1 + r * (x2 + r * x3)) == r * x1 + (r * r) * (x2 + r * x3)) by (nonlinear_arith);
}

/// Four limbs as a sum of powers of the base.
pub proof fn lemma_horner_powers(x0: int, x1: int, x2: int, x3: int, r: int)
    ensures
        x0 + r * (x1 + r * (x2 + r * x3)) == x0 + r * x1 + (r * r) * x2 + ((r * r) * r) * x3,
{
    assert(r * (x1 + r * (x2 + r * x3)) == r * x1 + (r * r) * x2 + ((r * r) * r) * x3)
        by (nonlinear_arith);
}

/// A number is at most another where each limb is.
pub proof fn lemma_horner_monotonic(
    x0: nat,
    x1: nat,
    x2: nat,
    x3: nat,
    y0: nat,
    y1: nat,
    y2: nat,
    y3: nat,
    r: nat,
)
    requires
        x0 <= y0,
        x1 <= y1,
        x2 <= y2,
        x3 <= y3,
    ensures
        horner(x0, x1, x2, x3, r) <= horner(y0, y1, y2, y3, r),
{
    reveal(horner);
    assert(r * x3 <= r * y3) by (nonlinear_arith)
        requires
            x3 <= y3,
    ;
    assert(r * (x2 + r * x3) <= r * (y2 + r * y3)) by (nonlinear_arith)
        requires
            x2 + r * x3 <= y2 + r * y3,
    ;
    assert(r * (x1 + r * (x2 + r * x3)) <= r * (y1 + r * (y2 + r * y3))) by (nonlinear_arith)
        requires
            x1 + r * (x2 + r * x3) <= y1 + r * (y2 + r * y3),
    ;
}

/// The limbs of a sum are the sums of the limbs.
pub proof fn lemma_horner_add(
    x0: int,
    x1: int,
    x2: int,
    x3: int,
    y0: int,
    y1: int,
    y2: int,
    y3: int,
    r: int,
)
    ensures
        (x0 + y0) + r * ((x1 + y1) + r * ((x2 + y2) + r * (x3 + y3))) == (x0 + r * (x1 + r * (x2 + r
            * x3))) + (y0 + r * (y1 + r * (y2 + r * y3))),
{
    assert((x0 + y0) + r * ((x1 + y1) + r * ((x2 + y2) + r * (x3 + y3))) == (x0 + r * (x1 + r * (x2
        + r * x3))) + (y0 + r * (y1 + r * (y2 + r * y3)))) by (nonlinear_arith);
}

/// The limbs of a multiple are the multiples of the limbs.
pub proof fn lemma_horner_times(x0: int, x1: int, x2: int, x3: int, k: int, r: int)
    ensures
        (k * x0) + r * ((k * x1) + r * ((k * x2) + r * (k * x3))) == k * (x0 + r * (x1 + r * (x2 + r
            * x3))),
{
    assert((k * x0) + r * ((k * x1) + r * ((k * x2) + r * (k * x3))) == k * (x0 + r * (x1 + r * (x2
        + r * x3)))) by (nonlinear_arith);
}

/// Two limbs below the base denote a number below its square.
pub proof fn lemma_pair_bound(x0: nat, x1: nat, r: nat)
    requires
        x0 < r,
        x1 < r,
    ensures
        x0 + r * x1 < r * r,
{
    assert(x0 + r * x1 < r * r) by (nonlinear_arith)
        requires
            x0 < r,
            x1 < r,
    ;
}

/// The carries of an identity `lo + r2 * hi = k * r2 * r2` whose negative
/// part is below `r2` in each half: the low half is an exact, non-negative
/// multiple of `r2`, and so is the high half with the carry of the low one
/// added.
pub proof fn lemma_carries(tlo: int, thi: int, rlo: int, rhi: int, k: int, r2: int)
    requires
        r2 > 0,
        tlo >= 0,
        thi >= 0,
        0 <= rlo < r2,
        0 <= rhi < r2,
        (tlo - rlo) + r2 * (thi - rhi) == k * (r2 * r2),
    ensures
        ({
            let l0 = tlo - rlo;
            let v0 = l0 / r2;
            let l1 = thi + v0 - rhi;
            let v1 = l1 / r2;
            &&& l0 >= 0
            &&& l0 == v0 * r2
            &&& v0 >= 0
            &&& l1 >= 0
            &&& l1 == v1 * r2
            &&& v1 == k
        }),
{
    let l0 = tlo - rlo;
    let h = thi - rhi;
    let c = k * r2 - h;
    assert(l0 == r2 * c) by (nonlinear_arith)
        requires
            l0 + r2 * h == k * (r2 * r2),
            c == k * r2 - h,
    ;
    assert(c >= 0) by (nonlinear_arith)
        requires
            l0 == r2 * c,
            l0 > -r2,
            r2 > 0,
    ;
    lemma_div_multiples_vanish(c, r2);
    assert(r2 * c == c * r2) by (nonlinear_arith);
    let v0 = l0 / r2;
    assert(v0 == c);
    let l1 = thi + v0 - rhi;
    assert(l1 == k * r2);
    assert(k >= 0) by (nonlinear_arith)
        requires
            l1 == k * r2,
            l1 > -r2,
            r2 > 0,
    ;
    lemma_div_multiples_vanish(k, r2);
    assert(r2 * k == k * r2) by (nonlinear_arith);
}

/// The reduction identity in halves: from `a = q * p + r` and
/// `p + p' = r2 * r2`, the number `a + q * p' - r` is `q * r2 * r2`.
pub proof fn lemma_reduce_identity(
    alo: int,
    ahi: int,
    nlo: int,
    nhi: int,
    rlo: int,
    rhi: int,
    q: int,
    p: int,
    r2: int,
)
    requires
        alo + r2 * ahi == q * p + (rlo + r2 * rhi),
        (nlo + r2 * nhi) + p == r2 * r2,
    ensures
        ((alo + q * nlo) - rlo) + r2 * ((ahi + q * nhi) - rhi) == q * (r2 * r2),
{
    assert(((alo + q * nlo) - rlo) + r2 * ((ahi + q * nhi) - rhi) == (alo + r2 * ahi) + q * (nlo
        + r2 * nhi) - (rlo + r2 * rhi)) by (nonlinear_arith);
    assert(q * p + q * (nlo + r2 * nhi) == q * (r2 * r2)) by (nonlinear_arith)
        requires
            (nlo + r2 * nhi) + p == r2 * r2,
    ;
}

/// A quotient grows with what is divided.
pub proof fn lemma_quotient_monotonic(x: nat, y: nat, d: nat)
    requires
        d > 0,
        x <= y,
    ensures
        x / d <= y / d,
{
    lemma_div_is_ordered(x as int, y as int, d as int);
}

} // verus!
