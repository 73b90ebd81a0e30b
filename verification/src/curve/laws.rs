//! What the formulas of the chord and of the tangent have to do with the
//! sum of points: where they apply they are the sum, the sum by the chord
//! does not depend on the order of the points, and the ladder step is the
//! sum of a point with the sum of the two points.

use crate::big::is_inverse_mod;
use crate::curve::{
    add_formula, chord, double_formula, fe_add, fe_div, fe_mul, fe_sub, group_add, is_quotient,
    ladder_formula, lemma_quotient_unique, third,
};
use crate::integer::lemma_zero_not_invertible;
use crate::main_gate::invertible;
use crate::modular::{cong, lemma_cong_add, lemma_cong_mul, lemma_cong_rem, lemma_cong_sub};
use vstd::arithmetic::div_mod::{lemma_mod_bound, lemma_small_mod};
use vstd::prelude::*;

verus! {

/// A sum in the field is below the modulus and congruent to the sum.
pub proof fn lemma_fe_add(a: nat, b: nat, p: nat)
    requires
        p > 0,
    ensures
        fe_add(a, b, p) < p,
        cong(fe_add(a, b, p) as int, (a + b) as int, p as int),
{
    lemma_mod_bound((a + b) as int, p as int);
    lemma_cong_rem((a + b) as int, p as int);
}

/// A difference in the field is below the modulus and congruent to the
/// difference.
pub proof fn lemma_fe_sub(a: nat, b: nat, p: nat)
    requires
        p > 0,
    ensures
        fe_sub(a, b, p) < p,
        cong(fe_sub(a, b, p) as int, a - b, p as int),
{
    lemma_mod_bound(a - b, p as int);
    lemma_cong_rem(a - b, p as int);
}

/// A product in the field is below the modulus and congruent to the
/// product.
pub proof fn lemma_fe_mul(a: nat, b: nat, p: nat)
    requires
        p > 0,
    ensures
        fe_mul(a, b, p) < p,
        cong(fe_mul(a, b, p) as int, (a * b) as int, p as int),
{
    lemma_mod_bound((a * b) as int, p as int);
    lemma_cong_rem((a * b) as int, p as int);
}

/// Congruent numbers below the modulus are equal.
pub proof fn lemma_cong_below(a: nat, b: nat, p: nat)
    requires
        a < p,
        b < p,
        cong(a as int, b as int, p as int),
    ensures
        a == b,
{
    lemma_small_mod(a, p);
    lemma_small_mod(b, p);
}

/// A number with an inverse divides every number: the quotient in the
/// field is a quotient.
pub proof fn lemma_quotient_exists(a: nat, b: nat, p: nat)
    requires
        p > 0,
        invertible(b, p),
    ensures
        is_quotient(fe_div(a, b, p), a, b, p),
{
    let x = choose|x: nat| is_inverse_mod(b, x, p);
    let m = p as int;
    let c = (a * x) % p;
    lemma_mod_bound((a * x) as int, m);
    lemma_cong_rem((a * x) as int, m);
    // c * b = (a * x) * b = a * (b * x) = a
    lemma_cong_mul(c as int, (a * x) as int, b as int, b as int, m);
    lemma_cong_mul(a as int, a as int, (b * x) as int, 1, m);
    assert((a * x) * b == a * (b * x)) by (nonlinear_arith);
    assert(a * 1 == a) by (nonlinear_arith);
    assert(is_quotient(c, a, b, p));
}

/// The quotient by a number with an inverse is congruent to every integer
/// whose product with that number is congruent to what is divided.
pub proof fn lemma_fe_div(c: int, a: nat, b: nat, p: nat)
    requires
        p > 0,
        invertible(b, p),
        cong(c * b, a as int, p as int),
    ensures
        fe_div(a, b, p) < p,
        cong(fe_div(a, b, p) as int, c, p as int),
{
    let m = p as int;
    let d = fe_div(a, b, p);
    lemma_quotient_exists(a, b, p);
    let x = choose|x: nat| is_inverse_mod(b, x, p);
    // d = d * (b * x) = (d * b) * x = (c * b) * x = c * (b * x) = c
    lemma_cong_mul(d as int, d as int, (b * x) as int, 1, m);
    lemma_cong_mul(c, c, (b * x) as int, 1, m);
    lemma_cong_mul((d * b) as int, c * b, x as int, x as int, m);
    assert(d * (b * x) == (d * b) * x) by (nonlinear_arith);
    assert(c * (b * x) == (c * b) * x) by (nonlinear_arith);
    assert(d * 1 == d && c * 1 == c) by (nonlinear_arith);
}

/// The opposite of a number with an inverse has an inverse.
pub proof fn lemma_opposite_invertible(a: nat, b: nat, p: nat)
    requires
        p > 0,
        invertible(fe_sub(a, b, p), p),
    ensures
        invertible(fe_sub(b, a, p), p),
{
    let m = p as int;
    let d = fe_sub(a, b, p);
    let e = fe_sub(b, a, p);
    let x = choose|x: nat| is_inverse_mod(d, x, p);
    let y = fe_sub(0, x, p);
    lemma_fe_sub(a, b, p);
    lemma_fe_sub(b, a, p);
    lemma_fe_sub(0, x, p);
    // e * y = (b - a) * (0 - x) = (a - b) * x = d * x = 1
    lemma_cong_mul(e as int, b - a, y as int, 0 - x, m);
    lemma_cong_mul(d as int, a - b, x as int, x as int, m);
    assert((b - a) * (0 - x) == (a - b) * x) by (nonlinear_arith);
    assert(is_inverse_mod(e, y, p));
}

/// Where the abscissas differ by a number with an inverse, the sum of two
/// points is given by the formula of the chord.
pub proof fn lemma_sum_by_chord(x0: nat, y0: nat, x1: nat, y1: nat, p: nat)
    requires
        p >= 2,
        invertible(fe_sub(x1, x0, p), p),
    ensures
        group_add(Some((x0, y0)), Some((x1, y1)), p) == Some(add_formula(x0, y0, x1, y1, p)),
{
    if x0 % p == x1 % p {
        lemma_fe_sub(x1, x0, p);
        lemma_cong_sub(x1 as int, x0 as int, x0 as int, x0 as int, p as int);
        lemma_small_mod(0, p);
        lemma_small_mod(fe_sub(x1, x0, p), p);
        lemma_zero_not_invertible(fe_sub(x1, x0, p), p);
    }
}

/// Where the doubled ordinate has an inverse, the sum of a point with
/// itself is given by the formula of the tangent.
pub proof fn lemma_double_by_tangent(x: nat, y: nat, p: nat)
    requires
        p >= 2,
        invertible(fe_mul(2, y, p), p),
    ensures
        group_add(Some((x, y)), Some((x, y)), p) == Some(double_formula(x, y, p)),
{
    assert(fe_add(y, y, p) == fe_mul(2, y, p)) by {
        assert(y + y == 2 * y) by (nonlinear_arith);
    }
    if fe_add(y, y, p) == 0 {
        lemma_small_mod(0, p);
        lemma_zero_not_invertible(fe_mul(2, y, p), p);
    }
}

/// The third point of a line, by a number congruent to its slope: the
/// coordinates are below the modulus and congruent to what the formula
/// gives in the integers.
pub proof fn lemma_third(l: nat, k: int, x0: nat, y0: nat, x1: nat, p: nat)
    requires
        p > 0,
        cong(l as int, k, p as int),
    ensures
        third(l, x0, y0, x1, p).0 < p,
        third(l, x0, y0, x1, p).1 < p,
        cong(third(l, x0, y0, x1, p).0 as int, k * k - x0 - x1, p as int),
        cong(
            third(l, x0, y0, x1, p).1 as int,
            k * (x0 - third(l, x0, y0, x1, p).0) - y0,
            p as int,
        ),
{
    let m = p as int;
    let ll = fe_mul(l, l, p);
    let s = fe_sub(ll, x0, p);
    let x2 = fe_sub(s, x1, p);
    let d = fe_sub(x0, x2, p);
    let f = fe_mul(l, d, p);
    lemma_fe_mul(l, l, p);
    lemma_cong_mul(l as int, k, l as int, k, m);
    lemma_fe_sub(ll, x0, p);
    lemma_cong_sub(ll as int, k * k, x0 as int, x0 as int, m);
    lemma_fe_sub(s, x1, p);
    lemma_cong_sub(s as int, k * k - x0, x1 as int, x1 as int, m);
    lemma_fe_sub(x0, x2, p);
    lemma_fe_mul(l, d, p);
    lemma_cong_mul(l as int, k, d as int, x0 - x2, m);
    lemma_fe_sub(f, y0, p);
    lemma_cong_sub(f as int, k * (x0 - x2), y0 as int, y0 as int, m);
}

/// The slope of the chord does not depend on the order of the points.
pub proof fn lemma_chord_commutes(x0: nat, y0: nat, x1: nat, y1: nat, p: nat)
    requires
        p > 0,
        invertible(fe_sub(x1, x0, p), p),
    ensures
        invertible(fe_sub(x0, x1, p), p),
        chord(x0, y0, x1, y1, p) == chord(x1, y1, x0, y0, p),
        chord(x0, y0, x1, y1, p) < p,
        cong(chord(x0, y0, x1, y1, p) * (x1 - x0), y1 - y0, p as int),
{
    let m = p as int;
    let l = chord(x0, y0, x1, y1, p);
    let dx = fe_sub(x1, x0, p);
    let dy = fe_sub(y1, y0, p);
    let ex = fe_sub(x0, x1, p);
    let ey = fe_sub(y0, y1, p);
    lemma_opposite_invertible(x1, x0, p);
    lemma_quotient_exists(dy, dx, p);
    lemma_fe_sub(x1, x0, p);
    lemma_fe_sub(y1, y0, p);
    lemma_fe_sub(x0, x1, p);
    lemma_fe_sub(y0, y1, p);
    // l * (x1 - x0) = y1 - y0
    lemma_cong_mul(l as int, l as int, dx as int, x1 - x0, m);
    assert(cong(l * (x1 - x0), y1 - y0, m));
    // l * (x0 - x1) = y0 - y1
    lemma_cong_sub(0, 0, l * (x1 - x0), y1 - y0, m);
    assert(l * (x0 - x1) == 0 - l * (x1 - x0)) by (nonlinear_arith);
    lemma_cong_mul(l as int, l as int, ex as int, x0 - x1, m);
    assert(is_quotient(l, ey, ex, p));
    lemma_quotient_unique(l, ey, ex, p);
}

/// The sum by the chord does not depend on the order of the points.
pub proof fn lemma_chord_sum_commutes(x0: nat, y0: nat, x1: nat, y1: nat, p: nat)
    requires
        p >= 2,
        invertible(fe_sub(x1, x0, p), p),
    ensures
        add_formula(x0, y0, x1, y1, p) == add_formula(x1, y1, x0, y0, p),
        group_add(Some((x0, y0)), Some((x1, y1)), p) == group_add(
            Some((x1, y1)),
            Some((x0, y0)),
            p,
        ),
{
    let m = p as int;
    let l = chord(x0, y0, x1, y1, p);
    lemma_chord_commutes(x0, y0, x1, y1, p);
    let u = third(l, x0, y0, x1, p);
    let v = third(l, x1, y1, x0, p);
    lemma_third(l, l as int, x0, y0, x1, p);
    lemma_third(l, l as int, x1, y1, x0, p);
    lemma_cong_below(u.0, v.0, p);
    // l * (x0 - x2) - y0 = l * (x0 - x1) + (l * (x1 - x2) - y0)
    //                    = (y0 - y1) + (l * (x1 - x2) - y0)
    lemma_cong_sub(0, 0, l * (x1 - x0), y1 - y0, m);
    assert(l * (x0 - x1) == 0 - l * (x1 - x0)) by (nonlinear_arith);
    let rest = l * (x1 - u.0) - y0;
    lemma_cong_add(l * (x0 - x1), y0 - y1, rest, rest, m);
    assert(l * (x0 - u.0) - y0 == l * (x0 - x1) + rest) by (nonlinear_arith)
        requires
            rest == l * (x1 - u.0) - y0,
    ;
    lemma_cong_below(u.1, v.1, p);
    lemma_sum_by_chord(x0, y0, x1, y1, p);
    lemma_sum_by_chord(x1, y1, x0, y0, p);
}

/// The ladder step is a sum of sums: where the abscissas of `P` and `Q`,
/// and those of `P` and `P + Q`, differ by numbers with an inverse, the
/// formula of the ladder gives `P + (P + Q)`. The abscissa of `P + Q` is
/// written as the ladder computes it.
pub proof fn lemma_ladder_is_sum_of_sums(x0: nat, y0: nat, x1: nat, y1: nat, p: nat)
    requires
        p >= 2,
        invertible(fe_sub(x1, x0, p), p),
        invertible(fe_sub(third(chord(x0, y0, x1, y1, p), x1, y1, x0, p).0, x0, p), p),
    ensures
        Some(ladder_formula(x0, y0, x1, y1, p)) == group_add(
            Some((x0, y0)),
            group_add(Some((x0, y0)), Some((x1, y1)), p),
            p,
        ),
{
    let m = p as int;
    let l0 = chord(x0, y0, x1, y1, p);
    let s = add_formula(x0, y0, x1, y1, p);
    let (x2, y2) = s;
    lemma_sum_by_chord(x0, y0, x1, y1, p);
    lemma_third(l0, l0 as int, x0, y0, x1, p);
    // the abscissa of the sum, as the ladder computes it
    let xa = fe_sub(fe_sub(fe_mul(l0, l0, p), x1, p), x0, p);
    assert(xa == x2) by {
        lemma_fe_mul(l0, l0, p);
        lemma_fe_sub(fe_mul(l0, l0, p), x1, p);
        lemma_cong_sub(fe_mul(l0, l0, p) as int, (l0 * l0) as int, x1 as int, x1 as int, m);
        lemma_fe_sub(fe_sub(fe_mul(l0, l0, p), x1, p), x0, p);
        lemma_cong_sub(
            fe_sub(fe_mul(l0, l0, p), x1, p) as int,
            l0 * l0 - x1,
            x0 as int,
            x0 as int,
            m,
        );
        lemma_cong_below(xa, x2, p);
    }
    lemma_sum_by_chord(x0, y0, x2, y2, p);
    let dx = fe_sub(x2, x0, p);
    let t = fe_div(fe_mul(2, y0, p), dx, p);
    let l1 = fe_add(l0, t, p);
    let k = 0 - l1;
    let slope = chord(x0, y0, x2, y2, p);
    assert(cong(slope as int, k, m)) by {
        let dy = fe_sub(y2, y0, p);
        lemma_fe_sub(x2, x0, p);
        lemma_fe_sub(y2, y0, p);
        lemma_fe_add(l0, t, p);
        lemma_fe_mul(2, y0, p);
        lemma_quotient_exists(fe_mul(2, y0, p), dx, p);
        lemma_cong_mul(l1 as int, (l0 + t) as int, dx as int, dx as int, m);
        assert((l0 + t) * dx == l0 * dx + t * dx) by (nonlinear_arith);
        lemma_cong_mul(l0 as int, l0 as int, dx as int, x2 - x0, m);
        lemma_cong_add((l0 * dx) as int, l0 * (x2 - x0), (t * dx) as int, (2 * y0) as int, m);
        lemma_cong_sub(0, 0, (l1 * dx) as int, l0 * (x2 - x0) + 2 * y0, m);
        assert(k * dx == 0 - l1 * dx) by (nonlinear_arith)
            requires
                k == 0 - l1,
        ;
        assert(0 - (l0 * (x2 - x0) + 2 * y0) == (l0 * (x0 - x2) - y0) - y0) by (nonlinear_arith);
        lemma_cong_sub(y2 as int, l0 * (x0 - x2) - y0, y0 as int, y0 as int, m);
        lemma_fe_div(k, dy, dx, p);
    }
    let r = third(slope, x0, y0, x2, p);
    lemma_third(slope, k, x0, y0, x2, p);
    let x3 = fe_sub(fe_sub(fe_mul(l1, l1, p), xa, p), x0, p);
    let y3 = fe_sub(fe_mul(l1, fe_sub(x3, x0, p), p), y0, p);
    assert(x3 == r.0) by {
        lemma_fe_mul(l1, l1, p);
        lemma_fe_sub(fe_mul(l1, l1, p), xa, p);
        lemma_cong_sub(fe_mul(l1, l1, p) as int, (l1 * l1) as int, xa as int, xa as int, m);
        lemma_fe_sub(fe_sub(fe_mul(l1, l1, p), xa, p), x0, p);
        lemma_cong_sub(
            fe_sub(fe_mul(l1, l1, p), xa, p) as int,
            l1 * l1 - xa,
            x0 as int,
            x0 as int,
            m,
        );
        assert(k * k == l1 * l1) by (nonlinear_arith)
            requires
                k == 0 - l1,
        ;
        lemma_cong_below(x3, r.0, p);
    }
    assert(y3 == r.1) by {
        let d = fe_sub(x3, x0, p);
        lemma_fe_sub(x3, x0, p);
        lemma_fe_mul(l1, d, p);
        lemma_cong_mul(l1 as int, l1 as int, d as int, x3 - x0, m);
        lemma_fe_sub(fe_mul(l1, d, p), y0, p);
        lemma_cong_sub(fe_mul(l1, d, p) as int, l1 * (x3 - x0), y0 as int, y0 as int, m);
        assert(k * (x0 - x3) == l1 * (x3 - x0)) by (nonlinear_arith)
            requires
                k == 0 - l1,
        ;
        lemma_cong_below(y3, r.1, p);
    }
}

} // verus!
