//! The curve `y^2 = x^3 + b` over the foreign field, outside the circuit:
//! the formulas of the chord and of the tangent, and scalar multiplication
//! by the binary method.

use crate::big::{big_add, big_bit, big_clone, big_eq, big_from_u64, big_is_zero, big_modinv, big_mul, big_rem, big_sub, is_inverse_mod, nat_of};
use crate::limbs::{big_bit_length, bit_length};
use crate::main_gate::invertible;
use crate::modular::{lemma_cong_mul, lemma_cong_rem};
use num_bigint::BigUint;
use vstd::arithmetic::div_mod::lemma_small_mod;
use vstd::arithmetic::power2::pow2;
use vstd::prelude::*;

pub mod laws;

verus! {

/// `a + b` in the field of modulus `p`.
pub open spec fn fe_add(a: nat, b: nat, p: nat) -> nat {
    (a + b) % p
}

/// `a - b` in the field of modulus `p`.
pub open spec fn fe_sub(a: nat, b: nat, p: nat) -> nat {
    ((a - b) % (p as int)) as nat
}

/// `a * b` in the field of modulus `p`.
pub open spec fn fe_mul(a: nat, b: nat, p: nat) -> nat {
    (a * b) % p
}

/// Whether `c` is a quotient of `a` by `b` in the field of modulus `p`.
pub open spec fn is_quotient(c: nat, a: nat, b: nat, p: nat) -> bool {
    c < p && (c * b) % p == a % p
}

/// `a / b` in the field of modulus `p`: the number below `p` whose product
/// with `b` is `a`. It is the only one where `b` has an inverse.
pub open spec fn fe_div(a: nat, b: nat, p: nat) -> nat {
    choose|c: nat| is_quotient(c, a, b, p)
}

/// Whether `(x, y)` is on the curve `y^2 = x^3 + b`.
pub open spec fn on_curve(x: nat, y: nat, b: nat, p: nat) -> bool {
    fe_mul(y, y, p) == fe_add(fe_mul(x, fe_mul(x, x, p), p), b, p)
}

/// The slope of the chord through two points.
pub open spec fn chord(x0: nat, y0: nat, x1: nat, y1: nat, p: nat) -> nat {
    fe_div(fe_sub(y1, y0, p), fe_sub(x1, x0, p), p)
}

/// The slope of the tangent at a point of a curve `y^2 = x^3 + b`.
pub open spec fn tangent(x: nat, y: nat, p: nat) -> nat {
    fe_div(fe_mul(3, fe_mul(x, x, p), p), fe_mul(2, y, p), p)
}

/// The third point of a line of slope `l` through `(x0, y0)` and a point of
/// abscissa `x1`, mirrored: the sum of the two points.
pub open spec fn third(l: nat, x0: nat, y0: nat, x1: nat, p: nat) -> (nat, nat) {
    let x2 = fe_sub(fe_sub(fe_mul(l, l, p), x0, p), x1, p);
    let y2 = fe_sub(fe_mul(l, fe_sub(x0, x2, p), p), y0, p);
    (x2, y2)
}

/// The sum of two points with different abscissas.
pub open spec fn add_formula(x0: nat, y0: nat, x1: nat, y1: nat, p: nat) -> (nat, nat) {
    third(chord(x0, y0, x1, y1, p), x0, y0, x1, p)
}

/// The double of a point whose ordinate is not zero.
pub open spec fn double_formula(x: nat, y: nat, p: nat) -> (nat, nat) {
    third(tangent(x, y, p), x, y, x, p)
}

/// `2 * P + Q` in one step, for `P = (x0, y0)` and `Q = (x1, y1)`: with the
/// slope `l0` of the chord through `P` and `Q` and the abscissa `x2` of
/// `P + Q`, the second slope is `l1 = l0 + 2 * y0 / (x2 - x0)`, and the
/// result is `(l1^2 - x2 - x0, l1 * (x3 - x0) - y0)`.
pub open spec fn ladder_formula(x0: nat, y0: nat, x1: nat, y1: nat, p: nat) -> (nat, nat) {
    let l0 = chord(x0, y0, x1, y1, p);
    let x2 = fe_sub(fe_sub(fe_mul(l0, l0, p), x1, p), x0, p);
    let l1 = fe_add(l0, fe_div(fe_mul(2, y0, p), fe_sub(x2, x0, p), p), p);
    let x3 = fe_sub(fe_sub(fe_mul(l1, l1, p), x2, p), x0, p);
    let y3 = fe_sub(fe_mul(l1, fe_sub(x3, x0, p), p), y0, p);
    (x3, y3)
}

/// A quotient by a number that has an inverse is the quotient.
pub proof fn lemma_quotient_unique(c: nat, a: nat, b: nat, p: nat)
    requires
        p > 0,
        invertible(b, p),
        is_quotient(c, a, b, p),
    ensures
        c == fe_div(a, b, p),
{
    let d = fe_div(a, b, p);
    assert(is_quotient(d, a, b, p));
    let x = choose|x: nat| is_inverse_mod(b, x, p);
    let m = p as int;
    // c = c * (b * x) = (c * b) * x = (d * b) * x = d * (b * x) = d
    lemma_cong_mul(c as int, c as int, (b * x) as int, 1, m);
    lemma_cong_mul(d as int, d as int, (b * x) as int, 1, m);
    lemma_cong_mul((c * b) as int, (d * b) as int, x as int, x as int, m);
    assert(c * (b * x) == (c * b) * x) by (nonlinear_arith);
    assert(d * (b * x) == (d * b) * x) by (nonlinear_arith);
    lemma_small_mod(c, p);
    lemma_small_mod(d, p);
}

/// A quotient with operands replaced by congruent ones.
pub proof fn lemma_quotient_congruent(c: nat, a: nat, a2: nat, b: nat, b2: nat, p: nat)
    requires
        p > 0,
        a % p == a2 % p,
        b % p == b2 % p,
    ensures
        is_quotient(c, a, b, p) == is_quotient(c, a2, b2, p),
{
    lemma_cong_mul(c as int, c as int, b as int, b2 as int, p as int);
}

/// A point of the curve outside the circuit, by its coordinates below the
/// foreign modulus.
pub struct Affine {
    pub x: BigUint,
    pub y: BigUint,
}

impl Affine {
    /// The coordinates as naturals.
    pub open spec fn coords(self) -> (nat, nat) {
        (nat_of(self.x), nat_of(self.y))
    }

    /// A copy of the point.
    pub fn copy(&self) -> (r: Affine)
        ensures
            r == *self,
    {
        Affine { x: big_clone(&self.x), y: big_clone(&self.y) }
    }
}

/// The curve `y^2 = x^3 + b` over the field of modulus `p`.
pub struct Curve {
    pub p: BigUint,
    pub b: BigUint,
}

/// The coordinates of a point that may be the identity.
pub open spec fn coords_of(point: Option<Affine>) -> Option<(nat, nat)> {
    match point {
        Some(a) => Some(a.coords()),
        None => None,
    }
}

/// The sum of two points of the curve, either of which may be the identity
/// (`None`). Equal points are doubled, and opposite points give the
/// identity. Where the formula that applies has no slope, because the number
/// it divides by has no inverse, the answer is the identity too.
pub open spec fn group_add(a: Option<(nat, nat)>, b: Option<(nat, nat)>, p: nat) -> Option<
    (nat, nat),
> {
    match (a, b) {
        (None, _) => b,
        (_, None) => a,
        (Some((x0, y0)), Some((x1, y1))) => {
            if x0 % p == x1 % p {
                if fe_add(y0, y1, p) != 0 && invertible(fe_mul(2, y0, p), p) {
                    Some(double_formula(x0, y0, p))
                } else {
                    None
                }
            } else {
                if invertible(fe_sub(x1, x0, p), p) {
                    Some(add_formula(x0, y0, x1, y1, p))
                } else {
                    None
                }
            }
        },
    }
}

/// The opposite of a point.
pub open spec fn group_neg(a: Option<(nat, nat)>, p: nat) -> Option<(nat, nat)> {
    match a {
        None => None,
        Some((x, y)) => Some((x, fe_sub(0, y, p))),
    }
}

/// `[k]P` by the binary method: the double of `[k / 2]P`, plus `P` where
/// `k` is odd.
pub open spec fn group_mul(k: nat, a: Option<(nat, nat)>, p: nat) -> Option<(nat, nat)>
    decreases k,
{
    if k == 0 {
        None
    } else {
        let half = group_mul(k / 2, a, p);
        let twice = group_add(half, half, p);
        if k % 2 == 1 {
            group_add(twice, a, p)
        } else {
            twice
        }
    }
}

/// The leading `n` bits of a number of `len` bits: the number shifted right
/// by `len - n` bits.
pub open spec fn leading(k: nat, len: nat, n: nat) -> nat {
    k / pow2((len - n) as nat)
}

impl Curve {
    /// The modulus.
    pub open spec fn modulus(self) -> nat {
        nat_of(self.p)
    }

    /// The curve is usable: its modulus is at least two.
    pub open spec fn wf(self) -> bool {
        nat_of(self.p) >= 2
    }

    /// `a - b` in the field.
    pub fn sub(&self, a: &BigUint, b: &BigUint) -> (r: BigUint)
        requires
            self.wf(),
        ensures
            nat_of(r) == fe_sub(nat_of(*a), nat_of(*b), self.modulus()),
            nat_of(r) < self.modulus(),
    {
        let p = &self.p;
        let x = big_rem(a, p);
        let y = big_rem(b, p);
        let r = big_rem(&big_sub(&big_add(&x, p), &y), p);
        proof {
            let m = nat_of(*p) as int;
            vstd::arithmetic::div_mod::lemma_sub_mod_noop(nat_of(*a) as int, nat_of(*b) as int, m);
            vstd::arithmetic::div_mod::lemma_mod_add_multiples_vanish(
                nat_of(*a) as int % m - nat_of(*b) as int % m,
                m,
            );
        }
        r
    }

    /// `a + b` in the field.
    pub fn add(&self, a: &BigUint, b: &BigUint) -> (r: BigUint)
        requires
            self.wf(),
        ensures
            nat_of(r) == fe_add(nat_of(*a), nat_of(*b), self.modulus()),
            nat_of(r) < self.modulus(),
    {
        big_rem(&big_add(a, b), &self.p)
    }

    /// `a * b` in the field.
    pub fn mul(&self, a: &BigUint, b: &BigUint) -> (r: BigUint)
        requires
            self.wf(),
        ensures
            nat_of(r) == fe_mul(nat_of(*a), nat_of(*b), self.modulus()),
            nat_of(r) < self.modulus(),
    {
        big_rem(&big_mul(a, b), &self.p)
    }

    /// `a / b` in the field, or `None` where `b` has no inverse.
    pub fn div(&self, a: &BigUint, b: &BigUint) -> (r: Option<BigUint>)
        requires
            self.wf(),
        ensures
            r is Some <==> invertible(nat_of(*b), self.modulus()),
            r matches Some(c) ==> nat_of(c) == fe_div(nat_of(*a), nat_of(*b), self.modulus())
                && nat_of(c) < self.modulus(),
    {
        match big_modinv(b, &self.p) {
            Some(x) => {
                let c = big_rem(&big_mul(a, &x), &self.p);
                proof {
                    let p = self.modulus();
                    let m = p as int;
                    let (an, bn, xn) = (nat_of(*a), nat_of(*b), nat_of(x));
                    assert(is_inverse_mod(bn, xn, p));
                    // c * b = (a * x) * b = a * (b * x) = a
                    lemma_cong_rem((an * xn) as int, m);
                    lemma_cong_mul(nat_of(c) as int, (an * xn) as int, bn as int, bn as int, m);
                    lemma_cong_mul(an as int, an as int, (bn * xn) as int, 1, m);
                    assert((an * xn) * bn == an * (bn * xn)) by (nonlinear_arith);
                    assert(an * 1 == an) by (nonlinear_arith);
                    lemma_quotient_unique(nat_of(c), an, bn, p);
                }
                Some(c)
            },
            None => None,
        }
    }

    /// Whether a point is on the curve.
    pub fn is_on_curve(&self, x: &BigUint, y: &BigUint) -> (r: bool)
        requires
            self.wf(),
        ensures
            r == on_curve(nat_of(*x), nat_of(*y), nat_of(self.b), self.modulus()),
    {
        let lhs = self.mul(y, y);
        let rhs = self.add(&self.mul(x, &self.mul(x, x)), &self.b);
        big_eq(&lhs, &rhs)
    }

    /// The third point of a line of slope `l`, mirrored.
    fn third_point(&self, l: &BigUint, a: &Affine, x1: &BigUint) -> (r: Affine)
        requires
            self.wf(),
        ensures
            r.coords() == third(nat_of(*l), nat_of(a.x), nat_of(a.y), nat_of(*x1), self.modulus()),
            nat_of(r.x) < self.modulus(),
            nat_of(r.y) < self.modulus(),
    {
        let x2 = self.sub(&self.sub(&self.mul(l, l), &a.x), x1);
        let y2 = self.sub(&self.mul(l, &self.sub(&a.x, &x2)), &a.y);
        Affine { x: x2, y: y2 }
    }

    /// The opposite of a point.
    pub fn neg(&self, a: &Option<Affine>) -> (r: Option<Affine>)
        requires
            self.wf(),
        ensures
            coords_of(r) == group_neg(coords_of(*a), self.modulus()),
    {
        match a {
            None => None,
            Some(a) => Some(Affine { x: big_clone(&a.x), y: self.sub(&big_from_u64(0), &a.y) }),
        }
    }

    /// The double of a point, where the doubled ordinate has an inverse.
    fn double_affine(&self, a: &Affine) -> (r: Option<Affine>)
        requires
            self.wf(),
        ensures
            r is Some <==> invertible(fe_mul(2, nat_of(a.y), self.modulus()), self.modulus()),
            r matches Some(d) ==> d.coords() == double_formula(
                nat_of(a.x),
                nat_of(a.y),
                self.modulus(),
            ),
    {
        let num = self.mul(&big_from_u64(3), &self.mul(&a.x, &a.x));
        let den = self.mul(&big_from_u64(2), &a.y);
        match self.div(&num, &den) {
            Some(l) => Some(self.third_point(&l, a, &a.x)),
            None => None,
        }
    }

    /// The sum of two points, either of which may be the identity.
    pub fn group_add(&self, a: &Option<Affine>, b: &Option<Affine>) -> (r: Option<Affine>)
        requires
            self.wf(),
        ensures
            coords_of(r) == group_add(coords_of(*a), coords_of(*b), self.modulus()),
    {
        match (a, b) {
            (None, None) => None,
            (None, Some(v)) => Some(v.copy()),
            (Some(u), None) => Some(u.copy()),
            (Some(u), Some(v)) => {
                if big_eq(&big_rem(&u.x, &self.p), &big_rem(&v.x, &self.p)) {
                    if big_is_zero(&self.add(&u.y, &v.y)) {
                        None
                    } else {
                        self.double_affine(u)
                    }
                } else {
                    let num = self.sub(&v.y, &u.y);
                    let den = self.sub(&v.x, &u.x);
                    match self.div(&num, &den) {
                        Some(l) => Some(self.third_point(&l, u, &v.x)),
                        None => None,
                    }
                }
            },
        }
    }

    /// `[k]P` by the binary method, from the most significant bit of `k`
    /// down: the accumulator is doubled and `P` is added where the bit is
    /// set.
    pub fn group_mul(&self, k: &BigUint, a: &Option<Affine>) -> (r: Option<Affine>)
        requires
            self.wf(),
        ensures
            coords_of(r) == group_mul(nat_of(*k), coords_of(*a), self.modulus()),
    {
        let len = big_bit_length(k);
        let mut acc: Option<Affine> = None;
        let mut i: u64 = 0;
        proof {
            crate::limbs::lemma_bit_length_bounds(nat_of(*k));
            vstd::arithmetic::div_mod::lemma_basic_div(
                nat_of(*k) as int,
                pow2(len as nat) as int,
            );
        }
        while i < len
            invariant
                self.wf(),
                i <= len,
                len == bit_length(nat_of(*k)),
                coords_of(acc) == group_mul(
                    leading(nat_of(*k), len as nat, i as nat),
                    coords_of(*a),
                    self.modulus(),
                ),
            decreases len - i,
        {
            let ghost m = (len - 1 - i) as nat;
            proof {
                let kn = nat_of(*k);
                vstd::arithmetic::power2::lemma_pow2_pos(m);
                vstd::arithmetic::power2::lemma_pow2_unfold(m + 1);
                vstd::arithmetic::div_mod::lemma_div_denominator(kn as int, pow2(m) as int, 2);
                assert(pow2(m) * 2 == pow2(m + 1));
                assert(leading(kn, len as nat, i as nat) == leading(kn, len as nat, (i + 1) as nat) / 2);
            }
            acc = self.group_add(&acc, &acc);
            if big_bit(k, len - 1 - i) {
                acc = self.group_add(&acc, a);
            }
            proof {
                let kn = nat_of(*k);
                let next = leading(kn, len as nat, (i + 1) as nat);
                assert(next > 0 || kn / pow2(m) == 0);
                if next == 0 {
                    // nothing was added to the identity
                    assert(leading(kn, len as nat, i as nat) == 0);
                }
            }
            i = i + 1;
        }
        proof {
            vstd::arithmetic::power2::lemma2_to64();
            vstd::arithmetic::div_mod::lemma_div_basics_2(nat_of(*k) as int);
        }
        acc
    }
}

} // verus!
