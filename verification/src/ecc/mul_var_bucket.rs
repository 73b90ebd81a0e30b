//! Multiplication of many points by many scalars with buckets: in each
//! round every pair adds its point to the bucket that its window of bits
//! names, and the buckets are then summed with their numbers as weights. The
//! buckets start at multiples of a constant point, so that no sum meets the
//! identity, and one point corrects for all of them at the end.

use crate::curve::{coords_of, group_add, group_neg, Affine, Curve};
use crate::ecc::mul::{
    all_bits, bits_value, checked_add, lemma_bits_value_bound, window_value, Selector, Windowed,
};
use crate::ecc::doubles;
use vstd::arithmetic::power2::{lemma2_to64, lemma_pow2_pos, lemma_pow2_unfold, pow2};
use crate::ecc::{number_of_windows, windows, AssignedPoint, BaseFieldEccChip, Error};
use crate::gate::{RegionCtx, Witness};
use crate::limbs::bit_length;
use vstd::prelude::*;

verus! {

/// The points that the buckets start from, and the point that corrects for
/// them at the end.
pub struct Buckets {
    pub points: Vec<AssignedPoint>,
    pub correction_point: AssignedPoint,
}

impl Buckets {
    /// A copy of the points that the buckets start from.
    pub fn points(&self) -> (r: Vec<AssignedPoint>)
        ensures
            r@.len() == self.points@.len(),
            forall|i: int|
                0 <= i < r@.len() ==> (#[trigger] r@[i]).x.limbs@ == self.points@[i].x.limbs@
                    && r@[i].x.native == self.points@[i].x.native && r@[i].y.limbs@
                    == self.points@[i].y.limbs@ && r@[i].y.native == self.points@[i].y.native,
    {
        let mut r: Vec<AssignedPoint> = Vec::new();
        let mut i: usize = 0;
        while i < self.points.len()
            invariant
                i <= self.points.len(),
                r@.len() == i,
                forall|j: int|
                    0 <= j < i ==> (#[trigger] r@[j]).x.limbs@ == self.points@[j].x.limbs@
                        && r@[j].x.native == self.points@[j].x.native && r@[j].y.limbs@
                        == self.points@[j].y.limbs@ && r@[j].y.native == self.points@[j].y.native,
            decreases self.points.len() - i,
        {
            r.push(self.points[i].copy());
            i = i + 1;
        }
        r
    }

    /// The point that corrects for the constants of the buckets.
    pub fn correction_point(&self) -> (r: &AssignedPoint)
        ensures
            *r == self.correction_point,
    {
        &self.correction_point
    }

    /// The number of buckets.
    pub fn size(&self) -> (r: usize)
        ensures
            r == self.points@.len(),
    {
        self.points.len()
    }

    /// The window size that the number of buckets stands for: the number of
    /// bits of the largest bucket number.
    pub fn window(&self) -> (r: usize)
        ensures
            self.points@.len() == 0 ==> r == 0,
            self.points@.len() > 0 ==> r == bit_length(self.points@.len()) - 1,
    {
        let mut rest = self.size();
        let mut w: usize = 0;
        while rest > 1
            invariant
                rest >= 1 ==> bit_length(rest as nat) + w == bit_length(self.points@.len()),
                rest == 0 ==> self.points@.len() == 0 && w == 0,
                rest + w <= self.points@.len(),
                self.points@.len() <= usize::MAX,
            decreases rest,
        {
            proof {
                assert(bit_length(rest as nat) == 1 + bit_length((rest / 2) as nat));
            }
            rest = rest / 2;
            w = w + 1;
        }
        proof {
            if rest == 1 {
                assert(bit_length(1) == 1 + bit_length(0));
            }
        }
        w
    }
}

/// A point doubled `i` times.
pub open spec fn doubled(g: Option<(nat, nat)>, i: nat, p: nat) -> Option<(nat, nat)>
    decreases i,
{
    if i == 0 {
        g
    } else {
        let h = doubled(g, (i - 1) as nat, p);
        group_add(h, h, p)
    }
}

/// The sum of the constants of the buckets from number `i` up to number
/// `size - 1`, where bucket `j` starts at the generator doubled `j` times.
pub open spec fn constants_sum(g: Option<(nat, nat)>, size: nat, i: nat, p: nat) -> Option<
    (nat, nat),
>
    decreases size - i,
{
    if i >= size {
        None
    } else {
        group_add(constants_sum(g, size, i + 1, p), doubled(g, i, p), p)
    }
}

/// The constants of the buckets from number `i` up, each as often as the
/// number of its bucket less `i - 1`: what the buckets contribute to a round
/// where no point is added.
pub open spec fn constants_weighted(g: Option<(nat, nat)>, size: nat, i: nat, p: nat) -> Option<
    (nat, nat),
>
    decreases size - i,
{
    if i >= size {
        None
    } else {
        group_add(constants_weighted(g, size, i + 1, p), constants_sum(g, size, i, p), p)
    }
}

/// What the constants of the buckets add up to over `rounds` rounds, with
/// `window` doublings between the rounds.
pub open spec fn constants_total(
    per_round: Option<(nat, nat)>,
    window: nat,
    rounds: nat,
    p: nat,
) -> Option<(nat, nat)>
    decreases rounds,
{
    if rounds == 0 {
        None
    } else {
        group_add(doubled(constants_total(per_round, window, (rounds - 1) as nat, p), window, p), per_round, p)
    }
}

impl Curve {
    /// A point doubled `n` times.
    pub fn doubled(&self, g: &Option<Affine>, n: usize) -> (r: Option<Affine>)
        requires
            self.wf(),
        ensures
            coords_of(r) == doubled(coords_of(*g), n as nat, self.modulus()),
    {
        let mut acc = match g {
            Some(a) => Some(a.copy()),
            None => None,
        };
        let mut i: usize = 0;
        while i < n
            invariant
                self.wf(),
                i <= n,
                coords_of(acc) == doubled(coords_of(*g), i as nat, self.modulus()),
            decreases n - i,
        {
            acc = self.group_add(&acc, &acc);
            i = i + 1;
        }
        acc
    }
}

impl BaseFieldEccChip {
    /// The generator of the constants as a point of the curve: the identity
    /// where it is not assigned.
    pub open spec fn bucket_generator(self) -> Option<(nat, nat)> {
        match self.aux_generator {
            Some(g) => Some(g.point.coords()),
            None => None,
        }
    }

    /// The point that bucket `i` starts from: the generator of the constants
    /// doubled `i` times.
    pub open spec fn bucket_start(self, i: nat) -> Option<(nat, nat)> {
        doubled(self.bucket_generator(), i, self.p())
    }

    /// The point that corrects for the constants of the buckets of a window
    /// size: the opposite of everything that they add up to over all rounds.
    pub open spec fn bucket_correction(self, window: nat) -> Option<(nat, nat)> {
        group_neg(
            constants_total(
                constants_weighted(self.bucket_generator(), pow2(window), 1, self.p()),
                window,
                number_of_windows(self.num_bits as nat, window),
                self.p(),
            ),
            self.p(),
        )
    }

    /// Whether the constants of the buckets of a window size are defined:
    /// the generator is assigned, and neither a point that a bucket starts
    /// from nor the point that corrects for them is the identity.
    pub open spec fn buckets_defined(self, window: nat) -> bool {
        &&& self.aux_generator is Some
        &&& forall|i: nat| i < pow2(window) ==> (#[trigger] self.bucket_start(i)) is Some
        &&& self.bucket_correction(window) is Some
    }

    /// Whether the constants of the buckets of a window size are defined and
    /// every one of them can be assigned.
    pub open spec fn buckets_assignable(self, window: nat) -> bool {
        &&& self.buckets_defined(window)
        &&& forall|i: nat|
            i < pow2(window) ==> self.assignable_coords((#[trigger] self.bucket_start(i)).unwrap())
        &&& self.assignable_coords(self.bucket_correction(window).unwrap())
    }

    /// The constants of the buckets of a window size, outside the circuit:
    /// the points that the `2^window` buckets start from, which are the
    /// generator of the constants doubled as often as the number of the
    /// bucket says, and the point that corrects for them at the end, which
    /// is the opposite of everything that they add up to over all rounds.
    /// `None` where the generator is not assigned or one of the points is
    /// the identity.
    pub fn bucket_constants(&self, window: usize) -> (r: Option<(Vec<Affine>, Affine)>)
        requires
            self.wf(),
            0 < window < 32,
        ensures
            r is Some <==> self.buckets_defined(window as nat),
            r matches Some(c) ==> ({
                let g = Some(self.aux_generator.unwrap().point.coords());
                let p = self.p();
                let size = c.0@.len() as nat;
                &&& size >= 2
                &&& size == vstd::arithmetic::power2::pow2(window as nat)
                &&& forall|i: int|
                    0 <= i < size ==> Some((#[trigger] c.0@[i]).coords()) == doubled(g, i as nat, p)
                &&& Some(c.1.coords()) == group_neg(
                    constants_total(
                        constants_weighted(g, size, 1, p),
                        window as nat,
                        number_of_windows(self.num_bits as nat, window as nat),
                        p,
                    ),
                    p,
                )
            }),
    {
        proof {
            self.sys().lemma_basics();
        }
        let generator = match &self.aux_generator {
            Some(generator) => generator.point.copy(),
            None => {
                return None;
            },
        };
        let curve = &self.curve;
        let ghost g = Some(generator.coords());
        let ghost p = self.p();
        let size: usize = crate::ecc::mul::two_to(window);
        proof {
            vstd::arithmetic::power2::lemma2_to64();
            if window > 1 {
                vstd::arithmetic::power2::lemma_pow2_strictly_increases(1, window as nat);
            }
        }
        // the constants: R, 2 * R, 4 * R, ...
        let mut initial_buckets: Vec<Affine> = Vec::new();
        let mut acc: Option<Affine> = Some(generator);
        while initial_buckets.len() < size
            invariant
                curve.wf(),
                curve.modulus() == p,
                p == self.p(),
                g == self.bucket_generator(),
                size == pow2(window as nat),
                initial_buckets@.len() <= size,
                coords_of(acc) == doubled(g, initial_buckets@.len() as nat, p),
                forall|i: int|
                    0 <= i < initial_buckets@.len() ==> Some((#[trigger] initial_buckets@[i]).coords())
                        == doubled(g, i as nat, p),
            decreases size - initial_buckets@.len(),
        {
            let next = curve.group_add(&acc, &acc);
            match acc {
                Some(point) => {
                    initial_buckets.push(point);
                },
                None => {
                    proof {
                        assert(self.bucket_start(initial_buckets@.len() as nat) is None);
                    }
                    return None;
                },
            }
            acc = next;
        }
        proof {
            assert forall|i: nat| i < pow2(window as nat) implies (#[trigger] self.bucket_start(
                i,
            )) is Some by {
                assert(Some(initial_buckets@[i as int].coords()) == doubled(g, i, p));
            }
        }
        let number_of_windows = windows(self.num_bits, window);
        // the sum of the constants with the numbers of their buckets as weights
        let mut sum: Option<Affine> = None;
        let mut weighted: Option<Affine> = None;
        let mut i: usize = initial_buckets.len();
        while i > 1
            invariant
                curve.wf(),
                curve.modulus() == p,
                1 <= i <= initial_buckets@.len(),
                forall|j: int|
                    0 <= j < initial_buckets@.len() ==> Some((#[trigger] initial_buckets@[j]).coords())
                        == doubled(g, j as nat, p),
                coords_of(sum) == constants_sum(g, initial_buckets@.len() as nat, i as nat, p),
                coords_of(weighted) == constants_weighted(
                    g,
                    initial_buckets@.len() as nat,
                    i as nat,
                    p,
                ),
            decreases i,
        {
            i = i - 1;
            let bucket = Some(initial_buckets[i].copy());
            sum = curve.group_add(&sum, &bucket);
            weighted = curve.group_add(&weighted, &sum);
        }
        // the same doublings and additions as in the rounds
        let mut total: Option<Affine> = None;
        let mut j: usize = 0;
        while j < number_of_windows
            invariant
                curve.wf(),
                curve.modulus() == p,
                j <= number_of_windows,
                coords_of(total) == constants_total(coords_of(weighted), window as nat, j as nat, p),
            decreases number_of_windows - j,
        {
            total = curve.doubled(&total, window);
            total = curve.group_add(&total, &weighted);
            j = j + 1;
        }
        match curve.neg(&total) {
            Some(correction_point) => Some((initial_buckets, correction_point)),
            None => None,
        }
    }

    /// Whether every one of the points can be assigned.
    pub open spec fn all_assignable(self, points: Seq<Affine>) -> bool {
        forall|i: int| 0 <= i < points.len() ==> self.assignable(#[trigger] points[i])
    }

    /// Whether every one of the points can be assigned.
    pub fn are_assignable(&self, points: &Vec<Affine>) -> (r: bool)
        requires
            self.wf(),
        ensures
            r == self.all_assignable(points@),
    {
        let mut k: usize = 0;
        while k < points.len()
            invariant
                self.wf(),
                k <= points@.len(),
                forall|i: int| 0 <= i < k ==> self.assignable(#[trigger] points@[i]),
            decreases points@.len() - k,
        {
            if !self.is_assignable(&points[k]) {
                return false;
            }
            k = k + 1;
        }
        true
    }

    /// Assigns constants of buckets that are known to be assignable: the
    /// points that the buckets start with, in order, and the point that
    /// corrects for them.
    pub fn assign_buckets(&self, ctx: &mut RegionCtx, points: &Vec<Affine>, correction: &Affine) -> (b:
        Buckets)
        requires
            self.wf(),
            self.fits(*old(ctx)),
            self.all_assignable(points@),
            self.assignable(*correction),
        ensures
            final(ctx).native_modulus == old(ctx).native_modulus,
            final(ctx).satisfied() == old(ctx).satisfied(),
            b.points@.len() == points@.len(),
            self.all_wf(b.points@),
            forall|i: int|
                0 <= i < points@.len() ==> (#[trigger] b.points@[i]).coords(self.sys())
                    == points@[i].coords(),
            b.correction_point.wf(self.sys()),
            b.correction_point.coords(self.sys()) == correction.coords(),
    {
        let mut buckets: Vec<AssignedPoint> = Vec::new();
        let mut i: usize = 0;
        while i < points.len()
            invariant
                self.wf(),
                self.fits(*ctx),
                ctx.native_modulus == old(ctx).native_modulus,
                ctx.satisfied() == old(ctx).satisfied(),
                i <= points@.len(),
                buckets@.len() == i,
                self.all_wf(buckets@),
                self.all_assignable(points@),
                forall|j: int|
                    0 <= j < i ==> (#[trigger] buckets@[j]).coords(self.sys()) == points@[j].coords(),
            decreases points@.len() - i,
        {
            // the constants are registered as the buckets that every round
            // starts with
            match self.assign_constant(ctx, &points[i]) {
                Ok(point) => {
                    buckets.push(point);
                },
                Err(_) => {
                    proof {
                        assert(self.assignable(points@[i as int]));
                    }
                },
            }
            i = i + 1;
        }
        let correction_point = match self.assign_constant(ctx, correction) {
            Ok(point) => point,
            Err(_) => {
                proof {
                    assert(false);
                }
                buckets[0].copy()
            },
        };
        Buckets { points: buckets, correction_point }
    }

    /// Assigns the constants of the buckets of a window size: the points
    /// that the buckets start with and the point that corrects for them.
    /// Fails, and leaves the circuit as it is, where the constants are not
    /// defined or one of them cannot be assigned.
    pub fn initial_buckets(&self, ctx: &mut RegionCtx, window: usize) -> (r: Result<Buckets, Error>)
        requires
            self.wf(),
            self.fits(*old(ctx)),
            0 < window < 32,
        ensures
            final(ctx).native_modulus == old(ctx).native_modulus,
            final(ctx).satisfied() == old(ctx).satisfied(),
            r is Ok <==> self.buckets_assignable(window as nat),
            r is Err ==> *final(ctx) == *old(ctx),
            r matches Ok(b) ==> ({
                let g = Some(self.aux_generator.unwrap().point.coords());
                let p = self.p();
                let size = b.points@.len() as nat;
                &&& self.aux_generator is Some
                &&& size >= 2
                &&& size == vstd::arithmetic::power2::pow2(window as nat)
                &&& self.all_wf(b.points@)
                &&& b.correction_point.wf(self.sys())
                &&& forall|i: int|
                    0 <= i < size ==> Some((#[trigger] b.points@[i]).coords(self.sys())) == doubled(
                        g,
                        i as nat,
                        p,
                    )
                &&& Some(b.correction_point.coords(self.sys())) == group_neg(
                    constants_total(
                        constants_weighted(g, size, 1, p),
                        window as nat,
                        number_of_windows(self.num_bits as nat, window as nat),
                        p,
                    ),
                    p,
                )
            }),
    {
        let (initial_buckets, correction_point) = match self.bucket_constants(window) {
            Some(constants) => constants,
            None => {
                return Err(Error::Synthesis);
            },
        };
        proof {
            assert forall|i: nat| i < pow2(window as nat) implies self.assignable(
                initial_buckets@[i as int],
            ) == self.assignable_coords((#[trigger] self.bucket_start(i)).unwrap()) by {
                assert(Some(initial_buckets@[i as int].coords()) == self.bucket_start(i));
            }
        }
        // nothing is assigned unless everything can be
        if !self.are_assignable(&initial_buckets) {
            proof {
                let i = choose|i: int|
                    0 <= i < initial_buckets@.len() && !self.assignable(
                        #[trigger] initial_buckets@[i],
                    );
                assert(!self.assignable_coords(self.bucket_start(i as nat).unwrap()));
            }
            return Err(Error::Synthesis);
        }
        if !self.is_assignable(&correction_point) {
            return Err(Error::Synthesis);
        }
        let buckets = self.assign_buckets(ctx, &initial_buckets, &correction_point);
        proof {
            assert forall|i: int| 0 <= i < buckets.points@.len() implies Some(
                (#[trigger] buckets.points@[i]).coords(self.sys()),
            ) == doubled(
                Some(self.aux_generator.unwrap().point.coords()),
                i as nat,
                self.p(),
            ) by {
                assert(Some(initial_buckets@[i].coords()) == doubled(
                    Some(self.aux_generator.unwrap().point.coords()),
                    i as nat,
                    self.p(),
                ));
            }
        }
        Ok(buckets)
    }

    /// Whether the bits of a window name bucket `index`: the product, over
    /// the bits, of the bit or of its opposite, as the binary digits of the
    /// number say. The result is one where the bits denote `index` and zero
    /// where they do not.
    pub fn names_bucket(&self, ctx: &mut RegionCtx, selector: &Selector, index: usize) -> (c: Witness)
        requires
            old(ctx).wf(),
            all_bits(selector.0@),
            selector.0@.len() >= 1,
            index < pow2(selector.0@.len()),
        ensures
            final(ctx).native_modulus == old(ctx).native_modulus,
            final(ctx).satisfied() == old(ctx).satisfied(),
            c.val() <= 1,
            c.val() == 1 <==> bits_value(selector.0@) == index,
    {
        let main_gate = self.main_gate();
        let ghost sel = selector.0@;
        let mut rest = index;
        let mut cond = if rest % 2 == 1 {
            selector.0[0].copy()
        } else {
            main_gate.not(ctx, &selector.0[0])
        };
        rest = rest / 2;
        let mut k: usize = 1;
        proof {
            lemma2_to64();
            assert(sel.take(1).drop_last() =~= Seq::<Witness>::empty());
            assert(sel.take(1).last() == sel[0]);
            assert(bits_value(sel.take(0)) == 0);
            assert(sel.take(1).drop_last() =~= sel.take(0));
            assert(bits_value(sel.take(1)) == sel[0].val()) by {
                assert(sel[0].val() * 1 == sel[0].val()) by (nonlinear_arith);
            }
        }
        while k < selector.0.len()
            invariant
                ctx.wf(),
                ctx.native_modulus == old(ctx).native_modulus,
                ctx.satisfied() == old(ctx).satisfied(),
                sel == selector.0@,
                all_bits(sel),
                1 <= k <= sel.len(),
                cond.val() <= 1,
                rest == (index as nat) / pow2(k as nat),
                cond.val() == 1 <==> bits_value(sel.take(k as int)) == (index as nat) % pow2(k as nat),
            decreases sel.len() - k,
        {
            let ghost digit = rest % 2;
            let factor = if rest % 2 == 1 {
                selector.0[k].copy()
            } else {
                main_gate.not(ctx, &selector.0[k])
            };
            let ghost low_bits = bits_value(sel.take(k as int));
            let ghost low_index = (index as nat) % pow2(k as nat);
            let ghost old_cond = cond.val();
            cond = main_gate.and(ctx, &cond, &factor);
            proof {
                let h = pow2(k as nat);
                let b = sel[k as int].val();
                lemma_pow2_pos(k as nat);
                lemma_pow2_unfold((k + 1) as nat);
                assert(sel.take(k + 1).drop_last() =~= sel.take(k as int));
                assert(sel.take(k + 1).last() == sel[k as int]);
                lemma_bits_value_bound(sel.take(k as int));
                vstd::arithmetic::div_mod::lemma_mod_breakdown(index as int, h as int, 2);
                vstd::arithmetic::div_mod::lemma_div_denominator(index as int, h as int, 2);
                vstd::arithmetic::div_mod::lemma_mod_bound(index as int, h as int);
                assert(h * 2 == pow2((k + 1) as nat));
                assert(factor.val() == 1 <==> b == digit);
                assert(old_cond * factor.val() == 1 <==> (old_cond == 1 && factor.val() == 1))
                    by (nonlinear_arith)
                    requires
                        old_cond <= 1,
                        factor.val() <= 1,
                ;
                // two numbers of k + 1 bits are equal where their low bits and
                // their top bits are
                assert((low_bits + b * h == low_index + h * digit) <==> (low_bits == low_index && b
                    == digit)) by (nonlinear_arith)
                    requires
                        low_bits < h,
                        low_index < h,
                        b <= 1,
                        digit <= 1,
                ;
            }
            rest = rest / 2;
            k = k + 1;
        }
        proof {
            assert(sel.take(sel.len() as int) =~= sel);
            vstd::arithmetic::div_mod::lemma_small_mod(index as nat, pow2(sel.len()));
        }
        cond
    }

    /// Writes a point into the bucket that the bits of a window name: every
    /// bucket is replaced by a selection between the point and what the
    /// bucket holds, so that the named bucket holds the point and every
    /// other bucket what it held.
    pub fn update_table(
        &self,
        ctx: &mut RegionCtx,
        selector: &Selector,
        point: &AssignedPoint,
        buckets: &mut Vec<AssignedPoint>,
    )
        requires
            self.wf(),
            self.fits(*old(ctx)),
            all_bits(selector.0@),
            selector.0@.len() >= 1,
            point.wf(self.sys()),
            self.all_wf(old(buckets)@),
            old(buckets)@.len() == pow2(selector.0@.len()),
        ensures
            final(ctx).native_modulus == old(ctx).native_modulus,
            final(ctx).satisfied() == old(ctx).satisfied(),
            final(buckets)@.len() == old(buckets)@.len(),
            self.all_wf(final(buckets)@),
            forall|e: int|
                0 <= e < final(buckets)@.len() ==> (#[trigger] final(buckets)@[e]).coords(self.sys())
                    == if e == bits_value(selector.0@) {
                    point.coords(self.sys())
                } else {
                    old(buckets)@[e].coords(self.sys())
                },
    {
        let mut i: usize = 0;
        while i < buckets.len()
            invariant
                self.wf(),
                self.fits(*ctx),
                ctx.native_modulus == old(ctx).native_modulus,
                ctx.satisfied() == old(ctx).satisfied(),
                all_bits(selector.0@),
                selector.0@.len() >= 1,
                point.wf(self.sys()),
                buckets@.len() == old(buckets)@.len(),
                buckets@.len() == pow2(selector.0@.len()),
                i <= buckets@.len(),
                self.all_wf(buckets@),
                forall|e: int|
                    0 <= e < i ==> (#[trigger] buckets@[e]).coords(self.sys()) == if e == bits_value(
                        selector.0@,
                    ) {
                        point.coords(self.sys())
                    } else {
                        old(buckets)@[e].coords(self.sys())
                    },
                forall|e: int|
                    i <= e < buckets@.len() ==> (#[trigger] buckets@[e]).coords(self.sys()) == old(buckets)@[e].coords(self.sys()),
            decreases buckets@.len() - i,
        {
            let cond = self.names_bucket(ctx, selector, i);
            let updated = self.select(ctx, &cond, point, &buckets[i]);
            buckets.set(i, updated);
            i = i + 1;
        }
    }

    /// The coordinates of a sequence of points.
    pub open spec fn coords_seq(self, v: Seq<AssignedPoint>) -> Seq<(nat, nat)> {
        Seq::new(v.len(), |i: int| v[i].coords(self.sys()))
    }

    /// One round of the multiplication with buckets, for window `j` of the
    /// scalars: the buckets start at their constants; every pair selects the
    /// bucket that its window names, adds its point to it and writes it back;
    /// and the buckets, but for the one of number zero, are summed from the
    /// highest number down with a running sum and a running sum of the
    /// running sums. Returns that last sum.
    fn bucket_round(
        &self,
        ctx: &mut RegionCtx,
        initial_buckets: &Buckets,
        points: &Vec<AssignedPoint>,
        windowed: &Vec<Windowed>,
        j: usize,
        Ghost(scalars): Ghost<Seq<nat>>,
        Ghost(m): Ghost<nat>,
    ) -> (r: AssignedPoint)
        requires
            self.wf(),
            self.fits(*old(ctx)),
            self.all_wf(points@),
            self.all_wf(initial_buckets.points@),
            points@.len() == windowed@.len(),
            points@.len() == scalars.len(),
            j < m,
            exists|w: nat| round_shape(windowed@, scalars, initial_buckets.points@.len(), w, m),
        ensures
            final(ctx).native_modulus == old(ctx).native_modulus,
            final(ctx).satisfied() ==> old(ctx).satisfied(),
            r.wf(self.sys()),
            forall|w: nat|
                round_shape(windowed@, scalars, initial_buckets.points@.len(), w, m) ==> (round_sum(
                    self.coords_seq(initial_buckets.points@),
                    self.coords_seq(points@),
                    scalars,
                    w,
                    m,
                    j as nat,
                    self.p(),
                    self.sys().n(),
                ) matches Some(c) ==> final(ctx).satisfied() == old(ctx).satisfied() && r.coords(
                    self.sys(),
                ) == c),
    {
        let ghost w = choose|w: nat| round_shape(windowed@, scalars, initial_buckets.points@.len(), w, m);
        let ghost init = self.coords_seq(initial_buckets.points@);
        let ghost pts = self.coords_seq(points@);
        let ghost p = self.p();
        let ghost n = self.sys().n();
        let bucket_size = initial_buckets.size();
        proof {
            lemma2_to64();
            if w > 1 {
                vstd::arithmetic::power2::lemma_pow2_strictly_increases(1, w);
            }
        }
        // each round starts with the same buckets
        let mut buckets = initial_buckets.points();
        proof {
            assert(self.coords_seq(buckets@) =~= init);
            assert(self.all_wf(buckets@)) by {
                assert forall|e: int| 0 <= e < buckets@.len() implies (#[trigger] buckets@[e]).wf(
                    self.sys(),
                ) by {
                    assert(initial_buckets.points@[e].wf(self.sys()));
                }
            }
        }
        let mut i: usize = 0;
        while i < points.len()
            invariant
                self.wf(),
                self.fits(*ctx),
                ctx.native_modulus == old(ctx).native_modulus,
                ctx.satisfied() ==> old(ctx).satisfied(),
                i <= points@.len(),
                j < m,
                w >= 1,
                points@.len() == windowed@.len(),
                points@.len() == scalars.len(),
                self.all_wf(points@),
                round_shape(windowed@, scalars, bucket_size as nat, w, m),
                init == self.coords_seq(initial_buckets.points@),
                pts == self.coords_seq(points@),
                p == self.p(),
                n == self.sys().n(),
                buckets@.len() == bucket_size,
                bucket_size == pow2(w),
                self.all_wf(buckets@),
                round_buckets(init, pts, scalars, w, m, j as nat, i as nat, p, n) matches Some(b)
                    ==> ctx.satisfied() == old(ctx).satisfied() && self.coords_seq(buckets@) == b,
            decreases points@.len() - i,
        {
            // the window of the scalar names a bucket; the point is added to
            // it, and the bucket is written back
            let ghost v = window_value(scalars[i as int], w, m, j as nat);
            let ghost before = self.coords_seq(buckets@);
            proof {
                assert(windowed@[i as int].0@.len() == m);
                assert(windowed@[i as int].0@[j as int].0@.len() == w);
                assert(bits_value(windowed@[i as int].0@[j as int].0@) == v);
                lemma_bits_value_bound(windowed@[i as int].0@[j as int].0@);
                assert(pts[i as int] == points@[i as int].coords(self.sys()));
            }
            let selector = &windowed[i].0[j];
            let bucket = self.select_multi(ctx, selector, &buckets);
            proof {
                assert(bucket.coords(self.sys()) == before[v as int]);
            }
            let bucket_updated = self.add(ctx, &bucket, &points[i]);
            self.update_table(ctx, selector, &bucket_updated, &mut buckets);
            proof {
                assert(self.coords_seq(buckets@) =~= before.update(
                    v as int,
                    bucket_updated.coords(self.sys()),
                ));
            }
            i = i + 1;
        }
        let ghost filled = round_buckets(init, pts, scalars, w, m, j as nat, points@.len(), p, n);
        // the buckets are summed from the highest number down, with the
        // bucket of number zero left out
        let mut sum = buckets[bucket_size - 1].copy();
        let mut inner_acc = buckets[bucket_size - 1].copy();
        let mut b: usize = bucket_size - 1;
        proof {
            if filled is Some {
                assert(self.coords_seq(buckets@)[bucket_size - 1] == buckets@[bucket_size
                    - 1].coords(self.sys()));
            }
        }
        while b > 1
            invariant
                self.wf(),
                self.fits(*ctx),
                ctx.native_modulus == old(ctx).native_modulus,
                ctx.satisfied() ==> old(ctx).satisfied(),
                1 <= b < bucket_size,
                buckets@.len() == bucket_size,
                self.all_wf(buckets@),
                sum.wf(self.sys()),
                inner_acc.wf(self.sys()),
                p == self.p(),
                n == self.sys().n(),
                filled matches Some(full) ==> self.coords_seq(buckets@) == full && (collapse(
                    full,
                    b as nat,
                    p,
                    n,
                ) matches Some(c) ==> ctx.satisfied() == old(ctx).satisfied() && sum.coords(
                    self.sys(),
                ) == c.0 && inner_acc.coords(self.sys()) == c.1),
            decreases b,
        {
            b = b - 1;
            proof {
                if filled is Some {
                    assert(self.coords_seq(buckets@)[b as int] == buckets@[b as int].coords(
                        self.sys(),
                    ));
                }
            }
            // sum = B_(n-1) + B_(n-2) + ...
            sum = self.add(ctx, &sum, &buckets[b]);
            // inner_acc = 1 * B_(n-1) + 2 * B_(n-2) + ...
            inner_acc = self.add(ctx, &inner_acc, &sum);
        }
        proof {
            assert forall|w2: nat|
                round_shape(windowed@, scalars, initial_buckets.points@.len(), w2, m) implies w2
                == w by {
                if w2 != w {
                    if w2 < w {
                        vstd::arithmetic::power2::lemma_pow2_strictly_increases(w2, w);
                    } else {
                        vstd::arithmetic::power2::lemma_pow2_strictly_increases(w, w2);
                    }
                }
            }
        }
        inner_acc
    }

    /// `[s_0]P_0 + [s_1]P_1 + ...` for pairs of points and scalars, with
    /// buckets for windows of `window_size` bits. In each round, from the
    /// most significant window down, the accumulator is doubled
    /// `window_size` times and the sum of the round is added to it; at the
    /// end the point that corrects for the constants of the buckets is
    /// added. Fails, and leaves the circuit as it is, where the constants of
    /// the buckets cannot be assigned. Where every step is defined, the
    /// circuit stays as satisfied as it was and the result is what
    /// [`msm_result`] says.
    pub fn msm_bucket(
        &self,
        ctx: &mut RegionCtx,
        points: &Vec<AssignedPoint>,
        scalars: &Vec<Witness>,
        window_size: usize,
    ) -> (r: Result<AssignedPoint, Error>)
        requires
            self.wf(),
            self.fits(*old(ctx)),
            points@.len() > 0,
            points@.len() == scalars@.len(),
            self.all_wf(points@),
            forall|i: int| 0 <= i < scalars@.len() ==> (#[trigger] scalars@[i]).val() < old(ctx).modulus(),
            0 < window_size < 32,
        ensures
            final(ctx).native_modulus == old(ctx).native_modulus,
            final(ctx).satisfied() ==> old(ctx).satisfied(),
            r is Ok <==> self.buckets_assignable(window_size as nat),
            r is Err ==> *final(ctx) == *old(ctx),
            r matches Ok(res) ==> res.wf(self.sys()) && (msm_result(
                bucket_starts(
                    Some(self.aux_generator.unwrap().point.coords()),
                    pow2(window_size as nat),
                    self.p(),
                ),
                group_neg(
                    constants_total(
                        constants_weighted(
                            Some(self.aux_generator.unwrap().point.coords()),
                            pow2(window_size as nat),
                            1,
                            self.p(),
                        ),
                        window_size as nat,
                        number_of_windows(self.num_bits as nat, window_size as nat),
                        self.p(),
                    ),
                    self.p(),
                ).unwrap(),
                self.coords_seq(points@),
                values_of(scalars@),
                window_size as nat,
                number_of_windows(self.num_bits as nat, window_size as nat),
                self.p(),
                self.sys().n(),
            ) matches Some(c) ==> final(ctx).satisfied() == old(ctx).satisfied() && res.coords(
                self.sys(),
            ) == c),
    {
        let number_of_points = points.len();
        // the constants that the buckets start with
        let initial_buckets = match self.initial_buckets(ctx, window_size) {
            Ok(buckets) => buckets,
            Err(e) => {
                return Err(e);
            },
        };
        let ghost w = window_size as nat;
        let ghost p = self.p();
        let ghost n = self.sys().n();
        let ghost init = self.coords_seq(initial_buckets.points@);
        let ghost corr = initial_buckets.correction_point.coords(self.sys());
        let ghost pts = self.coords_seq(points@);
        let ghost svals = values_of(scalars@);
        let ghost m = number_of_windows(self.num_bits as nat, w);
        proof {
            assert(init =~= bucket_starts(
                Some(self.aux_generator.unwrap().point.coords()),
                pow2(w),
                p,
            ));
        }
        // the scalars in windows of bits
        let mut windowed: Vec<Windowed> = Vec::new();
        let mut s: usize = 0;
        while s < number_of_points
            invariant
                self.wf(),
                self.fits(*ctx),
                ctx.native_modulus == old(ctx).native_modulus,
                ctx.satisfied() == old(ctx).satisfied(),
                number_of_points == scalars@.len(),
                s <= number_of_points,
                window_size > 0,
                w == window_size,
                m == number_of_windows(self.num_bits as nat, w),
                svals == values_of(scalars@),
                windowed@.len() == s,
                forall|i: int| 0 <= i < scalars@.len() ==> (#[trigger] scalars@[i]).val() < ctx.modulus(),
                forall|i: int| 0 <= i < s ==> window_shape(#[trigger] windowed@[i], svals[i], w, m),
            decreases number_of_points - s,
        {
            let wd = self.scalar_windows(ctx, &scalars[s], window_size);
            windowed.push(wd);
            s = s + 1;
        }
        let number_of_windows = windowed[0].0.len();
        let mut acc: Option<AssignedPoint> = None;
        let mut j: usize = 0;
        while j < number_of_windows
            invariant
                self.wf(),
                self.fits(*ctx),
                ctx.native_modulus == old(ctx).native_modulus,
                ctx.satisfied() ==> old(ctx).satisfied(),
                j <= number_of_windows,
                number_of_windows == m,
                0 < window_size < 32,
                w == window_size,
                p == self.p(),
                n == self.sys().n(),
                number_of_points == points@.len(),
                number_of_points > 0,
                windowed@.len() == number_of_points,
                svals.len() == number_of_points,
                self.all_wf(points@),
                initial_buckets.points@.len() == pow2(w),
                self.all_wf(initial_buckets.points@),
                initial_buckets.correction_point.wf(self.sys()),
                init == self.coords_seq(initial_buckets.points@),
                pts == self.coords_seq(points@),
                round_shape(windowed@, svals, pow2(w), w, m),
                acc matches Some(a) ==> a.wf(self.sys()),
                j > 0 ==> acc is Some,
                j == 0 ==> acc is None && ctx.satisfied() == old(ctx).satisfied(),
                j > 0 ==> (msm_acc(init, pts, svals, w, m, (j - 1) as nat, p, n) matches Some(c)
                    ==> ctx.satisfied() == old(ctx).satisfied() && acc.unwrap().coords(self.sys())
                    == c),
            decreases number_of_windows - j,
        {
            let doubled = match &acc {
                Some(a) => Some(self.double_n(ctx, a, window_size)),
                None => None,
            };
            let ghost mid = ctx.satisfied();
            let round_sum = self.bucket_round(
                ctx,
                &initial_buckets,
                points,
                &windowed,
                j,
                Ghost(svals),
                Ghost(m),
            );
            proof {
                assert(round_shape(windowed@, svals, initial_buckets.points@.len(), w, m));
                let sum = crate::ecc::mul_var_bucket::round_sum(init, pts, svals, w, m, j as nat, p, n);
                assert(sum matches Some(c) ==> ctx.satisfied() == mid && round_sum.coords(
                    self.sys(),
                ) == c);
            }
            acc = Some(
                match doubled {
                    Some(a) => self.add(ctx, &a, &round_sum),
                    None => round_sum,
                },
            );
            j = j + 1;
        }
        match acc {
            Some(distorted_result) => Ok(
                self.add(ctx, &distorted_result, initial_buckets.correction_point()),
            ),
            None => {
                // a scalar field of no bits: nothing was added to the constants
                Ok(initial_buckets.correction_point.copy())
            },
        }
    }
}

/// The values of a sequence of witnesses.
pub open spec fn values_of(v: Seq<Witness>) -> Seq<nat> {
    Seq::new(v.len(), |i: int| v[i].val())
}

/// The points that the buckets start from: bucket `i` starts at the
/// generator of the constants doubled `i` times.
pub open spec fn bucket_starts(g: Option<(nat, nat)>, size: nat, p: nat) -> Seq<(nat, nat)> {
    Seq::new(size, |i: int| doubled(g, i as nat, p).unwrap())
}

/// The windows of one scalar: `m` windows of `w` bits, each of which
/// denotes the window of the scalar at its place.
pub open spec fn window_shape(windows: Windowed, s: nat, w: nat, m: nat) -> bool {
    &&& windows.0@.len() == m
    &&& forall|j: int|
        0 <= j < m ==> (#[trigger] windows.0@[j]).0@.len() == w && all_bits(windows.0@[j].0@)
    &&& forall|j: int|
        0 <= j < m ==> bits_value((#[trigger] windows.0@[j]).0@) == window_value(s, w, m, j as nat)
}

/// The windows of all scalars, for buckets of `size = 2^w`.
pub open spec fn round_shape(windowed: Seq<Windowed>, scalars: Seq<nat>, size: nat, w: nat, m: nat) -> bool {
    &&& w >= 1
    &&& size == pow2(w)
    &&& windowed.len() == scalars.len()
    &&& forall|i: int| 0 <= i < windowed.len() ==> window_shape(#[trigger] windowed[i], scalars[i], w, m)
}

/// The buckets of round `j` after the first `k` pairs: each pair adds its
/// point to the bucket that window `j` of its scalar names. `None` where one
/// of the additions is not defined.
pub open spec fn round_buckets(
    init: Seq<(nat, nat)>,
    points: Seq<(nat, nat)>,
    scalars: Seq<nat>,
    w: nat,
    m: nat,
    j: nat,
    k: nat,
    p: nat,
    n: nat,
) -> Option<Seq<(nat, nat)>>
    decreases k,
{
    if k == 0 {
        Some(init)
    } else {
        match round_buckets(init, points, scalars, w, m, j, (k - 1) as nat, p, n) {
            Some(b) => {
                let v = window_value(scalars[k - 1], w, m, j) as int;
                match checked_add(b[v], points[k - 1], p, n) {
                    Some(u) => Some(b.update(v, u)),
                    None => None,
                }
            },
            None => None,
        }
    }
}

/// The running sum and the running sum of the running sums over the
/// buckets from the highest number down to number `e`. `None` where one of
/// the additions is not defined.
pub open spec fn collapse(b: Seq<(nat, nat)>, e: nat, p: nat, n: nat) -> Option<
    ((nat, nat), (nat, nat)),
>
    decreases b.len() - e,
{
    if e + 1 >= b.len() {
        Some((b.last(), b.last()))
    } else {
        match collapse(b, e + 1, p, n) {
            Some(c) => match checked_add(c.0, b[e as int], p, n) {
                Some(sum) => match checked_add(c.1, sum, p, n) {
                    Some(inner) => Some((sum, inner)),
                    None => None,
                },
                None => None,
            },
            None => None,
        }
    }
}

/// The sum of round `j`: the buckets after all pairs, summed with their
/// numbers as weights.
pub open spec fn round_sum(
    init: Seq<(nat, nat)>,
    points: Seq<(nat, nat)>,
    scalars: Seq<nat>,
    w: nat,
    m: nat,
    j: nat,
    p: nat,
    n: nat,
) -> Option<(nat, nat)> {
    match round_buckets(init, points, scalars, w, m, j, points.len(), p, n) {
        Some(b) => match collapse(b, 1, p, n) {
            Some(c) => Some(c.1),
            None => None,
        },
        None => None,
    }
}

/// The accumulator after round `j`: the sum of the first round, and for
/// every later round the accumulator doubled `w` times plus the sum of the
/// round.
pub open spec fn msm_acc(
    init: Seq<(nat, nat)>,
    points: Seq<(nat, nat)>,
    scalars: Seq<nat>,
    w: nat,
    m: nat,
    j: nat,
    p: nat,
    n: nat,
) -> Option<(nat, nat)>
    decreases j,
{
    let sum = round_sum(init, points, scalars, w, m, j, p, n);
    if j == 0 {
        sum
    } else {
        match msm_acc(init, points, scalars, w, m, (j - 1) as nat, p, n) {
            Some(a) => match doubles(a, w, p) {
                Some(d) => match sum {
                    Some(r) => checked_add(d, r, p, n),
                    None => None,
                },
                None => None,
            },
            None => None,
        }
    }
}

/// What the multiplication with buckets computes, where every step of it is
/// defined: the accumulator after the last of `m` rounds, plus the point
/// that corrects for the constants of the buckets.
pub open spec fn msm_result(
    init: Seq<(nat, nat)>,
    correction: (nat, nat),
    points: Seq<(nat, nat)>,
    scalars: Seq<nat>,
    w: nat,
    m: nat,
    p: nat,
    n: nat,
) -> Option<(nat, nat)> {
    if m == 0 {
        Some(correction)
    } else {
        match msm_acc(init, points, scalars, w, m, (m - 1) as nat, p, n) {
            Some(a) => checked_add(a, correction, p, n),
            None => None,
        }
    }
}

} // verus!
