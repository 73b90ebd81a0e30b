//! The formulas of the chord and of the tangent in the circuit. None of
//! them applies to the identity, and each needs a slope: the caller sees to
//! it that the number the slope divides by has an inverse.

use crate::curve::{add_formula, double_formula, fe_mul, fe_sub, ladder_formula, third};
use crate::ecc::{AssignedPoint, BaseFieldEccChip};
use crate::gate::RegionCtx;
use crate::main_gate::invertible;
use vstd::prelude::*;

verus! {

impl BaseFieldEccChip {
    /// The sum of two points by the formula of the chord.
    pub fn add_incomplete(&self, ctx: &mut RegionCtx, a: &AssignedPoint, b: &AssignedPoint) -> (r:
        AssignedPoint)
        requires
            self.wf(),
            self.fits(*old(ctx)),
            a.wf(self.sys()),
            b.wf(self.sys()),
        ensures
            final(ctx).native_modulus == old(ctx).native_modulus,
            final(ctx).satisfied() ==> old(ctx).satisfied(),
            r.wf(self.sys()),
            invertible(fe_sub(b.coords(self.sys()).0, a.coords(self.sys()).0, self.p()), self.p())
                ==> final(ctx).satisfied() == old(ctx).satisfied() && r.coords(self.sys())
                == add_formula(
                a.coords(self.sys()).0,
                a.coords(self.sys()).1,
                b.coords(self.sys()).0,
                b.coords(self.sys()).1,
                self.p(),
            ),
    {
        let ch = &self.integer_chip;
        // lambda = (b_y - a_y) / (b_x - a_x)
        let numerator = ch.field_sub(ctx, &b.y, &a.y);
        let denominator = ch.field_sub(ctx, &b.x, &a.x);
        let lambda = ch.field_div(ctx, &numerator, &denominator);
        // c_x = lambda * lambda - a_x - b_x
        let lambda_square = ch.field_square(ctx, &lambda);
        let t = ch.field_sub(ctx, &lambda_square, &a.x);
        let x = ch.field_sub(ctx, &t, &b.x);
        // c_y = lambda * (a_x - c_x) - a_y
        let t = ch.field_sub(ctx, &a.x, &x);
        let t = ch.field_mul(ctx, &lambda, &t);
        let y = ch.field_sub(ctx, &t, &a.y);
        AssignedPoint::new(x, y)
    }

    /// The double of a point by the formula of the tangent.
    pub fn double_incomplete(&self, ctx: &mut RegionCtx, point: &AssignedPoint) -> (r: AssignedPoint)
        requires
            self.wf(),
            self.fits(*old(ctx)),
            point.wf(self.sys()),
        ensures
            final(ctx).native_modulus == old(ctx).native_modulus,
            final(ctx).satisfied() ==> old(ctx).satisfied(),
            r.wf(self.sys()),
            invertible(fe_mul(2, point.coords(self.sys()).1, self.p()), self.p())
                ==> final(ctx).satisfied() == old(ctx).satisfied() && r.coords(self.sys())
                == double_formula(
                point.coords(self.sys()).0,
                point.coords(self.sys()).1,
                self.p(),
            ),
    {
        let ch = &self.integer_chip;
        // lambda = (3 * a_x^2) / (2 * a_y)
        let x_0_square = ch.field_square(ctx, &point.x);
        let numerator = ch.field_mul3(ctx, &x_0_square);
        let denominator = ch.field_mul2(ctx, &point.y);
        let lambda = ch.field_div(ctx, &numerator, &denominator);
        // c_x = lambda * lambda - 2 * a_x
        let lambda_square = ch.field_square(ctx, &lambda);
        let t = ch.field_sub(ctx, &lambda_square, &point.x);
        let x = ch.field_sub(ctx, &t, &point.x);
        // c_y = lambda * (a_x - c_x) - a_y
        let t = ch.field_sub(ctx, &point.x, &x);
        let t = ch.field_mul(ctx, &lambda, &t);
        let y = ch.field_sub(ctx, &t, &point.y);
        AssignedPoint::new(x, y)
    }

    /// `2 * P + Q` as `(P + Q) + P` in one step: the ordinate of `P + Q` is
    /// never computed.
    pub fn ladder_incomplete(
        &self,
        ctx: &mut RegionCtx,
        to_double: &AssignedPoint,
        to_add: &AssignedPoint,
    ) -> (r: AssignedPoint)
        requires
            self.wf(),
            self.fits(*old(ctx)),
            to_double.wf(self.sys()),
            to_add.wf(self.sys()),
        ensures
            final(ctx).native_modulus == old(ctx).native_modulus,
            final(ctx).satisfied() ==> old(ctx).satisfied(),
            r.wf(self.sys()),
            ({
                let (x0, y0) = to_double.coords(self.sys());
                let (x1, y1) = to_add.coords(self.sys());
                let p = self.p();
                let x2 = third(crate::curve::chord(x0, y0, x1, y1, p), x1, y1, x0, p).0;
                invertible(fe_sub(x1, x0, p), p) && invertible(fe_sub(x2, x0, p), p)
                    ==> final(ctx).satisfied() == old(ctx).satisfied() && r.coords(self.sys())
                    == ladder_formula(
                    x0,
                    y0,
                    x1,
                    y1,
                    p,
                )
            }),
    {
        let ch = &self.integer_chip;
        // lambda_0 = (y_2 - y_1) / (x_2 - x_1)
        let numerator = ch.field_sub(ctx, &to_add.y, &to_double.y);
        let denominator = ch.field_sub(ctx, &to_add.x, &to_double.x);
        let lambda_0 = ch.field_div(ctx, &numerator, &denominator);
        // x_3 = lambda_0 * lambda_0 - x_1 - x_2
        let lambda_0_square = ch.field_square(ctx, &lambda_0);
        let t = ch.field_sub(ctx, &lambda_0_square, &to_add.x);
        let x_3 = ch.field_sub(ctx, &t, &to_double.x);
        // lambda_1 = lambda_0 + 2 * y_1 / (x_3 - x_1)
        let numerator = ch.field_mul2(ctx, &to_double.y);
        let denominator = ch.field_sub(ctx, &x_3, &to_double.x);
        let lambda_1 = ch.field_div(ctx, &numerator, &denominator);
        let lambda_1 = ch.field_add(ctx, &lambda_0, &lambda_1);
        // x_4 = lambda_1 * lambda_1 - x_1 - x_3
        let lambda_1_square = ch.field_square(ctx, &lambda_1);
        let t = ch.field_sub(ctx, &lambda_1_square, &x_3);
        let x_4 = ch.field_sub(ctx, &t, &to_double.x);
        // y_4 = lambda_1 * (x_4 - x_1) - y_1
        let t = ch.field_sub(ctx, &x_4, &to_double.x);
        let t = ch.field_mul(ctx, &lambda_1, &t);
        let y_4 = ch.field_sub(ctx, &t, &to_double.y);
        AssignedPoint::new(x_4, y_4)
    }
}

} // verus!
