//! The operations of the gadget read as operations of the foreign field:
//! what each does to the residues of its operands.

use crate::curve::{fe_add, fe_div, fe_mul, fe_sub, lemma_quotient_congruent, lemma_quotient_unique};
use crate::gate::RegionCtx;
use crate::integer::invert::lemma_inverse_of_congruent;
use crate::integer::{AssignedInteger, IntegerChip, Range};
use crate::main_gate::invertible;
use crate::modular::{lemma_cong_add, lemma_cong_mul, lemma_cong_rem, lemma_cong_sub};
use crate::rns::{Integer, Rns};
use vstd::arithmetic::div_mod::{lemma_mod_bound, lemma_mod_twice, lemma_small_mod};
use vstd::prelude::*;

verus! {

impl AssignedInteger {
    /// The residue of the element: its value modulo the foreign modulus.
    pub open spec fn res(self, rns: Rns) -> nat {
        self.value(rns.r()) % rns.p()
    }
}

impl IntegerChip {
    /// `a + b` in the foreign field.
    pub fn field_add(&self, ctx: &mut RegionCtx, a: &AssignedInteger, b: &AssignedInteger) -> (c:
        AssignedInteger)
        requires
            self.wf(),
            self.fits(*old(ctx)),
            a.wf(self.rns),
            b.wf(self.rns),
        ensures
            final(ctx).native_modulus == old(ctx).native_modulus,
            final(ctx).satisfied() == old(ctx).satisfied(),
            c.wf(self.rns),
            c.res(self.rns) == fe_add(a.res(self.rns), b.res(self.rns), self.rns.p()),
    {
        proof {
            self.rns.lemma_basics();
            let r = self.rns.r();
            let p = self.rns.p() as int;
            lemma_cong_rem(a.value(r) as int, p);
            lemma_cong_rem(b.value(r) as int, p);
            lemma_cong_add(
                a.res(self.rns) as int,
                a.value(r) as int,
                b.res(self.rns) as int,
                b.value(r) as int,
                p,
            );
        }
        self.add(ctx, a, b)
    }

    /// `a + b` in the foreign field, for a constant `b` whose limbs are below
    /// the base.
    pub fn field_add_constant(&self, ctx: &mut RegionCtx, a: &AssignedInteger, b: &Integer) -> (c:
        AssignedInteger)
        requires
            self.wf(),
            self.fits(*old(ctx)),
            a.wf(self.rns),
            b.wf(),
            b.reduced(self.rns.r()),
        ensures
            final(ctx).native_modulus == old(ctx).native_modulus,
            final(ctx).satisfied() == old(ctx).satisfied(),
            c.wf(self.rns),
            c.res(self.rns) == fe_add(a.res(self.rns), b.value(self.rns.r()), self.rns.p()),
    {
        proof {
            self.rns.lemma_basics();
            let r = self.rns.r();
            let p = self.rns.p() as int;
            lemma_cong_rem(a.value(r) as int, p);
            lemma_cong_add(
                a.res(self.rns) as int,
                a.value(r) as int,
                b.value(r) as int,
                b.value(r) as int,
                p,
            );
        }
        self.add_constant(ctx, a, b)
    }

    /// `a - b` in the foreign field.
    pub fn field_sub(&self, ctx: &mut RegionCtx, a: &AssignedInteger, b: &AssignedInteger) -> (c:
        AssignedInteger)
        requires
            self.wf(),
            self.fits(*old(ctx)),
            a.wf(self.rns),
            b.wf(self.rns),
        ensures
            final(ctx).native_modulus == old(ctx).native_modulus,
            final(ctx).satisfied() == old(ctx).satisfied(),
            c.wf(self.rns),
            c.res(self.rns) == fe_sub(a.res(self.rns), b.res(self.rns), self.rns.p()),
    {
        proof {
            self.rns.lemma_basics();
            let r = self.rns.r();
            let p = self.rns.p() as int;
            lemma_cong_rem(a.value(r) as int, p);
            lemma_cong_rem(b.value(r) as int, p);
            lemma_cong_sub(
                a.res(self.rns) as int,
                a.value(r) as int,
                b.res(self.rns) as int,
                b.value(r) as int,
                p,
            );
            lemma_mod_bound(a.value(r) - b.value(r), p);
        }
        self.sub(ctx, a, b)
    }

    /// `-a` in the foreign field.
    pub fn field_neg(&self, ctx: &mut RegionCtx, a: &AssignedInteger) -> (c: AssignedInteger)
        requires
            self.wf(),
            self.fits(*old(ctx)),
            a.wf(self.rns),
        ensures
            final(ctx).native_modulus == old(ctx).native_modulus,
            final(ctx).satisfied() == old(ctx).satisfied(),
            c.wf(self.rns),
            c.res(self.rns) == fe_sub(0, a.res(self.rns), self.rns.p()),
    {
        proof {
            self.rns.lemma_basics();
            let r = self.rns.r();
            let p = self.rns.p() as int;
            lemma_cong_rem(a.value(r) as int, p);
            lemma_cong_sub(0, 0, a.res(self.rns) as int, a.value(r) as int, p);
            lemma_mod_bound(-(a.value(r) as int), p);
        }
        self.neg(ctx, a)
    }

    /// `a * b` in the foreign field.
    pub fn field_mul(&self, ctx: &mut RegionCtx, a: &AssignedInteger, b: &AssignedInteger) -> (c:
        AssignedInteger)
        requires
            self.wf(),
            self.fits(*old(ctx)),
            a.wf(self.rns),
            b.wf(self.rns),
        ensures
            final(ctx).native_modulus == old(ctx).native_modulus,
            final(ctx).satisfied() == old(ctx).satisfied(),
            c.wf(self.rns),
            c.bounded_as(self.rns, Range::Remainder),
            c.res(self.rns) == fe_mul(a.res(self.rns), b.res(self.rns), self.rns.p()),
    {
        proof {
            self.rns.lemma_basics();
            let r = self.rns.r();
            let p = self.rns.p() as int;
            lemma_cong_rem(a.value(r) as int, p);
            lemma_cong_rem(b.value(r) as int, p);
            lemma_cong_mul(
                a.res(self.rns) as int,
                a.value(r) as int,
                b.res(self.rns) as int,
                b.value(r) as int,
                p,
            );
            lemma_mod_twice((a.value(r) * b.value(r)) as int, p);
        }
        self.mul(ctx, a, b)
    }

    /// `a * a` in the foreign field.
    pub fn field_square(&self, ctx: &mut RegionCtx, a: &AssignedInteger) -> (c: AssignedInteger)
        requires
            self.wf(),
            self.fits(*old(ctx)),
            a.wf(self.rns),
        ensures
            final(ctx).native_modulus == old(ctx).native_modulus,
            final(ctx).satisfied() == old(ctx).satisfied(),
            c.wf(self.rns),
            c.bounded_as(self.rns, Range::Remainder),
            c.res(self.rns) == fe_mul(a.res(self.rns), a.res(self.rns), self.rns.p()),
    {
        proof {
            self.rns.lemma_basics();
            let r = self.rns.r();
            let p = self.rns.p() as int;
            lemma_cong_rem(a.value(r) as int, p);
            lemma_cong_mul(
                a.res(self.rns) as int,
                a.value(r) as int,
                a.res(self.rns) as int,
                a.value(r) as int,
                p,
            );
            lemma_mod_twice((a.value(r) * a.value(r)) as int, p);
        }
        self.square(ctx, a)
    }

    /// `2 * a` in the foreign field.
    pub fn field_mul2(&self, ctx: &mut RegionCtx, a: &AssignedInteger) -> (c: AssignedInteger)
        requires
            self.wf(),
            self.fits(*old(ctx)),
            a.wf(self.rns),
        ensures
            final(ctx).native_modulus == old(ctx).native_modulus,
            final(ctx).satisfied() == old(ctx).satisfied(),
            c.wf(self.rns),
            c.res(self.rns) == fe_mul(2, a.res(self.rns), self.rns.p()),
    {
        proof {
            self.rns.lemma_basics();
            let r = self.rns.r();
            let p = self.rns.p() as int;
            lemma_cong_rem(a.value(r) as int, p);
            lemma_cong_mul(2, 2, a.res(self.rns) as int, a.value(r) as int, p);
        }
        self.mul2(ctx, a)
    }

    /// `3 * a` in the foreign field.
    pub fn field_mul3(&self, ctx: &mut RegionCtx, a: &AssignedInteger) -> (c: AssignedInteger)
        requires
            self.wf(),
            self.fits(*old(ctx)),
            a.wf(self.rns),
        ensures
            final(ctx).native_modulus == old(ctx).native_modulus,
            final(ctx).satisfied() == old(ctx).satisfied(),
            c.wf(self.rns),
            c.res(self.rns) == fe_mul(3, a.res(self.rns), self.rns.p()),
    {
        proof {
            self.rns.lemma_basics();
            let r = self.rns.r();
            let p = self.rns.p() as int;
            lemma_cong_rem(a.value(r) as int, p);
            lemma_cong_mul(3, 3, a.res(self.rns) as int, a.value(r) as int, p);
        }
        self.mul3(ctx, a)
    }

    /// `a / b` in the foreign field, for a divisor that the caller knows to
    /// have an inverse. Where it has one, the circuit stays as satisfied as
    /// it was and the result is the quotient.
    pub fn field_div(&self, ctx: &mut RegionCtx, a: &AssignedInteger, b: &AssignedInteger) -> (c:
        AssignedInteger)
        requires
            self.wf(),
            self.fits(*old(ctx)),
            a.wf(self.rns),
            b.wf(self.rns),
        ensures
            final(ctx).native_modulus == old(ctx).native_modulus,
            final(ctx).satisfied() ==> old(ctx).satisfied(),
            c.wf(self.rns),
            c.bounded_as(self.rns, Range::Remainder),
            invertible(b.res(self.rns), self.rns.p()) ==> final(ctx).satisfied()
                == old(ctx).satisfied() && c.res(self.rns) == fe_div(
                a.res(self.rns),
                b.res(self.rns),
                self.rns.p(),
            ),
    {
        let c = self.div_incomplete(ctx, a, b);
        proof {
            self.rns.lemma_basics();
            let r = self.rns.r();
            let p = self.rns.p();
            lemma_mod_twice(a.value(r) as int, p as int);
            lemma_mod_twice(b.value(r) as int, p as int);
            lemma_small_mod(c.value(r), p);
            lemma_inverse_of_congruent(b.res(self.rns), b.value(r), 0, p);
            if invertible(b.res(self.rns), p) {
                lemma_quotient_congruent(
                    c.value(r),
                    a.value(r),
                    a.res(self.rns),
                    b.value(r),
                    b.res(self.rns),
                    p,
                );
                lemma_quotient_unique(c.value(r), a.res(self.rns), b.res(self.rns), p);
            }
        }
        c
    }
}

} // verus!
