//! Foreign-field elements in the circuit and the gadget that computes with
//! them.

use crate::big::{big_clone, nat_of};
use crate::gate::{cells4, Cell, Coeff, RegionCtx, Witness};
use crate::limbs::{big_bit_length, compose, horner};
use crate::main_gate::{MainGate, MainGateConfig};
use crate::range::{RangeChip, RangeConfig};
use crate::reduction::lemma_horner_as_powers;
use crate::rns::{Integer, Rns};
use num_bigint::BigUint;
use vstd::arithmetic::power2::pow2;
use vstd::prelude::*;

mod add;
mod assert_in_field;
mod assert_zero;
mod div;
mod field;
mod invert;
mod mul;
mod reduce;

pub use assert_in_field::{bit, borrows, difference_limb, ComparisonResult};
pub use invert::{
    lemma_inverse_of_congruent, lemma_inverse_unique, lemma_limbs_are_unique,
    lemma_zero_not_invertible,
};
pub use mul::{conv, high, mul_intermediate, seq_value};
pub use reduce::{half, intermediate, pair, ReductionWitness};

verus! {

/// The classes of values that are range-checked on assignment.
#[derive(Clone, Copy, Debug)]
pub enum Range {
    Remainder,
    Operand,
    MulQuotient,
}

/// What the gadget is configured with.
pub struct IntegerConfig {
    pub range_config: RangeConfig,
    pub main_gate_config: MainGateConfig,
}

impl IntegerConfig {
    /// The configuration of the two gadgets underneath.
    pub fn new(range_config: RangeConfig, main_gate_config: MainGateConfig) -> (r: IntegerConfig)
        ensures
            r.range_config == range_config,
            r.main_gate_config == main_gate_config,
    {
        IntegerConfig { range_config, main_gate_config }
    }
}

/// One limb in the circuit, with the bound that its value respects.
pub struct AssignedLimb {
    pub witness: Witness,
    pub max_val: BigUint,
}

impl AssignedLimb {
    /// A limb with the largest value it may hold.
    pub fn new(witness: Witness, max_val: BigUint) -> (r: AssignedLimb)
        ensures
            r.witness == witness,
            r.max_val == max_val,
    {
        AssignedLimb { witness, max_val }
    }

    /// A copy of the limb: the same cell and the same bound.
    pub fn copy(&self) -> (r: AssignedLimb)
        ensures
            r == *self,
    {
        AssignedLimb { witness: self.witness.copy(), max_val: big_clone(&self.max_val) }
    }
}

/// A foreign-field element in the circuit: four limbs and the cell of its
/// value in the native field.
pub struct AssignedInteger {
    pub limbs: Vec<AssignedLimb>,
    pub native: Witness,
}

impl AssignedInteger {
    /// The value of limb `i`.
    pub open spec fn limb_val(self, i: int) -> nat {
        self.limbs@[i].witness.val()
    }

    /// The bound of limb `i`.
    pub open spec fn limb_max(self, i: int) -> nat {
        nat_of(self.limbs@[i].max_val)
    }

    /// The number the limbs denote in base `r`.
    pub open spec fn value(self, r: nat) -> nat {
        horner(self.limb_val(0), self.limb_val(1), self.limb_val(2), self.limb_val(3), r)
    }

    /// The number the bounds of the limbs denote in base `r`.
    pub open spec fn max_value(self, r: nat) -> nat {
        horner(self.limb_max(0), self.limb_max(1), self.limb_max(2), self.limb_max(3), r)
    }

    /// Limb `i` respects its bound, and the bound is a value of the native
    /// field.
    pub open spec fn limb_ok(self, i: int, n: nat) -> bool {
        self.limb_val(i) <= self.limb_max(i) < n
    }

    /// The element is valid: four limbs within their bounds, and a native
    /// cell that holds the value of the limbs in the native field.
    pub open spec fn wf(self, rns: Rns) -> bool {
        &&& self.limbs@.len() == 4
        &&& self.limb_ok(0, rns.n())
        &&& self.limb_ok(1, rns.n())
        &&& self.limb_ok(2, rns.n())
        &&& self.limb_ok(3, rns.n())
        &&& self.native.val() == self.value(rns.r()) % rns.n()
    }

    /// The limbs are within the bounds of a class of values.
    pub open spec fn within(self, rns: Rns, range: Range) -> bool {
        &&& self.limb_val(0) <= rns.r() - 1
        &&& self.limb_val(1) <= rns.r() - 1
        &&& self.limb_val(2) <= rns.r() - 1
        &&& self.limb_val(3) <= rns.range_top(range)
    }

    /// The bounds of the limbs are those of a class of values.
    pub open spec fn bounded_as(self, rns: Rns, range: Range) -> bool {
        &&& self.limb_max(0) == rns.r() - 1
        &&& self.limb_max(1) == rns.r() - 1
        &&& self.limb_max(2) == rns.r() - 1
        &&& self.limb_max(3) == rns.range_top(range)
    }

    /// An element of its limbs and its native cell.
    pub fn new(limbs: Vec<AssignedLimb>, native: Witness) -> (r: AssignedInteger)
        ensures
            r.limbs == limbs,
            r.native == native,
    {
        AssignedInteger { limbs, native }
    }

    /// The cell of limb `i`.
    pub fn limb(&self, i: usize) -> (r: Witness)
        requires
            i < self.limbs@.len(),
        ensures
            r == self.limbs@[i as int].witness,
    {
        self.limbs[i].witness.copy()
    }

    /// The cell of the value in the native field.
    pub fn native(&self) -> (r: Witness)
        ensures
            r == self.native,
    {
        self.native.copy()
    }

    /// The bounds of the limbs.
    pub fn max_vals(&self) -> (r: Vec<BigUint>)
        requires
            self.limbs@.len() == 4,
        ensures
            r@.len() == 4,
            forall|i: int| 0 <= i < 4 ==> #[trigger] r@[i] == self.limbs@[i].max_val,
    {
        let mut r: Vec<BigUint> = Vec::new();
        r.push(big_clone(&self.limbs[0].max_val));
        r.push(big_clone(&self.limbs[1].max_val));
        r.push(big_clone(&self.limbs[2].max_val));
        r.push(big_clone(&self.limbs[3].max_val));
        r
    }

    /// The largest value the element may have: what the bounds of the limbs
    /// denote.
    pub fn max_val(&self, bit_len_limb: usize) -> (r: BigUint)
        requires
            self.limbs@.len() == 4,
            bit_len_limb <= 0xffff_ffff,
        ensures
            nat_of(r) == self.max_value(pow2(bit_len_limb as nat)),
    {
        let m = self.max_vals();
        compose(&m, bit_len_limb)
    }

    /// The element outside the circuit: the values of the limbs.
    pub fn integer(&self) -> (r: Integer)
        requires
            self.limbs@.len() == 4,
        ensures
            r.wf(),
            forall|i: int| 0 <= i < 4 ==> r.limb(i) == self.limb_val(i),
            forall|r0: nat| r.value(r0) == self.value(r0),
    {
        let mut v: Vec<BigUint> = Vec::new();
        v.push(big_clone(&self.limbs[0].witness.value));
        v.push(big_clone(&self.limbs[1].witness.value));
        v.push(big_clone(&self.limbs[2].witness.value));
        v.push(big_clone(&self.limbs[3].witness.value));
        Integer { limbs: v }
    }

    /// A copy of the element: the same cells and the same bounds.
    pub fn copy(&self) -> (r: AssignedInteger)
        ensures
            r.limbs@ == self.limbs@,
            r.native == self.native,
    {
        let mut v: Vec<AssignedLimb> = Vec::new();
        let mut i: usize = 0;
        while i < self.limbs.len()
            invariant
                i <= self.limbs.len(),
                v@ == self.limbs@.take(i as int),
            decreases self.limbs.len() - i,
        {
            v.push(self.limbs[i].copy());
            proof {
                assert(self.limbs@.take(i + 1) =~= self.limbs@.take(i as int).push(
                    self.limbs@[i as int],
                ));
            }
            i = i + 1;
        }
        proof {
            assert(self.limbs@.take(self.limbs.len() as int) =~= self.limbs@);
        }
        AssignedInteger { limbs: v, native: self.native.copy() }
    }
}

/// The gadget of foreign-field arithmetic.
pub struct IntegerChip {
    pub config: IntegerConfig,
    pub rns: Rns,
}

impl IntegerChip {
    /// The gadget is usable: its number system is valid.
    pub open spec fn wf(self) -> bool {
        self.rns.wf()
    }

    /// The gadget is used on a circuit of its own native field.
    pub open spec fn fits(self, ctx: RegionCtx) -> bool {
        ctx.wf() && ctx.modulus() == self.rns.n()
    }

    /// The gadget of a configuration and a number system.
    pub fn new(config: IntegerConfig, rns: Rns) -> (r: IntegerChip)
        ensures
            r.config == config,
            r.rns == rns,
    {
        IntegerChip { config, rns }
    }

    /// The range gate of the gadget.
    pub fn range_chip(&self) -> (r: RangeChip)
        ensures
            r.bit_len_lookup == self.rns.bit_len_limb / crate::limbs::NUMBER_OF_LOOKUP_LIMBS,
    {
        let bit_len_lookup = self.rns.bit_len_limb / crate::limbs::NUMBER_OF_LOOKUP_LIMBS;
        RangeChip::new(self.config.range_config.copy(), bit_len_lookup)
    }

    /// The arithmetic gate of the gadget.
    pub fn main_gate(&self) -> (r: MainGate)
        ensures
            r.config == self.config.main_gate_config,
    {
        MainGate::new(self.config.main_gate_config)
    }

    /// An element of its limbs and its native cell.
    pub fn new_assigned_integer(&self, limbs: Vec<AssignedLimb>, native: Witness) -> (r:
        AssignedInteger)
        ensures
            r.limbs == limbs,
            r.native == native,
    {
        AssignedInteger::new(limbs, native)
    }

    /// The bound of the fourth limb of a class of values.
    pub fn range_top(&self, range: Range) -> (r: BigUint)
        requires
            self.wf(),
        ensures
            nat_of(r) == self.rns.range_top(range),
    {
        proof {
            self.rns.lemma_fields();
        }
        match range {
            Range::Remainder => big_clone(&self.rns.max_most_significant_reduced_limb),
            Range::Operand => big_clone(&self.rns.max_most_significant_operand_limb),
            Range::MulQuotient => big_clone(&self.rns.max_most_significant_mul_quotient_limb),
        }
    }

    /// Places the cell of the value in the native field: the limbs put
    /// together, in one row.
    pub fn assign_native(
        &self,
        ctx: &mut RegionCtx,
        w0: &Witness,
        w1: &Witness,
        w2: &Witness,
        w3: &Witness,
    ) -> (r: Witness)
        requires
            self.wf(),
            self.fits(*old(ctx)),
        ensures
            final(ctx).native_modulus == old(ctx).native_modulus,
            final(ctx).satisfied() == old(ctx).satisfied(),
            r.val() == horner(w0.val(), w1.val(), w2.val(), w3.val(), self.rns.r()) % self.rns.n(),
    {
        let r1 = &self.rns.left_shifter_r;
        let r2 = &self.rns.left_shifter_2r;
        let r3 = crate::big::big_mul(r2, r1);
        proof {
            self.rns.lemma_fields();
            lemma_horner_as_powers(w0.val(), w1.val(), w2.val(), w3.val(), self.rns.r());
        }
        ctx.derive(
            cells4(
                Cell::times(w0, 1),
                Cell::scaled(w1, r1),
                Cell::scaled(w2, r2),
                Cell::scaled(w3, &r3),
            ),
            Coeff::from_u64(0),
            false,
        )
    }

    /// Places an element in the circuit and range-checks its limbs as a
    /// value of the given class: three limbs of the full limb length and a
    /// fourth of the length that the class allows. The circuit stays
    /// satisfied exactly when the limbs are within the class.
    pub fn range_assign_integer(&self, ctx: &mut RegionCtx, integer: &Integer, range: Range) -> (res:
        AssignedInteger)
        requires
            self.wf(),
            self.fits(*old(ctx)),
            integer.wf(),
        ensures
            final(ctx).native_modulus == old(ctx).native_modulus,
            res.limbs@.len() == 4,
            forall|i: int| 0 <= i < 4 ==> res.limb_val(i) == integer.limb(i) % self.rns.n(),
            res.bounded_as(self.rns, range),
            res.native.val() == res.value(self.rns.r()) % self.rns.n(),
            final(ctx).satisfied() == (old(ctx).satisfied() && res.within(self.rns, range)),
            res.within(self.rns, range) ==> res.wf(self.rns),
    {
        let range_chip = self.range_chip();
        let bl = self.rns.bit_len_limb as u64;
        let top = self.range_top(range);
        let top_bits = big_bit_length(&top);
        proof {
            self.rns.lemma_range(range);
            self.rns.lemma_fields();
            self.rns.lemma_basics();
        }
        let w0 = range_chip.range_value(ctx, &integer.limbs[0], bl);
        let w1 = range_chip.range_value(ctx, &integer.limbs[1], bl);
        let w2 = range_chip.range_value(ctx, &integer.limbs[2], bl);
        let w3 = range_chip.range_value(ctx, &integer.limbs[3], top_bits);
        let native = self.assign_native(ctx, &w0, &w1, &w2, &w3);
        let mut limbs: Vec<AssignedLimb> = Vec::new();
        limbs.push(AssignedLimb::new(w0, big_clone(&self.rns.max_reduced_limb)));
        limbs.push(AssignedLimb::new(w1, big_clone(&self.rns.max_reduced_limb)));
        limbs.push(AssignedLimb::new(w2, big_clone(&self.rns.max_reduced_limb)));
        limbs.push(AssignedLimb::new(w3, top));
        AssignedInteger { limbs, native }
    }
}

} // verus!
