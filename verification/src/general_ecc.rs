//! The shape of points for the general curve gadget, which tracks the
//! identity: a point carries a flag that says whether it is the identity.

use crate::gate::Witness;
use crate::integer::{AssignedInteger, IntegerConfig};
use crate::main_gate::MainGateConfig;
use crate::range::RangeConfig;
use crate::rns::Integer;
use vstd::prelude::*;

verus! {

/// A point outside the circuit that may be the identity.
pub struct Point {
    pub x: Integer,
    pub y: Integer,
    pub is_identity: bool,
}

/// A point in the circuit with the condition that says whether it is the
/// identity.
pub struct AssignedPoint {
    pub x: AssignedInteger,
    pub y: AssignedInteger,
    pub z: Witness,
}

impl AssignedPoint {
    /// A point of two assigned coordinates and the flag of the identity.
    pub fn new(x: AssignedInteger, y: AssignedInteger, z: Witness) -> (r: AssignedPoint)
        ensures
            r.x == x,
            r.y == y,
            r.z == z,
    {
        AssignedPoint { x, y, z }
    }

    /// The condition that says whether the point is the identity.
    pub fn is_identity(&self) -> (r: Witness)
        ensures
            r == self.z,
    {
        self.z.copy()
    }
}

/// What the general curve gadget is configured with.
pub struct EccConfig {
    pub range_config: RangeConfig,
    pub main_gate_config: MainGateConfig,
}

impl EccConfig {
    /// The configuration of the gadget of the foreign field.
    pub fn integer_chip_config(&self) -> (r: IntegerConfig)
        ensures
            r.range_config.bit_len_lookup == self.range_config.bit_len_lookup,
            r.range_config.overflow_bit_lens@ == self.range_config.overflow_bit_lens@,
            r.main_gate_config == self.main_gate_config,
    {
        IntegerConfig::new(self.range_config.copy(), self.main_gate_config)
    }
}

} // verus!
