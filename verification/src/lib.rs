//! Foreign-field arithmetic and elliptic-curve gadgets over a recorded
//! constraint system.

pub mod big;
pub mod curve;
pub mod ecc;
pub mod gate;
pub mod general_ecc;
pub mod integer;
pub mod limbs;
pub mod lookup;
pub mod main_gate;
pub mod modular;
pub mod primes;
pub mod range;
pub mod reduction;
pub mod rns;
