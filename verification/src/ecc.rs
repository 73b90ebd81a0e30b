//! Points of the curve in the circuit, and the constants that keep the
//! incomplete formulas away from the identity.

use crate::big::{big_add, big_clone, big_from_u64, big_mul, nat_of};
use crate::curve::{coords_of, group_mul, group_neg, Affine, Curve};
use crate::integer::{AssignedInteger, IntegerConfig};
use crate::limbs::{big_pow2, big_pow2_minus_one, copy_limbs, decompose, limb_of};
use crate::main_gate::MainGateConfig;
use crate::range::RangeConfig;
use crate::rns::{Integer, Rns};
use num_bigint::BigUint;
use vstd::arithmetic::power2::pow2;
use vstd::prelude::*;

mod add;
mod base_field_ecc;
pub mod laws;
mod mul;
mod mul_var_bucket;

pub use base_field_ecc::{
    doubles, first_entry, is_for, lemma_doubles_stay_undefined, lemma_first_entry,
    lemma_first_entry_is, AuxEntry, AuxGenerator, BaseFieldEccChip,
};
pub use mul::{
    all_bits, bits_value, checked_add, checked_ladder, mul_acc, mul_result, mul_step, slot,
    table_entry, window_value, Selector, Table, Windowed,
};
pub use mul_var_bucket::{
    bucket_starts, collapse, constants_sum, constants_total, constants_weighted, doubled, msm_acc,
    msm_result, round_buckets, round_shape, round_sum, values_of, window_shape, Buckets,
};

verus! {

/// Why the construction of a circuit fails.
#[derive(Clone, Copy, Debug, PartialEq, Eq)]
pub enum Error {
    /// A precondition of the construction is not met.
    Synthesis,
}

/// A point of the curve outside the circuit, each coordinate as four limbs.
/// The identity has no such form.
pub struct Point {
    pub x: Integer,
    pub y: Integer,
}

impl Point {
    /// The point has two coordinates of four limbs.
    pub open spec fn wf(self) -> bool {
        self.x.wf() && self.y.wf()
    }

    /// The point of the given coordinates, each cut into limbs.
    pub fn from(rns: &Rns, x: &BigUint, y: &BigUint) -> (r: Point)
        requires
            rns.wf(),
        ensures
            r.wf(),
            r.x.value(rns.r()) == nat_of(*x),
            r.y.value(rns.r()) == nat_of(*y),
            forall|i: int| 0 <= i < 4 ==> r.x.limb(i) == limb_of(nat_of(*x), i as nat, rns.r()),
            forall|i: int| 0 <= i < 4 ==> r.y.limb(i) == limb_of(nat_of(*y), i as nat, rns.r()),
    {
        proof {
            rns.lemma_basics();
        }
        Point {
            x: Integer { limbs: decompose(x, rns.bit_len_limb) },
            y: Integer { limbs: decompose(y, rns.bit_len_limb) },
        }
    }

    /// The point as public inputs: the limbs of `x`, then the limbs of `y`.
    pub fn public(&self) -> (r: Vec<BigUint>)
        ensures
            r@ == self.x.limbs@ + self.y.limbs@,
    {
        let mut public_data = copy_limbs(&self.x.limbs);
        let mut i: usize = 0;
        while i < self.y.limbs.len()
            invariant
                i <= self.y.limbs.len(),
                public_data@ == self.x.limbs@ + self.y.limbs@.take(i as int),
            decreases self.y.limbs.len() - i,
        {
            public_data.push(big_clone(&self.y.limbs[i]));
            proof {
                assert(self.y.limbs@.take(i + 1) =~= self.y.limbs@.take(i as int).push(
                    self.y.limbs@[i as int],
                ));
                assert(public_data@ =~= self.x.limbs@ + self.y.limbs@.take(i + 1));
            }
            i = i + 1;
        }
        proof {
            assert(self.y.limbs@.take(self.y.limbs.len() as int) =~= self.y.limbs@);
        }
        public_data
    }
}

/// A point in the circuit that is taken to be on the curve and not the
/// identity.
pub struct AssignedPoint {
    pub x: AssignedInteger,
    pub y: AssignedInteger,
}

impl AssignedPoint {
    /// Both coordinates are valid elements.
    pub open spec fn wf(self, rns: Rns) -> bool {
        self.x.wf(rns) && self.y.wf(rns)
    }

    /// The coordinates in the foreign field.
    pub open spec fn coords(self, rns: Rns) -> (nat, nat) {
        (self.x.res(rns), self.y.res(rns))
    }

    /// A point of two assigned coordinates.
    pub fn new(x: AssignedInteger, y: AssignedInteger) -> (r: AssignedPoint)
        ensures
            r.x == x,
            r.y == y,
    {
        AssignedPoint { x, y }
    }

    /// A copy of the abscissa.
    pub fn get_x(&self) -> (r: AssignedInteger)
        ensures
            r.limbs@ == self.x.limbs@,
            r.native == self.x.native,
    {
        self.x.copy()
    }

    /// A copy of the ordinate.
    pub fn get_y(&self) -> (r: AssignedInteger)
        ensures
            r.limbs@ == self.y.limbs@,
            r.native == self.y.native,
    {
        self.y.copy()
    }

    /// A copy of the point: the same cells.
    pub fn copy(&self) -> (r: AssignedPoint)
        ensures
            r.x.limbs@ == self.x.limbs@,
            r.x.native == self.x.native,
            r.y.limbs@ == self.y.limbs@,
            r.y.native == self.y.native,
    {
        AssignedPoint { x: self.x.copy(), y: self.y.copy() }
    }
}

/// What the curve gadget is configured with.
pub struct EccConfig {
    pub range_config: RangeConfig,
    pub main_gate_config: MainGateConfig,
}

impl EccConfig {
    /// The configuration of the two gadgets underneath.
    pub fn new(range_config: RangeConfig, main_gate_config: MainGateConfig) -> (r: EccConfig)
        ensures
            r.range_config == range_config,
            r.main_gate_config == main_gate_config,
    {
        EccConfig { range_config, main_gate_config }
    }

    /// The configuration of the gadget of the foreign field.
    pub fn integer_chip_config(&self) -> (r: IntegerConfig)
        ensures
            r.range_config.bit_len_lookup == self.range_config.bit_len_lookup,
            r.range_config.overflow_bit_lens@ == self.range_config.overflow_bit_lens@,
            r.main_gate_config == self.main_gate_config,
    {
        IntegerConfig::new(self.range_config.copy(), self.main_gate_config)
    }
}

/// The number of windows of `window_size` bits that cover `num_bits` bits.
pub open spec fn number_of_windows(num_bits: nat, window_size: nat) -> nat {
    if num_bits % window_size == 0 {
        num_bits / window_size
    } else {
        num_bits / window_size + 1
    }
}

/// The number with one bit set at the lowest place of each of `count`
/// windows of `window_size` bits.
pub open spec fn window_ones(count: nat, window_size: nat) -> nat
    decreases count,
{
    if count == 0 {
        0
    } else {
        window_ones((count - 1) as nat, window_size) + pow2(((count - 1) * window_size) as nat)
    }
}

/// The scalar by which the generator of the constants has entered the
/// result of a multiplication: once for every window and for every one of
/// the `2^pairs - 1` ways in which the pairs add up.
pub open spec fn aux_scalar(num_bits: nat, window_size: nat, number_of_pairs: nat) -> nat {
    window_ones(number_of_windows(num_bits, window_size), window_size) * ((pow2(number_of_pairs)
        - 1) as nat)
}

/// The number of windows of `window_size` bits that cover `num_bits` bits.
pub fn windows(num_bits: usize, window_size: usize) -> (r: usize)
    requires
        window_size > 0,
    ensures
        r == number_of_windows(num_bits as nat, window_size as nat),
        r <= num_bits,
        r > 0 ==> (r - 1) * window_size < num_bits,
        num_bits <= r * window_size,
{
    let q = num_bits / window_size;
    proof {
        vstd::arithmetic::div_mod::lemma_fundamental_div_mod(num_bits as int, window_size as int);
        let (n, w, qi) = (num_bits as int, window_size as int, q as int);
        assert(w * qi <= n);
        assert(qi <= n) by (nonlinear_arith)
            requires
                w * qi <= n,
                w >= 1,
                qi >= 0,
        ;
        assert(qi * w == w * qi && (qi - 1) * w == w * qi - w && (qi + 1) * w == w * qi + w)
            by (nonlinear_arith);
        if n % w != 0 {
            // the window is at least two bits wide, so half of the bits is a bound
            assert(w >= 2) by {
                if w == 1 {
                    vstd::arithmetic::div_mod::lemma_mod_division_less_than_divisor(n, w);
                }
            }
            assert(qi + 1 <= n) by (nonlinear_arith)
                requires
                    w * qi < n,
                    w >= 2,
                    qi >= 0,
            ;
        }
    }
    if num_bits % window_size != 0 {
        q + 1
    } else {
        q
    }
}

/// The scalar by which the generator of the constants has entered the
/// result of a multiplication.
pub fn mul_aux_scalar(num_bits: usize, window_size: usize, number_of_pairs: usize) -> (k: BigUint)
    requires
        window_size > 0,
        number_of_pairs > 0,
        num_bits <= 0xffff_ffff,
        number_of_pairs <= 0xffff_ffff,
    ensures
        nat_of(k) == aux_scalar(num_bits as nat, window_size as nat, number_of_pairs as nat),
{
    let number_of_selectors = windows(num_bits, window_size);
    let mut k0 = big_from_u64(0);
    let mut i: usize = 0;
    while i < number_of_selectors
        invariant
            i <= number_of_selectors,
            number_of_selectors > 0 ==> (number_of_selectors - 1) * window_size < num_bits,
            num_bits <= 0xffff_ffff,
            window_size > 0,
            nat_of(k0) == window_ones(i as nat, window_size as nat),
        decreases number_of_selectors - i,
    {
        proof {
            assert(i * window_size <= (number_of_selectors - 1) * window_size) by (nonlinear_arith)
                requires
                    i <= number_of_selectors - 1,
                    window_size >= 0,
            ;
        }
        k0 = big_add(&k0, &big_pow2(i * window_size));
        i = i + 1;
    }
    let k1 = big_pow2_minus_one(number_of_pairs);
    big_mul(&k0, &k1)
}

/// The constant that is subtracted at the end of a multiplication: the
/// opposite of the generator of the constants times the scalar by which the
/// generator has entered the result.
pub fn make_mul_aux(
    curve: &Curve,
    aux_to_add: &Affine,
    num_bits: usize,
    window_size: usize,
    number_of_pairs: usize,
) -> (r: Option<Affine>)
    requires
        curve.wf(),
        window_size > 0,
        number_of_pairs > 0,
        num_bits <= 0xffff_ffff,
        number_of_pairs <= 0xffff_ffff,
    ensures
        coords_of(r) == group_mul(
            aux_scalar(num_bits as nat, window_size as nat, number_of_pairs as nat),
            group_neg(Some(aux_to_add.coords()), curve.modulus()),
            curve.modulus(),
        ),
{
    let k = mul_aux_scalar(num_bits, window_size, number_of_pairs);
    let negated = curve.neg(&Some(aux_to_add.copy()));
    curve.group_mul(&k, &negated)
}

/// The pair of constants of one multiplication: what is added at the start
/// and what is subtracted at the end.
pub struct MulAux {
    pub to_add: AssignedPoint,
    pub to_sub: AssignedPoint,
}

impl MulAux {
    /// The pair of what is added and what is subtracted.
    pub fn new(to_add: AssignedPoint, to_sub: AssignedPoint) -> (r: MulAux)
        ensures
            r.to_add == to_add,
            r.to_sub == to_sub,
    {
        MulAux { to_add, to_sub }
    }
}

} // verus!
