//! The range gate: values placed together with the demand that they fit in
//! a number of bits.

use crate::big::nat_of;
use crate::gate::{RegionCtx, Witness};
use num_bigint::BigUint;
use vstd::arithmetic::power2::pow2;
use vstd::prelude::*;

verus! {

/// What the range gate is configured with: the bit length of one lookup
/// chunk and the bit lengths of the chunks that are shorter than that.
pub struct RangeConfig {
    pub bit_len_lookup: usize,
    pub overflow_bit_lens: Vec<usize>,
}

impl RangeConfig {
    /// The configuration of a lookup width and the bit lengths of the overflows.
    pub fn new(bit_len_lookup: usize, overflow_bit_lens: Vec<usize>) -> (r: RangeConfig)
        ensures
            r.bit_len_lookup == bit_len_lookup,
            r.overflow_bit_lens == overflow_bit_lens,
    {
        RangeConfig { bit_len_lookup, overflow_bit_lens }
    }

    /// A copy of the configuration.
    pub fn copy(&self) -> (r: RangeConfig)
        ensures
            r.bit_len_lookup == self.bit_len_lookup,
            r.overflow_bit_lens@ == self.overflow_bit_lens@,
    {
        let mut v: Vec<usize> = Vec::new();
        let mut i: usize = 0;
        while i < self.overflow_bit_lens.len()
            invariant
                i <= self.overflow_bit_lens.len(),
                v@ == self.overflow_bit_lens@.take(i as int),
            decreases self.overflow_bit_lens.len() - i,
        {
            v.push(self.overflow_bit_lens[i]);
            proof {
                assert(self.overflow_bit_lens@.take(i + 1) =~= self.overflow_bit_lens@.take(
                    i as int,
                ).push(self.overflow_bit_lens@[i as int]));
            }
            i = i + 1;
        }
        proof {
            assert(self.overflow_bit_lens@.take(self.overflow_bit_lens.len() as int)
                =~= self.overflow_bit_lens@);
        }
        RangeConfig { bit_len_lookup: self.bit_len_lookup, overflow_bit_lens: v }
    }
}

/// The range gate.
pub struct RangeChip {
    pub config: RangeConfig,
    pub bit_len_lookup: usize,
}

impl RangeChip {
    /// The gadget of a configuration and a lookup width.
    pub fn new(config: RangeConfig, bit_len_lookup: usize) -> (r: RangeChip)
        ensures
            r.config == config,
            r.bit_len_lookup == bit_len_lookup,
    {
        RangeChip { config, bit_len_lookup }
    }

    /// Places a value in a new cell and demands that it is below
    /// `2^bit_len`.
    pub fn range_value(&self, ctx: &mut RegionCtx, value: &BigUint, bit_len: u64) -> (w: Witness)
        requires
            old(ctx).wf(),
        ensures
            final(ctx).native_modulus == old(ctx).native_modulus,
            final(ctx).rows == old(ctx).rows,
            w.val() == nat_of(*value) % old(ctx).modulus(),
            w.val() < old(ctx).modulus(),
            final(ctx).satisfied() == (old(ctx).satisfied() && w.val() < pow2(bit_len as nat)),
    {
        let w = ctx.assign(value);
        ctx.range(&w, bit_len);
        w
    }
}

} // verus!
