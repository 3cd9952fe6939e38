//! CPU identification: decoding the processor signature and feature words
//! that the `cpuid` instruction leaves in the registers. Reading the
//! registers themselves is the platform's job; the decoding is done here.

use crate::bitmap::low_mask;
use crate::bits;
use vstd::prelude::*;

verus! {

/// One bit field of the processor signature word: `count` bits from `start`.
pub open spec fn spec_field(signature: u32, start: u64, count: u64) -> u64 {
    ((signature as u64) >> start) & low_mask(count)
}

/// The processor's vendor identification, as leaf zero reports it.
pub struct VendorId {
    pub vendor: [u8; 12],
    pub max_basic_func: u32,
    pub max_extended_func: u32,
}

impl VendorId {
    /// Whether the processor answers the basic information leaf.
    pub fn is_cpu_info_available(&self) -> (r: bool)
        ensures
            r == (self.max_basic_func >= 1),
    {
        self.max_basic_func >= 1
    }
}

/// The processor's stepping, model, family and type, with its feature words.
pub struct CpuInfo {
    pub stepping: u32,
    pub model: u32,
    pub family: u32,
    pub cpu_type: u32,
    pub features1: u32,
    pub features2: u32,
    pub features3: u32,
}

/// Decodes the signature and feature words of the basic information leaf:
/// stepping, model, family and type come from the signature's bit fields,
/// with the extended model and family folded in for the families that use
/// them.
pub fn decode_cpu_info(signature: u32, features1: u32, features2: u32, features3: u32) -> (r:
    CpuInfo)
    ensures
        r.stepping == spec_field(signature, 0, 4),
        r.cpu_type == spec_field(signature, 12, 2),
        r.model == if spec_field(signature, 8, 4) == 6 || spec_field(signature, 8, 4) == 15 {
            spec_field(signature, 4, 4) + spec_field(signature, 16, 4) * 16
        } else {
            spec_field(signature, 4, 4) as int
        },
        r.family == if spec_field(signature, 8, 4) == 15 {
            spec_field(signature, 8, 4) + spec_field(signature, 20, 8)
        } else {
            spec_field(signature, 8, 4) as int
        },
        r.features1 == features1,
        r.features2 == features2,
        r.features3 == features3,
{
    proof {
        lemma_field_bounds(signature);
    }
    let mut family = bits::get_range(signature as u64, 8..12) as u32;
    let mut model = bits::get_range(signature as u64, 4..8) as u32;

    if family == 6 || family == 15 {
        let ext_model = bits::get_range(signature as u64, 16..20) as u32;
        model = model + (ext_model << 4u32);
    }

    if family == 15 {
        let ext_family = bits::get_range(signature as u64, 20..28) as u32;
        family = family + ext_family;
    }

    CpuInfo {
        stepping: bits::get_range(signature as u64, 0..4) as u32,
        model,
        family,
        cpu_type: bits::get_range(signature as u64, 12..14) as u32,
        features1,
        features2,
        features3,
    }
}

/// Sizes of the signature's bit fields, and shifting the extended model into
/// place is the same as scaling it by sixteen.
proof fn lemma_field_bounds(signature: u32)
    ensures
        spec_field(signature, 0, 4) < 16,
        spec_field(signature, 4, 4) < 16,
        spec_field(signature, 8, 4) < 16,
        spec_field(signature, 12, 2) < 4,
        spec_field(signature, 16, 4) < 16,
        spec_field(signature, 20, 8) < 256,
        forall|e: u32| e < 16 ==> #[trigger] (e << 4u32) == e * 16,
{
    let s = signature as u64;
    assert((s >> 0) & low_mask(4) < 16 && (s >> 4) & low_mask(4) < 16 && (s >> 8) & low_mask(4)
        < 16 && (s >> 12) & low_mask(2) < 4 && (s >> 16) & low_mask(4) < 16 && (s >> 20)
        & low_mask(8) < 256) by (bit_vector);
    assert forall|e: u32| e < 16 implies #[trigger] (e << 4u32) == e * 16 by {
        assert(e < 16 ==> (e << 4u32) == e * 16) by (bit_vector);
    }
}

} // verus!
