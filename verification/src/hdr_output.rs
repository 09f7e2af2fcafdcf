//! The swapchain's colour output: standard, or high dynamic range where the world asks
//! for it and the display can show it.

use crate::float_bits::{FloatBits, one, zero};
use vstd::prelude::*;

verus! {

/// The pattern of 1.001, the least headroom that counts as high dynamic range.
pub const HDR_MAX_EDR_FLOOR_BITS: u32 = 0x3f80_20c5;

/// How the composite pass encodes high dynamic range.
#[derive(Debug, Clone, Copy, PartialEq, Eq, Structural)]
pub enum HdrEncoding {
    /// Linear values, past one where the display can show more.
    ExtendedLinear,
    /// Perceptual quantiser.
    Pq,
}

/// The colour output mode.
#[derive(Debug, Clone, Copy, PartialEq, Eq, Structural)]
pub enum HdrOutputMode {
    Sdr,
    Hdr { max_edr: FloatBits, encoding: HdrEncoding },
}

/// A display can show high dynamic range.
pub open spec fn capable(max_edr: FloatBits) -> bool {
    max_edr.finite() && FloatBits { bits: HDR_MAX_EDR_FLOOR_BITS }.at_most(max_edr)
}

impl HdrOutputMode {
    /// The mode of a request on a display with the given headroom. The quantiser is
    /// used only where it is asked for.
    pub fn resolve(hdr_display_requested: bool, pq_requested: bool, max_edr: FloatBits) -> (r:
        HdrOutputMode)
        ensures
            r == if hdr_display_requested && capable(max_edr) {
                HdrOutputMode::Hdr {
                    max_edr,
                    encoding: if pq_requested {
                        HdrEncoding::Pq
                    } else {
                        HdrEncoding::ExtendedLinear
                    },
                }
            } else {
                HdrOutputMode::Sdr
            },
    {
        if hdr_display_requested && max_edr.is_finite() && FloatBits::new(
            HDR_MAX_EDR_FLOOR_BITS,
        ).le(max_edr) {
            let encoding: HdrEncoding = if pq_requested {
                HdrEncoding::Pq
            } else {
                HdrEncoding::ExtendedLinear
            };
            HdrOutputMode::Hdr { max_edr, encoding }
        } else {
            HdrOutputMode::Sdr
        }
    }

    /// The shader's high-dynamic-range switch: one or zero.
    pub fn shader_flag(&self) -> (r: FloatBits)
        ensures
            r == if *self is Hdr {
                one()
            } else {
                zero()
            },
    {
        match self {
            HdrOutputMode::Sdr => FloatBits::new(0),
            HdrOutputMode::Hdr { .. } => FloatBits::new(0x3f80_0000),
        }
    }

    /// The shader's quantiser switch: one or zero.
    pub fn pq_flag(&self) -> (r: FloatBits)
        ensures
            r == if *self matches HdrOutputMode::Hdr { encoding: HdrEncoding::Pq, .. } {
                one()
            } else {
                zero()
            },
    {
        match self {
            HdrOutputMode::Hdr { encoding: HdrEncoding::Pq, .. } => FloatBits::new(0x3f80_0000),
            _ => FloatBits::new(0),
        }
    }

    /// Whether the output is high dynamic range.
    pub fn is_hdr(&self) -> (r: bool)
        ensures
            r == (*self is Hdr),
    {
        match self {
            HdrOutputMode::Sdr => false,
            HdrOutputMode::Hdr { .. } => true,
        }
    }
}

/// A display can show high dynamic range exactly where its headroom is a number from 1.001
/// on.
pub proof fn law_capable_from_the_floor_on(max_edr: FloatBits)
    ensures
        capable(max_edr) <==> 0x3f80_20c5 <= max_edr.bits < 0x7f80_0000,
{
}

} // verus!
