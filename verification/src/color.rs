//! Pixel output: clamping, averaging, gamma-2 correction and
//! quantization of accumulated sample colors into byte channels.

use vstd::prelude::*;

use crate::fixed::{fsqrt, lemma_tdiv_bound, lemma_tdiv_nonneg, tdiv, Fixed, SCALE};
use crate::vec3::Vec3;

verus! {

/// The upper clamp bound of a gamma-corrected channel: raw `0.999`
/// (rounded down), so that a full channel quantizes to 255.
pub const CHANNEL_CLAMP_MAX: i64 = 65470;

/// A value clamped between two bounds, the lower bound winning when the
/// bounds cross.
pub open spec fn clamp_spec(v: int, lo: int, hi: int) -> int {
    if v > lo {
        if v < hi {
            v
        } else {
            hi
        }
    } else {
        lo
    }
}

/// Clamps the given value between the lower and upper bounds.
pub fn clamp(val: Fixed, min: Fixed, max: Fixed) -> (r: Fixed)
    ensures
        r@ == clamp_spec(val@, min@, max@),
{
    if min.lt(val) {
        if val.lt(max) {
            val
        } else {
            max
        }
    } else {
        min
    }
}

/// The gamma-2-corrected average of a channel accumulated over
/// `samples` draws: the square root of the mean.
pub open spec fn gamma_channel(sum: int, samples: int) -> int {
    fsqrt(tdiv(sum, samples))
}

/// A gamma-corrected channel quantized to a byte:
/// `floor(256 * clamp(g, 0, 0.999))`.
pub open spec fn quantize_channel(g: int) -> int {
    tdiv(256 * clamp_spec(g, 0, CHANNEL_CLAMP_MAX as int), SCALE as int)
}

/// Quantization always lands in a byte.
pub proof fn lemma_quantize_range(g: int)
    ensures
        0 <= quantize_channel(g) <= 255,
{
    let c = clamp_spec(g, 0, CHANNEL_CLAMP_MAX as int);
    lemma_tdiv_nonneg(256 * c, SCALE as int);
    lemma_tdiv_bound(256 * c, SCALE as int, 256 * (CHANNEL_CLAMP_MAX as int));
    assert((256 * (CHANNEL_CLAMP_MAX as int)) / (SCALE as int) == 255);
}

/// One channel averaged, gamma-corrected and quantized.
fn channel_byte(sum: Fixed, samples_per_pixel: u32) -> (r: u8)
    requires
        samples_per_pixel >= 1,
        sum@ >= 0,
    ensures
        r == quantize_channel(gamma_channel(sum@, samples_per_pixel as int)),
{
    let avg = sum.div_int(samples_per_pixel as i64);
    let g = avg.sqrt();
    let c = clamp(g, Fixed::zero(), Fixed::from_raw(CHANNEL_CLAMP_MAX));
    proof {
        lemma_quantize_range(g@);
        assert(tdiv(256 * c@, SCALE as int) == (256 * c@) / 65536);
    }
    let q: u32 = ((c.raw as u32) * 256) / 65536;
    q as u8
}

/// The accumulated color of one pixel turned into its three output
/// bytes: each channel is averaged over the pixel's samples,
/// gamma-corrected with `sqrt`, clamped to `[0, 0.999]` and scaled to a
/// byte.
pub fn color_bytes(c: Vec3, samples_per_pixel: u32) -> (r: (u8, u8, u8))
    requires
        samples_per_pixel >= 1,
        c@.x >= 0,
        c@.y >= 0,
        c@.z >= 0,
    ensures
        r.0 == quantize_channel(gamma_channel(c@.x, samples_per_pixel as int)),
        r.1 == quantize_channel(gamma_channel(c@.y, samples_per_pixel as int)),
        r.2 == quantize_channel(gamma_channel(c@.z, samples_per_pixel as int)),
{
    (
        channel_byte(c.x(), samples_per_pixel),
        channel_byte(c.y(), samples_per_pixel),
        channel_byte(c.z(), samples_per_pixel),
    )
}

} // verus!
