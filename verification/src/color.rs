//! Colour quantization: linear fixed-point channels to 8-bit values.

use vstd::prelude::*;

use crate::fixed::{lemma_tdiv_bounds, lemma_tdiv_lt, tdiv, SCALE};
use crate::math::{clamp_s, Interval, SpecInterval, Vec3};

verus! {

/// A colour is a vector of three linear channels, nominally in `[0, 1]`.
pub type Color = Vec3;

/// The clamp ceiling just below one: `0.999`, rounded to fixed point. It
/// keeps a full-intensity channel from quantizing past the top 8-bit value.
pub const INTENSITY_MAX: i64 = 65470;

/// The clamping range applied to every channel before quantization.
pub open spec fn intensity_s() -> SpecInterval {
    SpecInterval { min: 0, max: INTENSITY_MAX as int }
}

/// One channel quantized: clamped into `[0, INTENSITY_MAX]`, then mapped to
/// `floor(256 * channel)`, which always lands in `[0, 255]`.
pub open spec fn quantize_channel_s(c: int) -> int {
    tdiv(256 * clamp_s(intensity_s(), c), SCALE as int)
}

/// A quantized pixel: three 8-bit channels.
#[derive(Clone, Copy, Debug, PartialEq, Eq, Structural)]
pub struct Rgb {
    pub r: u8,
    pub g: u8,
    pub b: u8,
}

/// One channel quantized, executably.
pub fn quantize_channel(c: i64) -> (q: u8)
    ensures
        q == quantize_channel_s(c as int),
{
    let intensity = Interval::new(0, INTENSITY_MAX);
    let clamped = intensity.clamp(c);
    proof {
        lemma_tdiv_bounds(256 * clamped, SCALE as int);
        lemma_tdiv_lt(256 * clamped, SCALE as int, 256);
    }
    let scaled: i64 = (256 * clamped) / 65536;
    scaled as u8
}

/// The triple of quantized channels that the pixel sink writes, in `(R,G,B)`
/// order.
pub fn write_color(pixel_color: Color) -> (rgb: Rgb)
    ensures
        rgb.r == quantize_channel_s(pixel_color@.x),
        rgb.g == quantize_channel_s(pixel_color@.y),
        rgb.b == quantize_channel_s(pixel_color@.z),
{
    Rgb {
        r: quantize_channel(pixel_color.x),
        g: quantize_channel(pixel_color.y),
        b: quantize_channel(pixel_color.z),
    }
}

} // verus!
