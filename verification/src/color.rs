//! Flat colours.
use crate::fixed::{trunc_div, Fixed, SCALE};
use vstd::prelude::*;

verus! {

/// A colour as three bytes: red, green and blue.
#[derive(Clone, Copy, Debug, PartialEq, Eq, Structural)]
pub struct Color24 {
    pub r: u8,
    pub g: u8,
    pub b: u8,
}

/// The nearest byte to `v`.
pub open spec fn clamp_byte(v: int) -> u8 {
    if v < 0 {
        0u8
    } else if v > 255 {
        255u8
    } else {
        v as u8
    }
}

/// One channel scaled by the raw factor `h`: the product is rounded toward
/// zero and clamped to a byte.
pub open spec fn scale_channel(c: u8, h: int) -> u8 {
    clamp_byte(trunc_div(c * h, SCALE as int))
}

/// The colour with every channel scaled by `h`.
pub open spec fn mul_color_spec(color: Color24, h: Fixed) -> Color24 {
    Color24 {
        r: scale_channel(color.r, h@),
        g: scale_channel(color.g, h@),
        b: scale_channel(color.b, h@),
    }
}

/// Clamps a byte to the range of a byte, which leaves it as it is.
pub fn clamp_u8(n: u8) -> (r: u8)
    ensures
        r == n,
{
    if n > 255 {
        255
    } else {
        n
    }
}

/// One channel scaled by `h`.
fn scale_one(c: u8, h: Fixed) -> (r: u8)
    ensures
        r == scale_channel(c, h@),
{
    assert(-0x8000_0000_0000_0000_0000 <= c * h@ <= 0x8000_0000_0000_0000_0000) by (nonlinear_arith)
        requires
            0 <= c <= 255,
            -0x8000_0000_0000_0000 <= h@ <= 0x8000_0000_0000_0000,
    ;
    let p: i128 = (c as i128) * (h.raw as i128);
    let q: i128 = p / (SCALE as i128);
    if q < 0 {
        0
    } else if q > 255 {
        255
    } else {
        clamp_u8(q as u8)
    }
}

/// Scales a colour: each channel is multiplied by `h` and clamped to a byte.
pub fn mul_color(color: &Color24, h: Fixed) -> (r: Color24)
    ensures
        r == mul_color_spec(*color, h),
{
    Color24 { r: scale_one(color.r, h), g: scale_one(color.g, h), b: scale_one(color.b, h) }
}

impl Color24 {
    /// The colour with the given channels.
    pub fn new(r: u8, g: u8, b: u8) -> (c: Color24)
        ensures
            c == (Color24 { r, g, b }),
    {
        Color24 { r, g, b }
    }
}

/// The red of the sample cube.
pub fn red() -> (c: Color24)
    ensures
        c == (Color24 { r: 229, g: 40, b: 56 }),
{
    Color24 { r: 229, g: 40, b: 56 }
}

/// The yellow of the sample cube.
pub fn yellow() -> (c: Color24)
    ensures
        c == (Color24 { r: 252, g: 249, b: 0 }),
{
    Color24 { r: 252, g: 249, b: 0 }
}

/// The green of the sample cube.
pub fn green() -> (c: Color24)
    ensures
        c == (Color24 { r: 0, g: 226, b: 48 }),
{
    Color24 { r: 0, g: 226, b: 48 }
}

/// The blue of the sample cube.
pub fn blue() -> (c: Color24)
    ensures
        c == (Color24 { r: 0, g: 119, b: 242 }),
{
    Color24 { r: 0, g: 119, b: 242 }
}

/// The purple of the sample cube.
pub fn purple() -> (c: Color24)
    ensures
        c == (Color24 { r: 198, g: 122, b: 255 }),
{
    Color24 { r: 198, g: 122, b: 255 }
}

/// The cyan of the sample cube.
pub fn cyan() -> (c: Color24)
    ensures
        c == (Color24 { r: 0, g: 255, b: 255 }),
{
    Color24 { r: 0, g: 255, b: 255 }
}

} // verus!
