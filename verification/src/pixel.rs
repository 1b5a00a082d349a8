//! One RGBA pixel and its relative luminance.

use vstd::prelude::*;

verus! {

/// A 4-channel 8-bit color value. The alpha channel is carried along but
/// never influences the dithered output.
#[derive(Clone, Copy, PartialEq, Eq, Structural, Debug)]
pub struct Rgba {
    pub r: u8,
    pub g: u8,
    pub b: u8,
    pub a: u8,
}

/// Relative luminance of a pixel, `0.2126*r + 0.7152*g + 0.0722*b`, as an
/// exact fixed-point count of `1/10_000` units: the weights become the
/// integers 2126, 7152 and 722. Normalizing by 255 then yields the buffer
/// scale of `1/2_550_000` units, so this value is simultaneously the
/// normalized luminance of the pixel in buffer units.
pub open spec fn luminance_spec(p: Rgba) -> int {
    2126 * (p.r as int) + 7152 * (p.g as int) + 722 * (p.b as int)
}

/// Relative luminance of `p` in `1/10_000` units (equivalently: its
/// normalized luminance in `1/2_550_000` units). Independent of `p.a`.
/// Ranges over `[0, 2_550_000]`.
pub fn luminosity(p: &Rgba) -> (l: i64)
    ensures
        l == luminance_spec(*p),
        0 <= l <= crate::LUMA_ONE,
{
    2126 * (p.r as i64) + 7152 * (p.g as i64) + 722 * (p.b as i64)
}

} // verus!
