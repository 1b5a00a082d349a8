//! Error-diffusion dithering: converts a continuous-tone RGBA pixel grid into
//! a 1-bit black/white grid, propagating quantization error to unprocessed
//! neighbours through one of two diffusion kernels (Atkinson, Floyd-Steinberg).
//!
//! All brightness arithmetic is exact fixed-point: a pixel's relative luminance
//! `0.2126*r + 0.7152*g + 0.0722*b`, normalized to `[0, 1]`, is represented as
//! an integer number of `1/2_550_000` units, so a normalized luminance of `1.0`
//! is the integer `2_550_000`.

pub mod buffer;
pub mod dither;
pub mod grid;
pub mod kernel;
pub mod bounds;
pub mod laws;
pub mod pixel;

use vstd::prelude::*;

verus! {

/// Fixed-point value of a normalized luminance of exactly `1.0`:
/// `255 * 10_000`, i.e. full-white in units of `1/2_550_000`.
pub const LUMA_ONE: i64 = 2_550_000;

/// Fixed-point value of a normalized luminance of exactly `0.5`:
/// the quantization threshold.
pub const LUMA_HALF: i64 = 1_275_000;

} // verus!
