//! The input pixel grid and the 1-bit output grid.
//!
//! Both grids are stored column-major: the cell at column `x`, row `y` lives
//! at flat index `x * height + y`. This matches the traversal order of the
//! dither driver, which walks column 0 fully (all rows) before column 1.

use vstd::prelude::*;
use crate::pixel::Rgba;

verus! {

/// Largest accepted width or height. Keeps every coordinate-plus-offset
/// computation comfortably inside `i64` and every flat index inside `usize`.
pub const MAX_DIM: usize = 0x7fff_ffff;

/// An immutable W x H grid of RGBA pixels, the dithering input.
pub struct PixelGrid {
    pub width: usize,
    pub height: usize,
    pub pixels: Vec<Rgba>,
}

impl PixelGrid {
    /// The grid holds exactly one pixel per cell and its dimensions are small
    /// enough for safe index arithmetic.
    pub open spec fn wf(self) -> bool {
        &&& self.pixels@.len() == self.width * self.height
        &&& self.width <= MAX_DIM
        &&& self.height <= MAX_DIM
    }

    /// Flat index of the cell at column `x`, row `y`.
    pub open spec fn idx(self, x: int, y: int) -> int {
        x * self.height + y
    }

    /// Builds a grid from column-major pixel data. Returns `None` exactly
    /// when the data length does not match `width * height` or a dimension
    /// exceeds `MAX_DIM`.
    pub fn new(width: usize, height: usize, pixels: Vec<Rgba>) -> (g: Option<PixelGrid>)
        ensures
            (width * height == pixels@.len() && width <= MAX_DIM && height <= MAX_DIM) ==> (g matches Some(grid)
                && grid.width == width && grid.height == height && grid.pixels@ == pixels@
                && grid.wf()),
            !(width * height == pixels@.len() && width <= MAX_DIM && height <= MAX_DIM) ==> g is None,
    {
        let data_len = pixels.len();
        if width > MAX_DIM || height > MAX_DIM {
            return None;
        }
        match width.checked_mul(height) {
            Some(n) => {
                if n == data_len {
                    Some(PixelGrid { width, height, pixels })
                } else {
                    None
                }
            },
            None => None,
        }
    }

    /// The pixel at column `x`, row `y`.
    pub fn pixel(&self, x: usize, y: usize) -> (p: Rgba)
        requires
            self.wf(),
            x < self.width,
            y < self.height,
        ensures
            p == self.pixels@[self.idx(x as int, y as int)],
    {
        let n = self.pixels.len();
        proof {
            lemma_flat_index_in_range(self.width as int, self.height as int, x as int, y as int);
            assert(x * self.height + y < n);
        }
        self.pixels[x * self.height + y]
    }
}

/// A W x H grid of 1-bit values: `true` is white, `false` is black.
/// Stored column-major like `PixelGrid`, write-once per cell during a
/// dithering pass.
pub struct BitGrid {
    pub width: usize,
    pub height: usize,
    pub bits: Vec<bool>,
}

impl BitGrid {
    /// One bit per cell, with the same dimension caps as the input grid.
    pub open spec fn wf(self) -> bool {
        &&& self.bits@.len() == self.width * self.height
        &&& self.width <= MAX_DIM
        &&& self.height <= MAX_DIM
    }

    /// Flat index of the cell at column `x`, row `y`.
    pub open spec fn idx(self, x: int, y: int) -> int {
        x * self.height + y
    }

    /// The bit at column `x`, row `y`: `true` for white, `false` for black.
    pub fn get(&self, x: usize, y: usize) -> (b: bool)
        requires
            self.wf(),
            x < self.width,
            y < self.height,
        ensures
            b == self.bits@[self.idx(x as int, y as int)],
    {
        let n = self.bits.len();
        proof {
            lemma_flat_index_in_range(self.width as int, self.height as int, x as int, y as int);
            assert(x * self.height + y < n);
        }
        self.bits[x * self.height + y]
    }

    /// The cell at column `x`, row `y` as an 8-bit gray level: 255 for white,
    /// 0 for black. The only two values a dithered image ever contains.
    pub fn gray_at(&self, x: usize, y: usize) -> (v: u8)
        requires
            self.wf(),
            x < self.width,
            y < self.height,
        ensures
            v == (if self.bits@[self.idx(x as int, y as int)] { 255u8 } else { 0u8 }),
    {
        if self.get(x, y) {
            255
        } else {
            0
        }
    }
}

/// A column-major flat index is in range whenever its coordinates are.
pub proof fn lemma_flat_index_in_range(w: int, h: int, x: int, y: int)
    requires
        0 <= x < w,
        0 <= y < h,
    ensures
        0 <= x * h + y < w * h,
        x * h + y < w * h,
{
    assert(0 <= x * h + y < w * h) by (nonlinear_arith)
        requires
            0 <= x < w,
            0 <= y < h,
    ;
}

} // verus!
