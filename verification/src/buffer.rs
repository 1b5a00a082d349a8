//! The error-accumulation buffer: a mutable W x H grid of fixed-point
//! brightness values, one per pixel.
//!
//! Each cell holds a normalized luminance in `1/2_550_000` units (`i64`),
//! initialized to the luminance of the corresponding input pixel and mutated
//! in place as diffusion proceeds. Cells may leave `[0, LUMA_ONE]`
//! transiently once neighbours deposit error. Additions saturate at the
//! `i64` bounds, so a cell update is always defined; for any realistic
//! accumulation the sum is far inside the representable range and saturation
//! never binds.

use vstd::prelude::*;
use crate::grid::{lemma_flat_index_in_range, PixelGrid, MAX_DIM};
use crate::pixel::{luminance_spec, luminosity};

verus! {

/// `a + b` clamped to the `i64` range.
pub open spec fn sat_add_spec(a: i64, b: i64) -> i64 {
    if a + b > i64::MAX {
        i64::MAX
    } else if a + b < i64::MIN {
        i64::MIN
    } else {
        (a + b) as i64
    }
}

/// Saturating addition on `i64`, the cell-update primitive.
pub fn sat_add(a: i64, b: i64) -> (r: i64)
    ensures
        r == sat_add_spec(a, b),
{
    if b >= 0 {
        if a > i64::MAX - b {
            i64::MAX
        } else {
            a + b
        }
    } else {
        if a < i64::MIN - b {
            i64::MIN
        } else {
            a + b
        }
    }
}

/// The cells after depositing `amount` at `(x + dx, y + dy)` in a
/// column-major `w` x `h` cell sequence: unchanged when the target lies
/// outside `[0, w) x [0, h)` (the boundary-discard rule), otherwise the
/// target cell is increased by `amount`, saturating at the `i64` bounds.
pub open spec fn deposit_spec(
    cells: Seq<i64>,
    w: int,
    h: int,
    x: int,
    y: int,
    dx: int,
    dy: int,
    amount: i64,
) -> Seq<i64> {
    let tx = x + dx;
    let ty = y + dy;
    if 0 <= tx < w && 0 <= ty < h {
        cells.update(tx * h + ty, sat_add_spec(cells[tx * h + ty], amount))
    } else {
        cells
    }
}

/// A mutable W x H grid of fixed-point brightness values, stored
/// column-major: cell `(x, y)` lives at flat index `x * height + y`.
pub struct ErrorBuffer {
    pub width: usize,
    pub height: usize,
    pub cells: Vec<i64>,
}

impl ErrorBuffer {
    /// One cell per pixel, with dimensions small enough for safe index
    /// arithmetic.
    pub open spec fn wf(self) -> bool {
        &&& self.cells@.len() == self.width * self.height
        &&& self.width <= MAX_DIM
        &&& self.height <= MAX_DIM
    }

    /// Flat index of the cell at column `x`, row `y`.
    pub open spec fn idx(self, x: int, y: int) -> int {
        x * self.height + y
    }

    /// A fresh buffer for `g`: every cell holds the normalized luminance of
    /// the corresponding input pixel, in `1/2_550_000` units.
    pub fn from_grid(g: &PixelGrid) -> (buf: ErrorBuffer)
        requires
            g.wf(),
        ensures
            buf.wf(),
            buf.width == g.width,
            buf.height == g.height,
            forall|k: int|
                0 <= k < buf.cells@.len() ==> buf.cells@[k] == luminance_spec(g.pixels@[k]),
    {
        let n = g.pixels.len();
        let mut cells: Vec<i64> = Vec::new();
        let mut k: usize = 0;
        while k < n
            invariant
                n == g.pixels@.len(),
                k <= n,
                cells@.len() == k,
                forall|j: int| 0 <= j < k ==> cells@[j] == luminance_spec(g.pixels@[j]),
            decreases n - k,
        {
            let l = luminosity(&g.pixels[k]);
            cells.push(l);
            k = k + 1;
        }
        ErrorBuffer { width: g.width, height: g.height, cells }
    }

    /// The accumulated value at column `x`, row `y`.
    pub fn get(&self, x: usize, y: usize) -> (v: i64)
        requires
            self.wf(),
            x < self.width,
            y < self.height,
        ensures
            v == self.cells@[self.idx(x as int, y as int)],
    {
        let n = self.cells.len();
        proof {
            lemma_flat_index_in_range(self.width as int, self.height as int, x as int, y as int);
            assert(x * self.height + y < n);
        }
        self.cells[x * self.height + y]
    }

    /// Deposits `amount` of error at `(x + dx, y + dy)`. A target outside
    /// the grid is a silent no-op: error mass at the image boundary is
    /// discarded, not wrapped or clamped to an edge cell.
    pub fn deposit(&mut self, x: usize, y: usize, dx: i32, dy: i32, amount: i64)
        requires
            old(self).wf(),
            x < old(self).width,
            y < old(self).height,
        ensures
            final(self).wf(),
            final(self).width == old(self).width,
            final(self).height == old(self).height,
            final(self).cells@ == deposit_spec(
                old(self).cells@,
                old(self).width as int,
                old(self).height as int,
                x as int,
                y as int,
                dx as int,
                dy as int,
                amount,
            ),
    {
        let tx: i64 = x as i64 + dx as i64;
        let ty: i64 = y as i64 + dy as i64;
        if tx < 0 || tx >= self.width as i64 || ty < 0 || ty >= self.height as i64 {
            return;
        }
        let txu: usize = tx as usize;
        let tyu: usize = ty as usize;
        let n = self.cells.len();
        proof {
            lemma_flat_index_in_range(
                self.width as int,
                self.height as int,
                txu as int,
                tyu as int,
            );
            assert(txu * self.height + tyu < n);
        }
        let i: usize = txu * self.height + tyu;
        self.cells[i] = sat_add(self.cells[i], amount);
    }
}

} // verus!
