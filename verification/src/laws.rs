//! Library-wide laws: facts about the threshold rule, the luminance
//! weighting, the kernels' distributed weight, and boundary discard on a
//! single-pixel image, each proved from the same spec functions the public
//! contracts use.

use vstd::prelude::*;
use crate::dither::{
    atkinson_taps, cells_after, dithered_bit, floyd_taps, quant_spec, step_spec, taps_applied,
};
use crate::kernel::{share_spec, Tap};
use crate::pixel::{luminance_spec, Rgba};

verus! {

/// Luminance depends only on the red, green and blue channels: the alpha
/// channel never influences it.
pub proof fn lemma_luminance_alpha_independent(p: Rgba, q: Rgba)
    requires
        p.r == q.r,
        p.g == q.g,
        p.b == q.b,
    ensures
        luminance_spec(p) == luminance_spec(q),
{
}

/// The quantization threshold is a strict `>`: a normalized luminance of
/// exactly one half quantizes to black, and the smallest value above it
/// quantizes to white.
pub proof fn lemma_threshold_strict()
    ensures
        !quant_spec(crate::LUMA_HALF),
        quant_spec((crate::LUMA_HALF + 1) as i64),
{
}

/// Total weight of the first `n` taps of a table, as a numerator over the
/// kernel's denominator.
pub open spec fn taps_weight_sum_to(taps: Seq<Tap>, n: int) -> int
    decreases n,
{
    if n <= 0 {
        0
    } else {
        taps_weight_sum_to(taps, n - 1) + taps[n - 1].num
    }
}

/// Total weight a tap table distributes, as a numerator over the kernel's
/// denominator.
pub open spec fn taps_weight_sum(taps: Seq<Tap>) -> int {
    taps_weight_sum_to(taps, taps.len() as int)
}

/// Error conservation, Floyd-Steinberg: the four taps distribute
/// `(7 + 3 + 5 + 1) / 16 = 1`, the full error (modulo boundary discard).
pub proof fn lemma_floyd_conserves_error()
    ensures
        taps_weight_sum(floyd_taps()) == 16,
{
    reveal_with_fuel(taps_weight_sum_to, 6);
    assert(floyd_taps().len() == 4);
    assert(taps_weight_sum_to(floyd_taps(), 4) == 16);
}

/// Error conservation, aliased Atkinson: the six taps distribute `6/8` of
/// the error, not `8/8` — the remaining quarter is discarded by design.
pub proof fn lemma_atkinson_distributes_three_quarters()
    ensures
        taps_weight_sum(atkinson_taps()) == 6,
{
    reveal_with_fuel(taps_weight_sum_to, 8);
    assert(atkinson_taps().len() == 6);
    assert(taps_weight_sum_to(atkinson_taps(), 6) == 6);
}

/// The first pixel of a pass is quantized on its original luminance alone:
/// no error has been deposited anywhere before it is visited.
pub proof fn lemma_first_pixel_original(
    init: Seq<i64>,
    w: int,
    h: int,
    taps: Seq<Tap>,
    den: int,
)
    requires
        init.len() > 0,
    ensures
        cells_after(init, w, h, taps, den, 0, 0) == init,
        dithered_bit(init, w, h, taps, den, 0, 0) == quant_spec(init[0]),
{
}

/// Applying any number of taps whose offsets are all nonzero from the only
/// pixel of a 1x1 grid leaves the cells unchanged: every target is out of
/// bounds and every share is discarded.
proof fn lemma_taps_discarded_1x1(cells: Seq<i64>, e: int, taps: Seq<Tap>, den: int, n: int)
    requires
        forall|i: int|
            0 <= i < taps.len() ==> (#[trigger] taps[i]).dx != 0 || taps[i].dy != 0,
        n <= taps.len(),
    ensures
        taps_applied(cells, 1, 1, 0, 0, e, taps, den, n) == cells,
    decreases n,
{
    if n > 0 {
        lemma_taps_discarded_1x1(cells, e, taps, den, n - 1);
    }
}

/// Boundary discard on a 1x1 image, Atkinson: every diffusion offset falls
/// outside the grid, so the buffer's single cell is never mutated by the
/// diffusion step, and the single output bit depends only on the pixel's own
/// original luminance.
pub proof fn lemma_single_pixel_atkinson(init: Seq<i64>)
    requires
        init.len() == 1,
    ensures
        cells_after(init, 1, 1, atkinson_taps(), 8, 1, 0) == init,
        dithered_bit(init, 1, 1, atkinson_taps(), 8, 0, 0) == quant_spec(init[0]),
{
    let taps = atkinson_taps();
    lemma_taps_discarded_1x1(init, crate::dither::err_spec(init[0]), taps, 8, 6);
    assert(cells_after(init, 1, 1, taps, 8, 0, 0) == init);
    assert(cells_after(init, 1, 1, taps, 8, 1, 0) == cells_after(init, 1, 1, taps, 8, 0, 1));
    assert(cells_after(init, 1, 1, taps, 8, 0, 1) == step_spec(init, 1, 1, 0, 0, taps, 8));
}

/// Boundary discard on a 1x1 image, Floyd-Steinberg: the same statement for
/// the Floyd-Steinberg tap table.
pub proof fn lemma_single_pixel_floyd(init: Seq<i64>)
    requires
        init.len() == 1,
    ensures
        cells_after(init, 1, 1, floyd_taps(), 16, 1, 0) == init,
        dithered_bit(init, 1, 1, floyd_taps(), 16, 0, 0) == quant_spec(init[0]),
{
    let taps = floyd_taps();
    lemma_taps_discarded_1x1(init, crate::dither::err_spec(init[0]), taps, 16, 4);
    assert(cells_after(init, 1, 1, taps, 16, 0, 0) == init);
    assert(cells_after(init, 1, 1, taps, 16, 1, 0) == cells_after(init, 1, 1, taps, 16, 0, 1));
    assert(cells_after(init, 1, 1, taps, 16, 0, 1) == step_spec(init, 1, 1, 0, 0, taps, 16));
}


/// Applying any number of taps with a zero error deposits nothing: every
/// share is `0 * num / den = 0`.
proof fn lemma_zero_error_taps(
    cells: Seq<i64>,
    w: int,
    h: int,
    x: int,
    y: int,
    taps: Seq<Tap>,
    den: int,
    n: int,
)
    requires
        den >= 1,
        cells.len() == w * h,
        0 <= n <= taps.len(),
    ensures
        taps_applied(cells, w, h, x, y, 0, taps, den, n) == cells,
    decreases n,
{
    if n > 0 {
        lemma_zero_error_taps(cells, w, h, x, y, taps, den, n - 1);
        let t = taps[n - 1];
        let ta = x + t.dx;
        let tb = y + t.dy;
        assert(share_spec(0, t.num as int, den) == 0);
        if 0 <= ta < w && 0 <= tb < h {
            crate::grid::lemma_flat_index_in_range(w, h, ta, tb);
            let i = ta * h + tb;
            assert(crate::buffer::sat_add_spec(cells[i], 0) == cells[i]);
            assert(cells.update(i, cells[i]) =~= cells);
        }
    }
}

/// A grid that is already pure black or pure white is a fixed point of
/// error diffusion, for any kernel: every pixel quantizes exactly to its own
/// value, leaves zero error, and deposits nothing, so the buffer never
/// changes and every output bit is the plain threshold of its own cell.
pub proof fn lemma_pure_bw_fixed_point(
    init: Seq<i64>,
    w: int,
    h: int,
    taps: Seq<Tap>,
    den: int,
    x: int,
    y: int,
)
    requires
        den >= 1,
        init.len() == w * h,
        forall|k: int| 0 <= k < init.len() ==> init[k] == 0 || #[trigger] init[k] == crate::LUMA_ONE,
        0 <= x,
        0 <= y <= h,
        x < w || (x == w && y == 0),
    ensures
        cells_after(init, w, h, taps, den, x, y) == init,
        x < w && y < h ==> dithered_bit(init, w, h, taps, den, x, y) == quant_spec(init[x * h + y]),
    decreases x, y,
{
    if y > 0 {
        lemma_pure_bw_fixed_point(init, w, h, taps, den, x, y - 1);
        crate::grid::lemma_flat_index_in_range(w, h, x, y - 1);
        let i = x * h + (y - 1);
        assert(crate::dither::err_spec(init[i]) == 0);
        lemma_zero_error_taps(init, w, h, x, y - 1, taps, den, taps.len() as int);
        assert(cells_after(init, w, h, taps, den, x, y) == step_spec(
            init,
            w,
            h,
            x,
            y - 1,
            taps,
            den,
        ));
    } else if x > 0 {
        lemma_pure_bw_fixed_point(init, w, h, taps, den, x - 1, h);
        assert(cells_after(init, w, h, taps, den, x, 0) == cells_after(
            init,
            w,
            h,
            taps,
            den,
            x - 1,
            h,
        ));
    }
    if x < w && y < h {
        crate::grid::lemma_flat_index_in_range(w, h, x, y);
    }
}

} // verus!
