//! The dither driver: raster-order error diffusion over the whole grid.
//!
//! The driver walks the buffer column-major (all rows of column 0, then
//! column 1, ...). At each pixel it quantizes the accumulated value against
//! the strict `> 0.5` threshold, emits the bit, and deposits the
//! quantization error over the kernel's taps, discarding any share whose
//! target falls outside the grid. The spec functions below state that
//! recurrence exactly, and each public entry point ensures its output equals
//! the recurrence on every pixel.

use vstd::prelude::*;
use crate::buffer::{deposit_spec, ErrorBuffer};
use crate::grid::{BitGrid, PixelGrid};
use crate::kernel::{share_spec, Kernel, Tap};
use crate::pixel::luminance_spec;

verus! {

/// The quantization rule, shared by both kernels: strictly above one half
/// is white; exactly one half (and anything below) is black.
pub open spec fn quant_spec(v: i64) -> bool {
    v > crate::LUMA_HALF
}

/// Quantizes one accumulated buffer value to its output bit.
pub fn quantize(v: i64) -> (white: bool)
    ensures
        white == quant_spec(v),
{
    v > crate::LUMA_HALF
}

/// The quantization error left at a pixel: its accumulated value minus the
/// value it was rounded to (`LUMA_ONE` for white, 0 for black).
pub open spec fn err_spec(v: i64) -> int {
    v - (if quant_spec(v) { crate::LUMA_ONE as int } else { 0 })
}

/// The cells after the first `n` taps of `taps` have deposited their share
/// of the error `e` from pixel `(x, y)`, in table order.
pub open spec fn taps_applied(
    cells: Seq<i64>,
    w: int,
    h: int,
    x: int,
    y: int,
    e: int,
    taps: Seq<Tap>,
    den: int,
    n: int,
) -> Seq<i64>
    decreases n,
{
    if n <= 0 {
        cells
    } else {
        let prev = taps_applied(cells, w, h, x, y, e, taps, den, n - 1);
        let t = taps[n - 1];
        deposit_spec(
            prev,
            w,
            h,
            x,
            y,
            t.dx as int,
            t.dy as int,
            share_spec(e, t.num as int, den) as i64,
        )
    }
}

/// One full pixel step at `(x, y)`: read the accumulated value, quantize,
/// and diffuse the error through every tap of the kernel.
pub open spec fn step_spec(
    cells: Seq<i64>,
    w: int,
    h: int,
    x: int,
    y: int,
    taps: Seq<Tap>,
    den: int,
) -> Seq<i64> {
    let e = err_spec(cells[x * h + y]);
    taps_applied(cells, w, h, x, y, e, taps, den, taps.len() as int)
}

/// The buffer cells after the traversal has fully processed columns
/// `0 .. x` and, within column `x`, the `y` first rows. `cells_after(.., w, 0)`
/// (equivalently `cells_after(.., w - 1, h)`) is the final buffer state.
pub open spec fn cells_after(
    init: Seq<i64>,
    w: int,
    h: int,
    taps: Seq<Tap>,
    den: int,
    x: int,
    y: int,
) -> Seq<i64>
    decreases x, y,
{
    if y > 0 {
        step_spec(cells_after(init, w, h, taps, den, x, y - 1), w, h, x, y - 1, taps, den)
    } else if x > 0 {
        cells_after(init, w, h, taps, den, x - 1, h)
    } else {
        init
    }
}

/// The output bit of pixel `(x, y)`: its accumulated value at the moment it
/// is visited — original luminance plus every error share already deposited
/// on it — quantized against the threshold.
pub open spec fn dithered_bit(
    init: Seq<i64>,
    w: int,
    h: int,
    taps: Seq<Tap>,
    den: int,
    x: int,
    y: int,
) -> bool {
    quant_spec(cells_after(init, w, h, taps, den, x, y)[x * h + y])
}

/// The initial buffer contents for `g`: the normalized luminance of every
/// pixel, column-major, in `1/2_550_000` units.
pub open spec fn init_cells_spec(g: PixelGrid) -> Seq<i64> {
    Seq::new((g.width * g.height) as nat, |k: int| luminance_spec(g.pixels@[k]) as i64)
}

/// In column-major order, a lexicographically earlier coordinate has a
/// strictly smaller flat index.
proof fn lemma_colmajor_before(h: int, a: int, b: int, x: int, y: int)
    requires
        0 <= a,
        0 <= b < h,
        0 <= y,
        a < x || (a == x && b < y),
    ensures
        a * h + b < x * h + y,
{
    assert(a * h + b < x * h + y) by (nonlinear_arith)
        requires
            0 <= a,
            0 <= b < h,
            0 <= y,
            a < x || (a == x && b < y),
    ;
}

/// Runs one error-diffusion pass of `kernel` over `img`, against a fresh
/// buffer. The output grid has the input's dimensions and every output bit
/// equals the recurrence `dithered_bit` on the initial luminance buffer.
#[verifier::loop_isolation(false)]
pub fn dither_kernel(img: &PixelGrid, kernel: &Kernel) -> (out: BitGrid)
    requires
        img.wf(),
        kernel.wf(),
    ensures
        out.wf(),
        out.width == img.width,
        out.height == img.height,
        forall|x: int, y: int|
            0 <= x < img.width && 0 <= y < img.height ==> out.bits@[x * img.height + y]
                == dithered_bit(
                init_cells_spec(*img),
                img.width as int,
                img.height as int,
                kernel.taps@,
                kernel.den as int,
                x,
                y,
            ),
{
    let w = img.width;
    let h = img.height;
    let ghost taps = kernel.taps@;
    let ghost den = kernel.den as int;
    let mut buf = ErrorBuffer::from_grid(img);
    let ghost init = buf.cells@;
    proof {
        assert(init =~= init_cells_spec(*img));
    }
    let mut bits: Vec<bool> = Vec::new();
    let mut x: usize = 0;
    while x < w
        invariant
            x <= w,
            buf.wf(),
            buf.width == w,
            buf.height == h,
            bits@.len() == x * h,
            buf.cells@ == cells_after(init, w as int, h as int, taps, den, x as int, 0),
            forall|a: int, b: int|
                0 <= a < x && 0 <= b < h ==> bits@[a * h + b] == dithered_bit(
                    init,
                    w as int,
                    h as int,
                    taps,
                    den,
                    a,
                    b,
                ),
        decreases w - x,
    {
        let mut y: usize = 0;
        while y < h
            invariant
                x < w,
                y <= h,
                buf.wf(),
                buf.width == w,
                buf.height == h,
                bits@.len() == x * h + y,
                buf.cells@ == cells_after(init, w as int, h as int, taps, den, x as int, y as int),
                forall|a: int, b: int|
                    0 <= a < w && 0 <= b < h && (a < x || (a == x && b < y)) ==> bits@[a * h + b]
                        == dithered_bit(init, w as int, h as int, taps, den, a, b),
            decreases h - y,
        {
            let old_pxl = buf.get(x, y);
            let white = quantize(old_pxl);
            bits.push(white);
            let new_pxl: i64 = if white {
                crate::LUMA_ONE
            } else {
                0
            };
            let e: i128 = old_pxl as i128 - new_pxl as i128;
            let ghost cells_at_visit = buf.cells@;
            let mut t: usize = 0;
            while t < kernel.taps.len()
                invariant
                    t <= kernel.taps@.len(),
                    x < w,
                    y < h,
                    buf.wf(),
                    buf.width == w,
                    buf.height == h,
                    e == err_spec(cells_at_visit[x as int * h as int + y as int]),
                    buf.cells@ == taps_applied(
                        cells_at_visit,
                        w as int,
                        h as int,
                        x as int,
                        y as int,
                        e as int,
                        taps,
                        den,
                        t as int,
                    ),
                decreases kernel.taps@.len() - t,
            {
                let tap = kernel.taps[t];
                let s = crate::kernel::share(e, tap.num, kernel.den);
                buf.deposit(x, y, tap.dx, tap.dy, s);
                t = t + 1;
            }
            proof {
                assert(buf.cells@ == step_spec(
                    cells_at_visit,
                    w as int,
                    h as int,
                    x as int,
                    y as int,
                    taps,
                    den,
                ));
                assert(cells_after(init, w as int, h as int, taps, den, x as int, y + 1)
                    == step_spec(
                    cells_after(init, w as int, h as int, taps, den, x as int, y as int),
                    w as int,
                    h as int,
                    x as int,
                    y as int,
                    taps,
                    den,
                ));
                assert forall|a: int, b: int|
                    0 <= a < w && 0 <= b < h && (a < x || (a == x && b < y + 1)) implies bits@[a * h
                    + b] == dithered_bit(init, w as int, h as int, taps, den, a, b) by {
                    if a < x || (a == x && b < y) {
                        lemma_colmajor_before(h as int, a, b, x as int, y as int);
                    }
                }
            }
            y = y + 1;
        }
        proof {
            assert(cells_after(init, w as int, h as int, taps, den, x + 1, 0) == cells_after(
                init,
                w as int,
                h as int,
                taps,
                den,
                x as int,
                h as int,
            ));
            assert((x + 1) * (h as int) == x as int * h as int + h) by (nonlinear_arith);
        }
        x = x + 1;
    }
    proof {
        assert(w as int * h as int == (w * h) as int);
    }
    BitGrid { width: w, height: h, bits }
}

/// The tap table of the Atkinson variant, exactly as this library diffuses
/// it: six shares of `1/8` at offsets `(-1,+1)`, `(0,+1)`, `(0,+2)`,
/// `(+1,+1)`, `(0,+1)` again and `(0,+2)` again. Two of the six slots alias
/// the two straight-down offsets, so `(0,+1)` and `(0,+2)` each receive
/// `2/8` of the error, the two diagonal offsets `1/8` each, and `2/8` is
/// discarded. This aliased table — not the textbook Atkinson kernel with six
/// distinct neighbours — is deliberate, and every contract and law of this
/// library speaks of it.
pub open spec fn atkinson_taps() -> Seq<Tap> {
    seq![
        Tap { dx: -1i32, dy: 1, num: 1 },
        Tap { dx: 0, dy: 1, num: 1 },
        Tap { dx: 0, dy: 2, num: 1 },
        Tap { dx: 1, dy: 1, num: 1 },
        Tap { dx: 0, dy: 1, num: 1 },
        Tap { dx: 0, dy: 2, num: 1 },
    ]
}

/// The Floyd-Steinberg tap table: `7/16` at `(+1,0)`, `3/16` at `(-1,+1)`,
/// `5/16` at `(0,+1)` and `1/16` at `(+1,+1)` — the full error, modulo
/// boundary discard.
pub open spec fn floyd_taps() -> Seq<Tap> {
    seq![
        Tap { dx: 1, dy: 0, num: 7 },
        Tap { dx: -1i32, dy: 1, num: 3 },
        Tap { dx: 0, dy: 1, num: 5 },
        Tap { dx: 1, dy: 1, num: 1 },
    ]
}

/// Builds the aliased Atkinson kernel: denominator 8 over `atkinson_taps`.
pub fn atkinson_kernel() -> (k: Kernel)
    ensures
        k.wf(),
        k.den == 8,
        k.taps@ == atkinson_taps(),
{
    let mut taps: Vec<Tap> = Vec::new();
    taps.push(Tap { dx: -1, dy: 1, num: 1 });
    taps.push(Tap { dx: 0, dy: 1, num: 1 });
    taps.push(Tap { dx: 0, dy: 2, num: 1 });
    taps.push(Tap { dx: 1, dy: 1, num: 1 });
    taps.push(Tap { dx: 0, dy: 1, num: 1 });
    taps.push(Tap { dx: 0, dy: 2, num: 1 });
    proof {
        assert(taps@ =~= atkinson_taps());
    }
    Kernel { den: 8, taps }
}

/// Builds the Floyd-Steinberg kernel: denominator 16 over `floyd_taps`.
pub fn floyd_steinberg_kernel() -> (k: Kernel)
    ensures
        k.wf(),
        k.den == 16,
        k.taps@ == floyd_taps(),
{
    let mut taps: Vec<Tap> = Vec::new();
    taps.push(Tap { dx: 1, dy: 0, num: 7 });
    taps.push(Tap { dx: -1, dy: 1, num: 3 });
    taps.push(Tap { dx: 0, dy: 1, num: 5 });
    taps.push(Tap { dx: 1, dy: 1, num: 1 });
    proof {
        assert(taps@ =~= floyd_taps());
    }
    Kernel { den: 16, taps }
}

/// Dithers `img` with the aliased Atkinson kernel, against a fresh buffer.
/// Every output bit equals the diffusion recurrence over `atkinson_taps`.
pub fn atkinson(img: &PixelGrid) -> (out: BitGrid)
    requires
        img.wf(),
    ensures
        out.wf(),
        out.width == img.width,
        out.height == img.height,
        forall|x: int, y: int|
            0 <= x < img.width && 0 <= y < img.height ==> out.bits@[x * img.height + y]
                == dithered_bit(
                init_cells_spec(*img),
                img.width as int,
                img.height as int,
                atkinson_taps(),
                8,
                x,
                y,
            ),
{
    let kernel = atkinson_kernel();
    dither_kernel(img, &kernel)
}

/// Dithers `img` with the Floyd-Steinberg kernel, against a fresh buffer.
/// Every output bit equals the diffusion recurrence over `floyd_taps`.
pub fn floyd_steinberg(img: &PixelGrid) -> (out: BitGrid)
    requires
        img.wf(),
    ensures
        out.wf(),
        out.width == img.width,
        out.height == img.height,
        forall|x: int, y: int|
            0 <= x < img.width && 0 <= y < img.height ==> out.bits@[x * img.height + y]
                == dithered_bit(
                init_cells_spec(*img),
                img.width as int,
                img.height as int,
                floyd_taps(),
                16,
                x,
                y,
            ),
{
    let kernel = floyd_steinberg_kernel();
    dither_kernel(img, &kernel)
}

} // verus!
