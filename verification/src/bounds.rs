//! Boundedness of the error buffer.
//!
//! The central quantitative law of error diffusion as this library performs
//! it: at every point of a pass, every cell of the buffer lies within half a
//! luminance unit (`LUMA_HALF` fixed-point units) of that cell's original
//! luminance. The argument: a cell only ever receives, from each already
//! processed source pixel, a share `error * num / den` of that source's
//! error; the weights a whole tap table distributes sum to at most `den`,
//! every source's error has magnitude at most `LUMA_HALF` (a consequence of
//! the same bound, inductively), so the total deposit on one cell can never
//! exceed `den * LUMA_HALF / den`.

use vstd::prelude::*;
use vstd::arithmetic::div_mod::lemma_fundamental_div_mod;
use crate::dither::{atkinson_taps, cells_after, err_spec, floyd_taps, taps_applied};
use crate::kernel::{share_spec, Tap};
use crate::laws::{taps_weight_sum, taps_weight_sum_to};

verus! {

/// Every tap weight of the table is a proper positive fraction of `den`.
pub open spec fn taps_wf(taps: Seq<Tap>, den: int) -> bool {
    forall|i: int| 0 <= i < taps.len() ==> 1 <= (#[trigger] taps[i]).num < den
}

/// Pixel `(p, q)` lies in the grid and is visited strictly before the
/// traversal position `(x, y)` in column-major order.
pub open spec fn processed(x: int, y: int, p: int, q: int, w: int, h: int) -> bool {
    &&& 0 <= p < w
    &&& 0 <= q < h
    &&& (p < x || (p == x && q < y))
}

/// Total weight, over the first `n` taps, that cell `(a, b)` has received
/// from sources already processed at traversal position `(x, y)`.
pub open spec fn received_to(
    taps: Seq<Tap>,
    x: int,
    y: int,
    a: int,
    b: int,
    w: int,
    h: int,
    n: int,
) -> int
    decreases n,
{
    if n <= 0 {
        0
    } else {
        received_to(taps, x, y, a, b, w, h, n - 1) + if processed(
            x,
            y,
            a - taps[n - 1].dx,
            b - taps[n - 1].dy,
            w,
            h,
        ) {
            taps[n - 1].num as int
        } else {
            0
        }
    }
}

/// Total weight cell `(a, b)` has received at traversal position `(x, y)`.
pub open spec fn received(taps: Seq<Tap>, x: int, y: int, a: int, b: int, w: int, h: int) -> int {
    received_to(taps, x, y, a, b, w, h, taps.len() as int)
}

/// Total weight, over the first `n` taps, that the single pixel step at
/// `(x, y)` deposits on cell `(a, b)`.
pub open spec fn deposited_to(taps: Seq<Tap>, x: int, y: int, a: int, b: int, n: int) -> int
    decreases n,
{
    if n <= 0 {
        0
    } else {
        deposited_to(taps, x, y, a, b, n - 1) + if x + taps[n - 1].dx == a && y + taps[n - 1].dy
            == b {
            taps[n - 1].num as int
        } else {
            0
        }
    }
}

/// Partial weight sums only grow along the table.
proof fn lemma_weight_sum_to_monotone(taps: Seq<Tap>, den: int, m: int, n: int)
    requires
        taps_wf(taps, den),
        0 <= m <= n <= taps.len(),
    ensures
        taps_weight_sum_to(taps, m) <= taps_weight_sum_to(taps, n),
    decreases n - m,
{
    if m < n {
        lemma_weight_sum_to_monotone(taps, den, m, n - 1);
    }
}

/// Received weight is nonnegative and bounded by the table's partial sum.
proof fn lemma_received_to_bounds(
    taps: Seq<Tap>,
    den: int,
    x: int,
    y: int,
    a: int,
    b: int,
    w: int,
    h: int,
    n: int,
)
    requires
        taps_wf(taps, den),
        0 <= n <= taps.len(),
    ensures
        0 <= received_to(taps, x, y, a, b, w, h, n) <= taps_weight_sum_to(taps, n),
    decreases n,
{
    if n > 0 {
        lemma_received_to_bounds(taps, den, x, y, a, b, w, h, n - 1);
    }
}

/// Deposited weight is nonnegative and bounded by the table's partial sum.
proof fn lemma_deposited_to_bounds(
    taps: Seq<Tap>,
    den: int,
    x: int,
    y: int,
    a: int,
    b: int,
    n: int,
)
    requires
        taps_wf(taps, den),
        0 <= n <= taps.len(),
    ensures
        0 <= deposited_to(taps, x, y, a, b, n) <= taps_weight_sum_to(taps, n),
    decreases n,
{
    if n > 0 {
        lemma_deposited_to_bounds(taps, den, x, y, a, b, n - 1);
    }
}

/// Advancing the traversal past pixel `(x, y)` grows each cell's received
/// weight by exactly what the step at `(x, y)` deposits on it.
proof fn lemma_received_next_row(
    taps: Seq<Tap>,
    x: int,
    y: int,
    a: int,
    b: int,
    w: int,
    h: int,
    n: int,
)
    requires
        0 <= x < w,
        0 <= y < h,
        0 <= n <= taps.len(),
    ensures
        received_to(taps, x, y + 1, a, b, w, h, n) == received_to(taps, x, y, a, b, w, h, n)
            + deposited_to(taps, x, y, a, b, n),
    decreases n,
{
    if n > 0 {
        lemma_received_next_row(taps, x, y, a, b, w, h, n - 1);
    }
}

/// The position after the last row of column `x` and the position at the top
/// of column `x + 1` have processed the same pixels, so every cell has
/// received the same weight.
proof fn lemma_received_next_col(taps: Seq<Tap>, x: int, a: int, b: int, w: int, h: int, n: int)
    requires
        0 <= n <= taps.len(),
    ensures
        received_to(taps, x + 1, 0, a, b, w, h, n) == received_to(taps, x, h, a, b, w, h, n),
    decreases n,
{
    if n > 0 {
        lemma_received_next_col(taps, x, a, b, w, h, n - 1);
    }
}

/// One share is bounded by its tap's fraction of the error bound: with
/// `|e| <= LUMA_HALF`, `|e * num / den|` is at most `num * LUMA_ONE / (2 den)`,
/// stated multiplied through by `2 den`.
proof fn lemma_share_bound(e: int, num: int, den: int)
    requires
        1 <= num < den,
        -1_275_000 <= e <= 1_275_000,
    ensures
        -(num * 2_550_000) <= 2 * den * share_spec(e, num, den) <= num * 2_550_000,
{
    if e >= 0 {
        let p = e * num;
        assert(0 <= p && 2 * p <= num * 2_550_000) by (nonlinear_arith)
            requires
                p == e * num,
                0 <= e <= 1_275_000,
                1 <= num,
        ;
        lemma_fundamental_div_mod(p, den);
        let q = p / den;
        assert(p == den * q + p % den);
        assert(0 <= p % den < den);
        assert(0 <= q && 0 <= 2 * den * q && 2 * den * q <= 2 * p) by (nonlinear_arith)
            requires
                p == den * q + p % den,
                0 <= p % den < den,
                0 <= p,
                1 <= den,
        ;
        assert(num * 2_550_000 >= 0) by (nonlinear_arith)
            requires
                1 <= num,
        ;
        assert(share_spec(e, num, den) == q);
        assert(2 * den * share_spec(e, num, den) == 2 * den * q);
        assert(2 * den * q <= num * 2_550_000);
        assert(-(num * 2_550_000) <= 2 * den * q);
    } else {
        let m = -e;
        let p = m * num;
        assert(0 <= p && 2 * p <= num * 2_550_000) by (nonlinear_arith)
            requires
                p == m * num,
                0 <= m <= 1_275_000,
                1 <= num,
        ;
        lemma_fundamental_div_mod(p, den);
        let q = p / den;
        assert(p == den * q + p % den);
        assert(0 <= p % den < den);
        assert(0 <= q && 0 <= 2 * den * q && 2 * den * q <= 2 * p) by (nonlinear_arith)
            requires
                p == den * q + p % den,
                0 <= p % den < den,
                0 <= p,
                1 <= den,
        ;
        assert(share_spec(e, num, den) == -q);
        assert(num * 2_550_000 >= 0) by (nonlinear_arith)
            requires
                1 <= num,
        ;
        assert(2 * den * share_spec(e, num, den) == -(2 * den * q)) by (nonlinear_arith)
            requires
                share_spec(e, num, den) == -q,
        ;
        assert(-(num * 2_550_000) <= 2 * den * share_spec(e, num, den));
        assert(2 * den * share_spec(e, num, den) <= num * 2_550_000);
    }
}

/// A share never exceeds half a luminance unit in magnitude.
proof fn lemma_share_small(e: int, num: int, den: int)
    requires
        1 <= num < den,
        den <= 16,
        -1_275_000 <= e <= 1_275_000,
    ensures
        -1_275_000 <= share_spec(e, num, den) <= 1_275_000,
{
    lemma_share_bound(e, num, den);
    assert(-1_275_000 <= share_spec(e, num, den) <= 1_275_000) by (nonlinear_arith)
        requires
            1 <= num < den,
            -(num * 2_550_000) <= 2 * den * share_spec(e, num, den) <= num * 2_550_000,
    ;
}

/// The deposits of one pixel step deviate each cell from its value before
/// the step by at most the weight the step puts on that cell, times half a
/// luminance unit (stated multiplied through by `2 den`), and no deposit
/// ever saturates.
proof fn lemma_taps_applied_bounded(
    cells: Seq<i64>,
    w: int,
    h: int,
    x: int,
    y: int,
    e: int,
    taps: Seq<Tap>,
    den: int,
    n: int,
)
    requires
        taps_wf(taps, den),
        1 <= den <= 16,
        taps_weight_sum(taps) <= den,
        0 <= n <= taps.len(),
        0 <= x < w,
        0 <= y < h,
        cells.len() == w * h,
        -1_275_000 <= e <= 1_275_000,
        forall|a: int, b: int|
            0 <= a < w && 0 <= b < h ==> -2_550_000 <= #[trigger] cells[a * h + b]
                <= 2 * 2_550_000,
    ensures
        taps_applied(cells, w, h, x, y, e, taps, den, n).len() == cells.len(),
        forall|a: int, b: int|
            0 <= a < w && 0 <= b < h ==> -(deposited_to(taps, x, y, a, b, n) * 2_550_000) <= 2
                * den * (#[trigger] taps_applied(cells, w, h, x, y, e, taps, den, n)[a * h + b]
                - cells[a * h + b]) <= deposited_to(taps, x, y, a, b, n) * 2_550_000,
    decreases n,
{
    if n > 0 {
        lemma_taps_applied_bounded(cells, w, h, x, y, e, taps, den, n - 1);
        let prev = taps_applied(cells, w, h, x, y, e, taps, den, n - 1);
        let cur = taps_applied(cells, w, h, x, y, e, taps, den, n);
        let t = taps[n - 1];
        let s = share_spec(e, t.num as int, den);
        lemma_share_bound(e, t.num as int, den);
        lemma_share_small(e, t.num as int, den);
        let ta = x + t.dx;
        let tb = y + t.dy;
        if 0 <= ta < w && 0 <= tb < h {
            let i = ta * h + tb;
            crate::grid::lemma_flat_index_in_range(w, h, ta, tb);
            lemma_deposited_to_bounds(taps, den, x, y, ta, tb, n - 1);
            lemma_weight_sum_to_monotone(taps, den, n - 1, taps.len() as int);
            assert(deposited_to(taps, x, y, ta, tb, n - 1) <= den);
            assert(-1_275_000 <= prev[i] - cells[i] <= 1_275_000) by (nonlinear_arith)
                requires
                    1 <= den,
                    -(deposited_to(taps, x, y, ta, tb, n - 1) * 2_550_000) <= 2 * den * (prev[i]
                        - cells[i]) <= deposited_to(taps, x, y, ta, tb, n - 1) * 2_550_000,
                    0 <= deposited_to(taps, x, y, ta, tb, n - 1) <= den,
            ;
            assert(i64::MIN <= prev[i] + s <= i64::MAX);
            assert(crate::buffer::sat_add_spec(prev[i], s as i64) == prev[i] + s);
            assert(cur == prev.update(i, (prev[i] + s) as i64));
            assert forall|a: int, b: int| 0 <= a < w && 0 <= b < h implies -(deposited_to(
                taps,
                x,
                y,
                a,
                b,
                n,
            ) * 2_550_000) <= 2 * den * (#[trigger] cur[a * h + b] - cells[a * h + b])
                <= deposited_to(taps, x, y, a, b, n) * 2_550_000 by {
                crate::grid::lemma_flat_index_in_range(w, h, a, b);
                if a == ta && b == tb {
                    assert(cur[a * h + b] == prev[a * h + b] + s);
                    assert(2 * den * (cur[i] - cells[i]) == 2 * den * (prev[i] - cells[i]) + 2
                        * den * s) by (nonlinear_arith)
                        requires
                            cur[i] == prev[i] + s,
                    ;
                    assert(deposited_to(taps, x, y, a, b, n) == deposited_to(taps, x, y, a, b, n - 1)
                        + t.num);
                    assert((deposited_to(taps, x, y, a, b, n - 1) + t.num) * 2_550_000
                        == deposited_to(taps, x, y, a, b, n - 1) * 2_550_000 + t.num * 2_550_000)
                        by (nonlinear_arith)
                    ;
                } else {
                    assert(a * h + b != i) by {
                        if a * h + b == i {
                            lemma_flat_index_injective(h, a, b, ta, tb);
                        }
                    }
                    assert(cur[a * h + b] == prev[a * h + b]);
                    assert(deposited_to(taps, x, y, a, b, n) == deposited_to(
                        taps,
                        x,
                        y,
                        a,
                        b,
                        n - 1,
                    ));
                }
            }
        } else {
            assert(cur == prev);
            assert forall|a: int, b: int| 0 <= a < w && 0 <= b < h implies deposited_to(
                taps,
                x,
                y,
                a,
                b,
                n,
            ) == deposited_to(taps, x, y, a, b, n - 1) by {}
        }
    }
}

/// Distinct grid coordinates map to distinct column-major flat indices.
proof fn lemma_flat_index_injective(h: int, a: int, b: int, p: int, q: int)
    requires
        0 <= b < h,
        0 <= q < h,
        a * h + b == p * h + q,
    ensures
        a == p && b == q,
{
    assert(a == p && b == q) by (nonlinear_arith)
        requires
            0 <= b < h,
            0 <= q < h,
            a * h + b == p * h + q,
    ;
}


/// Main induction: at every traversal position, each cell deviates from its
/// initial luminance by at most its received weight times half a luminance
/// unit (stated multiplied through by `2 den`).
proof fn lemma_received_dev(
    init: Seq<i64>,
    w: int,
    h: int,
    taps: Seq<Tap>,
    den: int,
    x: int,
    y: int,
)
    requires
        taps_wf(taps, den),
        1 <= den <= 16,
        taps_weight_sum(taps) <= den,
        1 <= w,
        1 <= h,
        init.len() == w * h,
        forall|k: int| 0 <= k < init.len() ==> 0 <= #[trigger] init[k] <= 2_550_000,
        0 <= x,
        0 <= y <= h,
        x < w || (x == w && y == 0),
    ensures
        cells_after(init, w, h, taps, den, x, y).len() == init.len(),
        forall|a: int, b: int|
            0 <= a < w && 0 <= b < h ==> -(received(taps, x, y, a, b, w, h) * 2_550_000) <= 2 * den
                * (#[trigger] cells_after(init, w, h, taps, den, x, y)[a * h + b] - init[a * h
                + b]) <= received(taps, x, y, a, b, w, h) * 2_550_000,
    decreases x, y,
{
    let cur = cells_after(init, w, h, taps, den, x, y);
    let len = taps.len() as int;
    if y > 0 {
        lemma_received_dev(init, w, h, taps, den, x, y - 1);
        let prev = cells_after(init, w, h, taps, den, x, y - 1);
        crate::grid::lemma_flat_index_in_range(w, h, x, y - 1);
        let i = x * h + (y - 1);
        lemma_received_to_bounds(taps, den, x, y - 1, x, y - 1, w, h, len);
        assert(-1_275_000 <= prev[i] - init[i] <= 1_275_000) by (nonlinear_arith)
            requires
                1 <= den,
                -(received(taps, x, y - 1, x, y - 1, w, h) * 2_550_000) <= 2 * den * (prev[i]
                    - init[i]) <= received(taps, x, y - 1, x, y - 1, w, h) * 2_550_000,
                0 <= received(taps, x, y - 1, x, y - 1, w, h) <= den,
        ;
        let e = err_spec(prev[i]);
        assert(-1_275_000 <= e <= 1_275_000);
        assert forall|a: int, b: int| 0 <= a < w && 0 <= b < h implies -2_550_000 <= #[trigger] prev[a
            * h + b] <= 2 * 2_550_000 by {
            crate::grid::lemma_flat_index_in_range(w, h, a, b);
            lemma_received_to_bounds(taps, den, x, y - 1, a, b, w, h, len);
            assert(-1_275_000 <= prev[a * h + b] - init[a * h + b] <= 1_275_000)
                by (nonlinear_arith)
                requires
                    1 <= den,
                    -(received(taps, x, y - 1, a, b, w, h) * 2_550_000) <= 2 * den * (prev[a * h
                        + b] - init[a * h + b]) <= received(taps, x, y - 1, a, b, w, h)
                        * 2_550_000,
                    0 <= received(taps, x, y - 1, a, b, w, h) <= den,
            ;
        }
        lemma_taps_applied_bounded(prev, w, h, x, y - 1, e, taps, den, len);
        assert(cur == taps_applied(prev, w, h, x, y - 1, e, taps, den, len));
        assert forall|a: int, b: int| 0 <= a < w && 0 <= b < h implies -(received(
            taps,
            x,
            y,
            a,
            b,
            w,
            h,
        ) * 2_550_000) <= 2 * den * (#[trigger] cur[a * h + b] - init[a * h + b]) <= received(
            taps,
            x,
            y,
            a,
            b,
            w,
            h,
        ) * 2_550_000 by {
            crate::grid::lemma_flat_index_in_range(w, h, a, b);
            lemma_received_next_row(taps, x, y - 1, a, b, w, h, len);
            let j = a * h + b;
            assert(2 * den * (cur[j] - init[j]) == 2 * den * (cur[j] - prev[j]) + 2 * den * (
            prev[j] - init[j])) by (nonlinear_arith);
            assert((received(taps, x, y - 1, a, b, w, h) + deposited_to(taps, x, y - 1, a, b, len))
                * 2_550_000 == received(taps, x, y - 1, a, b, w, h) * 2_550_000 + deposited_to(
                taps,
                x,
                y - 1,
                a,
                b,
                len,
            ) * 2_550_000) by (nonlinear_arith);
        }
    } else if x > 0 {
        lemma_received_dev(init, w, h, taps, den, x - 1, h);
        assert(cur == cells_after(init, w, h, taps, den, x - 1, h));
        assert forall|a: int, b: int| 0 <= a < w && 0 <= b < h implies -(received(
            taps,
            x,
            y,
            a,
            b,
            w,
            h,
        ) * 2_550_000) <= 2 * den * (#[trigger] cur[a * h + b] - init[a * h + b]) <= received(
            taps,
            x,
            y,
            a,
            b,
            w,
            h,
        ) * 2_550_000 by {
            lemma_received_next_col(taps, x - 1, a, b, w, h, len);
        }
    } else {
        assert(cur == init);
        assert forall|a: int, b: int| 0 <= a < w && 0 <= b < h implies -(received(
            taps,
            x,
            y,
            a,
            b,
            w,
            h,
        ) * 2_550_000) <= 2 * den * (#[trigger] cur[a * h + b] - init[a * h + b]) <= received(
            taps,
            x,
            y,
            a,
            b,
            w,
            h,
        ) * 2_550_000 by {
            crate::grid::lemma_flat_index_in_range(w, h, a, b);
            lemma_received_to_bounds(taps, den, 0, 0, a, b, w, h, len);
            assert(0 <= received(taps, x, y, a, b, w, h) * 2_550_000) by (nonlinear_arith)
                requires
                    0 <= received(taps, x, y, a, b, w, h),
            ;
        }
    }
}

/// Boundedness of the error buffer: at every traversal position of a pass
/// whose kernel distributes at most its full denominator of weight, every
/// cell lies within half a luminance unit of that cell's original
/// luminance — the accumulated value never leaves
/// `[-0.5, 1.5]` in normalized terms. In particular the saturating cell
/// update is always far from the `i64` bounds.
pub proof fn lemma_buffer_deviation_bounded(
    init: Seq<i64>,
    w: int,
    h: int,
    taps: Seq<Tap>,
    den: int,
    x: int,
    y: int,
)
    requires
        taps_wf(taps, den),
        1 <= den <= 16,
        taps_weight_sum(taps) <= den,
        1 <= w,
        1 <= h,
        init.len() == w * h,
        forall|k: int| 0 <= k < init.len() ==> 0 <= #[trigger] init[k] <= 2_550_000,
        0 <= x,
        0 <= y <= h,
        x < w || (x == w && y == 0),
    ensures
        forall|a: int, b: int|
            0 <= a < w && 0 <= b < h ==> init[a * h + b] - 1_275_000 <= #[trigger] cells_after(
                init,
                w,
                h,
                taps,
                den,
                x,
                y,
            )[a * h + b] <= init[a * h + b] + 1_275_000,
{
    lemma_received_dev(init, w, h, taps, den, x, y);
    let cur = cells_after(init, w, h, taps, den, x, y);
    let len = taps.len() as int;
    assert forall|a: int, b: int| 0 <= a < w && 0 <= b < h implies init[a * h + b] - 1_275_000
        <= #[trigger] cur[a * h + b] <= init[a * h + b] + 1_275_000 by {
        crate::grid::lemma_flat_index_in_range(w, h, a, b);
        lemma_received_to_bounds(taps, den, x, y, a, b, w, h, len);
        assert(-1_275_000 <= cur[a * h + b] - init[a * h + b] <= 1_275_000) by (nonlinear_arith)
            requires
                1 <= den,
                -(received(taps, x, y, a, b, w, h) * 2_550_000) <= 2 * den * (cur[a * h + b]
                    - init[a * h + b]) <= received(taps, x, y, a, b, w, h) * 2_550_000,
                0 <= received(taps, x, y, a, b, w, h) <= den,
        ;
    }
}


/// Buffer boundedness instantiated for the aliased Atkinson kernel, whose
/// taps distribute `6/8` of the error.
pub proof fn lemma_atkinson_buffer_bounded(init: Seq<i64>, w: int, h: int, x: int, y: int)
    requires
        1 <= w,
        1 <= h,
        init.len() == w * h,
        forall|k: int| 0 <= k < init.len() ==> 0 <= #[trigger] init[k] <= 2_550_000,
        0 <= x,
        0 <= y <= h,
        x < w || (x == w && y == 0),
    ensures
        forall|a: int, b: int|
            0 <= a < w && 0 <= b < h ==> init[a * h + b] - 1_275_000 <= #[trigger] cells_after(
                init,
                w,
                h,
                atkinson_taps(),
                8,
                x,
                y,
            )[a * h + b] <= init[a * h + b] + 1_275_000,
{
    assert(taps_wf(atkinson_taps(), 8));
    crate::laws::lemma_atkinson_distributes_three_quarters();
    lemma_buffer_deviation_bounded(init, w, h, atkinson_taps(), 8, x, y);
}

/// Buffer boundedness instantiated for the Floyd-Steinberg kernel, whose
/// taps distribute the full `16/16` of the error.
pub proof fn lemma_floyd_buffer_bounded(init: Seq<i64>, w: int, h: int, x: int, y: int)
    requires
        1 <= w,
        1 <= h,
        init.len() == w * h,
        forall|k: int| 0 <= k < init.len() ==> 0 <= #[trigger] init[k] <= 2_550_000,
        0 <= x,
        0 <= y <= h,
        x < w || (x == w && y == 0),
    ensures
        forall|a: int, b: int|
            0 <= a < w && 0 <= b < h ==> init[a * h + b] - 1_275_000 <= #[trigger] cells_after(
                init,
                w,
                h,
                floyd_taps(),
                16,
                x,
                y,
            )[a * h + b] <= init[a * h + b] + 1_275_000,
{
    assert(taps_wf(floyd_taps(), 16));
    crate::laws::lemma_floyd_conserves_error();
    lemma_buffer_deviation_bounded(init, w, h, floyd_taps(), 16, x, y);
}

} // verus!
