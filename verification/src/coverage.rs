//! The runs of a band hold every pixel that is drawn.
//!
//! A pixel of a band that is a palette slot and not the key color has its
//! row in the mask of its column, in the row of its color in the working
//! map; and its column lies in a run of its color, and in one only.

use vstd::prelude::*;
use crate::band::{band_runs, column_mask, drawn, gap, lemma_gap_counts, map_row, row_runs};
use crate::band::{run_end, run_start, working_map, Run, RUN_GAP};
use crate::body::{band_height, pixel_at, BodyOptions};
use crate::selection::lemma_band_runs_have_slots;

verus! {

/// Whether column `x` lies in the run `r` of color `c`.
pub open spec fn in_run(r: Run, c: int, x: int) -> bool {
    r.pal == c && r.sx <= x < r.mx
}

/// Whether column `x` lies in one of the runs of color `c`.
pub open spec fn held(runs: Seq<Run>, c: int, x: int) -> bool {
    exists|k: int| 0 <= k < runs.len() && in_run(#[trigger] runs[k], c, x)
}

/// The start of a run is the first column from `x0` on that is not empty.
pub proof fn lemma_run_start(row: Seq<u8>, x0: int)
    requires
        0 <= x0 <= row.len(),
    ensures
        x0 <= run_start(row, x0) <= row.len(),
        run_start(row, x0) < row.len() ==> row[run_start(row, x0)] != 0,
        forall|j: int| x0 <= j < run_start(row, x0) ==> #[trigger] row[j] == 0,
    decreases row.len() - x0,
{
    if x0 < row.len() && row[x0] == 0 {
        lemma_run_start(row, x0 + 1);
    }
}

/// The end of a run lies at or behind the column that the run has reached,
/// and within the row.
pub proof fn lemma_run_end(row: Seq<u8>, mx: int)
    requires
        0 <= mx <= row.len(),
    ensures
        mx <= run_end(row, mx) <= row.len(),
    decreases row.len() - mx,
{
    if mx < row.len() {
        if row[mx] != 0 {
            lemma_run_end(row, mx + 1);
        } else {
            let n = gap(row, mx);
            lemma_gap_counts(row, mx);
            if !(n >= RUN_GAP || mx + n >= row.len() || n <= 0) {
                lemma_run_end(row, mx + n);
            }
        }
    }
}

/// Runs that hold a column hold it among more runs.
pub proof fn lemma_held_among(a: Seq<Run>, b: Seq<Run>, c: int, x: int)
    requires
        held(a, c, x) || held(b, c, x),
    ensures
        held(a + b, c, x),
{
    if held(a, c, x) {
        let k = choose|k: int| 0 <= k < a.len() && in_run(#[trigger] a[k], c, x);
        assert((a + b)[k] == a[k]);
    } else {
        let k = choose|k: int| 0 <= k < b.len() && in_run(#[trigger] b[k], c, x);
        assert((a + b)[a.len() + k] == b[k]);
    }
}

/// A column that is not empty lies in a run of its row's color.
pub proof fn lemma_row_runs_hold(row: Seq<u8>, pal: int, x0: int, x: int)
    requires
        0 <= x0 <= x < row.len() <= i32::MAX,
        0 <= pal <= i32::MAX,
        row[x] != 0,
    ensures
        held(row_runs(row, pal, x0), pal, x),
    decreases row.len() - x0,
{
    lemma_run_start(row, x0);
    let sx = run_start(row, x0);
    assert(sx <= x) by {
        if x < sx {
            assert(row[x] == 0);
        }
    }
    lemma_run_end(row, sx + 1);
    let mx = run_end(row, sx + 1);
    let head = seq![Run { pal: pal as i32, sx: sx as i32, mx: mx as i32 }];
    let tail = row_runs(row, pal, mx);
    assert(row_runs(row, pal, x0) == head + tail);
    if x < mx {
        assert(in_run(head[0], pal, x));
    } else {
        lemma_row_runs_hold(row, pal, mx, x);
    }
    lemma_held_among(head, tail, pal, x);
}

/// A column that is not empty in the row of a color of the working map lies
/// in a run of that color.
pub proof fn lemma_band_runs_hold(map: Seq<u8>, width: int, ncolors: int, c: int, x: int)
    requires
        0 <= c < ncolors <= i32::MAX,
        0 <= x < width <= i32::MAX,
        map.len() >= ncolors * width,
        map[c * width + x] != 0,
    ensures
        held(band_runs(map, width, ncolors), c, x),
    decreases ncolors,
{
    let before = band_runs(map, width, ncolors - 1);
    let last = row_runs(map_row(map, width, ncolors - 1), ncolors - 1, 0);
    assert(0 <= c * width && c * width + width <= ncolors * width) by (nonlinear_arith)
        requires
            0 <= c < ncolors,
            0 <= width,
    ;
    if c == ncolors - 1 {
        let row = map_row(map, width, c);
        assert(row[x] == map[c * width + x]);
        lemma_row_runs_hold(row, c, 0, x);
    } else {
        assert((ncolors - 1) * width <= ncolors * width) by (nonlinear_arith)
            requires
                0 <= width,
        ;
        lemma_band_runs_hold(map, width, ncolors - 1, c, x);
    }
    lemma_held_among(before, last, c, x);
}

/// Whether the runs are of color `pal`, lie in a row of `len` columns from
/// column `x0` on, and follow each other from left to right without
/// overlap.
pub open spec fn in_a_row(runs: Seq<Run>, pal: int, x0: int, len: int) -> bool {
    &&& forall|k: int|
        0 <= k < runs.len() ==> {
            &&& (#[trigger] runs[k]).pal == pal
            &&& x0 <= runs[k].sx < runs[k].mx <= len
        }
    &&& forall|k: int, j: int|
        0 <= k < j < runs.len() ==> (#[trigger] runs[k]).mx <= (#[trigger] runs[j]).sx
}

/// The runs of a row follow each other from left to right without overlap.
pub proof fn lemma_row_runs_in_a_row(row: Seq<u8>, pal: int, x0: int)
    requires
        0 <= x0,
        row.len() <= i32::MAX,
        0 <= pal <= i32::MAX,
    ensures
        in_a_row(row_runs(row, pal, x0), pal, x0, row.len() as int),
    decreases row.len() - x0,
{
    if x0 < row.len() {
        let sx = run_start(row, x0);
        let mx = run_end(row, sx + 1);
        if !(sx < x0 || sx >= row.len() || mx <= sx || mx > row.len()) {
            lemma_row_runs_in_a_row(row, pal, mx);
            let head = seq![Run { pal: pal as i32, sx: sx as i32, mx: mx as i32 }];
            let tail = row_runs(row, pal, mx);
            let runs = head + tail;
            assert forall|k: int| 0 <= k < runs.len() implies {
                &&& (#[trigger] runs[k]).pal == pal
                &&& x0 <= runs[k].sx < runs[k].mx <= row.len()
            } by {
                if k > 0 {
                    assert(runs[k] == tail[k - 1]);
                }
            }
            assert forall|k: int, j: int| 0 <= k < j < runs.len() implies (#[trigger] runs[k]).mx
                <= (#[trigger] runs[j]).sx by {
                assert(runs[j] == tail[j - 1]);
                if k > 0 {
                    assert(runs[k] == tail[k - 1]);
                }
            }
        }
    }
}

/// No two runs of a band hold the same column in the same color.
pub proof fn lemma_one_run_holds(
    map: Seq<u8>,
    width: int,
    ncolors: int,
    c: int,
    x: int,
    k: int,
    j: int,
)
    requires
        0 <= width <= i32::MAX,
        ncolors <= i32::MAX,
        map.len() >= ncolors * width,
        0 <= k < band_runs(map, width, ncolors).len(),
        0 <= j < band_runs(map, width, ncolors).len(),
        in_run(band_runs(map, width, ncolors)[k], c, x),
        in_run(band_runs(map, width, ncolors)[j], c, x),
    ensures
        k == j,
    decreases ncolors,
{
    if ncolors > 0 {
        let before = band_runs(map, width, ncolors - 1);
        let row = map_row(map, width, ncolors - 1);
        let last = row_runs(row, ncolors - 1, 0);
        let runs = before + last;
        assert(0 <= (ncolors - 1) * width && (ncolors - 1) * width + width == ncolors * width)
            by (nonlinear_arith)
            requires
                0 < ncolors,
                0 <= width,
        ;
        lemma_band_runs_have_slots(map, width, ncolors - 1);
        lemma_row_runs_in_a_row(row, ncolors - 1, 0);
        if k < before.len() {
            assert(runs[k] == before[k]);
        } else {
            assert(runs[k] == last[k - before.len()]);
        }
        if j < before.len() {
            assert(runs[j] == before[j]);
        } else {
            assert(runs[j] == last[j - before.len()]);
        }
        if c == ncolors - 1 {
            let a = k - before.len();
            let b = j - before.len();
            if a < b {
                assert(last[a].mx <= last[b].sx);
            } else if b < a {
                assert(last[b].mx <= last[a].sx);
            }
        } else {
            lemma_one_run_holds(map, width, ncolors - 1, c, x, k, j);
        }
    }
}

/// The mask of a column has the bit of every row in which the column holds
/// the color.
pub proof fn lemma_column_mask_has_row(
    pixels: Seq<u8>,
    width: int,
    y0: int,
    rows: int,
    c: int,
    x: int,
    r: int,
)
    requires
        0 <= r < rows <= 8,
        pixels[(y0 + r) * width + x] == c,
    ensures
        column_mask(pixels, width, y0, rows, c, x) & (1u8 << (r as u8)) != 0,
    decreases rows,
{
    let below = column_mask(pixels, width, y0, rows - 1, c, x);
    let bit = 1u8 << (r as u8);
    let top = 1u8 << ((rows - 1) as u8);
    let k = r as u8;
    if r == rows - 1 {
        assert((below | (1u8 << k)) & (1u8 << k) != 0) by (bit_vector)
            requires
                k < 8,
        ;
    } else {
        lemma_column_mask_has_row(pixels, width, y0, rows - 1, c, x, r);
        assert((below | top) & bit != 0) by (bit_vector)
            requires
                below & bit != 0,
        ;
    }
}

/// Every pixel of a band that is drawn is held by the runs of the band: its
/// column lies in a run of its color, and the mask of that column in the
/// row of its color has the pixel's row.
pub proof fn lemma_drawn_pixels_are_held(pixels: Seq<u8>, o: BodyOptions, y0: int, r: int, x: int)
    requires
        0 <= r < band_height(o.height, y0) <= 6,
        0 <= x < o.width <= i32::MAX,
        o.ncolors <= i32::MAX,
        drawn(pixel_at(pixels, o.width, y0 + r, x) as int, o.ncolors, o.keycolor),
    ensures
        held(
            band_runs(
                working_map(
                    pixels,
                    o.width,
                    y0,
                    band_height(o.height, y0),
                    o.ncolors,
                    o.keycolor,
                ),
                o.width,
                o.ncolors,
            ),
            pixel_at(pixels, o.width, y0 + r, x) as int,
            x,
        ),
        working_map(pixels, o.width, y0, band_height(o.height, y0), o.ncolors, o.keycolor)[pixel_at(
            pixels,
            o.width,
            y0 + r,
            x,
        ) * o.width + x] & (1u8 << (r as u8)) != 0,
{
    let rows = band_height(o.height, y0);
    let c = pixel_at(pixels, o.width, y0 + r, x) as int;
    let map = working_map(pixels, o.width, y0, rows, o.ncolors, o.keycolor);
    let w = o.width;
    assert(0 <= c * w && c * w + w <= o.ncolors * w) by (nonlinear_arith)
        requires
            0 <= c < o.ncolors,
            0 <= w,
    ;
    assert((c * w + x) / w == c && (c * w + x) % w == x) by (nonlinear_arith)
        requires
            0 <= x < w,
            0 <= c,
    ;
    lemma_column_mask_has_row(pixels, w, y0, rows, c, x, r);
    let mask = map[c * w + x];
    assert(mask == column_mask(pixels, w, y0, rows, c, x));
    let bit = 1u8 << (r as u8);
    assert(mask != 0) by (bit_vector)
        requires
            mask & bit != 0,
    ;
    lemma_band_runs_hold(map, w, o.ncolors, c, x);
}

} // verus!
