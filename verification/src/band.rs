//! The band encoder's model: row masks, runs, and the order in which the
//! runs of a band are written.

use vstd::prelude::*;
use crate::arith::lemma_cell_in_grid;
use crate::protocol::{active_after, node_bytes};

verus! {

/// The rows of a band.
pub const BAND_ROWS: usize = 6;

/// A gap of this many empty columns ends a run.
pub const RUN_GAP: usize = 10;

/// One run of one color in a band: the palette slot, the start column
/// (inclusive) and the end column (exclusive).
#[derive(Clone, Copy, Debug, PartialEq, Eq, Structural)]
pub struct Run {
    /// Index of the color in the palette.
    pub pal: i32,
    /// Start column, inclusive.
    pub sx: i32,
    /// End column, exclusive.
    pub mx: i32,
}

/// Whether a pixel value is drawn: it is a palette slot and not the key
/// color.
pub open spec fn drawn(pix: int, ncolors: int, keycolor: int) -> bool {
    0 <= pix < ncolors && pix != keycolor
}

/// The rows, among the first `rows` of the band that starts at row `y0`, in
/// which column `x` holds color `c`: bit `r` for row `y0 + r`.
pub open spec fn column_mask(
    pixels: Seq<u8>,
    width: int,
    y0: int,
    rows: int,
    c: int,
    x: int,
) -> u8
    decreases rows,
{
    if rows <= 0 {
        0u8
    } else {
        let below = column_mask(pixels, width, y0, rows - 1, c, x);
        if pixels[(y0 + rows - 1) * width + x] == c {
            below | (1u8 << ((rows - 1) as u8))
        } else {
            below
        }
    }
}

/// The working map of a band: for each of the `ncolors` palette slots a row
/// of `width` masks, slot after slot. The key color's row stays empty.
pub open spec fn working_map(
    pixels: Seq<u8>,
    width: int,
    y0: int,
    rows: int,
    ncolors: int,
    keycolor: int,
) -> Seq<u8> {
    Seq::new(
        (ncolors * width) as nat,
        |i: int|
            if i / width == keycolor {
                0u8
            } else {
                column_mask(pixels, width, y0, rows, i / width, i % width)
            },
    )
}

/// The row of color `c` in a working map.
pub open spec fn map_row(map: Seq<u8>, width: int, c: int) -> Seq<u8> {
    map.subrange(c * width, c * width + width)
}

/// The first column at or after `x` that is not empty, or the row's length.
pub open spec fn run_start(row: Seq<u8>, x: int) -> int
    decreases row.len() - x,
{
    if x >= row.len() {
        row.len() as int
    } else if row[x] != 0 {
        x
    } else {
        run_start(row, x + 1)
    }
}

/// The number of empty columns from `x` on, up to the next column that is
/// not empty or the row's end.
pub open spec fn gap(row: Seq<u8>, x: int) -> int
    decreases row.len() - x,
{
    if x >= row.len() || x < 0 || row[x] != 0 {
        0
    } else {
        1 + gap(row, x + 1)
    }
}

/// The end of the run that reaches column `mx`: the run goes on over columns
/// that are not empty, and over a gap of fewer than `RUN_GAP` empty columns
/// that does not reach the row's end.
pub open spec fn run_end(row: Seq<u8>, mx: int) -> int
    decreases row.len() - mx,
{
    if mx >= row.len() || mx < 0 {
        mx
    } else if row[mx] != 0 {
        run_end(row, mx + 1)
    } else {
        let n = gap(row, mx);
        if n >= RUN_GAP || mx + n >= row.len() || n <= 0 {
            mx
        } else {
            run_end(row, mx + n)
        }
    }
}

/// The runs of color `pal` from column `x` on, left to right.
pub open spec fn row_runs(row: Seq<u8>, pal: int, x: int) -> Seq<Run>
    decreases row.len() - x,
{
    if x < 0 || x >= row.len() {
        Seq::<Run>::empty()
    } else {
        let sx = run_start(row, x);
        let mx = run_end(row, sx + 1);
        if sx < x || sx >= row.len() || mx <= sx || mx > row.len() {
            Seq::<Run>::empty()
        } else {
            seq![Run { pal: pal as i32, sx: sx as i32, mx: mx as i32 }] + row_runs(row, pal, mx)
        }
    }
}

/// The runs of the first `ncolors` colors of a working map: color by color,
/// and left to right within a color.
pub open spec fn band_runs(map: Seq<u8>, width: int, ncolors: int) -> Seq<Run>
    decreases ncolors,
{
    if ncolors <= 0 {
        Seq::<Run>::empty()
    } else {
        band_runs(map, width, ncolors - 1) + row_runs(
            map_row(map, width, ncolors - 1),
            ncolors - 1,
            0,
        )
    }
}

/// The pattern with all of the band's `rows` rows.
pub open spec fn full_pattern(rows: int) -> u8 {
    ((1u8 << (rows as u8)) - 1) as u8
}

/// The pen of the writer between two nodes: the active palette slot and the
/// pending run.
pub struct Pen {
    /// The palette slot selected last.
    pub active: int,
    /// The character of the pending run.
    pub save_pixel: u8,
    /// The length of the pending run.
    pub save_count: int,
}

/// What the band encoder reads besides the pixels.
pub struct BandOptions {
    /// The image's width.
    pub width: int,
    /// The number of palette slots.
    pub ncolors: int,
    /// The key color, or -1.
    pub keycolor: int,
    /// Whether the repeat count is limited to 255.
    pub limit: bool,
}

/// The masks that a node of color `pal` is written with: the color's own, or
/// the full pattern in every column where the band is filled.
pub open spec fn node_map(map: Seq<u8>, rows: int, pal: int, fill: bool, o: BandOptions) -> Seq<
    u8,
> {
    if fill {
        Seq::new(o.width as nat, |x: int| full_pattern(rows))
    } else {
        map_row(map, o.width, pal)
    }
}

/// One sweep over the queue `runs` with the cursor at column `x`: every run
/// that starts at the cursor or right of it is written, in the queue's
/// order, and moves the cursor to its end. The others stay in the queue.
///
/// The result holds the bytes written, the runs that stay, and the pen after
/// the sweep.
pub open spec fn sweep(
    runs: Seq<Run>,
    x: int,
    pen: Pen,
    map: Seq<u8>,
    rows: int,
    fill: bool,
    o: BandOptions,
) -> (Seq<u8>, Seq<Run>, Pen)
    decreases runs.len(),
{
    if runs.len() == 0 {
        (Seq::<u8>::empty(), Seq::<Run>::empty(), pen)
    } else {
        let r = runs[0];
        if r.sx >= x {
            let bytes = node_bytes(
                pen.active,
                pen.save_pixel,
                pen.save_count,
                o.limit,
                x,
                r.pal as int,
                r.sx as int,
                r.mx as int,
                node_map(map, rows, r.pal as int, fill, o),
                o.ncolors,
                o.keycolor,
            );
            let next = Pen {
                active: active_after(pen.active, r.pal as int, o.ncolors, o.keycolor),
                save_pixel: 0u8,
                save_count: 0,
            };
            let after = sweep(
                runs.drop_first(),
                if x < r.mx {
                    r.mx as int
                } else {
                    x
                },
                next,
                map,
                rows,
                fill,
                o,
            );
            (bytes + after.0, after.1, after.2)
        } else {
            let after = sweep(runs.drop_first(), x, pen, map, rows, fill, o);
            (after.0, seq![r] + after.1, after.2)
        }
    }
}

/// The lines of a band: a sweep from column 0 for as long as the queue holds
/// runs, with a carriage return `$` in front of every line but the first.
/// Only the first line is filled.
pub open spec fn lines(
    runs: Seq<Run>,
    first: bool,
    pen: Pen,
    map: Seq<u8>,
    rows: int,
    fill: bool,
    o: BandOptions,
) -> (Seq<u8>, Pen)
    decreases runs.len(),
{
    if runs.len() == 0 {
        (Seq::<u8>::empty(), pen)
    } else {
        let line = sweep(runs, 0, pen, map, rows, first && fill, o);
        let cr = if first {
            Seq::<u8>::empty()
        } else {
            seq![36u8]
        };
        if line.1.len() < runs.len() {
            let after = lines(line.1, false, line.2, map, rows, fill, o);
            (cr + line.0 + after.0, after.1)
        } else {
            (cr + line.0, line.2)
        }
    }
}

/// Builds the working map of the band of `rows` rows that starts at row
/// `y0`.
pub fn band_map(
    pixels: &[u8],
    width: usize,
    y0: usize,
    rows: usize,
    ncolors: usize,
    keycolor: i32,
) -> (map: Vec<u8>)
    requires
        1 <= width,
        1 <= rows <= BAND_ROWS,
        ncolors <= 256,
        (y0 + rows) * width <= pixels@.len(),
        (y0 + rows) * width <= i32::MAX,
        ncolors * width <= i32::MAX,
    ensures
        map@ == working_map(
            pixels@,
            width as int,
            y0 as int,
            rows as int,
            ncolors as int,
            keycolor as int,
        ),
{
    let ghost w = width as int;
    let ghost k = keycolor as int;
    let size: usize = ncolors * width;
    let mut map: Vec<u8> = vec![0u8; size];
    let mut r: usize = 0;
    while r < rows
        invariant
            r <= rows <= BAND_ROWS,
            1 <= width,
            w == width,
            k == keycolor,
            ncolors <= 256,
            size == ncolors * width,
            (y0 + rows) * width <= pixels@.len(),
            (y0 + rows) * width <= i32::MAX,
            map@.len() == size,
            forall|i: int|
                0 <= i < size ==> #[trigger] map@[i] == if i / w == k {
                    0u8
                } else {
                    column_mask(pixels@, w, y0 as int, r as int, i / w, i % w)
                },
        decreases rows - r,
    {
        let mut x: usize = 0;
        proof {
            lemma_cell_in_grid(w, y0 + rows, y0 + r, 0);
        }
        let line: usize = (y0 + r) * width;
        while x < width
            invariant
                r < rows <= BAND_ROWS,
                x <= width,
                1 <= width,
                w == width,
                k == keycolor,
                ncolors <= 256,
                size == ncolors * width,
                line == (y0 + r) * width,
                (y0 + rows) * width <= pixels@.len(),
                (y0 + rows) * width <= i32::MAX,
                map@.len() == size,
                forall|i: int|
                    0 <= i < size ==> #[trigger] map@[i] == if i / w == k {
                        0u8
                    } else {
                        column_mask(
                            pixels@,
                            w,
                            y0 as int,
                            if i % w < x {
                                r + 1
                            } else {
                                r as int
                            },
                            i / w,
                            i % w,
                        )
                    },
            decreases width - x,
        {
            proof {
                lemma_cell_in_grid(w, y0 + rows, y0 + r, x as int);
            }
            let pix: u8 = pixels[line + x];
            let ghost before = map@;
            if (pix as usize) < ncolors && (pix as i32) != keycolor {
                proof {
                    lemma_cell_in_grid(w, ncolors as int, pix as int, x as int);
                }
                let at: usize = (pix as usize) * width + x;
                let old_mask: u8 = map[at];
                map.set(at, old_mask | (1u8 << (r as u8)));
            }
            proof {
                assert forall|i: int| 0 <= i < size implies #[trigger] map@[i] == if i / w == k {
                    0u8
                } else {
                    column_mask(
                        pixels@,
                        w,
                        y0 as int,
                        if i % w < x + 1 {
                            r + 1
                        } else {
                            r as int
                        },
                        i / w,
                        i % w,
                    )
                } by {
                    vstd::arithmetic::div_mod::lemma_fundamental_div_mod(i, w);
                    vstd::arithmetic::div_mod::lemma_mod_bound(i, w);
                    let c = i / w;
                    let m = i % w;
                    assert(w * c == c * w) by (nonlinear_arith);
                    assert(0 <= c < ncolors) by (nonlinear_arith)
                        requires
                            i == c * w + m,
                            0 <= m < w,
                            0 <= i < ncolors * w,
                    ;
                    assert(before[i] == if c == k {
                        0u8
                    } else {
                        column_mask(
                            pixels@,
                            w,
                            y0 as int,
                            if m < x {
                                r + 1
                            } else {
                                r as int
                            },
                            c,
                            m,
                        )
                    });
                    if m == x && c != k {
                        let below = column_mask(pixels@, w, y0 as int, r as int, c, m);
                        assert(pixels@[(y0 + (r + 1) - 1) * w + m] == pix);
                        assert(((r + 1) - 1) as u8 == r as u8);
                        assert(column_mask(pixels@, w, y0 as int, r + 1, c, m) == if pix == c {
                            below | (1u8 << (r as u8))
                        } else {
                            below
                        });
                    }
                }
            }
            x = x + 1;
        }
        r = r + 1;
    }
    assert(map@ =~= working_map(pixels@, w, y0 as int, rows as int, ncolors as int, k));
    map
}

/// Whether a run lies within a row of `width` columns and has a slot among
/// `ncolors`.
pub open spec fn run_in_band(r: Run, width: int, ncolors: int) -> bool {
    &&& 0 <= r.sx < r.mx <= width
    &&& 0 <= r.pal < ncolors
}

/// A gap has a length.
pub proof fn lemma_gap_counts(row: Seq<u8>, x: int)
    ensures
        gap(row, x) >= 0,
    decreases row.len() - x,
{
    if !(x >= row.len() || x < 0 || row[x] != 0) {
        lemma_gap_counts(row, x + 1);
    }
}

/// Finds the first column at or after `x` that is not empty, in the row of
/// `width` masks that starts at `base`.
fn first_filled(map: &Vec<u8>, base: usize, width: usize, x: usize) -> (sx: usize)
    requires
        base + width <= map@.len(),
        x <= width,
    ensures
        sx == run_start(map@.subrange(base as int, base + width), x as int),
        x <= sx <= width,
{
    let ghost row = map@.subrange(base as int, base + width);
    let mut cur: usize = x;
    assert(map@.len() == map.len());
    while cur < width && map[base + cur] == 0
        invariant
            base + width <= map@.len() <= usize::MAX,
            row == map@.subrange(base as int, base + width),
            x <= cur <= width,
            run_start(row, cur as int) == run_start(row, x as int),
        decreases width - cur,
    {
        assert(row[cur as int] == 0);
        cur = cur + 1;
    }
    assert(cur < width ==> row[cur as int] != 0);
    cur
}

/// Counts the empty columns from `x` on.
fn gap_len(map: &Vec<u8>, base: usize, width: usize, x: usize) -> (n: usize)
    requires
        base + width <= map@.len(),
        x <= width,
    ensures
        n == gap(map@.subrange(base as int, base + width), x as int),
        x + n <= width,
{
    let ghost row = map@.subrange(base as int, base + width);
    let mut cur: usize = x;
    assert(map@.len() == map.len());
    while cur < width && map[base + cur] == 0
        invariant
            base + width <= map@.len() <= usize::MAX,
            row == map@.subrange(base as int, base + width),
            x <= cur <= width,
            (cur - x) + gap(row, cur as int) == gap(row, x as int),
        decreases width - cur,
    {
        assert(row[cur as int] == 0);
        cur = cur + 1;
    }
    assert(cur < width ==> row[cur as int] != 0);
    cur - x
}

/// Finds the end of the run that reaches column `mx`.
fn find_end(map: &Vec<u8>, base: usize, width: usize, mx: usize) -> (end: usize)
    requires
        base + width <= map@.len(),
        mx <= width,
    ensures
        end == run_end(map@.subrange(base as int, base + width), mx as int),
        mx <= end <= width,
{
    let ghost row = map@.subrange(base as int, base + width);
    let mut cur: usize = mx;
    assert(map@.len() == map.len());
    while cur < width
        invariant
            base + width <= map@.len() <= usize::MAX,
            row == map@.subrange(base as int, base + width),
            mx <= cur <= width,
            run_end(row, cur as int) == run_end(row, mx as int),
        decreases width - cur,
    {
        if map[base + cur] != 0 {
            assert(row[cur as int] != 0);
            cur = cur + 1;
        } else {
            assert(row[cur as int] == 0);
            proof {
                lemma_gap_counts(row, cur as int + 1);
            }
            let n: usize = gap_len(map, base, width, cur);
            if n >= RUN_GAP || cur + n >= width {
                return cur;
            }
            cur = cur + n;
        }
    }
    cur
}

/// Finds the runs of a working map.
pub fn find_runs(map: &Vec<u8>, width: usize, ncolors: usize) -> (runs: Vec<Run>)
    requires
        1 <= width,
        ncolors <= 256,
        map@.len() == ncolors * width,
        ncolors * width <= i32::MAX,
    ensures
        runs@ == band_runs(map@, width as int, ncolors as int),
        forall|k: int|
            0 <= k < runs@.len() ==> run_in_band(#[trigger] runs@[k], width as int, ncolors as int),
{
    let mut runs: Vec<Run> = Vec::new();
    let mut c: usize = 0;
    while c < ncolors
        invariant
            c <= ncolors <= 256,
            1 <= width,
            map@.len() == ncolors * width,
            ncolors * width <= i32::MAX,
            runs@ == band_runs(map@, width as int, c as int),
            forall|k: int|
                0 <= k < runs@.len() ==> run_in_band(
                    #[trigger] runs@[k],
                    width as int,
                    ncolors as int,
                ),
        decreases ncolors - c,
    {
        proof {
            lemma_cell_in_grid(width as int, ncolors as int, c as int, 0);
            assert(c * width + width <= ncolors * width) by (nonlinear_arith)
                requires
                    c < ncolors,
                    0 <= width,
            ;
        }
        let base: usize = c * width;
        let ghost row = map_row(map@, width as int, c as int);
        let ghost before = runs@;
        let ghost mut done: Seq<Run> = Seq::<Run>::empty();
        let mut x: usize = 0;
        while x < width
            invariant
                c < ncolors <= 256,
                1 <= width,
                x <= width,
                base == c * width,
                base + width <= map@.len(),
                ncolors * width <= i32::MAX,
                row == map@.subrange(base as int, base + width),
                runs@ == before + done,
                done + row_runs(row, c as int, x as int) == row_runs(row, c as int, 0),
                forall|k: int|
                    0 <= k < runs@.len() ==> run_in_band(
                        #[trigger] runs@[k],
                        width as int,
                        ncolors as int,
                    ),
            decreases width - x,
        {
            let sx: usize = first_filled(map, base, width, x);
            if sx >= width {
                x = width;
            } else {
                let mx: usize = find_end(map, base, width, sx + 1);
                assert(width <= ncolors * width) by (nonlinear_arith)
                    requires
                        1 <= ncolors,
                        0 <= width,
                ;
                let run = Run { pal: c as i32, sx: sx as i32, mx: mx as i32 };
                proof {
                    assert(row_runs(row, c as int, x as int) == seq![run] + row_runs(
                        row,
                        c as int,
                        mx as int,
                    ));
                    assert(done.push(run) + row_runs(row, c as int, mx as int) =~= done + (seq![
                        run,
                    ] + row_runs(row, c as int, mx as int)));
                    assert(before + done.push(run) =~= (before + done).push(run));
                    done = done.push(run);
                }
                runs.push(run);
                x = mx;
            }
        }
        assert(done =~= row_runs(row, c as int, 0));
        c = c + 1;
    }
    runs
}

/// A sweep leaves no more runs than it finds, and fewer if the first run
/// starts at the cursor or right of it.
pub proof fn lemma_sweep_leaves(
    runs: Seq<Run>,
    x: int,
    pen: Pen,
    map: Seq<u8>,
    rows: int,
    fill: bool,
    o: BandOptions,
)
    ensures
        sweep(runs, x, pen, map, rows, fill, o).1.len() <= runs.len(),
        runs.len() > 0 && runs[0].sx >= x ==> sweep(runs, x, pen, map, rows, fill, o).1.len()
            < runs.len(),
    decreases runs.len(),
{
    if runs.len() > 0 {
        let r = runs[0];
        if r.sx >= x {
            let next = Pen {
                active: active_after(pen.active, r.pal as int, o.ncolors, o.keycolor),
                save_pixel: 0u8,
                save_count: 0,
            };
            lemma_sweep_leaves(
                runs.drop_first(),
                if x < r.mx {
                    r.mx as int
                } else {
                    x
                },
                next,
                map,
                rows,
                fill,
                o,
            );
        } else {
            lemma_sweep_leaves(runs.drop_first(), x, pen, map, rows, fill, o);
        }
    }
}

} // verus!
