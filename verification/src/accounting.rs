//! The accounting of the high-color encoder: every pixel of the image gets a
//! palette slot in exactly one pass.

use vstd::prelude::*;
use crate::arith::lemma_cell_in_grid;
use crate::band::{Pen, BAND_ROWS};
use crate::body::BodyOptions;
use crate::dither::DitherConf;
use crate::encode::{highcolor_run, initial_canvas};
use crate::output::sixel_output;
use crate::slots::ASSIGNABLE;
use crate::highcolor::{
    accounted, band_scan, index_kept, lemma_band_accounted, no_marks, pass, pass_scan,
    pixel_accounted, rows_of_band, Canvas, Frame,
};
use crate::slots::UNRESOLVED;

verus! {

/// Whether the pixel in row `y` and column `x` has a palette slot in the
/// palette indices of a pass that started at row `row0`.
pub open spec fn has_slot(after: Canvas, f: Frame, row0: int, y: int, x: int) -> bool {
    after.paletted[(y - row0) * f.width + x] != UNRESOLVED
}

/// How often the pass that started at row `row0`, scanned `rows` rows and
/// left the canvas `after` gives the pixel in row `y` and column `x` a
/// palette slot: once or never.
pub open spec fn drawn_by_pass(after: Canvas, f: Frame, row0: int, rows: int, y: int, x: int) -> nat {
    if row0 <= y < row0 + rows && has_slot(after, f, row0, y, x) {
        1
    } else {
        0
    }
}

/// How often the first `n` passes of the high-color encoder give the pixel
/// in row `y` and column `x` a palette slot.
pub open spec fn times_drawn(
    c0: Canvas,
    f: Frame,
    pen0: Pen,
    o: BodyOptions,
    n: nat,
    y: int,
    x: int,
) -> nat
    decreases n,
{
    if n == 0 {
        0
    } else {
        let before = highcolor_run(c0, f, pen0, o, (n - 1) as nat);
        let so_far = times_drawn(c0, f, pen0, o, (n - 1) as nat, y, x);
        if before.2 >= f.height {
            so_far
        } else {
            let scanned = pass(before.1, f, before.2);
            so_far + drawn_by_pass(scanned.0, f, before.2, scanned.1, y, x)
        }
    }
}

/// How often a pixel had a palette slot when the next pass starts at row
/// `base` with the marks `marks`: once above that row, once in the band at
/// that row if the pixel is marked, else never.
pub open spec fn tally(marks: Seq<bool>, width: int, base: int, y: int, x: int) -> nat {
    if y < base {
        1
    } else if y < base + BAND_ROWS {
        if marks[(y - base) * width + x] {
            1
        } else {
            0
        }
    } else {
        0
    }
}

/// Whether the rest of a pass keeps the tally of the pixel in row `y` and
/// column `x`: the tally before the rest of the pass, which starts at row
/// `base` with the marks `marks`, and what the pass gives the pixel, make the
/// tally after the pass.
pub open spec fn tally_kept(
    marks: Seq<bool>,
    base: int,
    after: Canvas,
    f: Frame,
    row0: int,
    rows: int,
    next: int,
    y: int,
    x: int,
) -> bool {
    tally(marks, f.width, base, y, x) + drawn_by_pass(after, f, row0, rows, y, x) == tally(
        after.marks,
        f.width,
        next,
        y,
        x,
    )
}

/// Whether a canvas has the sizes of a frame and well formed slots.
pub open spec fn canvas_sized(c: Canvas, f: Frame) -> bool {
    &&& 1 <= f.width
    &&& 1 <= f.height
    &&& c.paletted.len() == f.height * f.width
    &&& c.marks.len() == BAND_ROWS * f.width
    &&& c.slots.wf()
}

/// The place of a pixel of a band among the pixels of its pass.
proof fn lemma_place(width: int, row0: int, done: int, y: int, x: int)
    ensures
        (y - row0) * width + x == done * width + ((y - (row0 + done)) * width + x),
{
    assert((y - row0) * width == done * width + (y - (row0 + done)) * width) by (nonlinear_arith);
}

/// The rest of a pass, from the band at row `row0 + done` on, keeps the tally
/// of every pixel at or below that band, and leaves the palette indices of
/// the rows above it as they are.
pub proof fn lemma_rest_of_pass(c: Canvas, f: Frame, row0: int, done: int)
    requires
        canvas_sized(c, f),
        0 <= row0,
        0 <= done,
        row0 + done < f.height,
    ensures
        canvas_sized(pass_scan(c, f, row0, done).0, f),
        done < pass_scan(c, f, row0, done).1,
        row0 + pass_scan(c, f, row0, done).1 <= f.height,
        row0 + done <= pass_scan(c, f, row0, done).2 <= f.height,
        forall|y: int, x: int|
            row0 + done <= y < f.height && 0 <= x < f.width ==> #[trigger] tally_kept(
                c.marks,
                row0 + done,
                pass_scan(c, f, row0, done).0,
                f,
                row0,
                pass_scan(c, f, row0, done).1,
                pass_scan(c, f, row0, done).2,
                y,
                x,
            ),
        forall|j: int|
            0 <= j < done * f.width ==> #[trigger] index_kept(c, pass_scan(c, f, row0, done).0, j),
    decreases f.height - row0 - done,
{
    let w = f.width;
    let y0 = row0 + done;
    let rows = rows_of_band(f.height, y0);
    let after = band_scan(c, f, y0, done * w, rows);
    let end = pass_scan(c, f, row0, done);
    assert(0 <= done * w) by (nonlinear_arith)
        requires
            0 <= done,
            0 <= w,
    ;
    assert(done * w + rows * w == (done + rows) * w) by (nonlinear_arith);
    assert((done + rows) * w <= f.height * w) by (nonlinear_arith)
        requires
            done + rows <= f.height,
            0 <= w,
    ;
    assert(rows * w <= BAND_ROWS * w) by (nonlinear_arith)
        requires
            rows <= BAND_ROWS,
            0 <= w,
    ;
    lemma_band_accounted(c, f, y0, done * w, rows);
    assert(accounted(c, after, done * w, 0, rows * w));
    if after.slots.dirty || y0 + rows >= f.height {
        assert forall|y: int, x: int| y0 <= y < f.height && 0 <= x < w implies #[trigger] tally_kept(
            c.marks,
            y0,
            end.0,
            f,
            row0,
            end.1,
            end.2,
            y,
            x,
        ) by {
            if y < y0 + rows {
                let i = (y - y0) * w + x;
                lemma_cell_in_grid(w, rows, y - y0, x);
                lemma_place(w, row0, done, y, x);
                assert(pixel_accounted(c, after, done * w, i));
            }
        }
        assert forall|j: int| 0 <= j < done * w implies #[trigger] index_kept(c, end.0, j) by {
            assert(index_kept(c, after, j));
        }
    } else {
        let cleared = Canvas { marks: no_marks(after.marks.len()), ..after };
        lemma_rest_of_pass(cleared, f, row0, done + rows);
        assert(end == pass_scan(cleared, f, row0, done + rows));
        assert forall|y: int, x: int| y0 <= y < f.height && 0 <= x < w implies #[trigger] tally_kept(
            c.marks,
            y0,
            end.0,
            f,
            row0,
            end.1,
            end.2,
            y,
            x,
        ) by {
            if y < y0 + rows {
                let i = (y - y0) * w + x;
                lemma_cell_in_grid(w, rows, y - y0, x);
                lemma_place(w, row0, done, y, x);
                assert(pixel_accounted(c, after, done * w, i));
                assert(index_kept(cleared, end.0, done * w + i));
            } else {
                assert(tally_kept(
                    cleared.marks,
                    y0 + rows,
                    end.0,
                    f,
                    row0,
                    end.1,
                    end.2,
                    y,
                    x,
                ));
                if y < y0 + rows + BAND_ROWS {
                    lemma_cell_in_grid(w, BAND_ROWS as int, y - (y0 + rows), x);
                }
            }
        }
        assert forall|j: int| 0 <= j < done * w implies #[trigger] index_kept(c, end.0, j) by {
            assert(index_kept(c, after, j));
            assert(index_kept(cleared, end.0, j));
        }
    }
}

/// A pass keeps the tally of every pixel of the image.
pub proof fn lemma_pass_keeps_tally(c: Canvas, f: Frame, row0: int)
    requires
        canvas_sized(c, f),
        0 <= row0 < f.height,
    ensures
        canvas_sized(pass(c, f, row0).0, f),
        row0 <= pass(c, f, row0).2 <= f.height,
        forall|y: int, x: int|
            0 <= y < f.height && 0 <= x < f.width ==> #[trigger] tally_kept(
                c.marks,
                row0,
                pass(c, f, row0).0,
                f,
                row0,
                pass(c, f, row0).1,
                pass(c, f, row0).2,
                y,
                x,
            ),
{
    let begun = Canvas { slots: c.slots.pass_begun(), ..c };
    assert(begun.slots.wf());
    lemma_rest_of_pass(begun, f, row0, 0);
    let end = pass(c, f, row0);
    assert forall|y: int, x: int| 0 <= y < f.height && 0 <= x < f.width implies #[trigger] tally_kept(
        c.marks,
        row0,
        end.0,
        f,
        row0,
        end.1,
        end.2,
        y,
        x,
    ) by {
        if y >= row0 {
            assert(tally_kept(begun.marks, row0, end.0, f, row0, end.1, end.2, y, x));
        }
    }
}

/// After any number of passes, the number of times that a pixel had a
/// palette slot is its tally.
pub proof fn lemma_run_keeps_tally(
    c0: Canvas,
    f: Frame,
    pen0: Pen,
    o: BodyOptions,
    n: nat,
    y: int,
    x: int,
)
    requires
        canvas_sized(c0, f),
        c0.marks == no_marks(c0.marks.len()),
        0 <= y < f.height,
        0 <= x < f.width,
    ensures
        canvas_sized(highcolor_run(c0, f, pen0, o, n).1, f),
        0 <= highcolor_run(c0, f, pen0, o, n).2 <= f.height,
        times_drawn(c0, f, pen0, o, n, y, x) == tally(
            highcolor_run(c0, f, pen0, o, n).1.marks,
            f.width,
            highcolor_run(c0, f, pen0, o, n).2,
            y,
            x,
        ),
    decreases n,
{
    if n == 0 {
        if y < BAND_ROWS {
            lemma_cell_in_grid(f.width, BAND_ROWS as int, y, x);
        }
    } else {
        lemma_run_keeps_tally(c0, f, pen0, o, (n - 1) as nat, y, x);
        let before = highcolor_run(c0, f, pen0, o, (n - 1) as nat);
        if before.2 < f.height {
            lemma_pass_keeps_tally(before.1, f, before.2);
            let scanned = pass(before.1, f, before.2);
            assert(tally_kept(
                before.1.marks,
                before.2,
                scanned.0,
                f,
                before.2,
                scanned.1,
                scanned.2,
                y,
                x,
            ));
        }
    }
}

/// Once the passes have scanned the whole image, every pixel has had a
/// palette slot in exactly one pass.
pub proof fn lemma_every_pixel_is_drawn_once(
    c0: Canvas,
    f: Frame,
    pen0: Pen,
    o: BodyOptions,
    n: nat,
    y: int,
    x: int,
)
    requires
        canvas_sized(c0, f),
        c0.marks == no_marks(c0.marks.len()),
        highcolor_run(c0, f, pen0, o, n).2 >= f.height,
        0 <= y < f.height,
        0 <= x < f.width,
    ensures
        times_drawn(c0, f, pen0, o, n, y, x) == 1,
{
    lemma_run_keeps_tally(c0, f, pen0, o, n, y, x);
}

/// An image that `encode_highcolor` has encoded with `n` passes has had a
/// palette slot for every pixel in exactly one of the passes: no pixel is
/// left out, and none is written twice.
pub proof fn lemma_highcolor_draws_every_pixel_once(
    pre: &sixel_output,
    pixels0: Seq<u8>,
    width: int,
    height: int,
    dither0: &DitherConf,
    n: nat,
    y: int,
    x: int,
)
    requires
        1 <= width,
        1 <= height,
        highcolor_run(
            initial_canvas(
                pixels0,
                dither0.palette@,
                Frame { width, height, method: dither0.method_for_diffuse },
            ),
            Frame { width, height, method: dither0.method_for_diffuse },
            pre.pen(),
            pre.body_options(width, 0, ASSIGNABLE as int, 255, dither0.bodyonly, true),
            n,
        ).2 >= height,
        0 <= y < height,
        0 <= x < width,
    ensures
        times_drawn(
            initial_canvas(
                pixels0,
                dither0.palette@,
                Frame { width, height, method: dither0.method_for_diffuse },
            ),
            Frame { width, height, method: dither0.method_for_diffuse },
            pre.pen(),
            pre.body_options(width, 0, ASSIGNABLE as int, 255, dither0.bodyonly, true),
            n,
            y,
            x,
        ) == 1,
{
    let f = Frame { width, height, method: dither0.method_for_diffuse };
    let c0 = initial_canvas(pixels0, dither0.palette@, f);
    assert(0 <= height * width) by (nonlinear_arith)
        requires
            0 <= width,
            0 <= height,
    ;
    assert(c0.marks =~= no_marks(c0.marks.len()));
    lemma_every_pixel_is_drawn_once(
        c0,
        f,
        pre.pen(),
        pre.body_options(width, 0, ASSIGNABLE as int, 255, dither0.bodyonly, true),
        n,
        y,
        x,
    );
}

} // verus!
