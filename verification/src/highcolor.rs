//! The high-color encoder's model: what a pass does to the image, the
//! palette and the slots.

use vstd::prelude::*;
use crate::arith::lemma_cell_in_grid;
use crate::band::BAND_ROWS;
use crate::dither_fns::{dithered, sixel_apply_15bpp_dither};
use crate::enums::SixelDiffusion;
use crate::slots::{SlotTable, Slots, ASSIGNABLE, UNRESOLVED};

verus! {

/// What the high-color encoder works on.
pub struct Canvas {
    /// The image: three bytes a pixel, red, green and blue.
    pub pixels: Seq<u8>,
    /// The palette indices of the rows of a pass, one per pixel.
    pub paletted: Seq<u8>,
    /// For each pixel of the band at hand: whether a pass has given it a
    /// slot.
    pub marks: Seq<bool>,
    /// The slots.
    pub slots: Slots,
    /// The palette.
    pub palette: Seq<u8>,
}

/// The image's dimensions and the diffusion method.
pub struct Frame {
    /// The image's width.
    pub width: int,
    /// The image's height.
    pub height: int,
    /// The diffusion method.
    pub method: SixelDiffusion,
}

/// The marks that are not set.
pub open spec fn unmarked(marks: Seq<bool>) -> nat
    decreases marks.len(),
{
    if marks.len() == 0 {
        0
    } else {
        unmarked(marks.drop_last()) + if marks.last() {
            0nat
        } else {
            1nat
        }
    }
}

/// One pixel of a pass: the pixel in row `y` and column `x`, whose palette
/// index goes to `dst` and whose mark is `mptr`.
///
/// A marked pixel has its slot from an earlier pass and stays unresolved in
/// this one. Else the diffusion method is applied at the pixel, the pixel's
/// color is resolved, and the pixel is marked if it has a slot.
pub open spec fn pixel_step(c: Canvas, f: Frame, y: int, x: int, dst: int, mptr: int) -> Canvas {
    if c.marks[mptr] {
        Canvas { paletted: c.paletted.update(dst, UNRESOLVED), ..c }
    } else {
        let pos = 3 * (y * f.width + x);
        let pixels = dithered(c.pixels, pos, x, y, f.width, f.height, f.method);
        let (slots, palette, index) = c.slots.resolved(
            c.palette,
            pixels[pos],
            pixels[pos + 1],
            pixels[pos + 2],
        );
        Canvas {
            pixels,
            paletted: c.paletted.update(dst, index),
            marks: if index != UNRESOLVED {
                c.marks.update(mptr, true)
            } else {
                c.marks
            },
            slots,
            palette,
        }
    }
}

/// The first `n` pixels of row `y`, left to right. The row's palette indices
/// start at `dst`, its marks at `mptr`.
pub open spec fn row_scan(c: Canvas, f: Frame, y: int, dst: int, mptr: int, n: int) -> Canvas
    decreases n,
{
    if n <= 0 {
        c
    } else {
        pixel_step(row_scan(c, f, y, dst, mptr, n - 1), f, y, n - 1, dst + n - 1, mptr + n - 1)
    }
}

/// The first `rows` rows of the band that starts at row `y0`, top to bottom.
/// The band's palette indices start at `dst`.
pub open spec fn band_scan(c: Canvas, f: Frame, y0: int, dst: int, rows: int) -> Canvas
    decreases rows,
{
    if rows <= 0 {
        c
    } else {
        row_scan(
            band_scan(c, f, y0, dst, rows - 1),
            f,
            y0 + rows - 1,
            dst + (rows - 1) * f.width,
            (rows - 1) * f.width,
            f.width,
        )
    }
}

/// The rows of the band that starts at row `y0` of an image of `height`
/// rows: six, or what is left of the image.
pub open spec fn rows_of_band(height: int, y0: int) -> int {
    if height - y0 < BAND_ROWS {
        height - y0
    } else {
        BAND_ROWS as int
    }
}

/// The marks of a band that no pass has scanned: none is set.
pub open spec fn no_marks(n: nat) -> Seq<bool> {
    Seq::new(n, |i: int| false)
}

/// The bands of a pass that started at row `row0` and has scanned `done`
/// rows: band after band, until a band leaves the pass dirty or the image
/// ends. The marks are cleared after a band that every pixel left with a slot.
///
/// The result holds the canvas after the pass, the number of rows that the
/// pass scanned, and the row at which the next pass starts: the first row of
/// the band that left the pass dirty, or the image's height.
pub open spec fn pass_scan(c: Canvas, f: Frame, row0: int, done: int) -> (Canvas, int, int)
    decreases f.height - row0 - done,
{
    let y0 = row0 + done;
    let rows = rows_of_band(f.height, y0);
    if done < 0 || y0 < 0 || y0 >= f.height {
        (c, done, row0)
    } else {
        let after = band_scan(c, f, y0, done * f.width, rows);
        if after.slots.dirty {
            (after, done + rows, y0)
        } else if y0 + rows >= f.height {
            (after, done + rows, f.height)
        } else {
            pass_scan(Canvas { marks: no_marks(after.marks.len()), ..after }, f, row0, done + rows)
        }
    }
}

/// One pass from row `row0` on: the slots start the pass, then the bands
/// are scanned.
pub open spec fn pass(c: Canvas, f: Frame, row0: int) -> (Canvas, int, int) {
    pass_scan(Canvas { slots: c.slots.pass_begun(), ..c }, f, row0, 0)
}

/// Setting a mark leaves one mark less that is not set.
pub proof fn lemma_mark(marks: Seq<bool>, i: int)
    requires
        0 <= i < marks.len(),
        !marks[i],
    ensures
        unmarked(marks.update(i, true)) + 1 == unmarked(marks),
    decreases marks.len(),
{
    let after = marks.update(i, true);
    if i == marks.len() - 1 {
        assert(after.drop_last() =~= marks.drop_last());
    } else {
        assert(after.drop_last() =~= marks.drop_last().update(i, true));
        lemma_mark(marks.drop_last(), i);
    }
}

/// Whether a scan from `c` to `after` made progress: no mark was cleared,
/// and where the pass had not touched the slots before, it either has not
/// touched them after and the marks are as they were, or a mark was set.
pub open spec fn progressed(c: Canvas, after: Canvas) -> bool {
    &&& after.slots.wf()
    &&& after.slots.recycling == c.slots.recycling
    &&& after.marks.len() == c.marks.len()
    &&& unmarked(after.marks) <= unmarked(c.marks)
    &&& c.slots.fresh() ==> (after.slots.fresh() && after.marks == c.marks) || unmarked(
        after.marks,
    ) < unmarked(c.marks)
}

/// A pixel makes progress.
pub proof fn lemma_pixel_progress(c: Canvas, f: Frame, y: int, x: int, dst: int, mptr: int)
    requires
        c.slots.wf(),
        0 <= mptr < c.marks.len(),
    ensures
        progressed(c, pixel_step(c, f, y, x, dst, mptr)),
{
    if !c.marks[mptr] {
        let pos = 3 * (y * f.width + x);
        let pixels = dithered(c.pixels, pos, x, y, f.width, f.height, f.method);
        c.slots.lemma_resolved(c.palette, pixels[pos], pixels[pos + 1], pixels[pos + 2]);
        lemma_mark(c.marks, mptr);
    }
}

/// A row makes progress.
pub proof fn lemma_row_progress(c: Canvas, f: Frame, y: int, dst: int, mptr: int, n: int)
    requires
        c.slots.wf(),
        0 <= mptr,
        0 <= n,
        mptr + n <= c.marks.len(),
    ensures
        progressed(c, row_scan(c, f, y, dst, mptr, n)),
    decreases n,
{
    if n > 0 {
        lemma_row_progress(c, f, y, dst, mptr, n - 1);
        lemma_pixel_progress(
            row_scan(c, f, y, dst, mptr, n - 1),
            f,
            y,
            n - 1,
            dst + n - 1,
            mptr + n - 1,
        );
    }
}

/// A band makes progress.
pub proof fn lemma_band_progress(c: Canvas, f: Frame, y0: int, dst: int, rows: int)
    requires
        c.slots.wf(),
        0 <= rows,
        0 <= f.width,
        rows * f.width <= c.marks.len(),
    ensures
        progressed(c, band_scan(c, f, y0, dst, rows)),
    decreases rows,
{
    if rows > 0 {
        assert((rows - 1) * f.width + f.width == rows * f.width) by (nonlinear_arith);
        assert(0 <= (rows - 1) * f.width) by (nonlinear_arith)
            requires
                rows >= 1,
                f.width >= 0,
        ;
        lemma_band_progress(c, f, y0, dst, rows - 1);
        lemma_row_progress(
            band_scan(c, f, y0, dst, rows - 1),
            f,
            y0 + rows - 1,
            dst + (rows - 1) * f.width,
            (rows - 1) * f.width,
            f.width,
        );
    }
}

/// Whether the scan from `c` to `after` accounts for the pixel whose mark is
/// `i` and whose palette index is at `dst + i`:
///
/// - the pixel has a palette slot in this scan exactly if the scan has set
///   its mark, so a pixel that an earlier pass gave a slot has none in this
///   one;
/// - the pixel's mark is not cleared;
/// - where the scan leaves the pass clean, the pixel is marked;
/// - a palette slot is one of those that can be assigned.
pub open spec fn pixel_accounted(c: Canvas, after: Canvas, dst: int, i: int) -> bool {
    &&& (after.paletted[dst + i] != UNRESOLVED) == (!c.marks[i] && after.marks[i])
    &&& after.paletted[dst + i] != UNRESOLVED ==> after.paletted[dst + i] < ASSIGNABLE
    &&& c.marks[i] ==> after.marks[i]
    &&& !after.slots.dirty ==> after.marks[i]
}

/// Whether the scan from `c` to `after` has left mark `i` as it was.
pub open spec fn mark_kept(c: Canvas, after: Canvas, i: int) -> bool {
    after.marks[i] == c.marks[i]
}

/// Whether the scan from `c` to `after` has left palette index `j` as it was.
pub open spec fn index_kept(c: Canvas, after: Canvas, j: int) -> bool {
    after.paletted[j] == c.paletted[j]
}

/// Whether the scan from `c` to `after` accounts for the pixels whose marks
/// are those from `lo` to `hi` and whose palette indices start at `dst`, and
/// touches no other mark and no other palette index. A pass that was dirty
/// stays dirty.
pub open spec fn accounted(c: Canvas, after: Canvas, dst: int, lo: int, hi: int) -> bool {
    &&& after.slots.wf()
    &&& after.marks.len() == c.marks.len()
    &&& after.paletted.len() == c.paletted.len()
    &&& c.slots.dirty ==> after.slots.dirty
    &&& forall|i: int| lo <= i < hi ==> #[trigger] pixel_accounted(c, after, dst, i)
    &&& forall|i: int|
        0 <= i < c.marks.len() && !(lo <= i < hi) ==> #[trigger] mark_kept(c, after, i)
    &&& forall|j: int|
        0 <= j < c.paletted.len() && !(dst + lo <= j < dst + hi) ==> #[trigger] index_kept(
            c,
            after,
            j,
        )
}

/// A pixel is accounted for.
pub proof fn lemma_pixel_accounted(c: Canvas, f: Frame, y: int, x: int, dst: int, mptr: int)
    requires
        c.slots.wf(),
        0 <= mptr < c.marks.len(),
        0 <= dst + mptr < c.paletted.len(),
    ensures
        accounted(c, pixel_step(c, f, y, x, dst + mptr, mptr), dst, mptr, mptr + 1),
{
    if !c.marks[mptr] {
        let pos = 3 * (y * f.width + x);
        let pixels = dithered(c.pixels, pos, x, y, f.width, f.height, f.method);
        c.slots.lemma_resolved(c.palette, pixels[pos], pixels[pos + 1], pixels[pos + 2]);
    }
}

/// Two scans that account for neighboring pixels account for all of them.
pub proof fn lemma_accounted_twice(
    c: Canvas,
    mid: Canvas,
    after: Canvas,
    dst: int,
    lo: int,
    cut: int,
    hi: int,
)
    requires
        0 <= lo <= cut <= hi <= c.marks.len(),
        0 <= dst + lo,
        dst + hi <= c.paletted.len(),
        accounted(c, mid, dst, lo, cut),
        accounted(mid, after, dst, cut, hi),
    ensures
        accounted(c, after, dst, lo, hi),
{
    assert forall|i: int| lo <= i < hi implies #[trigger] pixel_accounted(c, after, dst, i) by {
        if i < cut {
            assert(pixel_accounted(c, mid, dst, i));
            assert(mark_kept(mid, after, i));
            assert(index_kept(mid, after, dst + i));
        } else {
            assert(pixel_accounted(mid, after, dst, i));
            assert(mark_kept(c, mid, i));
        }
    }
    assert forall|i: int| 0 <= i < c.marks.len() && !(lo <= i < hi) implies #[trigger] mark_kept(
        c,
        after,
        i,
    ) by {
        assert(mark_kept(c, mid, i));
        assert(mark_kept(mid, after, i));
    }
    assert forall|j: int|
        0 <= j < c.paletted.len() && !(dst + lo <= j < dst + hi) implies #[trigger] index_kept(
        c,
        after,
        j,
    ) by {
        assert(index_kept(c, mid, j));
        assert(index_kept(mid, after, j));
    }
}

/// The scan of nothing accounts for nothing.
pub proof fn lemma_accounted_nothing(c: Canvas, dst: int, at: int)
    requires
        c.slots.wf(),
    ensures
        accounted(c, c, dst, at, at),
{
}

/// A row is accounted for: the pixels of the row whose marks start at `mptr`
/// and whose palette indices start at `dst + mptr`.
pub proof fn lemma_row_accounted(c: Canvas, f: Frame, y: int, dst: int, mptr: int, n: int)
    requires
        c.slots.wf(),
        0 <= mptr,
        0 <= n,
        mptr + n <= c.marks.len(),
        0 <= dst + mptr,
        dst + mptr + n <= c.paletted.len(),
    ensures
        accounted(c, row_scan(c, f, y, dst + mptr, mptr, n), dst, mptr, mptr + n),
    decreases n,
{
    if n > 0 {
        lemma_row_accounted(c, f, y, dst, mptr, n - 1);
        let mid = row_scan(c, f, y, dst + mptr, mptr, n - 1);
        lemma_pixel_accounted(mid, f, y, n - 1, dst, mptr + n - 1);
        assert(dst + mptr + n - 1 == dst + (mptr + n - 1));
        lemma_accounted_twice(
            c,
            mid,
            row_scan(c, f, y, dst + mptr, mptr, n),
            dst,
            mptr,
            mptr + n - 1,
            mptr + n,
        );
    } else {
        lemma_accounted_nothing(c, dst, mptr);
    }
}

/// A band is accounted for: in the band's scan a pixel has a palette slot
/// exactly if the scan has set its mark, and a scan that leaves the pass
/// clean leaves every pixel of the band marked.
pub proof fn lemma_band_accounted(c: Canvas, f: Frame, y0: int, dst: int, rows: int)
    requires
        c.slots.wf(),
        0 <= rows,
        0 <= f.width,
        rows * f.width <= c.marks.len(),
        0 <= dst,
        dst + rows * f.width <= c.paletted.len(),
    ensures
        accounted(c, band_scan(c, f, y0, dst, rows), dst, 0, rows * f.width),
    decreases rows,
{
    if rows > 0 {
        let w = f.width;
        assert((rows - 1) * w + w == rows * w) by (nonlinear_arith);
        assert(0 <= (rows - 1) * w) by (nonlinear_arith)
            requires
                rows >= 1,
                w >= 0,
        ;
        lemma_band_accounted(c, f, y0, dst, rows - 1);
        let mid = band_scan(c, f, y0, dst, rows - 1);
        lemma_row_accounted(mid, f, y0 + rows - 1, dst, (rows - 1) * w, w);
        lemma_accounted_twice(
            c,
            mid,
            band_scan(c, f, y0, dst, rows),
            dst,
            0,
            (rows - 1) * w,
            rows * w,
        );
    } else {
        assert(rows * f.width == 0) by (nonlinear_arith)
            requires
                rows == 0,
        ;
        lemma_accounted_nothing(c, dst, 0);
    }
}

/// The buffers and the slots that the high-color encoder keeps besides the
/// image and the palette.
#[derive(Debug)]
pub struct Workspace {
    /// The palette indices of the rows of a pass, one per pixel.
    pub paletted: Vec<u8>,
    /// The marks of the band at hand.
    pub marks: Vec<bool>,
    /// The slots.
    pub table: SlotTable,
}

impl Workspace {
    /// The canvas that the workspace makes with an image and a palette.
    pub open spec fn canvas(&self, pixels: Seq<u8>, palette: Seq<u8>) -> Canvas {
        Canvas {
            pixels,
            paletted: self.paletted@,
            marks: self.marks@,
            slots: self.table@,
            palette,
        }
    }
}

/// Whether a canvas fits a frame: the image holds the frame's pixels, there
/// is a palette index for each pixel and a mark for each pixel of a band, the
/// palette holds the slots that can be assigned, and the band encoder's
/// products stay within `i32::MAX`.
pub open spec fn canvas_fits(c: Canvas, f: Frame) -> bool {
    &&& 1 <= f.width
    &&& 1 <= f.height <= i32::MAX
    &&& f.height * f.width <= i32::MAX
    &&& ASSIGNABLE * f.width <= i32::MAX
    &&& c.pixels.len() >= 3 * (f.height * f.width)
    &&& c.paletted.len() == f.height * f.width
    &&& c.marks.len() == BAND_ROWS * f.width
    &&& c.palette.len() >= 3 * ASSIGNABLE
    &&& c.slots.wf()
}

/// The rows from `y` on hold as many pixels as the image has from the pixel
/// in row `y` and column `x` on.
proof fn lemma_rest_of_image(width: int, height: int, y: int, x: int)
    requires
        0 <= x < width,
        0 <= y < height,
    ensures
        3 * (y * width + x) + 3 * ((height - y) * width - x) == 3 * (height * width),
        3 * (y * width + x) + 3 <= 3 * (height * width),
{
    assert(y * width + (height - y) * width == height * width) by (nonlinear_arith);
    lemma_cell_in_grid(width, height, y, x);
}

/// Scans one row of a pass.
fn scan_row(
    pixels: &mut Vec<u8>,
    palette: &mut Vec<u8>,
    work: &mut Workspace,
    width: usize,
    height: usize,
    y: usize,
    dst: usize,
    mptr: usize,
    method: SixelDiffusion,
)
    requires
        canvas_fits(
            old(work).canvas(old(pixels)@, old(palette)@),
            Frame { width: width as int, height: height as int, method },
        ),
        y < height,
        dst + width <= height * width,
        mptr + width <= BAND_ROWS * width,
    ensures
        final(work).canvas(final(pixels)@, final(palette)@) == row_scan(
            old(work).canvas(old(pixels)@, old(palette)@),
            Frame { width: width as int, height: height as int, method },
            y as int,
            dst as int,
            mptr as int,
            width as int,
        ),
        canvas_fits(
            final(work).canvas(final(pixels)@, final(palette)@),
            Frame { width: width as int, height: height as int, method },
        ),
        final(pixels)@.len() == old(pixels)@.len(),
        final(palette)@.len() == old(palette)@.len(),
{
    let ghost f = Frame { width: width as int, height: height as int, method };
    let ghost c0 = work.canvas(pixels@, palette@);
    let _total: usize = pixels.len();
    let mut x: usize = 0;
    while x < width
        invariant
            x <= width,
            y < height,
            f == (Frame { width: width as int, height: height as int, method }),
            dst + width <= height * width,
            mptr + width <= BAND_ROWS * width,
            pixels@.len() == old(pixels)@.len(),
            pixels@.len() <= usize::MAX,
            palette@.len() == old(palette)@.len(),
            canvas_fits(work.canvas(pixels@, palette@), f),
            work.canvas(pixels@, palette@) == row_scan(c0, f, y as int, dst as int, mptr as int, x as int),
        decreases width - x,
    {
        let ghost before = work.canvas(pixels@, palette@);
        if work.marks[mptr + x] {
            work.paletted.set(dst + x, UNRESOLVED);
        } else {
            proof {
                lemma_rest_of_image(width as int, height as int, y as int, x as int);
            }
            let pos: usize = 3 * (y * width + x);
            sixel_apply_15bpp_dither(
                pixels,
                pos,
                x as i32,
                y as i32,
                width as i32,
                height as i32,
                method,
            );
            let r: u8 = pixels[pos];
            let g: u8 = pixels[pos + 1];
            let b: u8 = pixels[pos + 2];
            let index: u8 = work.table.resolve(palette, r, g, b);
            work.paletted.set(dst + x, index);
            if index != UNRESOLVED {
                work.marks.set(mptr + x, true);
            }
        }
        assert(work.canvas(pixels@, palette@) == pixel_step(
            before,
            f,
            y as int,
            x as int,
            dst + x,
            mptr + x,
        ));
        x = x + 1;
    }
}

/// Scans one band of a pass.
fn scan_band(
    pixels: &mut Vec<u8>,
    palette: &mut Vec<u8>,
    work: &mut Workspace,
    width: usize,
    height: usize,
    y0: usize,
    dst: usize,
    rows: usize,
    method: SixelDiffusion,
)
    requires
        canvas_fits(
            old(work).canvas(old(pixels)@, old(palette)@),
            Frame { width: width as int, height: height as int, method },
        ),
        1 <= rows <= BAND_ROWS,
        y0 + rows <= height,
        dst + rows * width <= height * width,
    ensures
        final(work).canvas(final(pixels)@, final(palette)@) == band_scan(
            old(work).canvas(old(pixels)@, old(palette)@),
            Frame { width: width as int, height: height as int, method },
            y0 as int,
            dst as int,
            rows as int,
        ),
        canvas_fits(
            final(work).canvas(final(pixels)@, final(palette)@),
            Frame { width: width as int, height: height as int, method },
        ),
        final(pixels)@.len() == old(pixels)@.len(),
        final(palette)@.len() == old(palette)@.len(),
{
    let ghost f = Frame { width: width as int, height: height as int, method };
    let ghost c0 = work.canvas(pixels@, palette@);
    let mut r: usize = 0;
    while r < rows
        invariant
            r <= rows <= BAND_ROWS,
            y0 + rows <= height,
            f == (Frame { width: width as int, height: height as int, method }),
            dst + rows * width <= height * width,
            pixels@.len() == old(pixels)@.len(),
            palette@.len() == old(palette)@.len(),
            canvas_fits(work.canvas(pixels@, palette@), f),
            work.canvas(pixels@, palette@) == band_scan(c0, f, y0 as int, dst as int, r as int),
        decreases rows - r,
    {
        proof {
            assert(r * width + width <= rows * width) by (nonlinear_arith)
                requires
                    r < rows,
                    0 <= width,
            ;
            assert(rows * width <= BAND_ROWS * width) by (nonlinear_arith)
                requires
                    rows <= BAND_ROWS,
                    0 <= width,
            ;
            assert(0 <= r * width) by (nonlinear_arith)
                requires
                    0 <= r,
                    0 <= width,
            ;
        }
        let offset: usize = r * width;
        scan_row(pixels, palette, work, width, height, y0 + r, dst + offset, offset, method);
        r = r + 1;
    }
}

/// Scans one pass from row `row0` on. Returns the number of rows scanned
/// and the row at which the next pass starts.
pub fn scan_pass(
    pixels: &mut Vec<u8>,
    palette: &mut Vec<u8>,
    work: &mut Workspace,
    width: usize,
    height: usize,
    row0: usize,
    method: SixelDiffusion,
) -> (r: (usize, usize))
    requires
        canvas_fits(
            old(work).canvas(old(pixels)@, old(palette)@),
            Frame { width: width as int, height: height as int, method },
        ),
        row0 < height,
    ensures
        (final(work).canvas(final(pixels)@, final(palette)@), r.0 as int, r.1 as int) == pass(
            old(work).canvas(old(pixels)@, old(palette)@),
            Frame { width: width as int, height: height as int, method },
            row0 as int,
        ),
        canvas_fits(
            final(work).canvas(final(pixels)@, final(palette)@),
            Frame { width: width as int, height: height as int, method },
        ),
        final(pixels)@.len() == old(pixels)@.len(),
        final(palette)@.len() == old(palette)@.len(),
        1 <= r.0,
        row0 + r.0 <= height,
        row0 <= r.1 <= height,
        r.1 == row0 ==> unmarked(final(work).marks@) < unmarked(old(work).marks@),
        final(work).table@.recycling == old(work).table@.recycling,
{
    let ghost f = Frame { width: width as int, height: height as int, method };
    let ghost c0 = work.canvas(pixels@, palette@);
    let ghost goal = pass(c0, f, row0 as int);
    work.table.begin_pass();
    let ghost begun = work.canvas(pixels@, palette@);
    let mut done: usize = 0;
    loop
        invariant
            f == (Frame { width: width as int, height: height as int, method }),
            row0 + done < height,
            pixels@.len() == old(pixels)@.len(),
            palette@.len() == old(palette)@.len(),
            canvas_fits(work.canvas(pixels@, palette@), f),
            pass_scan(work.canvas(pixels@, palette@), f, row0 as int, done as int) == goal,
            goal == pass(old(work).canvas(old(pixels)@, old(palette)@), f, row0 as int),
            done == 0 ==> work.canvas(pixels@, palette@) == begun,
            work.table@.recycling == old(work).table@.recycling,
            begun.slots.fresh(),
            begun.marks == old(work).marks@,
        decreases height - row0 - done,
    {
        let y0: usize = row0 + done;
        let rows: usize = if height - y0 < BAND_ROWS {
            height - y0
        } else {
            BAND_ROWS
        };
        let ghost before = work.canvas(pixels@, palette@);
        proof {
            assert((done + rows) * width <= height * width) by (nonlinear_arith)
                requires
                    done + rows <= height,
                    0 <= width,
            ;
            assert(done * width + rows * width == (done + rows) * width) by (nonlinear_arith);
            assert(0 <= done * width) by (nonlinear_arith)
                requires
                    0 <= done,
                    0 <= width,
            ;
            assert(rows * width <= BAND_ROWS * width) by (nonlinear_arith)
                requires
                    rows <= BAND_ROWS,
                    0 <= width,
            ;
            lemma_band_progress(before, f, y0 as int, done * width, rows as int);
        }
        scan_band(pixels, palette, work, width, height, y0, done * width, rows, method);
        if work.table.dirty {
            return (done + rows, y0);
        }
        if y0 + rows >= height {
            return (done + rows, height);
        }
        work.marks = vec![false; BAND_ROWS * width];
        assert(work.marks@ =~= no_marks(before.marks.len()));
        done = done + rows;
    }
}

} // verus!
