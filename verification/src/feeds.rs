//! A body moves on to the next band between two bands, and nowhere else.
//!
//! The byte `-` stands in front of every band but the first of a body. No
//! numeral of a body is negative and no sixel character is `-`, so that a
//! body of `height` rows holds `-` once less than it has bands. An image of
//! up to six rows has one band in every pass of the high-color encoder, and
//! its stream holds no `-`.

use vstd::prelude::*;
use crate::band::{lines, node_map, sweep, working_map, BandOptions, Pen, Run, BAND_ROWS};
use crate::band::band_runs;
use crate::body::{band_bytes, band_height, bands, body_bytes, body_pen, defines_palette};
use crate::body::{fillable, palette_section, BodyOptions};
use crate::decimal::{decimal, lemma_digits_are_digits};
use crate::dither::DitherConf;
use crate::encode::{highcolor_run, initial_canvas};
use crate::highcolor::{band_scan, no_marks, pass, pass_scan, rows_of_band, Canvas, Frame};
use crate::slots::ASSIGNABLE;
use crate::laws::{lemma_absent, lemma_finished_keeps, lemma_occurrences_concat, occurrences};
use crate::output::sixel_output;
use crate::protocol::{active_after, header_bytes, introducer, node_chars};
use crate::protocol::{hue, larger, lightness, percent, quotient, saturation, smaller};
use crate::runs::{run_bytes, run_stream, sixel_char};
use crate::selection::{lemma_band_runs_have_slots, runs_below};

verus! {

/// Whether `s` holds no `-`.
pub open spec fn feedless(s: Seq<u8>) -> bool {
    forall|i: int| 0 <= i < s.len() ==> #[trigger] s[i] != 45
}

/// Whether the pending run of a pen, if there is one, is not of `-`.
pub open spec fn pen_feeds_not(pen: Pen) -> bool {
    pen.save_count > 0 ==> pen.save_pixel != 45
}

/// How often a body of `height` rows moves on to the next band, from the
/// band that starts at row `y0` on.
pub open spec fn feeds(height: int, y0: int) -> nat
    decreases height - y0,
{
    if y0 < 0 || y0 >= height {
        0
    } else {
        (if y0 == 0 {
            0nat
        } else {
            1nat
        }) + if y0 + BAND_ROWS < height {
            feeds(height, y0 + BAND_ROWS)
        } else {
            0nat
        }
    }
}

/// A body of `height` rows has a band for every six rows or part of them,
/// and moves on once less.
pub proof fn lemma_feeds(height: int, y0: int)
    requires
        0 <= y0 < height,
    ensures
        feeds(height, y0) + (if y0 == 0 {
            1int
        } else {
            0int
        }) == (height - y0 + 5) / 6,
    decreases height - y0,
{
    if y0 + BAND_ROWS < height {
        lemma_feeds(height, y0 + BAND_ROWS);
    }
}

/// The numeral of a number that is not negative holds no `-`.
pub proof fn lemma_numeral_is_feedless(v: int)
    requires
        0 <= v,
    ensures
        feedless(decimal(v)),
{
    lemma_digits_are_digits(v as nat);
}

/// A run of a character that is not `-` holds no `-`.
pub proof fn lemma_run_is_feedless(ch: u8, count: int, limit: bool)
    requires
        count > 0 ==> ch != 45,
    ensures
        feedless(run_bytes(ch, count, limit)),
    decreases count,
{
    if count <= 0 {
    } else if limit && count > 255 {
        lemma_run_is_feedless(ch, count - 255, limit);
    } else if count > 3 {
        lemma_numeral_is_feedless(count);
    }
}

/// The runs of characters that are not `-` hold no `-`.
pub proof fn lemma_runs_are_feedless(ch: u8, count: int, chars: Seq<u8>, limit: bool)
    requires
        count > 0 ==> ch != 45,
        forall|i: int| 0 <= i < chars.len() ==> #[trigger] chars[i] != 45,
    ensures
        feedless(run_stream(ch, count, chars, limit)),
    decreases chars.len(),
{
    lemma_run_is_feedless(ch, count, limit);
    if chars.len() > 0 {
        assert(chars[0] != 45);
        assert forall|i: int| 0 <= i < chars.drop_first().len() implies #[trigger] chars.drop_first()[i]
            != 45 by {
            assert(chars.drop_first()[i] == chars[i + 1]);
        }
        if chars[0] == ch {
            lemma_runs_are_feedless(ch, count + 1, chars.drop_first(), limit);
        } else {
            lemma_runs_are_feedless(chars[0], 1, chars.drop_first(), limit);
        }
    }
}

/// A sweep over runs whose slots are not negative holds no `-`, and leaves
/// the pen without a pending run of `-`.
pub proof fn lemma_sweep_is_feedless(
    runs: Seq<Run>,
    x: int,
    pen: Pen,
    map: Seq<u8>,
    rows: int,
    fill: bool,
    o: BandOptions,
    n: int,
)
    requires
        runs_below(runs, n),
        pen_feeds_not(pen),
    ensures
        feedless(sweep(runs, x, pen, map, rows, fill, o).0),
        runs_below(sweep(runs, x, pen, map, rows, fill, o).1, n),
        pen_feeds_not(sweep(runs, x, pen, map, rows, fill, o).2),
        sweep(runs, x, pen, map, rows, fill, o).1.len() <= runs.len(),
    decreases runs.len(),
{
    if runs.len() > 0 {
        let r = runs[0];
        let tail = runs.drop_first();
        assert forall|k: int| 0 <= k < tail.len() implies 0 <= (#[trigger] tail[k]).pal < n by {
            assert(tail[k] == runs[k + 1]);
        }
        if r.sx >= x {
            let mask = node_map(map, rows, r.pal as int, fill, o);
            let chars = node_chars(x, r.sx as int, r.mx as int, mask);
            assert forall|i: int| 0 <= i < chars.len() implies #[trigger] chars[i] != 45 by {
                assert(sixel_char(mask[x + i]) >= 63);
            }
            lemma_runs_are_feedless(pen.save_pixel, pen.save_count, chars, o.limit);
            lemma_numeral_is_feedless(r.pal as int);
            let next = Pen {
                active: active_after(pen.active, r.pal as int, o.ncolors, o.keycolor),
                save_pixel: 0u8,
                save_count: 0,
            };
            let x1 = if x < r.mx {
                r.mx as int
            } else {
                x
            };
            lemma_sweep_is_feedless(tail, x1, next, map, rows, fill, o, n);
        } else {
            lemma_sweep_is_feedless(tail, x, pen, map, rows, fill, o, n);
            let after = sweep(tail, x, pen, map, rows, fill, o);
            let left = seq![r] + after.1;
            assert forall|k: int| 0 <= k < left.len() implies 0 <= (#[trigger] left[k]).pal < n by {
                if k > 0 {
                    assert(left[k] == after.1[k - 1]);
                }
            }
        }
    }
}

/// The lines of a band hold no `-`, and leave the pen without a pending run
/// of `-`.
pub proof fn lemma_lines_are_feedless(
    runs: Seq<Run>,
    first: bool,
    pen: Pen,
    map: Seq<u8>,
    rows: int,
    fill: bool,
    o: BandOptions,
    n: int,
)
    requires
        runs_below(runs, n),
        pen_feeds_not(pen),
    ensures
        feedless(lines(runs, first, pen, map, rows, fill, o).0),
        pen_feeds_not(lines(runs, first, pen, map, rows, fill, o).1),
    decreases runs.len(),
{
    if runs.len() > 0 {
        let line = sweep(runs, 0, pen, map, rows, first && fill, o);
        lemma_sweep_is_feedless(runs, 0, pen, map, rows, first && fill, o, n);
        if line.1.len() < runs.len() {
            lemma_lines_are_feedless(line.1, false, line.2, map, rows, fill, o, n);
        }
    }
}

/// The bands of a body hold `-` once in front of every band but the first
/// of the body, and leave the pen without a pending run of `-`.
pub proof fn lemma_bands_feed_between(pixels: Seq<u8>, y0: int, pen: Pen, o: BodyOptions)
    requires
        o.ncolors <= i32::MAX,
        pen_feeds_not(pen),
    ensures
        occurrences(bands(pixels, y0, pen, o).0, 45u8) == feeds(o.height, y0),
        pen_feeds_not(bands(pixels, y0, pen, o).1),
    decreases o.height - y0,
{
    if 0 <= y0 < o.height {
        let rows = band_height(o.height, y0);
        let map = working_map(pixels, o.width, y0, rows, o.ncolors, o.keycolor);
        let runs = band_runs(map, o.width, o.ncolors);
        let fill = fillable(pixels, y0, o);
        lemma_band_runs_have_slots(map, o.width, o.ncolors);
        lemma_lines_are_feedless(runs, true, pen, map, rows, fill, o.band(), o.ncolors);
        let band = band_bytes(pixels, y0, pen, o);
        let data = lines(runs, true, pen, map, rows, fill, o.band()).0;
        let feed = if y0 == 0 {
            Seq::<u8>::empty()
        } else {
            seq![45u8]
        };
        lemma_absent(data, 45u8);
        assert(occurrences(feed, 45u8) == if y0 == 0 {
            0nat
        } else {
            1nat
        }) by {
            if y0 != 0 {
                assert(feed.drop_last() =~= Seq::<u8>::empty());
                assert(occurrences(feed.drop_last(), 45u8) == 0);
            }
        }
        lemma_occurrences_concat(feed, data, 45u8);
        if y0 + BAND_ROWS < o.height {
            lemma_bands_feed_between(pixels, y0 + BAND_ROWS, band.1, o);
            lemma_occurrences_concat(band.0, bands(pixels, y0 + BAND_ROWS, band.1, o).0, 45u8);
        } else {
            assert(band.0 + Seq::<u8>::empty() =~= band.0);
        }
    }
}

/// Hue, lightness and saturation of a color are not negative.
pub proof fn lemma_hls_is_not_negative(r: int, g: int, b: int)
    requires
        0 <= r <= 255,
        0 <= g <= 255,
        0 <= b <= 255,
    ensures
        0 <= hue(r, g, b),
        0 <= lightness(r, g, b),
        0 <= saturation(r, g, b),
{
    let max = larger(larger(r, g), b);
    let min = smaller(smaller(r, g), b);
    if max != min {
        let d = max - min;
        assert(forall|a: int| 0 <= a <= 60 * d ==> 0 <= #[trigger] (a / d) <= 60) by (nonlinear_arith)
            requires
                d > 0,
        ;
        let low = (max - min) * 100;
        let under = max + min;
        let over = (255 - max) + (255 - min);
        assert(0 <= low / under) by (nonlinear_arith)
            requires
                0 <= low,
                0 < under,
        ;
        assert(0 <= low / over) by (nonlinear_arith)
            requires
                0 <= low,
                0 < over,
        ;
        lemma_quotient_is_small((g - b) * 60, d);
        lemma_quotient_is_small((b - r) * 60, d);
        lemma_quotient_is_small((r - g) * 60, d);
    }
}

/// A quotient of a number between `-60 * d` and `60 * d` by `d` lies
/// between -60 and 60, and is not negative where the number is not.
pub proof fn lemma_quotient_is_small(a: int, d: int)
    requires
        0 < d,
        -60 * d <= a <= 60 * d,
    ensures
        -60 <= quotient(a, d) <= 60,
        0 <= a ==> 0 <= quotient(a, d),
{
    if a >= 0 {
        assert(0 <= a / d <= 60) by (nonlinear_arith)
            requires
                0 < d,
                0 <= a <= 60 * d,
        ;
    } else {
        let m = -a;
        assert(0 <= m / d <= 60) by (nonlinear_arith)
            requires
                0 < d,
                0 <= m <= 60 * d,
        ;
    }
}

/// The palette section holds no `-`.
pub proof fn lemma_palette_section_is_feedless(palette: Seq<u8>, n: int, keycolor: int, hls: bool)
    ensures
        feedless(palette_section(palette, n, keycolor, hls)),
    decreases n,
{
    if n > 0 {
        lemma_palette_section_is_feedless(palette, n - 1, keycolor, hls);
        let k = n - 1;
        let r = palette[k * 3] as int;
        let g = palette[k * 3 + 1] as int;
        let b = palette[k * 3 + 2] as int;
        lemma_numeral_is_feedless(k);
        if hls {
            lemma_hls_is_not_negative(r, g, b);
            lemma_numeral_is_feedless(hue(r, g, b));
            lemma_numeral_is_feedless(lightness(r, g, b));
            lemma_numeral_is_feedless(saturation(r, g, b));
        } else {
            lemma_numeral_is_feedless(percent(palette[k * 3]));
            lemma_numeral_is_feedless(percent(palette[k * 3 + 1]));
            lemma_numeral_is_feedless(percent(palette[k * 3 + 2]));
        }
    }
}

/// A body of `height` rows holds `-` once less than it has bands: one band
/// for every six rows or part of them.
pub proof fn lemma_body_feeds_between_bands(
    pixels: Seq<u8>,
    palette: Seq<u8>,
    save_pixel: u8,
    save_count: int,
    o: BodyOptions,
)
    requires
        o.ncolors <= i32::MAX,
        save_count > 0 ==> save_pixel != 45,
    ensures
        1 <= o.height ==> occurrences(
            body_bytes(pixels, palette, save_pixel, save_count, o),
            45u8,
        ) == (o.height + 5) / 6 - 1,
        o.height <= 6 ==> occurrences(
            body_bytes(pixels, palette, save_pixel, save_count, o),
            45u8,
        ) == 0,
        pen_feeds_not(bands(pixels, 0, body_pen(save_pixel, save_count), o).1),
{
    let section = if defines_palette(o) {
        palette_section(palette, o.ncolors, o.keycolor, o.hls)
    } else {
        Seq::<u8>::empty()
    };
    let end = if o.highcolor {
        seq![36u8]
    } else {
        Seq::<u8>::empty()
    };
    let data = bands(pixels, 0, body_pen(save_pixel, save_count), o).0;
    lemma_palette_section_is_feedless(palette, o.ncolors, o.keycolor, o.hls);
    lemma_absent(section, 45u8);
    lemma_absent(end, 45u8);
    lemma_bands_feed_between(pixels, 0, body_pen(save_pixel, save_count), o);
    if 1 <= o.height {
        lemma_feeds(o.height, 0);
    }
    lemma_occurrences_concat(section, data, 45u8);
    lemma_occurrences_concat(section + data, end, 45u8);
}

/// The stream of an image of `height` rows of palette indices, written by a
/// writer that had written nothing and had no run of `-` pending, holds `-`
/// once less than the image has bands: with or without the wrapping of
/// packets. An image of up to six rows has none.
pub proof fn lemma_image_stream_feeds_between_bands(
    out: &sixel_output,
    pre: &sixel_output,
    pixels: Seq<u8>,
    width: int,
    height: int,
    dither: &DitherConf,
)
    requires
        out.finished(pre, pre.dither_bytes(pixels, width, height, dither)),
        pre.sink@.len() == 0,
        pre.buffer@.len() == 0,
        pre.save_count > 0 ==> pre.save_pixel != 45,
        0 <= width,
        1 <= height,
    ensures
        occurrences(out.sink@, 45u8) == (height + 5) / 6 - 1,
        height <= 6 ==> occurrences(out.sink@, 45u8) == 0,
{
    let header = header_bytes(width, height, pre.skip_dcs_envelope, pre.has_8bit_control);
    let o = pre.body_options(
        width,
        height,
        dither.ncolors as int,
        dither.keycolor as int,
        dither.bodyonly,
        false,
    );
    let body = body_bytes(pixels, dither.palette@, pre.save_pixel, pre.save_count as int, o);
    lemma_body_feeds_between_bands(
        pixels,
        dither.palette@,
        pre.save_pixel,
        pre.save_count as int,
        o,
    );
    lemma_numeral_is_feedless(width);
    lemma_numeral_is_feedless(height);
    let intro = introducer(pre.skip_dcs_envelope, pre.has_8bit_control);
    assert(header =~= intro + seq![113u8] + seq![34u8, 49u8, 59u8, 49u8, 59u8] + decimal(width)
        + seq![59u8] + decimal(height));
    assert(feedless(header));
    lemma_absent(header, 45u8);
    lemma_occurrences_concat(header, body, 45u8);
    lemma_finished_keeps(out, pre, header + body, 45u8);
    lemma_absent(pre.sink@, 45u8);
    lemma_absent(pre.buffer@, 45u8);
}

/// A pass that starts at row `row0` scans no more rows than the image has
/// from that row on, and the next pass starts at no negative row.
pub proof fn lemma_pass_scans_within(c: Canvas, f: Frame, row0: int, done: int)
    requires
        0 <= row0,
        0 <= done,
    ensures
        pass_scan(c, f, row0, done).1 <= if f.height - row0 > done {
            f.height - row0
        } else {
            done
        },
        0 <= pass_scan(c, f, row0, done).2,
    decreases f.height - row0 - done,
{
    let y0 = row0 + done;
    let rows = rows_of_band(f.height, y0);
    if y0 < f.height {
        let after = band_scan(c, f, y0, done * f.width, rows);
        if !after.slots.dirty && y0 + rows < f.height {
            lemma_pass_scans_within(
                Canvas { marks: no_marks(after.marks.len()), ..after },
                f,
                row0,
                done + rows,
            );
        }
    }
}

/// The passes of the high-color encoder over an image of up to six rows
/// hold no `-`: every pass writes one band.
pub proof fn lemma_small_passes_have_no_feed(c0: Canvas, f: Frame, pen0: Pen, o: BodyOptions, n: nat)
    requires
        f.height <= 6,
        o.ncolors <= i32::MAX,
        pen_feeds_not(pen0),
    ensures
        occurrences(highcolor_run(c0, f, pen0, o, n).0, 45u8) == 0,
        0 <= highcolor_run(c0, f, pen0, o, n).2,
        pen_feeds_not(highcolor_run(c0, f, pen0, o, n).3),
    decreases n,
{
    if n > 0 {
        lemma_small_passes_have_no_feed(c0, f, pen0, o, (n - 1) as nat);
        let before = highcolor_run(c0, f, pen0, o, (n - 1) as nat);
        if before.2 < f.height {
            let begun = Canvas { slots: before.1.slots.pass_begun(), ..before.1 };
            lemma_pass_scans_within(begun, f, before.2, 0);
            let scanned = pass(before.1, f, before.2);
            let po = BodyOptions { height: scanned.1, ..o };
            let pen = before.3;
            let body = body_bytes(
                scanned.0.paletted,
                scanned.0.palette,
                pen.save_pixel,
                pen.save_count,
                po,
            );
            lemma_body_feeds_between_bands(
                scanned.0.paletted,
                scanned.0.palette,
                pen.save_pixel,
                pen.save_count,
                po,
            );
            lemma_occurrences_concat(before.0, body, 45u8);
        }
    }
}

/// The stream of an image of up to six rows that the high-color encoder has
/// encoded, written by a writer that had written nothing and had no run of
/// `-` pending, holds no `-`: with or without the wrapping of packets.
pub proof fn lemma_small_highcolor_stream_has_no_feed(
    out: &sixel_output,
    pre: &sixel_output,
    pixels0: Seq<u8>,
    width: int,
    height: int,
    dither0: &DitherConf,
    dither: &DitherConf,
    n: nat,
)
    requires
        out.highcolor_encoded(pre, pixels0, width, height, dither0, dither, n),
        pre.sink@.len() == 0,
        pre.buffer@.len() == 0,
        pre.save_count > 0 ==> pre.save_pixel != 45,
        0 <= width,
        0 <= height <= 6,
    ensures
        occurrences(out.sink@, 45u8) == 0,
{
    let f = Frame { width, height, method: dither0.method_for_diffuse };
    let o = pre.body_options(width, 0, ASSIGNABLE as int, 255, dither0.bodyonly, true);
    let c0 = initial_canvas(pixels0, dither0.palette@, f);
    let run = highcolor_run(c0, f, pre.pen(), o, n);
    lemma_small_passes_have_no_feed(c0, f, pre.pen(), o, n);
    let header = header_bytes(width, height, pre.skip_dcs_envelope, pre.has_8bit_control);
    lemma_numeral_is_feedless(width);
    lemma_numeral_is_feedless(height);
    let intro = introducer(pre.skip_dcs_envelope, pre.has_8bit_control);
    assert(header =~= intro + seq![113u8] + seq![34u8, 49u8, 59u8, 49u8, 59u8] + decimal(width)
        + seq![59u8] + decimal(height));
    assert(feedless(header));
    lemma_absent(header, 45u8);
    lemma_occurrences_concat(header, run.0, 45u8);
    lemma_finished_keeps(out, pre, header + run.0, 45u8);
    lemma_absent(pre.sink@, 45u8);
    lemma_absent(pre.buffer@, 45u8);
}

} // verus!
