//! Every `#` of a body names a slot of the palette.
//!
//! A `#` selects a palette slot or opens its definition. The numeral of the
//! slot follows it, and what follows the numeral is no digit, so that the
//! numeral is read whole. The slot lies below the number of slots that the
//! body was encoded with, and is not the key color: in a pass of the
//! high-color encoder no `#` names slot 255, the value of a pixel that has no
//! slot.

use vstd::prelude::*;
use crate::band::{band_runs, lines, node_map, row_runs, sweep, working_map, BandOptions, Pen, Run};
use crate::band::{map_row, BAND_ROWS};
use crate::body::{band_bytes, band_height, bands, body_bytes, body_pen, fillable, palette_section};
use crate::body::BodyOptions;
use crate::decimal::{decimal, lemma_digits_are_digits};
use crate::dither::DitherConf;
use crate::encode::{highcolor_run, initial_canvas};
use crate::output::sixel_output;
use crate::highcolor::{pass, Canvas, Frame};
use crate::protocol::{active_after, hls_definition, node_bytes, node_chars, rgb_definition};
use crate::protocol::{header_bytes, introducer, terminator};
use crate::protocol::{hue, lightness, percent, saturation, select_bytes};
use crate::runs::{repeated, run_bytes, run_stream, sixel_char};
use crate::slots::ASSIGNABLE;

verus! {

/// Whether `b` is a decimal digit.
pub open spec fn is_digit(b: u8) -> bool {
    48 <= b <= 57
}

/// Whether `b` is neither `#` nor a digit.
pub open spec fn plain(b: u8) -> bool {
    b != 35 && !is_digit(b)
}

/// Whether `s` holds no `#`.
pub open spec fn hashless(s: Seq<u8>) -> bool {
    forall|i: int| 0 <= i < s.len() ==> #[trigger] s[i] != 35
}

/// Whether `s` is empty or starts with a byte that is no digit.
pub open spec fn opens_clean(s: Seq<u8>) -> bool {
    s.len() == 0 || !is_digit(s[0])
}

/// Whether the byte at `i` of `s` is followed by the numeral of `v`, a slot
/// below `n` that is not the key color, and the numeral by no digit.
pub open spec fn names_slot(s: Seq<u8>, i: int, n: int, key: int, v: int) -> bool {
    &&& 0 <= v < n
    &&& v != key
    &&& i + 1 + decimal(v).len() <= s.len()
    &&& s.subrange(i + 1, i + 1 + decimal(v).len()) == decimal(v)
    &&& (i + 1 + decimal(v).len() < s.len() ==> !is_digit(s[i + 1 + decimal(v).len()]))
}

/// Whether the byte at `i` of `s` is followed by the numeral of a slot below
/// `n` that is not the key color, read whole.
pub open spec fn slot_named(s: Seq<u8>, i: int, n: int, key: int) -> bool {
    exists|v: int| names_slot(s, i, n, key, v)
}

/// Whether every `#` of `s` names a slot below `n` that is not the key
/// color.
pub open spec fn slots_below(s: Seq<u8>, n: int, key: int) -> bool {
    forall|i: int| 0 <= i < s.len() && #[trigger] s[i] == 35 ==> slot_named(s, i, n, key)
}

/// Whether every `#` of `s` names a slot below `n` that is not the key
/// color, and `s` can follow a numeral.
pub open spec fn tidy(s: Seq<u8>, n: int, key: int) -> bool {
    slots_below(s, n, key) && opens_clean(s)
}

/// Two tidy sequences are tidy together.
pub proof fn lemma_tidy_concat(a: Seq<u8>, b: Seq<u8>, n: int, key: int)
    requires
        tidy(a, n, key),
        tidy(b, n, key),
    ensures
        tidy(a + b, n, key),
{
    let s = a + b;
    assert forall|i: int| 0 <= i < s.len() && #[trigger] s[i] == 35 implies slot_named(
        s,
        i,
        n,
        key,
    ) by {
        if i < a.len() {
            assert(a[i] == 35);
            let v = choose|v: int| names_slot(a, i, n, key, v);
            let e = i + 1 + decimal(v).len();
            assert(s.subrange(i + 1, e) =~= a.subrange(i + 1, e));
            if e < s.len() {
                if e < a.len() {
                    assert(s[e] == a[e]);
                } else {
                    assert(s[e] == b[0]);
                }
            }
            assert(names_slot(s, i, n, key, v));
        } else {
            let j = i - a.len();
            assert(b[j] == 35);
            let v = choose|v: int| names_slot(b, j, n, key, v);
            let e = j + 1 + decimal(v).len();
            assert(s.subrange(i + 1, a.len() + e) =~= b.subrange(j + 1, e));
            if e < b.len() {
                assert(s[a.len() + e] == b[e]);
            }
            assert(names_slot(s, i, n, key, v));
        }
    }
    if a.len() > 0 {
        assert(s[0] == a[0]);
    } else if b.len() > 0 {
        assert(s[0] == b[0]);
    }
}

/// A sequence without `#` that can follow a numeral is tidy.
pub proof fn lemma_hashless_is_tidy(s: Seq<u8>, n: int, key: int)
    requires
        hashless(s),
        opens_clean(s),
    ensures
        tidy(s, n, key),
{
}

/// A numeral holds no `#`, and the numeral of a number that is not negative
/// holds digits only.
pub proof fn lemma_numeral(v: int)
    ensures
        hashless(decimal(v)),
        decimal(v).len() >= 1,
        v >= 0 ==> forall|k: int| 0 <= k < decimal(v).len() ==> is_digit(#[trigger] decimal(v)[k]),
{
    if v < 0 {
        lemma_digits_are_digits((-v) as nat);
    } else {
        lemma_digits_are_digits(v as nat);
    }
}

/// `#`, the numeral of a slot below `n` that is not the key color, and bytes
/// without `#` that start with no digit are tidy.
pub proof fn lemma_mark(v: int, rest: Seq<u8>, n: int, key: int)
    requires
        0 <= v < n,
        v != key,
        hashless(rest),
        opens_clean(rest),
    ensures
        tidy(seq![35u8] + decimal(v) + rest, n, key),
{
    let s = seq![35u8] + decimal(v) + rest;
    let d = decimal(v);
    let m = d.len() as int;
    lemma_numeral(v);
    assert forall|i: int| 0 <= i < s.len() && #[trigger] s[i] == 35 implies slot_named(
        s,
        i,
        n,
        key,
    ) by {
        if i >= 1 + m {
            assert(s[i] == rest[i - 1 - m]);
        } else if i >= 1 {
            assert(s[i] == d[i - 1]);
        }
        assert(i == 0);
        assert(s.subrange(1, 1 + m) =~= d);
        if 1 + m < s.len() {
            assert(s[1 + m] == rest[0]);
        }
        assert(names_slot(s, 0, n, key, v));
    }
    assert(s[0] == 35);
}

/// The definition of a slot below `n` that is not the key color is tidy.
pub proof fn lemma_definition_is_tidy(palette: Seq<u8>, k: int, hls: bool, n: int, key: int)
    requires
        0 <= k < n,
        k != key,
    ensures
        !hls ==> tidy(rgb_definition(palette, k), n, key),
        hls ==> tidy(hls_definition(palette, k), n, key),
{
    let (a, b, c) = if hls {
        let r = palette[k * 3] as int;
        let g = palette[k * 3 + 1] as int;
        let b = palette[k * 3 + 2] as int;
        (hue(r, g, b), lightness(r, g, b), saturation(r, g, b))
    } else {
        (percent(palette[k * 3]), percent(palette[k * 3 + 1]), percent(palette[k * 3 + 2]))
    };
    let lead = if hls {
        seq![59u8, 49u8, 59u8]
    } else {
        seq![59u8, 50u8, 59u8]
    };
    let rest = lead + decimal(a) + seq![59u8] + decimal(b) + seq![59u8] + decimal(c);
    lemma_numeral(a);
    lemma_numeral(b);
    lemma_numeral(c);
    assert(rest[0] == 59);
    lemma_mark(k, rest, n, key);
    if hls {
        assert(hls_definition(palette, k) =~= seq![35u8] + decimal(k) + rest);
    } else {
        assert(rgb_definition(palette, k) =~= seq![35u8] + decimal(k) + rest);
    }
}

/// The palette section of `k` slots is tidy for any number of slots from `k`
/// on.
pub proof fn lemma_palette_section_is_tidy(
    palette: Seq<u8>,
    k: int,
    keycolor: int,
    hls: bool,
    n: int,
)
    requires
        k <= n,
    ensures
        tidy(palette_section(palette, k, keycolor, hls), n, keycolor),
    decreases k,
{
    if k > 0 {
        lemma_palette_section_is_tidy(palette, k - 1, keycolor, hls, n);
        let before = palette_section(palette, k - 1, keycolor, hls);
        if k - 1 == keycolor {
            assert(before + Seq::<u8>::empty() =~= before);
        } else {
            lemma_definition_is_tidy(palette, k - 1, hls, n, keycolor);
            if hls {
                lemma_tidy_concat(before, hls_definition(palette, k - 1), n, keycolor);
            } else {
                lemma_tidy_concat(before, rgb_definition(palette, k - 1), n, keycolor);
            }
        }
    }
}

/// A run of a plain character holds no `#` and starts with no digit.
pub proof fn lemma_run_is_plain(ch: u8, count: int, limit: bool)
    requires
        count > 0 ==> plain(ch),
    ensures
        hashless(run_bytes(ch, count, limit)),
        opens_clean(run_bytes(ch, count, limit)),
    decreases count,
{
    if count <= 0 {
    } else if limit && count > 255 {
        lemma_run_is_plain(ch, count - 255, limit);
        let head = seq![33u8, 50u8, 53u8, 53u8, ch];
        assert((head + run_bytes(ch, count - 255, limit))[0] == head[0]);
    } else if count > 3 {
        lemma_numeral(count);
        assert((seq![33u8] + decimal(count) + seq![ch])[0] == 33);
    } else {
        assert(repeated(ch, count)[0] == ch);
    }
}

/// The runs of plain characters hold no `#` and start with no digit.
pub proof fn lemma_runs_are_plain(ch: u8, count: int, chars: Seq<u8>, limit: bool)
    requires
        count > 0 ==> plain(ch),
        forall|i: int| 0 <= i < chars.len() ==> plain(#[trigger] chars[i]),
    ensures
        hashless(run_stream(ch, count, chars, limit)),
        opens_clean(run_stream(ch, count, chars, limit)),
    decreases chars.len(),
{
    lemma_run_is_plain(ch, count, limit);
    if chars.len() > 0 {
        assert(plain(chars[0]));
        assert forall|i: int| 0 <= i < chars.drop_first().len() implies plain(
            #[trigger] chars.drop_first()[i],
        ) by {
            assert(chars.drop_first()[i] == chars[i + 1]);
        }
        if chars[0] == ch {
            lemma_runs_are_plain(ch, count + 1, chars.drop_first(), limit);
        } else {
            lemma_runs_are_plain(chars[0], 1, chars.drop_first(), limit);
            let a = run_bytes(ch, count, limit);
            let b = run_stream(chars[0], 1, chars.drop_first(), limit);
            if a.len() > 0 {
                assert((a + b)[0] == a[0]);
            } else if b.len() > 0 {
                assert((a + b)[0] == b[0]);
            }
        }
    }
}

/// Whether the pending run of a pen, if there is one, is of a plain
/// character.
pub open spec fn pen_is_plain(pen: Pen) -> bool {
    pen.save_count > 0 ==> plain(pen.save_pixel)
}

/// Whether every run has its slot below `n`.
pub open spec fn runs_below(runs: Seq<Run>, n: int) -> bool {
    forall|k: int| 0 <= k < runs.len() ==> 0 <= (#[trigger] runs[k]).pal < n
}

/// Whether no run is of the key color.
pub open spec fn runs_miss(runs: Seq<Run>, key: int) -> bool {
    forall|k: int| 0 <= k < runs.len() ==> (#[trigger] runs[k]).pal != key
}

/// A node of a slot below `n` that is not the key color is tidy.
pub proof fn lemma_node_is_tidy(
    pen: Pen,
    limit: bool,
    x: int,
    pal: int,
    sx: int,
    mx: int,
    map: Seq<u8>,
    ncolors: int,
    keycolor: int,
    n: int,
    key: int,
)
    requires
        0 <= pal < n,
        pal != key,
        pen_is_plain(pen),
    ensures
        tidy(
            node_bytes(
                pen.active,
                pen.save_pixel,
                pen.save_count,
                limit,
                x,
                pal,
                sx,
                mx,
                map,
                ncolors,
                keycolor,
            ),
            n,
            key,
        ),
{
    let chars = node_chars(x, sx, mx, map);
    assert forall|i: int| 0 <= i < chars.len() implies plain(#[trigger] chars[i]) by {
        assert(sixel_char(map[x + i]) >= 63);
    }
    lemma_runs_are_plain(pen.save_pixel, pen.save_count, chars, limit);
    let run = run_stream(pen.save_pixel, pen.save_count, chars, limit);
    let select = select_bytes(pen.active, pal, ncolors, keycolor);
    if select.len() == 0 {
        assert(select + run =~= run);
        lemma_hashless_is_tidy(run, n, key);
    } else {
        lemma_mark(pal, run, n, key);
    }
}

/// A sweep over runs with slots below `n`, none of the key color, is tidy,
/// leaves such runs, and leaves the pen without a pending run that is not
/// plain.
pub proof fn lemma_sweep_is_tidy(
    runs: Seq<Run>,
    x: int,
    pen: Pen,
    map: Seq<u8>,
    rows: int,
    fill: bool,
    o: BandOptions,
    n: int,
    key: int,
)
    requires
        runs_below(runs, n),
        runs_miss(runs, key),
        pen_is_plain(pen),
    ensures
        tidy(sweep(runs, x, pen, map, rows, fill, o).0, n, key),
        runs_below(sweep(runs, x, pen, map, rows, fill, o).1, n),
        runs_miss(sweep(runs, x, pen, map, rows, fill, o).1, key),
        pen_is_plain(sweep(runs, x, pen, map, rows, fill, o).2),
    decreases runs.len(),
{
    if runs.len() > 0 {
        let r = runs[0];
        let tail = runs.drop_first();
        assert forall|k: int| 0 <= k < tail.len() implies 0 <= (#[trigger] tail[k]).pal < n
            && tail[k].pal != key by {
            assert(tail[k] == runs[k + 1]);
        }
        if r.sx >= x {
            let bytes = node_bytes(
                pen.active,
                pen.save_pixel,
                pen.save_count,
                o.limit,
                x,
                r.pal as int,
                r.sx as int,
                r.mx as int,
                node_map(map, rows, r.pal as int, fill, o),
                o.ncolors,
                o.keycolor,
            );
            let next = Pen {
                active: active_after(pen.active, r.pal as int, o.ncolors, o.keycolor),
                save_pixel: 0u8,
                save_count: 0,
            };
            let x1 = if x < r.mx {
                r.mx as int
            } else {
                x
            };
            lemma_node_is_tidy(
                pen,
                o.limit,
                x,
                r.pal as int,
                r.sx as int,
                r.mx as int,
                node_map(map, rows, r.pal as int, fill, o),
                o.ncolors,
                o.keycolor,
                n,
                key,
            );
            lemma_sweep_is_tidy(tail, x1, next, map, rows, fill, o, n, key);
            lemma_tidy_concat(bytes, sweep(tail, x1, next, map, rows, fill, o).0, n, key);
        } else {
            lemma_sweep_is_tidy(tail, x, pen, map, rows, fill, o, n, key);
            let after = sweep(tail, x, pen, map, rows, fill, o);
            let left = seq![r] + after.1;
            assert forall|k: int| 0 <= k < left.len() implies 0 <= (#[trigger] left[k]).pal < n
                && left[k].pal != key by {
                if k > 0 {
                    assert(left[k] == after.1[k - 1]);
                }
            }
        }
    }
}

/// The lines of a band whose runs have slots below `n`, none of the key
/// color, are tidy, and leave the pen without a pending run that is not
/// plain.
pub proof fn lemma_lines_are_tidy(
    runs: Seq<Run>,
    first: bool,
    pen: Pen,
    map: Seq<u8>,
    rows: int,
    fill: bool,
    o: BandOptions,
    n: int,
    key: int,
)
    requires
        runs_below(runs, n),
        runs_miss(runs, key),
        pen_is_plain(pen),
    ensures
        tidy(lines(runs, first, pen, map, rows, fill, o).0, n, key),
        pen_is_plain(lines(runs, first, pen, map, rows, fill, o).1),
    decreases runs.len(),
{
    if runs.len() > 0 {
        let line = sweep(runs, 0, pen, map, rows, first && fill, o);
        lemma_sweep_is_tidy(runs, 0, pen, map, rows, first && fill, o, n, key);
        let cr = if first {
            Seq::<u8>::empty()
        } else {
            seq![36u8]
        };
        assert(tidy(cr, n, key)) by {
            if !first {
                assert(cr[0] == 36);
            }
        }
        lemma_tidy_concat(cr, line.0, n, key);
        if line.1.len() < runs.len() {
            lemma_lines_are_tidy(line.1, false, line.2, map, rows, fill, o, n, key);
            lemma_tidy_concat(
                cr + line.0,
                lines(line.1, false, line.2, map, rows, fill, o).0,
                n,
                key,
            );
        }
    }
}

/// The runs of one color have that color's slot.
pub proof fn lemma_row_runs_have_their_slot(row: Seq<u8>, pal: int, x: int)
    requires
        0 <= pal <= i32::MAX,
    ensures
        runs_below(row_runs(row, pal, x), pal + 1),
        forall|k: int|
            0 <= k < row_runs(row, pal, x).len() ==> (#[trigger] row_runs(row, pal, x)[k]).pal
                == pal,
    decreases row.len() - x,
{
    if 0 <= x < row.len() {
        let sx = crate::band::run_start(row, x);
        let mx = crate::band::run_end(row, sx + 1);
        if !(sx < x || sx >= row.len() || mx <= sx || mx > row.len()) {
            lemma_row_runs_have_their_slot(row, pal, mx);
            let head = seq![Run { pal: pal as i32, sx: sx as i32, mx: mx as i32 }];
            let tail = row_runs(row, pal, mx);
            assert forall|k: int| 0 <= k < (head + tail).len() implies (#[trigger] (head
                + tail)[k]).pal == pal by {
                if k > 0 {
                    assert((head + tail)[k] == tail[k - 1]);
                }
            }
        }
    }
}

/// The runs of a working map of `ncolors` colors have slots below
/// `ncolors`.
pub proof fn lemma_band_runs_have_slots(map: Seq<u8>, width: int, ncolors: int)
    requires
        ncolors <= i32::MAX,
    ensures
        runs_below(band_runs(map, width, ncolors), ncolors),
    decreases ncolors,
{
    if ncolors > 0 {
        lemma_band_runs_have_slots(map, width, ncolors - 1);
        lemma_row_runs_have_their_slot(map_row(map, width, ncolors - 1), ncolors - 1, 0);
        let a = band_runs(map, width, ncolors - 1);
        let b = row_runs(map_row(map, width, ncolors - 1), ncolors - 1, 0);
        assert forall|k: int| 0 <= k < (a + b).len() implies 0 <= (#[trigger] (a + b)[k]).pal
            < ncolors by {
            if k < a.len() {
                assert((a + b)[k] == a[k]);
            } else {
                assert((a + b)[k] == b[k - a.len()]);
            }
        }
    }
}

/// A row whose columns are all empty has no run.
pub proof fn lemma_empty_row_has_no_run(row: Seq<u8>, pal: int, x: int)
    requires
        forall|j: int| 0 <= j < row.len() ==> #[trigger] row[j] == 0,
    ensures
        row_runs(row, pal, x).len() == 0,
{
    if 0 <= x < row.len() {
        lemma_empty_row_starts_no_run(row, x);
    }
}

/// In a row whose columns are all empty no run starts.
pub proof fn lemma_empty_row_starts_no_run(row: Seq<u8>, x: int)
    requires
        forall|j: int| 0 <= j < row.len() ==> #[trigger] row[j] == 0,
        0 <= x <= row.len(),
    ensures
        crate::band::run_start(row, x) == row.len(),
    decreases row.len() - x,
{
    if x < row.len() {
        assert(row[x] == 0);
        lemma_empty_row_starts_no_run(row, x + 1);
    }
}

/// The working map of a band has no run of the key color: the first `k`
/// colors have none.
pub proof fn lemma_band_runs_miss_the_key(
    pixels: Seq<u8>,
    width: int,
    y0: int,
    rows: int,
    ncolors: int,
    keycolor: int,
    k: int,
)
    requires
        1 <= width,
        k <= ncolors <= i32::MAX,
    ensures
        runs_miss(
            band_runs(working_map(pixels, width, y0, rows, ncolors, keycolor), width, k),
            keycolor,
        ),
    decreases k,
{
    if k > 0 {
        let map = working_map(pixels, width, y0, rows, ncolors, keycolor);
        lemma_band_runs_miss_the_key(pixels, width, y0, rows, ncolors, keycolor, k - 1);
        let a = band_runs(map, width, k - 1);
        let row = map_row(map, width, k - 1);
        let b = row_runs(row, k - 1, 0);
        assert(0 <= (k - 1) * width && (k - 1) * width + width <= ncolors * width)
            by (nonlinear_arith)
            requires
                0 < k <= ncolors,
                1 <= width,
        ;
        if k - 1 == keycolor {
            assert forall|j: int| 0 <= j < row.len() implies #[trigger] row[j] == 0 by {
                assert(((k - 1) * width + j) / width == k - 1) by (nonlinear_arith)
                    requires
                        0 <= j < width,
                        0 < k,
                ;
                assert(row[j] == map[(k - 1) * width + j]);
            }
            lemma_empty_row_has_no_run(row, k - 1, 0);
            assert(a + b =~= a);
        } else {
            lemma_row_runs_have_their_slot(row, k - 1, 0);
            assert forall|i: int| 0 <= i < (a + b).len() implies (#[trigger] (a + b)[i]).pal
                != keycolor by {
                if i < a.len() {
                    assert((a + b)[i] == a[i]);
                } else {
                    assert((a + b)[i] == b[i - a.len()]);
                }
            }
        }
    }
}

/// The bands of a body are tidy, and leave the pen without a pending run
/// that is not plain.
pub proof fn lemma_bands_are_tidy(pixels: Seq<u8>, y0: int, pen: Pen, o: BodyOptions)
    requires
        o.ncolors <= i32::MAX,
        0 <= o.keycolor < o.ncolors ==> 1 <= o.width,
        pen_is_plain(pen),
    ensures
        tidy(bands(pixels, y0, pen, o).0, o.ncolors, o.keycolor),
        pen_is_plain(bands(pixels, y0, pen, o).1),
    decreases o.height - y0,
{
    if 0 <= y0 < o.height {
        let n = o.ncolors;
        let key = o.keycolor;
        let rows = band_height(o.height, y0);
        let map = working_map(pixels, o.width, y0, rows, o.ncolors, o.keycolor);
        let runs = band_runs(map, o.width, o.ncolors);
        lemma_band_runs_have_slots(map, o.width, o.ncolors);
        if 0 <= key < n {
            lemma_band_runs_miss_the_key(pixels, o.width, y0, rows, n, key, n);
        }
        lemma_lines_are_tidy(runs, true, pen, map, rows, fillable(pixels, y0, o), o.band(), n, key);
        let band = band_bytes(pixels, y0, pen, o);
        let feed = if y0 == 0 {
            Seq::<u8>::empty()
        } else {
            seq![45u8]
        };
        assert(tidy(feed, n, key)) by {
            if y0 != 0 {
                assert(feed[0] == 45);
            }
        }
        lemma_tidy_concat(
            feed,
            lines(runs, true, pen, map, rows, fillable(pixels, y0, o), o.band()).0,
            n,
            key,
        );
        if y0 + BAND_ROWS < o.height {
            lemma_bands_are_tidy(pixels, y0 + BAND_ROWS, band.1, o);
            lemma_tidy_concat(band.0, bands(pixels, y0 + BAND_ROWS, band.1, o).0, n, key);
        } else {
            assert(band.0 + Seq::<u8>::empty() =~= band.0);
        }
    }
}

/// Every `#` of a body is followed by the numeral of a slot below the number
/// of slots that is not the key color, and the numeral by no digit: a body
/// selects and defines the slots of its palette and no other, and never the
/// key color.
pub proof fn lemma_body_names_its_slots(
    pixels: Seq<u8>,
    palette: Seq<u8>,
    save_pixel: u8,
    save_count: int,
    o: BodyOptions,
)
    requires
        o.ncolors <= i32::MAX,
        0 <= o.keycolor < o.ncolors ==> 1 <= o.width,
        save_count > 0 ==> plain(save_pixel),
    ensures
        slots_below(
            body_bytes(pixels, palette, save_pixel, save_count, o),
            o.ncolors,
            o.keycolor,
        ),
        opens_clean(body_bytes(pixels, palette, save_pixel, save_count, o)),
        pen_is_plain(bands(pixels, 0, body_pen(save_pixel, save_count), o).1),
{
    let n = o.ncolors;
    let key = o.keycolor;
    let section = if crate::body::defines_palette(o) {
        palette_section(palette, o.ncolors, o.keycolor, o.hls)
    } else {
        Seq::<u8>::empty()
    };
    let end = if o.highcolor {
        seq![36u8]
    } else {
        Seq::<u8>::empty()
    };
    lemma_palette_section_is_tidy(palette, o.ncolors, o.keycolor, o.hls, n);
    lemma_bands_are_tidy(pixels, 0, body_pen(save_pixel, save_count), o);
    assert(tidy(end, n, key)) by {
        if o.highcolor {
            assert(end[0] == 36);
        }
    }
    let data = bands(pixels, 0, body_pen(save_pixel, save_count), o).0;
    lemma_tidy_concat(section, data, n, key);
    lemma_tidy_concat(section + data, end, n, key);
}

/// No `#` in the bodies of the passes of the high-color encoder names slot
/// 255: each is followed by the numeral of a slot below 255, and the numeral
/// by no digit.
pub proof fn lemma_passes_name_no_unresolved_slot(
    c0: Canvas,
    f: Frame,
    pen0: Pen,
    o: BodyOptions,
    n: nat,
)
    requires
        o.ncolors == ASSIGNABLE,
        o.keycolor == 255,
        pen_is_plain(pen0),
    ensures
        slots_below(highcolor_run(c0, f, pen0, o, n).0, 255, 255),
        opens_clean(highcolor_run(c0, f, pen0, o, n).0),
        pen_is_plain(highcolor_run(c0, f, pen0, o, n).3),
    decreases n,
{
    if n > 0 {
        lemma_passes_name_no_unresolved_slot(c0, f, pen0, o, (n - 1) as nat);
        let before = highcolor_run(c0, f, pen0, o, (n - 1) as nat);
        if before.2 < f.height {
            let scanned = pass(before.1, f, before.2);
            let po = BodyOptions { height: scanned.1, ..o };
            let pen = before.3;
            lemma_body_names_its_slots(
                scanned.0.paletted,
                scanned.0.palette,
                pen.save_pixel,
                pen.save_count,
                po,
            );
            lemma_tidy_concat(
                before.0,
                body_bytes(
                    scanned.0.paletted,
                    scanned.0.palette,
                    pen.save_pixel,
                    pen.save_count,
                    po,
                ),
                255,
                255,
            );
        }
    }
}

/// A stream that starts with the header and ends with the terminator is
/// tidy where what stands between them is.
pub proof fn lemma_envelope_is_tidy(
    width: int,
    height: int,
    skip_envelope: bool,
    eight_bit: bool,
    data: Seq<u8>,
    n: int,
    key: int,
)
    requires
        tidy(data, n, key),
    ensures
        tidy(
            header_bytes(width, height, skip_envelope, eight_bit) + data + terminator(
                skip_envelope,
                false,
                eight_bit,
            ),
            n,
            key,
        ),
{
    let header = header_bytes(width, height, skip_envelope, eight_bit);
    let end = terminator(skip_envelope, false, eight_bit);
    let intro = introducer(skip_envelope, eight_bit);
    lemma_numeral(width);
    lemma_numeral(height);
    assert(header =~= intro + seq![113u8] + seq![34u8, 49u8, 59u8, 49u8, 59u8] + decimal(width)
        + seq![59u8] + decimal(height));
    assert(hashless(header));
    assert(header[0] == if skip_envelope {
        113u8
    } else {
        intro[0]
    });
    lemma_hashless_is_tidy(header, n, key);
    assert(tidy(end, n, key)) by {
        if end.len() > 0 {
            assert(!is_digit(end[0]));
        }
    }
    lemma_tidy_concat(header, data, n, key);
    lemma_tidy_concat(header + data, end, n, key);
}

/// In the stream of an image of palette indices, written without the
/// wrapping of packets by a writer that had written nothing and had no run
/// pending, every `#` is followed by the numeral of a slot below the number
/// of colors that is not the key color, and the numeral by no digit.
pub proof fn lemma_image_stream_names_its_slots(
    out: &sixel_output,
    pre: &sixel_output,
    pixels: Seq<u8>,
    width: int,
    height: int,
    dither: &DitherConf,
)
    requires
        out.finished(pre, pre.dither_bytes(pixels, width, height, dither)),
        pre.sink@.len() == 0,
        pre.buffer@.len() == 0,
        !pre.penetrate_multiplexer,
        pre.save_count > 0 ==> plain(pre.save_pixel),
        1 <= width,
    ensures
        slots_below(out.sink@, dither.ncolors as int, dither.keycolor as int),
{
    let o = pre.body_options(
        width,
        height,
        dither.ncolors as int,
        dither.keycolor as int,
        dither.bodyonly,
        false,
    );
    let body = body_bytes(pixels, dither.palette@, pre.save_pixel, pre.save_count as int, o);
    lemma_body_names_its_slots(pixels, dither.palette@, pre.save_pixel, pre.save_count as int, o);
    lemma_envelope_is_tidy(
        width,
        height,
        pre.skip_dcs_envelope,
        pre.has_8bit_control,
        body,
        dither.ncolors as int,
        dither.keycolor as int,
    );
    out.lemma_finished_plain(pre, pre.dither_bytes(pixels, width, height, dither));
    assert(out.sink@ =~= header_bytes(width, height, pre.skip_dcs_envelope, pre.has_8bit_control)
        + body + terminator(pre.skip_dcs_envelope, false, pre.has_8bit_control));
}

/// In the stream of an image that the high-color encoder has encoded,
/// written without the wrapping of packets by a writer that had written
/// nothing and had no run pending, no `#` names slot 255: each is followed
/// by the numeral of a slot below 255, and the numeral by no digit.
pub proof fn lemma_highcolor_stream_names_no_unresolved_slot(
    out: &sixel_output,
    pre: &sixel_output,
    pixels0: Seq<u8>,
    width: int,
    height: int,
    dither0: &DitherConf,
    dither: &DitherConf,
    n: nat,
)
    requires
        out.highcolor_encoded(pre, pixels0, width, height, dither0, dither, n),
        pre.sink@.len() == 0,
        pre.buffer@.len() == 0,
        !pre.penetrate_multiplexer,
        pre.save_count > 0 ==> plain(pre.save_pixel),
    ensures
        slots_below(out.sink@, 255, 255),
{
    let f = Frame { width, height, method: dither0.method_for_diffuse };
    let o = pre.body_options(width, 0, ASSIGNABLE as int, 255, dither0.bodyonly, true);
    let c0 = initial_canvas(pixels0, dither0.palette@, f);
    let run = highcolor_run(c0, f, pre.pen(), o, n);
    lemma_passes_name_no_unresolved_slot(c0, f, pre.pen(), o, n);
    lemma_envelope_is_tidy(
        width,
        height,
        pre.skip_dcs_envelope,
        pre.has_8bit_control,
        run.0,
        255,
        255,
    );
    let header = header_bytes(width, height, pre.skip_dcs_envelope, pre.has_8bit_control);
    out.lemma_finished_plain(pre, header + run.0);
    assert(out.sink@ =~= header + run.0 + terminator(
        pre.skip_dcs_envelope,
        false,
        pre.has_8bit_control,
    ));
}

} // verus!
