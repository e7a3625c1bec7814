//! What holds of every stream that the writer produces.

use vstd::prelude::*;
use crate::band::Pen;
use crate::body::{bands, body_bytes, body_pen, defines_palette, palette_section, BodyOptions};
use crate::dither::DitherConf;
use crate::body::body_error;
use crate::encode::{highcolor_run, initial_canvas, spec_preparation, Preparation};
use crate::enums::PixelFormat;
use crate::pixelformat::{lemma_normalized_len, source_len};
use crate::highcolor::{pass, Canvas, Frame};
use crate::output::sixel_output;
use crate::slots::ASSIGNABLE;
use crate::stream::{
    dcs_end_7bit, dcs_start_7bit, lemma_settled_plain, packet, settled, split_size, wrapped,
    SIXEL_OUTPUT_PACKET_SIZE,
};
use crate::decimal::{decimal, digits, lemma_digits_are_digits};
use crate::protocol::{
    active_after, header_bytes, hls_definition, introducer, node_bytes, node_chars,
    raster_attributes, rgb_definition, select_bytes, terminator,
};
use crate::runs::{repeated, run_bytes, run_stream, sixel_char};

verus! {

/// How often the byte `b` occurs in `s`.
pub open spec fn occurrences(s: Seq<u8>, b: u8) -> nat
    decreases s.len(),
{
    if s.len() == 0 {
        0
    } else {
        occurrences(s.drop_last(), b) + if s.last() == b {
            1nat
        } else {
            0nat
        }
    }
}

/// The occurrences in a concatenation are those in its parts.
pub proof fn lemma_occurrences_concat(s: Seq<u8>, t: Seq<u8>, b: u8)
    ensures
        occurrences(s + t, b) == occurrences(s, b) + occurrences(t, b),
    decreases t.len(),
{
    if t.len() == 0 {
        assert(s + t =~= s);
    } else {
        assert((s + t).drop_last() =~= s + t.drop_last());
        lemma_occurrences_concat(s, t.drop_last(), b);
    }
}

/// A byte that is none of the bytes of `s` does not occur in `s`.
pub proof fn lemma_absent(s: Seq<u8>, b: u8)
    requires
        forall|i: int| 0 <= i < s.len() ==> s[i] != b,
    ensures
        occurrences(s, b) == 0,
    decreases s.len(),
{
    if s.len() > 0 {
        lemma_absent(s.drop_last(), b);
    }
}

/// A numeral holds digits and, for a negative number, a minus sign in
/// front: no other byte occurs in it.
pub proof fn lemma_decimal_alphabet(i: int, b: u8)
    requires
        !(48 <= b <= 57),
        b != 45,
    ensures
        occurrences(decimal(i), b) == 0,
{
    if i < 0 {
        lemma_digits_are_digits((-i) as nat);
        lemma_absent(seq![45u8] + digits((-i) as nat), b);
    } else {
        lemma_digits_are_digits(i as nat);
        lemma_absent(digits(i as nat), b);
    }
}

/// The header holds `q` exactly once, and ends with the raster attributes,
/// whose last two numbers are the width and the height.
pub proof fn lemma_header(width: int, height: int, skip_envelope: bool, eight_bit: bool)
    ensures
        occurrences(header_bytes(width, height, skip_envelope, eight_bit), 113u8) == 1,
        header_bytes(width, height, skip_envelope, eight_bit) == introducer(
            skip_envelope,
            eight_bit,
        ) + seq![113u8] + seq![34u8, 49u8, 59u8, 49u8, 59u8] + decimal(width) + seq![59u8]
            + decimal(height),
{
    let q = 113u8;
    let intro = introducer(skip_envelope, eight_bit);
    let lead = seq![34u8, 49u8, 59u8, 49u8, 59u8];
    lemma_absent(intro, q);
    lemma_absent(lead, q);
    lemma_absent(seq![59u8], q);
    lemma_decimal_alphabet(width, q);
    lemma_decimal_alphabet(height, q);
    assert(occurrences(seq![q], q) == 1) by {
        let one = seq![q];
        assert(one.drop_last() =~= Seq::<u8>::empty());
        assert(occurrences(one.drop_last(), q) == 0);
        assert(one.last() == q);
    }
    lemma_occurrences_concat(intro, seq![q], q);
    lemma_occurrences_concat(lead, decimal(width), q);
    lemma_occurrences_concat(lead + decimal(width), seq![59u8], q);
    lemma_occurrences_concat(lead + decimal(width) + seq![59u8], decimal(height), q);
    lemma_occurrences_concat(intro + seq![q], raster_attributes(width, height), q);
    assert(header_bytes(width, height, skip_envelope, eight_bit) =~= intro + seq![q] + lead
        + decimal(width) + seq![59u8] + decimal(height));
}

/// A palette definition in RGB holds no `q`.
pub proof fn lemma_rgb_definition_has_no_q(palette: Seq<u8>, n: int)
    ensures
        occurrences(rgb_definition(palette, n), 113u8) == 0,
{
    let q = 113u8;
    let a = seq![35u8];
    let b = decimal(n);
    let c = seq![59u8, 50u8, 59u8];
    let d = decimal(crate::protocol::percent(palette[n * 3]));
    let e = seq![59u8];
    let f = decimal(crate::protocol::percent(palette[n * 3 + 1]));
    let g = decimal(crate::protocol::percent(palette[n * 3 + 2]));
    lemma_absent(a, q);
    lemma_absent(c, q);
    lemma_absent(e, q);
    lemma_decimal_alphabet(n, q);
    lemma_decimal_alphabet(crate::protocol::percent(palette[n * 3]), q);
    lemma_decimal_alphabet(crate::protocol::percent(palette[n * 3 + 1]), q);
    lemma_decimal_alphabet(crate::protocol::percent(palette[n * 3 + 2]), q);
    lemma_occurrences_concat(a, b, q);
    lemma_occurrences_concat(a + b, c, q);
    lemma_occurrences_concat(a + b + c, d, q);
    lemma_occurrences_concat(a + b + c + d, e, q);
    lemma_occurrences_concat(a + b + c + d + e, f, q);
    lemma_occurrences_concat(a + b + c + d + e + f, e, q);
    lemma_occurrences_concat(a + b + c + d + e + f + e, g, q);
}

/// A palette definition in HLS holds no `q`.
pub proof fn lemma_hls_definition_has_no_q(palette: Seq<u8>, n: int)
    ensures
        occurrences(hls_definition(palette, n), 113u8) == 0,
{
    let q = 113u8;
    let r = palette[n * 3] as int;
    let g = palette[n * 3 + 1] as int;
    let bl = palette[n * 3 + 2] as int;
    let a = seq![35u8];
    let b = decimal(n);
    let c = seq![59u8, 49u8, 59u8];
    let d = decimal(crate::protocol::hue(r, g, bl));
    let e = seq![59u8];
    let f = decimal(crate::protocol::lightness(r, g, bl));
    let h = decimal(crate::protocol::saturation(r, g, bl));
    lemma_absent(a, q);
    lemma_absent(c, q);
    lemma_absent(e, q);
    lemma_decimal_alphabet(n, q);
    lemma_decimal_alphabet(crate::protocol::hue(r, g, bl), q);
    lemma_decimal_alphabet(crate::protocol::lightness(r, g, bl), q);
    lemma_decimal_alphabet(crate::protocol::saturation(r, g, bl), q);
    lemma_occurrences_concat(a, b, q);
    lemma_occurrences_concat(a + b, c, q);
    lemma_occurrences_concat(a + b + c, d, q);
    lemma_occurrences_concat(a + b + c + d, e, q);
    lemma_occurrences_concat(a + b + c + d + e, f, q);
    lemma_occurrences_concat(a + b + c + d + e + f, e, q);
    lemma_occurrences_concat(a + b + c + d + e + f + e, h, q);
}

/// The palette section holds no `q`.
pub proof fn lemma_palette_section_has_no_q(palette: Seq<u8>, n: int, keycolor: int, hls: bool)
    ensures
        occurrences(palette_section(palette, n, keycolor, hls), 113u8) == 0,
    decreases n,
{
    if n > 0 {
        lemma_palette_section_has_no_q(palette, n - 1, keycolor, hls);
        let one = if n - 1 == keycolor {
            Seq::<u8>::empty()
        } else if hls {
            hls_definition(palette, n - 1)
        } else {
            rgb_definition(palette, n - 1)
        };
        lemma_hls_definition_has_no_q(palette, n - 1);
        lemma_rgb_definition_has_no_q(palette, n - 1);
        lemma_occurrences_concat(palette_section(palette, n - 1, keycolor, hls), one, 113u8);
    }
}

/// The body holds `q` in its bands only: the palette section and the
/// carriage return after a pass of the high-color encoder hold none.
pub proof fn lemma_body_has_q_in_its_bands(
    pixels: Seq<u8>,
    palette: Seq<u8>,
    save_pixel: u8,
    save_count: int,
    o: BodyOptions,
)
    ensures
        occurrences(body_bytes(pixels, palette, save_pixel, save_count, o), 113u8) == occurrences(
            bands(pixels, 0, body_pen(save_pixel, save_count), o).0,
            113u8,
        ),
{
    let q = 113u8;
    let section = if defines_palette(o) {
        palette_section(palette, o.ncolors, o.keycolor, o.hls)
    } else {
        Seq::<u8>::empty()
    };
    let data = bands(pixels, 0, body_pen(save_pixel, save_count), o).0;
    let end = if o.highcolor {
        seq![36u8]
    } else {
        Seq::<u8>::empty()
    };
    lemma_palette_section_has_no_q(palette, o.ncolors, o.keycolor, o.hls);
    lemma_absent(end, q);
    lemma_occurrences_concat(section, data, q);
    lemma_occurrences_concat(section + data, end, q);
}

/// Whether a byte is one of those of the introducers and terminators.
pub open spec fn envelope_byte(b: u8) -> bool {
    b == 0x1B || b == 0x50 || b == 0x5C || b == 0xC8 || b == 0xA0 || b == 0xB4
}

/// The envelopes of the pieces of a packet add no byte that is none of
/// theirs.
pub proof fn lemma_wrapped_keeps(data: Seq<u8>, b: u8)
    requires
        !envelope_byte(b),
    ensures
        occurrences(wrapped(data), b) == occurrences(data, b),
    decreases data.len(),
{
    let start = dcs_start_7bit();
    let end = dcs_end_7bit();
    lemma_absent(start, b);
    lemma_absent(end, b);
    if data.len() == 0 {
    } else if data.len() <= split_size() {
        lemma_occurrences_concat(start, data, b);
        lemma_occurrences_concat(start + data, end, b);
    } else {
        let head = data.take(split_size());
        let tail = data.skip(split_size());
        lemma_wrapped_keeps(tail, b);
        assert(head + tail =~= data);
        lemma_occurrences_concat(head, tail, b);
        lemma_occurrences_concat(start, head, b);
        lemma_occurrences_concat(start + head, end, b);
        lemma_occurrences_concat(start + head + end, wrapped(tail), b);
    }
}

/// Flushing packets adds and drops no byte that is none of the envelopes'.
pub proof fn lemma_settled_keeps(sink: Seq<u8>, buffer: Seq<u8>, penetrate: bool, b: u8)
    requires
        !envelope_byte(b),
    ensures
        occurrences(settled(sink, buffer, penetrate).0, b) + occurrences(
            settled(sink, buffer, penetrate).1,
            b,
        ) == occurrences(sink, b) + occurrences(buffer, b),
    decreases buffer.len(),
{
    let p = SIXEL_OUTPUT_PACKET_SIZE as int;
    if buffer.len() >= p {
        let head = buffer.take(p);
        let tail = buffer.skip(p);
        assert(head + tail =~= buffer);
        lemma_occurrences_concat(head, tail, b);
        lemma_wrapped_keeps(head, b);
        lemma_occurrences_concat(sink, packet(head, penetrate), b);
        lemma_settled_keeps(sink + packet(head, penetrate), tail, penetrate, b);
    }
}

/// A finished stream holds a byte that is none of the envelopes' as often as
/// the sink and the buffer held it before and the bytes written hold it:
/// with or without the wrapping of packets.
pub proof fn lemma_finished_keeps(out: &sixel_output, pre: &sixel_output, bytes: Seq<u8>, b: u8)
    requires
        out.finished(pre, bytes),
        !envelope_byte(b),
    ensures
        occurrences(out.sink@, b) == occurrences(pre.sink@, b) + occurrences(pre.buffer@, b)
            + occurrences(bytes, b),
{
    let pen = pre.penetrate_multiplexer;
    let (sent, rest) = settled(pre.sink@, pre.buffer@ + bytes, pen);
    let end = terminator(pre.skip_dcs_envelope, pen, pre.has_8bit_control);
    let (sent2, rest2) = settled(sent, rest + end, pen);
    lemma_occurrences_concat(pre.buffer@, bytes, b);
    lemma_settled_keeps(pre.sink@, pre.buffer@ + bytes, pen, b);
    lemma_absent(end, b);
    lemma_occurrences_concat(rest, end, b);
    lemma_settled_keeps(sent, rest + end, pen, b);
    if rest2.len() == 0 {
    } else if pen {
        lemma_wrapped_keeps(rest2, b);
        lemma_absent(dcs_end_7bit(), b);
        lemma_occurrences_concat(sent2, wrapped(rest2), b);
        lemma_occurrences_concat(sent2 + wrapped(rest2), dcs_end_7bit(), b);
    } else {
        lemma_occurrences_concat(sent2, rest2, b);
    }
}

/// The stream of an image of palette indices holds `q` once in front of the
/// bands, in the header, and else as a character of the bands: with or
/// without the wrapping of packets. Written by a writer that has written
/// nothing before, the stream holds exactly one `q` where the bands hold
/// none.
pub proof fn lemma_image_stream_has_one_q(
    out: &sixel_output,
    pre: &sixel_output,
    pixels: Seq<u8>,
    width: int,
    height: int,
    dither: &DitherConf,
)
    requires
        out.finished(pre, pre.dither_bytes(pixels, width, height, dither)),
    ensures
        occurrences(out.sink@, 113u8) == occurrences(pre.sink@, 113u8) + occurrences(
            pre.buffer@,
            113u8,
        ) + 1 + occurrences(image_bands(pre, pixels, width, height, dither), 113u8),
        pre.sink@.len() == 0 && pre.buffer@.len() == 0 && occurrences(
            image_bands(pre, pixels, width, height, dither),
            113u8,
        ) == 0 ==> occurrences(out.sink@, 113u8) == 1,
{
    let q = 113u8;
    let header = header_bytes(width, height, pre.skip_dcs_envelope, pre.has_8bit_control);
    let o = pre.body_options(
        width,
        height,
        dither.ncolors as int,
        dither.keycolor as int,
        dither.bodyonly,
        false,
    );
    let body = body_bytes(pixels, dither.palette@, pre.save_pixel, pre.save_count as int, o);
    lemma_header(width, height, pre.skip_dcs_envelope, pre.has_8bit_control);
    lemma_body_has_q_in_its_bands(pixels, dither.palette@, pre.save_pixel, pre.save_count as int, o);
    lemma_occurrences_concat(header, body, q);
    lemma_finished_keeps(out, pre, header + body, q);
}

/// The bands of an image of palette indices, as `encode_dither` writes them.
pub open spec fn image_bands(
    pre: &sixel_output,
    pixels: Seq<u8>,
    width: int,
    height: int,
    dither: &DitherConf,
) -> Seq<u8> {
    bands(
        pixels,
        0,
        body_pen(pre.save_pixel, pre.save_count as int),
        pre.body_options(
            width,
            height,
            dither.ncolors as int,
            dither.keycolor as int,
            dither.bodyonly,
            false,
        ),
    ).0
}

/// The bands of the first `n` passes of the high-color encoder, pass after
/// pass.
pub open spec fn highcolor_bands(c0: Canvas, f: Frame, pen0: Pen, o: BodyOptions, n: nat) -> Seq<
    u8,
>
    decreases n,
{
    if n == 0 {
        Seq::<u8>::empty()
    } else {
        let before = highcolor_run(c0, f, pen0, o, (n - 1) as nat);
        let so_far = highcolor_bands(c0, f, pen0, o, (n - 1) as nat);
        if before.2 >= f.height {
            so_far
        } else {
            let scanned = pass(before.1, f, before.2);
            so_far + bands(
                scanned.0.paletted,
                0,
                body_pen(before.3.save_pixel, before.3.save_count),
                BodyOptions { height: scanned.1, ..o },
            ).0
        }
    }
}

/// The bodies of the passes of the high-color encoder hold `q` in their
/// bands only.
pub proof fn lemma_passes_have_q_in_their_bands(
    c0: Canvas,
    f: Frame,
    pen0: Pen,
    o: BodyOptions,
    n: nat,
)
    ensures
        occurrences(highcolor_run(c0, f, pen0, o, n).0, 113u8) == occurrences(
            highcolor_bands(c0, f, pen0, o, n),
            113u8,
        ),
    decreases n,
{
    if n > 0 {
        lemma_passes_have_q_in_their_bands(c0, f, pen0, o, (n - 1) as nat);
        let before = highcolor_run(c0, f, pen0, o, (n - 1) as nat);
        if before.2 < f.height {
            let scanned = pass(before.1, f, before.2);
            let po = BodyOptions { height: scanned.1, ..o };
            let body = body_bytes(
                scanned.0.paletted,
                scanned.0.palette,
                before.3.save_pixel,
                before.3.save_count,
                po,
            );
            let data = bands(
                scanned.0.paletted,
                0,
                body_pen(before.3.save_pixel, before.3.save_count),
                po,
            ).0;
            lemma_body_has_q_in_its_bands(
                scanned.0.paletted,
                scanned.0.palette,
                before.3.save_pixel,
                before.3.save_count,
                po,
            );
            lemma_occurrences_concat(before.0, body, 113u8);
            lemma_occurrences_concat(highcolor_bands(c0, f, pen0, o, (n - 1) as nat), data, 113u8);
        }
    }
}

/// The stream of an image that the high-color encoder has encoded with `n`
/// passes holds `q` once in front of the bands, in the header, and else as a
/// character of the bands of the passes: with or without the wrapping of
/// packets. Written by a writer that has written nothing before, the stream
/// holds exactly one `q` where the bands hold none.
pub proof fn lemma_highcolor_stream_has_one_q(
    out: &sixel_output,
    pre: &sixel_output,
    pixels0: Seq<u8>,
    width: int,
    height: int,
    dither0: &DitherConf,
    dither: &DitherConf,
    n: nat,
)
    requires
        out.highcolor_encoded(pre, pixels0, width, height, dither0, dither, n),
    ensures
        occurrences(out.sink@, 113u8) == occurrences(pre.sink@, 113u8) + occurrences(
            pre.buffer@,
            113u8,
        ) + 1 + occurrences(passes_bands(pre, pixels0, width, height, dither0, n), 113u8),
        pre.sink@.len() == 0 && pre.buffer@.len() == 0 && occurrences(
            passes_bands(pre, pixels0, width, height, dither0, n),
            113u8,
        ) == 0 ==> occurrences(out.sink@, 113u8) == 1,
{
    let q = 113u8;
    let f = Frame { width, height, method: dither0.method_for_diffuse };
    let o = pre.body_options(width, 0, ASSIGNABLE as int, 255, dither0.bodyonly, true);
    let c0 = initial_canvas(pixels0, dither0.palette@, f);
    let header = header_bytes(width, height, pre.skip_dcs_envelope, pre.has_8bit_control);
    let run = highcolor_run(c0, f, pre.pen(), o, n);
    lemma_header(width, height, pre.skip_dcs_envelope, pre.has_8bit_control);
    lemma_passes_have_q_in_their_bands(c0, f, pre.pen(), o, n);
    lemma_occurrences_concat(header, run.0, q);
    lemma_finished_keeps(out, pre, header + run.0, q);
}

/// The bands of the first `n` passes over an image, as `encode_highcolor`
/// writes them.
pub open spec fn passes_bands(
    pre: &sixel_output,
    pixels0: Seq<u8>,
    width: int,
    height: int,
    dither0: &DitherConf,
    n: nat,
) -> Seq<u8> {
    let f = Frame { width, height, method: dither0.method_for_diffuse };
    highcolor_bands(
        initial_canvas(pixels0, dither0.palette@, f),
        f,
        pre.pen(),
        pre.body_options(width, 0, ASSIGNABLE as int, 255, dither0.bodyonly, true),
        n,
    )
}

/// Ten to the power of `k`.
pub open spec fn power_of_ten(k: nat) -> nat
    decreases k,
{
    if k == 0 {
        1
    } else {
        10 * power_of_ten((k - 1) as nat)
    }
}

/// A number below ten to the power of `k` has no more than `k` digits.
pub proof fn lemma_digits_len(n: nat, k: nat)
    requires
        1 <= k,
        n < power_of_ten(k),
    ensures
        1 <= digits(n).len() <= k,
    decreases k,
{
    reveal_with_fuel(power_of_ten, 2);
    if n >= 10 {
        lemma_digits_len(n / 10, (k - 1) as nat);
    }
}

/// The header of an image whose dimensions are 32-bit numbers is shorter than
/// a piece of a wrapped packet.
pub proof fn lemma_header_is_short(width: int, height: int, skip_envelope: bool, eight_bit: bool)
    requires
        i32::MIN <= width <= i32::MAX,
        i32::MIN <= height <= i32::MAX,
    ensures
        1 <= header_bytes(width, height, skip_envelope, eight_bit).len() <= 31,
{
    reveal_with_fuel(power_of_ten, 11);
    assert(power_of_ten(10) == 10_000_000_000nat);
    lemma_digits_len(
        if width < 0 {
            (-width) as nat
        } else {
            width as nat
        },
        10,
    );
    lemma_digits_len(
        if height < 0 {
            (-height) as nat
        } else {
            height as nat
        },
        10,
    );
}

/// Flushing packets leaves what the sink holds in front of what it adds.
pub proof fn lemma_settled_extends(sink: Seq<u8>, buffer: Seq<u8>, penetrate: bool)
    ensures
        settled(sink, buffer, penetrate).0.len() >= sink.len(),
        settled(sink, buffer, penetrate).0.take(sink.len() as int) == sink,
    decreases buffer.len(),
{
    let p = SIXEL_OUTPUT_PACKET_SIZE as int;
    if buffer.len() >= p {
        let next = sink + packet(buffer.take(p), penetrate);
        lemma_settled_extends(next, buffer.skip(p), penetrate);
        let end = settled(next, buffer.skip(p), penetrate).0;
        assert(end.take(sink.len() as int) =~= end.take(next.len() as int).take(sink.len() as int));
        assert(next.take(sink.len() as int) =~= sink);
    } else {
        assert(sink.take(sink.len() as int) =~= sink);
    }
}

/// The pieces of a packet start with an introducer and the first bytes of
/// the packet.
pub proof fn lemma_wrapped_starts(data: Seq<u8>, k: int)
    requires
        0 < k <= split_size(),
        k <= data.len(),
    ensures
        wrapped(data).len() >= 2 + k,
        wrapped(data).take(2 + k) == dcs_start_7bit() + data.take(k),
{
    let start = dcs_start_7bit();
    let end = dcs_end_7bit();
    if data.len() <= split_size() {
        assert((start + data + end).take(2 + k) =~= start + data.take(k));
    } else {
        let head = data.take(split_size());
        assert((start + head + end + wrapped(data.skip(split_size()))).take(2 + k) =~= start
            + data.take(k));
    }
}

/// A finished stream of a writer that has written nothing before starts with
/// the first bytes written: as they are without the wrapping of packets, and
/// behind the introducer of the first piece with it.
pub proof fn lemma_finished_starts(out: &sixel_output, pre: &sixel_output, bytes: Seq<u8>, k: int)
    requires
        out.finished(pre, bytes),
        pre.sink@.len() == 0,
        pre.buffer@.len() == 0,
        0 < k <= split_size(),
        k <= bytes.len(),
    ensures
        !pre.penetrate_multiplexer ==> out.sink@.len() >= k && out.sink@.take(k) == bytes.take(k),
        pre.penetrate_multiplexer ==> out.sink@.len() >= 2 + k && out.sink@.take(2 + k)
            == dcs_start_7bit() + bytes.take(k),
{
    let pen = pre.penetrate_multiplexer;
    let p = SIXEL_OUTPUT_PACKET_SIZE as int;
    assert(pre.buffer@ + bytes =~= bytes);
    assert(pre.sink@ =~= Seq::<u8>::empty());
    let (sent, rest) = settled(pre.sink@, bytes, pen);
    let end = terminator(pre.skip_dcs_envelope, pen, pre.has_8bit_control);
    let (sent2, rest2) = settled(sent, rest + end, pen);
    lemma_settled_extends(sent, rest + end, pen);
    if !pen {
        lemma_settled_plain(pre.sink@, bytes);
        lemma_settled_plain(sent, rest + end);
        assert(sent + rest =~= bytes);
        assert(sent2 + rest2 =~= bytes + end);
        if rest2.len() == 0 {
            assert(sent2 =~= sent2 + rest2);
        }
        assert(out.sink@ =~= bytes + end);
        assert((bytes + end).take(k) =~= bytes.take(k));
    } else {
        assert(end =~= Seq::<u8>::empty());
        assert(rest + end =~= rest);
        if bytes.len() >= p {
            let head = bytes.take(p);
            let first = pre.sink@ + wrapped(head);
            lemma_settled_extends(first, bytes.skip(p), pen);
            lemma_wrapped_starts(head, k);
            assert(first =~= wrapped(head));
            assert(head.take(k) =~= bytes.take(k));
            assert(sent.take(2 + k) =~= sent.take(first.len() as int).take(2 + k));
            assert(sent2.take(2 + k) =~= sent2.take(sent.len() as int).take(2 + k));
            if rest2.len() != 0 {
                assert((sent2 + wrapped(rest2) + dcs_end_7bit()).take(2 + k) =~= sent2.take(2 + k));
            }
        } else {
            assert(sent =~= Seq::<u8>::empty());
            assert(rest =~= bytes);
            assert(sent2 =~= Seq::<u8>::empty());
            assert(rest2 =~= bytes);
            lemma_wrapped_starts(bytes, k);
            assert((sent2 + wrapped(rest2) + dcs_end_7bit()).take(2 + k) =~= wrapped(bytes).take(
                2 + k,
            ));
        }
    }
}

/// The stream that `encode_dither` or `encode_highcolor` has finished for a
/// writer that has written nothing before starts with the header: `q` is
/// followed by the raster attributes with the width and the height. With the
/// wrapping of packets the header stands behind the introducer of the first
/// piece.
pub proof fn lemma_stream_starts_with_header(
    out: &sixel_output,
    pre: &sixel_output,
    width: int,
    height: int,
    rest: Seq<u8>,
)
    requires
        out.finished(
            pre,
            header_bytes(width, height, pre.skip_dcs_envelope, pre.has_8bit_control) + rest,
        ),
        pre.sink@.len() == 0,
        pre.buffer@.len() == 0,
        i32::MIN <= width <= i32::MAX,
        i32::MIN <= height <= i32::MAX,
    ensures
        !pre.penetrate_multiplexer ==> out.sink@.take(
            header_bytes(width, height, pre.skip_dcs_envelope, pre.has_8bit_control).len() as int,
        ) == header_bytes(width, height, pre.skip_dcs_envelope, pre.has_8bit_control),
        pre.penetrate_multiplexer ==> out.sink@.take(
            2 + header_bytes(width, height, pre.skip_dcs_envelope, pre.has_8bit_control).len() as int,
        ) == dcs_start_7bit() + header_bytes(
            width,
            height,
            pre.skip_dcs_envelope,
            pre.has_8bit_control,
        ),
{
    let header = header_bytes(width, height, pre.skip_dcs_envelope, pre.has_8bit_control);
    lemma_header_is_short(width, height, pre.skip_dcs_envelope, pre.has_8bit_control);
    lemma_finished_starts(out, pre, header + rest, header.len() as int);
    assert((header + rest).take(header.len() as int) =~= header);
}

/// The body encoder rejects no image of one pixel that has its index, whose
/// palette holds a color for each of its slots, and whose pending run can
/// grow by a column.
pub proof fn lemma_one_pixel_has_a_body(
    pixels_len: int,
    palette_len: int,
    save_count: int,
    ncolors: int,
    keycolor: int,
    bodyonly: bool,
)
    requires
        pixels_len >= 1,
        palette_len >= 1,
        palette_len >= 3 * ncolors,
        0 <= ncolors <= 256,
        save_count < i32::MAX,
    ensures
        body_error(pixels_len, palette_len, save_count, 1, 1, ncolors, keycolor, bodyonly) is None,
{
}

/// `encode` has the indices of an image of one pixel whose bytes are there,
/// if the applier's indices are there where the format asks for them.
pub proof fn lemma_one_pixel_has_indices(
    pixels: Seq<u8>,
    applied: Option<&[u8]>,
    format: PixelFormat,
)
    requires
        pixels.len() >= source_len(format, 1, 1),
        spec_preparation(format) == Preparation::ApplyPalette ==> applied is Some,
    ensures
        sixel_output::palette_indices(pixels, applied, format, 1, 1) is Ok,
{
}

/// The high-color encoder rejects no image of one pixel whose bytes are
/// there, whose palette is not empty, and whose pending run can grow by a
/// column.
pub proof fn lemma_one_pixel_in_high_color(
    pixels: Seq<u8>,
    format: PixelFormat,
    palette_len: int,
    save_count: int,
)
    requires
        pixels.len() >= source_len(format, 1, 1),
        palette_len >= 1,
        save_count < i32::MAX,
    ensures
        sixel_output::highcolor_rejection(pixels, format, palette_len, save_count, 1, 1) is None,
{
    lemma_normalized_len(pixels, format, 1, 1);
}

/// A run of four or more equal characters, with no run pending, is written as
/// one repeat token whose count is the length of the run; unless the count
/// is limited and the run is longer than 255.
pub proof fn lemma_equal_characters_are_one_token(ch: u8, n: int, limit: bool)
    requires
        n >= 4,
        !limit || n <= 255,
    ensures
        run_stream(0u8, 0, repeated(ch, n), limit) == seq![33u8] + decimal(n) + seq![ch],
{
    let chars = repeated(ch, n);
    assert(chars.drop_first() =~= repeated(ch, n - 1));
    crate::runs::lemma_run_stream_of_equal(ch, 1, n - 1, limit);
    if ch == 0u8 {
        crate::runs::lemma_run_stream_of_equal(ch, 0, n, limit);
    } else {
        assert(run_bytes(0u8, 0, limit) =~= Seq::<u8>::empty());
        assert(run_stream(0u8, 0, chars, limit) =~= run_bytes(0u8, 0, limit) + run_stream(
            ch,
            1,
            chars.drop_first(),
            limit,
        ));
    }
}

/// The bytes of a run hold no `#`.
pub proof fn lemma_run_has_no_select(ch: u8, count: int, limit: bool)
    requires
        ch != 35,
    ensures
        occurrences(run_bytes(ch, count, limit), 35u8) == 0,
    decreases count,
{
    let h = 35u8;
    if count <= 0 {
    } else if limit && count > 255 {
        lemma_run_has_no_select(ch, count - 255, limit);
        lemma_absent(seq![33u8, 50u8, 53u8, 53u8, ch], h);
        lemma_occurrences_concat(
            seq![33u8, 50u8, 53u8, 53u8, ch],
            run_bytes(ch, count - 255, limit),
            h,
        );
    } else if count > 3 {
        lemma_decimal_alphabet(count, h);
        lemma_absent(seq![33u8], h);
        lemma_absent(seq![ch], h);
        lemma_occurrences_concat(seq![33u8], decimal(count), h);
        lemma_occurrences_concat(seq![33u8] + decimal(count), seq![ch], h);
    } else {
        lemma_absent(repeated(ch, count), h);
    }
}

/// The runs of sixel characters hold no `#`.
pub proof fn lemma_runs_have_no_select(ch: u8, count: int, chars: Seq<u8>, limit: bool)
    requires
        ch != 35,
        forall|i: int| 0 <= i < chars.len() ==> chars[i] != 35,
    ensures
        occurrences(run_stream(ch, count, chars, limit), 35u8) == 0,
    decreases chars.len(),
{
    lemma_run_has_no_select(ch, count, limit);
    if chars.len() > 0 {
        if chars[0] == ch {
            lemma_runs_have_no_select(ch, count + 1, chars.drop_first(), limit);
        } else {
            lemma_runs_have_no_select(chars[0], 1, chars.drop_first(), limit);
            lemma_occurrences_concat(
                run_bytes(ch, count, limit),
                run_stream(chars[0], 1, chars.drop_first(), limit),
                35u8,
            );
        }
    }
}

/// A node of the palette slot that is active is written without `#`: of
/// nodes that follow each other with one slot, only the first selects it.
pub proof fn lemma_same_slot_selects_once(
    active: int,
    pal: int,
    ncolors: int,
    keycolor: int,
    limit: bool,
    x: int,
    sx: int,
    mx: int,
    map: Seq<u8>,
)
    ensures
        select_bytes(active_after(active, pal, ncolors, keycolor), pal, ncolors, keycolor)
            == Seq::<u8>::empty(),
        occurrences(
            node_bytes(
                active_after(active, pal, ncolors, keycolor),
                0u8,
                0,
                limit,
                x,
                pal,
                sx,
                mx,
                map,
                ncolors,
                keycolor,
            ),
            35u8,
        ) == 0,
{
    let chars = node_chars(x, sx, mx, map);
    assert forall|i: int| 0 <= i < chars.len() implies chars[i] != 35 by {
        assert(sixel_char(map[x + i]) >= 63);
    }
    lemma_runs_have_no_select(0u8, 0, chars, limit);
    assert(Seq::<u8>::empty() + run_stream(0u8, 0, chars, limit) =~= run_stream(
        0u8,
        0,
        chars,
        limit,
    ));
}

} // verus!
