//! The byte sequences of the protocol's elements, as a mathematical model.

use vstd::prelude::*;
use crate::decimal::decimal;
use crate::runs::{run_stream, sixel_char};
use crate::stream::{dcs_end_7bit, dcs_end_8bit, dcs_start_7bit, dcs_start_8bit};

verus! {

/// The DCS introducer that opens the stream: none if the envelope is
/// skipped, else the 8-bit or the 7-bit one.
pub open spec fn introducer(skip_envelope: bool, eight_bit: bool) -> Seq<u8> {
    if skip_envelope {
        Seq::<u8>::empty()
    } else if eight_bit {
        dcs_start_8bit()
    } else {
        dcs_start_7bit()
    }
}

/// The string terminator that closes the stream: none if the envelope is
/// skipped or every packet has an envelope of its own, else the 8-bit or the
/// 7-bit one.
pub open spec fn terminator(skip_envelope: bool, penetrate: bool, eight_bit: bool) -> Seq<u8> {
    if skip_envelope || penetrate {
        Seq::<u8>::empty()
    } else if eight_bit {
        dcs_end_8bit()
    } else {
        dcs_end_7bit()
    }
}

/// The raster attributes: `"1;1;<width>;<height>`.
pub open spec fn raster_attributes(width: int, height: int) -> Seq<u8> {
    seq![34u8, 49u8, 59u8, 49u8, 59u8] + decimal(width) + seq![59u8] + decimal(height)
}

/// The header: the introducer, `q`, and the raster attributes. The
/// parameters in front of `q` are all zero and left out.
pub open spec fn header_bytes(
    width: int,
    height: int,
    skip_envelope: bool,
    eight_bit: bool,
) -> Seq<u8> {
    introducer(skip_envelope, eight_bit) + seq![113u8] + raster_attributes(width, height)
}

/// A color channel on the protocol's scale of 0 to 100, rounded.
pub open spec fn percent(channel: u8) -> int {
    (channel * 100 + 127) / 255
}

/// The definition of palette slot `n` in RGB: `#<n>;2;<r>;<g>;<b>`.
pub open spec fn rgb_definition(palette: Seq<u8>, n: int) -> Seq<u8> {
    seq![35u8] + decimal(n) + seq![59u8, 50u8, 59u8] + decimal(percent(palette[n * 3]))
        + seq![59u8] + decimal(percent(palette[n * 3 + 1])) + seq![59u8] + decimal(
        percent(palette[n * 3 + 2]),
    )
}

/// The quotient of `a` by a positive `b`, rounded toward zero.
pub open spec fn quotient(a: int, b: int) -> int {
    if a >= 0 {
        a / b
    } else {
        -((-a) / b)
    }
}

/// The larger of two values.
pub open spec fn larger(a: int, b: int) -> int {
    if a >= b {
        a
    } else {
        b
    }
}

/// The smaller of two values.
pub open spec fn smaller(a: int, b: int) -> int {
    if a <= b {
        a
    } else {
        b
    }
}

/// Lightness of a color, 0 to 100.
pub open spec fn lightness(r: int, g: int, b: int) -> int {
    let max = larger(larger(r, g), b);
    let min = smaller(smaller(r, g), b);
    ((max + min) * 100 + 255) / 510
}

/// Saturation of a color, 0 to 100; 0 for a gray.
pub open spec fn saturation(r: int, g: int, b: int) -> int {
    let max = larger(larger(r, g), b);
    let min = smaller(smaller(r, g), b);
    if max == min {
        0
    } else if lightness(r, g, b) < 50 {
        ((max - min) * 100) / (max + min)
    } else {
        ((max - min) * 100) / ((255 - max) + (255 - min))
    }
}

/// Hue of a color in degrees, with blue at 0; 0 for a gray.
///
/// The branch is chosen by the channel that is maximal: red first, then
/// green. Where neither is, the branch is chosen by `r < g`.
pub open spec fn hue(r: int, g: int, b: int) -> int {
    let max = larger(larger(r, g), b);
    let min = smaller(smaller(r, g), b);
    if max == min {
        0
    } else if r == max {
        120 + quotient((g - b) * 60, max - min)
    } else if g == max {
        240 + quotient((b - r) * 60, max - min)
    } else if r < g {
        360 + quotient((r - g) * 60, max - min)
    } else {
        quotient((r - g) * 60, max - min)
    }
}

/// The definition of palette slot `n` in HLS: `#<n>;1;<h>;<l>;<s>`.
pub open spec fn hls_definition(palette: Seq<u8>, n: int) -> Seq<u8> {
    let r = palette[n * 3] as int;
    let g = palette[n * 3 + 1] as int;
    let b = palette[n * 3 + 2] as int;
    seq![35u8] + decimal(n) + seq![59u8, 49u8, 59u8] + decimal(hue(r, g, b)) + seq![59u8]
        + decimal(lightness(r, g, b)) + seq![59u8] + decimal(saturation(r, g, b))
}

/// Whether nodes select their palette slot: not so with two colors and a key
/// color, where the terminal has the color from the key.
pub open spec fn selects(ncolors: int, keycolor: int) -> bool {
    ncolors != 2 || keycolor == -1
}

/// The palette selection in front of a node: `#<pal>`, unless the slot is
/// the active one or nodes select none.
pub open spec fn select_bytes(active: int, pal: int, ncolors: int, keycolor: int) -> Seq<u8> {
    if selects(ncolors, keycolor) && active != pal {
        seq![35u8] + decimal(pal)
    } else {
        Seq::<u8>::empty()
    }
}

/// The active palette slot after a node of slot `pal`.
pub open spec fn active_after(active: int, pal: int, ncolors: int, keycolor: int) -> int {
    if selects(ncolors, keycolor) {
        pal
    } else {
        active
    }
}

/// The characters that bring the cursor from column `x` to the end of a
/// node: the empty pattern up to the node's start, then the node's patterns.
pub open spec fn node_chars(x: int, sx: int, mx: int, map: Seq<u8>) -> Seq<u8> {
    Seq::new(
        if mx > x {
            (mx - x) as nat
        } else {
            0nat
        },
        |i: int|
            if x + i < sx {
                63u8
            } else {
                sixel_char(map[x + i])
            },
    )
}

/// The bytes of a node, written with the cursor at column `x`: the palette
/// selection, then the pending run and the node's characters in runs.
pub open spec fn node_bytes(
    active: int,
    save_pixel: u8,
    save_count: int,
    limit: bool,
    x: int,
    pal: int,
    sx: int,
    mx: int,
    map: Seq<u8>,
    ncolors: int,
    keycolor: int,
) -> Seq<u8> {
    select_bytes(active, pal, ncolors, keycolor) + run_stream(
        save_pixel,
        save_count,
        node_chars(x, sx, mx, map),
        limit,
    )
}

} // verus!
