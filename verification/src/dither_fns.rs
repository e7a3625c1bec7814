//! The diffusion kernels.
//!
//! A kernel takes the quantization error of the current pixel, which is the
//! low three bits of each of its channels, and adds a share of it to pixels
//! that the scan has not visited yet. A channel never goes above 255.

use vstd::prelude::*;
use crate::enums::SixelDiffusion;

verus! {

/// One neighbor of a kernel: its column and row relative to the current
/// pixel, and the numerator of its share.
pub struct Tap {
    /// Columns to the right of the current pixel.
    pub dx: int,
    /// Rows below the current pixel.
    pub dy: int,
    /// The numerator of the neighbor's share of the error.
    pub num: int,
}

/// A kernel: its neighbors in the order in which they are written, the
/// divisor of the shares, and the bias added to the error.
pub struct Kernel {
    /// The neighbors.
    pub taps: Seq<Tap>,
    /// The divisor of the shares.
    pub den: int,
    /// The bias added to the error before it is shared: half the divisor,
    /// for rounding; none in the Floyd-Steinberg kernel.
    pub bias: int,
}

/// The kernel of Floyd-Steinberg diffusion.
///
/// ```txt
///         curr    5/16
/// 3/16    5/16
/// ```
pub open spec fn kernel_fs() -> Kernel {
    Kernel {
        taps: seq![
            Tap { dx: 1, dy: 0, num: 5 },
            Tap { dx: -1, dy: 1, num: 3 },
            Tap { dx: 0, dy: 1, num: 5 },
        ],
        den: 16,
        bias: 0,
    }
}

/// The kernel of Atkinson's diffusion.
///
/// ```txt
///         curr    1/8    1/8
///  1/8     1/8    1/8
///          1/8
/// ```
pub open spec fn kernel_atkinson() -> Kernel {
    Kernel {
        taps: seq![
            Tap { dx: 1, dy: 0, num: 1 },
            Tap { dx: 2, dy: 0, num: 1 },
            Tap { dx: -1, dy: 1, num: 1 },
            Tap { dx: 0, dy: 1, num: 1 },
            Tap { dx: 1, dy: 1, num: 1 },
            Tap { dx: 0, dy: 2, num: 1 },
        ],
        den: 8,
        bias: 4,
    }
}

/// The kernel of Jarvis, Judice & Ninke diffusion.
///
/// ```txt
///                 curr    7/48    5/48
/// 3/48    5/48    7/48    5/48    3/48
/// 1/48    3/48    5/48    3/48    1/48
/// ```
pub open spec fn kernel_jajuni() -> Kernel {
    Kernel {
        taps: seq![
            Tap { dx: 1, dy: 0, num: 7 },
            Tap { dx: 2, dy: 0, num: 5 },
            Tap { dx: -2, dy: 1, num: 3 },
            Tap { dx: -1, dy: 1, num: 5 },
            Tap { dx: 0, dy: 1, num: 7 },
            Tap { dx: 1, dy: 1, num: 5 },
            Tap { dx: 2, dy: 1, num: 3 },
            Tap { dx: -2, dy: 2, num: 1 },
            Tap { dx: -1, dy: 2, num: 3 },
            Tap { dx: 0, dy: 2, num: 5 },
            Tap { dx: 1, dy: 2, num: 3 },
            Tap { dx: 2, dy: 2, num: 1 },
        ],
        den: 48,
        bias: 24,
    }
}

/// The kernel of Stucki's diffusion.
///
/// ```txt
///                 curr    8/48    4/48
/// 2/48    4/48    8/48    4/48    2/48
/// 1/48    2/48    4/48    2/48    1/48
/// ```
pub open spec fn kernel_stucki() -> Kernel {
    Kernel {
        taps: seq![
            Tap { dx: 1, dy: 0, num: 8 },
            Tap { dx: 2, dy: 0, num: 4 },
            Tap { dx: -2, dy: 1, num: 2 },
            Tap { dx: -1, dy: 1, num: 4 },
            Tap { dx: 0, dy: 1, num: 8 },
            Tap { dx: 1, dy: 1, num: 4 },
            Tap { dx: 2, dy: 1, num: 2 },
            Tap { dx: -2, dy: 2, num: 1 },
            Tap { dx: -1, dy: 2, num: 2 },
            Tap { dx: 0, dy: 2, num: 4 },
            Tap { dx: 1, dy: 2, num: 2 },
            Tap { dx: 2, dy: 2, num: 1 },
        ],
        den: 48,
        bias: 24,
    }
}

/// The kernel of Burkes' diffusion.
///
/// ```txt
///                 curr    4/16    2/16
/// 1/16    2/16    4/16    2/16    1/16
/// ```
pub open spec fn kernel_burkes() -> Kernel {
    Kernel {
        taps: seq![
            Tap { dx: 1, dy: 0, num: 4 },
            Tap { dx: 2, dy: 0, num: 2 },
            Tap { dx: -2, dy: 1, num: 1 },
            Tap { dx: -1, dy: 1, num: 2 },
            Tap { dx: 0, dy: 1, num: 4 },
            Tap { dx: 1, dy: 1, num: 2 },
            Tap { dx: 2, dy: 1, num: 1 },
        ],
        den: 16,
        bias: 8,
    }
}

/// The quantization error of a channel: its low three bits.
pub open spec fn channel_error(v: u8) -> int {
    (v & 7) as int
}

/// The share of a channel's error that a neighbor receives.
pub open spec fn share(v: u8, num: int, k: Kernel) -> int {
    ((channel_error(v) + k.bias) * num) / k.den
}

/// A channel with a share added, and no more than 255.
pub open spec fn saturated(v: u8, add: int) -> u8 {
    if v + add > 255 {
        255u8
    } else {
        (v + add) as u8
    }
}

/// The pixel buffer with shares added to the three channels at `at`.
pub open spec fn spread_to(data: Seq<u8>, at: int, r: int, g: int, b: int) -> Seq<u8> {
    data.update(at, saturated(data[at], r)).update(at + 1, saturated(data[at + 1], g)).update(
        at + 2,
        saturated(data[at + 2], b),
    )
}

/// The byte index of a neighbor of the pixel at byte index `pos`.
pub open spec fn tap_at(pos: int, width: int, tap: Tap) -> int {
    pos + (tap.dy * width + tap.dx) * 3
}

/// The pixel buffer after the first `n` neighbors of a kernel received their
/// shares of the error `(er, eg, eb)` of the pixel at byte index `pos`.
pub open spec fn spread(
    data: Seq<u8>,
    pos: int,
    width: int,
    er: u8,
    eg: u8,
    eb: u8,
    k: Kernel,
    n: int,
) -> Seq<u8>
    decreases n,
{
    if n <= 0 {
        data
    } else {
        let tap = k.taps[n - 1];
        spread_to(
            spread(data, pos, width, er, eg, eb, k, n - 1),
            tap_at(pos, width, tap),
            share(er, tap.num, k),
            share(eg, tap.num, k),
            share(eb, tap.num, k),
        )
    }
}

/// The pixel buffer after the kernel `k` diffused the error of the pixel at
/// byte index `pos`, in an image of `width` columns.
pub open spec fn diffused(data: Seq<u8>, pos: int, width: int, k: Kernel) -> Seq<u8> {
    spread(data, pos, width, data[pos], data[pos + 1], data[pos + 2], k, k.taps.len() as int)
}

/// The low three bits of a byte are at most 7.
pub proof fn lemma_error_bound(v: u8)
    ensures
        0 <= channel_error(v) <= 7,
{
    assert(v & 7 <= 7) by (bit_vector);
}

/// Adds the shares `r`, `g` and `b` to the three channels at `at`.
fn add_shares(data: &mut Vec<u8>, at: usize, r: u8, g: u8, b: u8)
    requires
        at + 3 <= old(data)@.len(),
    ensures
        final(data)@ == spread_to(old(data)@, at as int, r as int, g as int, b as int),
{
    let _len: usize = data.len();
    let v0: u16 = data[at] as u16 + r as u16;
    data.set(at, if v0 > 255 {
        255u8
    } else {
        v0 as u8
    });
    let v1: u16 = data[at + 1] as u16 + g as u16;
    data.set(at + 1, if v1 > 255 {
        255u8
    } else {
        v1 as u8
    });
    let v2: u16 = data[at + 2] as u16 + b as u16;
    data.set(at + 2, if v2 > 255 {
        255u8
    } else {
        v2 as u8
    });
}

/// The share of the error of channel value `v` for a neighbor with
/// numerator `num`, in a kernel with divisor `den` and bias `bias`.
fn share_of(v: u8, num: u8, den: u8, bias: u8, Ghost(k): Ghost<Kernel>) -> (s: u8)
    requires
        num <= 8,
        bias <= 24,
        den >= 1,
        k.den == den,
        k.bias == bias,
    ensures
        s == share(v, num as int, k),
{
    proof {
        lemma_error_bound(v);
    }
    let x: u8 = (v & 7) + bias;
    assert(x * num <= 248) by (nonlinear_arith)
        requires
            x <= 31,
            num <= 8,
    ;
    (x * num) / den
}

/// Gives neighbor `n` of the kernel its shares.
fn tap_step(
    data: &mut Vec<u8>,
    at: usize,
    r: u8,
    g: u8,
    b: u8,
    Ghost(d0): Ghost<Seq<u8>>,
    Ghost(pos): Ghost<int>,
    Ghost(w): Ghost<int>,
    Ghost(e): Ghost<(u8, u8, u8)>,
    Ghost(k): Ghost<Kernel>,
    Ghost(n): Ghost<int>,
    Ghost(wdy): Ghost<int>,
)
    requires
        at + 3 <= old(data)@.len(),
        0 <= n < k.taps.len(),
        old(data)@ == spread(d0, pos, w, e.0, e.1, e.2, k, n),
        wdy == k.taps[n].dy * w,
        at == pos + (wdy + k.taps[n].dx) * 3,
        r == share(e.0, k.taps[n].num, k),
        g == share(e.1, k.taps[n].num, k),
        b == share(e.2, k.taps[n].num, k),
    ensures
        final(data)@ == spread(d0, pos, w, e.0, e.1, e.2, k, n + 1),
        final(data)@.len() == old(data)@.len(),
{
    add_shares(data, at, r, g, b);
}

/// Floyd-Steinberg diffusion of the error of the pixel at byte index `pos`.
///
/// The kernel's neighbors must lie in the buffer.
pub fn dither_func_fs(data: &mut Vec<u8>, pos: usize, width: usize)
    requires
        width >= 1,
        pos + (width) * 3 + 3 <= old(data)@.len(),
    ensures
        final(data)@ == diffused(old(data)@, pos as int, width as int, kernel_fs()),
        final(data)@.len() == old(data)@.len(),
{
    let ghost k = kernel_fs();
    let ghost d0 = data@;
    let ghost p = pos as int;
    let ghost w = width as int;
    let _len: usize = data.len();
    let er: u8 = data[pos];
    let eg: u8 = data[pos + 1];
    let eb: u8 = data[pos + 2];
    let ghost e = (er, eg, eb);
    let r3: u8 = share_of(er, 3, 16, 0, Ghost(k));
    let g3: u8 = share_of(eg, 3, 16, 0, Ghost(k));
    let b3: u8 = share_of(eb, 3, 16, 0, Ghost(k));
    let r5: u8 = share_of(er, 5, 16, 0, Ghost(k));
    let g5: u8 = share_of(eg, 5, 16, 0, Ghost(k));
    let b5: u8 = share_of(eb, 5, 16, 0, Ghost(k));
    tap_step(data, pos + (1) * 3, r5, g5, b5, Ghost(d0), Ghost(p), Ghost(w), Ghost(e), Ghost(k), Ghost(0), Ghost(0 * w));
    tap_step(data, pos + (width - 1) * 3, r3, g3, b3, Ghost(d0), Ghost(p), Ghost(w), Ghost(e), Ghost(k), Ghost(1), Ghost(1 * w));
    tap_step(data, pos + (width) * 3, r5, g5, b5, Ghost(d0), Ghost(p), Ghost(w), Ghost(e), Ghost(k), Ghost(2), Ghost(1 * w));
}

/// Atkinson's diffusion of the error of the pixel at byte index `pos`.
///
/// The kernel's neighbors must lie in the buffer.
pub fn dither_func_atkinson(data: &mut Vec<u8>, pos: usize, width: usize)
    requires
        width >= 1,
        pos + (width * 2) * 3 + 3 <= old(data)@.len(),
    ensures
        final(data)@ == diffused(old(data)@, pos as int, width as int, kernel_atkinson()),
        final(data)@.len() == old(data)@.len(),
{
    let ghost k = kernel_atkinson();
    let ghost d0 = data@;
    let ghost p = pos as int;
    let ghost w = width as int;
    let _len: usize = data.len();
    let er: u8 = data[pos];
    let eg: u8 = data[pos + 1];
    let eb: u8 = data[pos + 2];
    let ghost e = (er, eg, eb);
    let r1: u8 = share_of(er, 1, 8, 4, Ghost(k));
    let g1: u8 = share_of(eg, 1, 8, 4, Ghost(k));
    let b1: u8 = share_of(eb, 1, 8, 4, Ghost(k));
    tap_step(data, pos + (1) * 3, r1, g1, b1, Ghost(d0), Ghost(p), Ghost(w), Ghost(e), Ghost(k), Ghost(0), Ghost(0 * w));
    tap_step(data, pos + (2) * 3, r1, g1, b1, Ghost(d0), Ghost(p), Ghost(w), Ghost(e), Ghost(k), Ghost(1), Ghost(0 * w));
    tap_step(data, pos + (width - 1) * 3, r1, g1, b1, Ghost(d0), Ghost(p), Ghost(w), Ghost(e), Ghost(k), Ghost(2), Ghost(1 * w));
    tap_step(data, pos + (width) * 3, r1, g1, b1, Ghost(d0), Ghost(p), Ghost(w), Ghost(e), Ghost(k), Ghost(3), Ghost(1 * w));
    tap_step(data, pos + (width + 1) * 3, r1, g1, b1, Ghost(d0), Ghost(p), Ghost(w), Ghost(e), Ghost(k), Ghost(4), Ghost(1 * w));
    tap_step(data, pos + (width * 2) * 3, r1, g1, b1, Ghost(d0), Ghost(p), Ghost(w), Ghost(e), Ghost(k), Ghost(5), Ghost(2 * w));
}

/// Jarvis, Judice & Ninke diffusion of the error of the pixel at byte index `pos`.
///
/// The kernel's neighbors must lie in the buffer.
pub fn dither_func_jajuni(data: &mut Vec<u8>, pos: usize, width: usize)
    requires
        width >= 2,
        pos + (width * 2 + 2) * 3 + 3 <= old(data)@.len(),
    ensures
        final(data)@ == diffused(old(data)@, pos as int, width as int, kernel_jajuni()),
        final(data)@.len() == old(data)@.len(),
{
    let ghost k = kernel_jajuni();
    let ghost d0 = data@;
    let ghost p = pos as int;
    let ghost w = width as int;
    let _len: usize = data.len();
    let er: u8 = data[pos];
    let eg: u8 = data[pos + 1];
    let eb: u8 = data[pos + 2];
    let ghost e = (er, eg, eb);
    let r1: u8 = share_of(er, 1, 48, 24, Ghost(k));
    let g1: u8 = share_of(eg, 1, 48, 24, Ghost(k));
    let b1: u8 = share_of(eb, 1, 48, 24, Ghost(k));
    let r3: u8 = share_of(er, 3, 48, 24, Ghost(k));
    let g3: u8 = share_of(eg, 3, 48, 24, Ghost(k));
    let b3: u8 = share_of(eb, 3, 48, 24, Ghost(k));
    let r5: u8 = share_of(er, 5, 48, 24, Ghost(k));
    let g5: u8 = share_of(eg, 5, 48, 24, Ghost(k));
    let b5: u8 = share_of(eb, 5, 48, 24, Ghost(k));
    let r7: u8 = share_of(er, 7, 48, 24, Ghost(k));
    let g7: u8 = share_of(eg, 7, 48, 24, Ghost(k));
    let b7: u8 = share_of(eb, 7, 48, 24, Ghost(k));
    tap_step(data, pos + (1) * 3, r7, g7, b7, Ghost(d0), Ghost(p), Ghost(w), Ghost(e), Ghost(k), Ghost(0), Ghost(0 * w));
    tap_step(data, pos + (2) * 3, r5, g5, b5, Ghost(d0), Ghost(p), Ghost(w), Ghost(e), Ghost(k), Ghost(1), Ghost(0 * w));
    tap_step(data, pos + (width - 2) * 3, r3, g3, b3, Ghost(d0), Ghost(p), Ghost(w), Ghost(e), Ghost(k), Ghost(2), Ghost(1 * w));
    tap_step(data, pos + (width - 1) * 3, r5, g5, b5, Ghost(d0), Ghost(p), Ghost(w), Ghost(e), Ghost(k), Ghost(3), Ghost(1 * w));
    tap_step(data, pos + (width) * 3, r7, g7, b7, Ghost(d0), Ghost(p), Ghost(w), Ghost(e), Ghost(k), Ghost(4), Ghost(1 * w));
    tap_step(data, pos + (width + 1) * 3, r5, g5, b5, Ghost(d0), Ghost(p), Ghost(w), Ghost(e), Ghost(k), Ghost(5), Ghost(1 * w));
    tap_step(data, pos + (width + 2) * 3, r3, g3, b3, Ghost(d0), Ghost(p), Ghost(w), Ghost(e), Ghost(k), Ghost(6), Ghost(1 * w));
    tap_step(data, pos + (width * 2 - 2) * 3, r1, g1, b1, Ghost(d0), Ghost(p), Ghost(w), Ghost(e), Ghost(k), Ghost(7), Ghost(2 * w));
    tap_step(data, pos + (width * 2 - 1) * 3, r3, g3, b3, Ghost(d0), Ghost(p), Ghost(w), Ghost(e), Ghost(k), Ghost(8), Ghost(2 * w));
    tap_step(data, pos + (width * 2) * 3, r5, g5, b5, Ghost(d0), Ghost(p), Ghost(w), Ghost(e), Ghost(k), Ghost(9), Ghost(2 * w));
    tap_step(data, pos + (width * 2 + 1) * 3, r3, g3, b3, Ghost(d0), Ghost(p), Ghost(w), Ghost(e), Ghost(k), Ghost(10), Ghost(2 * w));
    tap_step(data, pos + (width * 2 + 2) * 3, r1, g1, b1, Ghost(d0), Ghost(p), Ghost(w), Ghost(e), Ghost(k), Ghost(11), Ghost(2 * w));
}

/// Stucki's diffusion of the error of the pixel at byte index `pos`.
///
/// The kernel's neighbors must lie in the buffer.
pub fn dither_func_stucki(data: &mut Vec<u8>, pos: usize, width: usize)
    requires
        width >= 2,
        pos + (width * 2 + 2) * 3 + 3 <= old(data)@.len(),
    ensures
        final(data)@ == diffused(old(data)@, pos as int, width as int, kernel_stucki()),
        final(data)@.len() == old(data)@.len(),
{
    let ghost k = kernel_stucki();
    let ghost d0 = data@;
    let ghost p = pos as int;
    let ghost w = width as int;
    let _len: usize = data.len();
    let er: u8 = data[pos];
    let eg: u8 = data[pos + 1];
    let eb: u8 = data[pos + 2];
    let ghost e = (er, eg, eb);
    let r1: u8 = share_of(er, 1, 48, 24, Ghost(k));
    let g1: u8 = share_of(eg, 1, 48, 24, Ghost(k));
    let b1: u8 = share_of(eb, 1, 48, 24, Ghost(k));
    let r2: u8 = share_of(er, 2, 48, 24, Ghost(k));
    let g2: u8 = share_of(eg, 2, 48, 24, Ghost(k));
    let b2: u8 = share_of(eb, 2, 48, 24, Ghost(k));
    let r4: u8 = share_of(er, 4, 48, 24, Ghost(k));
    let g4: u8 = share_of(eg, 4, 48, 24, Ghost(k));
    let b4: u8 = share_of(eb, 4, 48, 24, Ghost(k));
    let r8: u8 = share_of(er, 8, 48, 24, Ghost(k));
    let g8: u8 = share_of(eg, 8, 48, 24, Ghost(k));
    let b8: u8 = share_of(eb, 8, 48, 24, Ghost(k));
    tap_step(data, pos + (1) * 3, r8, g8, b8, Ghost(d0), Ghost(p), Ghost(w), Ghost(e), Ghost(k), Ghost(0), Ghost(0 * w));
    tap_step(data, pos + (2) * 3, r4, g4, b4, Ghost(d0), Ghost(p), Ghost(w), Ghost(e), Ghost(k), Ghost(1), Ghost(0 * w));
    tap_step(data, pos + (width - 2) * 3, r2, g2, b2, Ghost(d0), Ghost(p), Ghost(w), Ghost(e), Ghost(k), Ghost(2), Ghost(1 * w));
    tap_step(data, pos + (width - 1) * 3, r4, g4, b4, Ghost(d0), Ghost(p), Ghost(w), Ghost(e), Ghost(k), Ghost(3), Ghost(1 * w));
    tap_step(data, pos + (width) * 3, r8, g8, b8, Ghost(d0), Ghost(p), Ghost(w), Ghost(e), Ghost(k), Ghost(4), Ghost(1 * w));
    tap_step(data, pos + (width + 1) * 3, r4, g4, b4, Ghost(d0), Ghost(p), Ghost(w), Ghost(e), Ghost(k), Ghost(5), Ghost(1 * w));
    tap_step(data, pos + (width + 2) * 3, r2, g2, b2, Ghost(d0), Ghost(p), Ghost(w), Ghost(e), Ghost(k), Ghost(6), Ghost(1 * w));
    tap_step(data, pos + (width * 2 - 2) * 3, r1, g1, b1, Ghost(d0), Ghost(p), Ghost(w), Ghost(e), Ghost(k), Ghost(7), Ghost(2 * w));
    tap_step(data, pos + (width * 2 - 1) * 3, r2, g2, b2, Ghost(d0), Ghost(p), Ghost(w), Ghost(e), Ghost(k), Ghost(8), Ghost(2 * w));
    tap_step(data, pos + (width * 2) * 3, r4, g4, b4, Ghost(d0), Ghost(p), Ghost(w), Ghost(e), Ghost(k), Ghost(9), Ghost(2 * w));
    tap_step(data, pos + (width * 2 + 1) * 3, r2, g2, b2, Ghost(d0), Ghost(p), Ghost(w), Ghost(e), Ghost(k), Ghost(10), Ghost(2 * w));
    tap_step(data, pos + (width * 2 + 2) * 3, r1, g1, b1, Ghost(d0), Ghost(p), Ghost(w), Ghost(e), Ghost(k), Ghost(11), Ghost(2 * w));
}

/// Burkes' diffusion of the error of the pixel at byte index `pos`.
///
/// The kernel's neighbors must lie in the buffer.
pub fn dither_func_burkes(data: &mut Vec<u8>, pos: usize, width: usize)
    requires
        width >= 2,
        pos + (width + 2) * 3 + 3 <= old(data)@.len(),
    ensures
        final(data)@ == diffused(old(data)@, pos as int, width as int, kernel_burkes()),
        final(data)@.len() == old(data)@.len(),
{
    let ghost k = kernel_burkes();
    let ghost d0 = data@;
    let ghost p = pos as int;
    let ghost w = width as int;
    let _len: usize = data.len();
    let er: u8 = data[pos];
    let eg: u8 = data[pos + 1];
    let eb: u8 = data[pos + 2];
    let ghost e = (er, eg, eb);
    let r1: u8 = share_of(er, 1, 16, 8, Ghost(k));
    let g1: u8 = share_of(eg, 1, 16, 8, Ghost(k));
    let b1: u8 = share_of(eb, 1, 16, 8, Ghost(k));
    let r2: u8 = share_of(er, 2, 16, 8, Ghost(k));
    let g2: u8 = share_of(eg, 2, 16, 8, Ghost(k));
    let b2: u8 = share_of(eb, 2, 16, 8, Ghost(k));
    let r4: u8 = share_of(er, 4, 16, 8, Ghost(k));
    let g4: u8 = share_of(eg, 4, 16, 8, Ghost(k));
    let b4: u8 = share_of(eb, 4, 16, 8, Ghost(k));
    tap_step(data, pos + (1) * 3, r4, g4, b4, Ghost(d0), Ghost(p), Ghost(w), Ghost(e), Ghost(k), Ghost(0), Ghost(0 * w));
    tap_step(data, pos + (2) * 3, r2, g2, b2, Ghost(d0), Ghost(p), Ghost(w), Ghost(e), Ghost(k), Ghost(1), Ghost(0 * w));
    tap_step(data, pos + (width - 2) * 3, r1, g1, b1, Ghost(d0), Ghost(p), Ghost(w), Ghost(e), Ghost(k), Ghost(2), Ghost(1 * w));
    tap_step(data, pos + (width - 1) * 3, r2, g2, b2, Ghost(d0), Ghost(p), Ghost(w), Ghost(e), Ghost(k), Ghost(3), Ghost(1 * w));
    tap_step(data, pos + (width) * 3, r4, g4, b4, Ghost(d0), Ghost(p), Ghost(w), Ghost(e), Ghost(k), Ghost(4), Ghost(1 * w));
    tap_step(data, pos + (width + 1) * 3, r2, g2, b2, Ghost(d0), Ghost(p), Ghost(w), Ghost(e), Ghost(k), Ghost(5), Ghost(1 * w));
    tap_step(data, pos + (width + 2) * 3, r1, g1, b1, Ghost(d0), Ghost(p), Ghost(w), Ghost(e), Ghost(k), Ghost(6), Ghost(1 * w));
}

/// No diffusion: the buffer stays as it is.
pub fn dither_func_none(data: &mut Vec<u8>, _width: i32)
    ensures
        final(data)@ == old(data)@,
{
}

/// The value that the arithmetic dither adds to channel `c` of the pixel in
/// column `x` and row `y`.
pub open spec fn a_dither_offset(x: int, y: int, c: int) -> int {
    let mask = ((((x + c * 17) + y * 236) * 119) as i64 & 255) as int;
    if mask >= 128 {
        (mask - 128) / 256
    } else {
        -((128 - mask) / 256)
    }
}

/// The value that the xor based dither adds to channel `c` of the pixel in
/// column `x` and row `y`.
pub open spec fn x_dither_offset(x: int, y: int, c: int) -> int {
    let mask = (((((x + c * 17) as i64 ^ y as i64) * 236) * 1234) as i64 & 511) as int;
    if mask >= 128 {
        (mask - 128) / 512
    } else {
        -((128 - mask) / 512)
    }
}

/// The arithmetic dither adds nothing, wherever the pixel stands: in whole
/// numbers its offset is below one.
pub proof fn lemma_a_dither_adds_nothing(x: i32, y: i32, c: int)
    requires
        0 <= c < 3,
    ensures
        a_dither_offset(x as int, y as int, c) == 0,
{
    let v: i64 = (((x + c * 17) + y * 236) * 119) as i64;
    assert(0 <= v & 255 <= 255) by (bit_vector);
}

/// The xor based dither adds nothing, wherever the pixel stands: in whole
/// numbers its offset is below one.
pub proof fn lemma_x_dither_adds_nothing(x: i32, y: i32, c: int)
    requires
        0 <= c < 3,
    ensures
        x_dither_offset(x as int, y as int, c) == 0,
{
    let a: i64 = (x + c * 17) as i64;
    let b: i64 = y as i64;
    let v: i64 = (((a ^ b) * 236) * 1234) as i64;
    assert(0 <= v & 511 <= 511) by (bit_vector);
}

/// A channel with an offset added, kept within 0 and 255.
pub open spec fn clamped(v: u8, offset: int) -> u8 {
    if v + offset < 0 {
        0u8
    } else if v + offset > 255 {
        255u8
    } else {
        (v + offset) as u8
    }
}

/// The pixel buffer with the three channels at `pos` clamped after their
/// offsets were added.
pub open spec fn offset_by(data: Seq<u8>, pos: int, r: int, g: int, b: int) -> Seq<u8> {
    data.update(pos, clamped(data[pos], r)).update(pos + 1, clamped(data[pos + 1], g)).update(
        pos + 2,
        clamped(data[pos + 2], b),
    )
}

/// Adds `offset` to the channel at `at` and clamps it.
fn add_offset(data: &mut Vec<u8>, at: usize, offset: i64)
    requires
        at < old(data)@.len(),
        -512 <= offset <= 512,
    ensures
        final(data)@ == old(data)@.update(at as int, clamped(old(data)@[at as int], offset as int)),
{
    let value: i64 = data[at] as i64 + offset;
    data.set(at, if value < 0 {
        0u8
    } else if value > 255 {
        255u8
    } else {
        value as u8
    });
}

/// The quotient of `a` by a positive `b`, rounded toward zero.
fn toward_zero(a: i64, b: i64) -> (q: i64)
    requires
        b > 0,
        -1024 <= a <= 1024,
    ensures
        q == if a >= 0 {
            a as int / b as int
        } else {
            -((-(a as int)) / (b as int))
        },
{
    if a >= 0 {
        a / b
    } else {
        -((-a) / b)
    }
}

/// Positionally stable arithmetic dither of the pixel at byte index `pos`,
/// which stands in column `x` and row `y`.
pub fn dither_func_a_dither(data: &mut Vec<u8>, pos: usize, _width: i32, x: i32, y: i32)
    requires
        pos + 3 <= old(data)@.len(),
    ensures
        final(data)@ == offset_by(
            old(data)@,
            pos as int,
            a_dither_offset(x as int, y as int, 0),
            a_dither_offset(x as int, y as int, 1),
            a_dither_offset(x as int, y as int, 2),
        ),
        final(data)@ == old(data)@,
{
    let _len: usize = data.len();
    let ghost d0 = data@;
    let mut c: usize = 0;
    while c < 3
        invariant
            c <= 3,
            pos + 3 <= data@.len() <= usize::MAX,
            data@ == d0,
        decreases 3 - c,
    {
        let product: i64 = ((x as i64 + (c as i64) * 17) + (y as i64) * 236) * 119;
        let mask: i64 = product & 255;
        assert(0 <= product & 255 <= 255) by (bit_vector);
        let offset: i64 = toward_zero(mask - 128, 256);
        proof {
            lemma_a_dither_adds_nothing(x, y, c as int);
        }
        add_offset(data, pos + c, offset);
        assert(data@ =~= d0);
        c = c + 1;
    }
    proof {
        lemma_a_dither_adds_nothing(x, y, 0);
        lemma_a_dither_adds_nothing(x, y, 1);
        lemma_a_dither_adds_nothing(x, y, 2);
        assert(data@ =~= offset_by(d0, pos as int, 0, 0, 0));
    }
}

/// Positionally stable xor based dither of the pixel at byte index `pos`,
/// which stands in column `x` and row `y`.
pub fn dither_func_x_dither(data: &mut Vec<u8>, pos: usize, _width: i32, x: i32, y: i32)
    requires
        pos + 3 <= old(data)@.len(),
    ensures
        final(data)@ == offset_by(
            old(data)@,
            pos as int,
            x_dither_offset(x as int, y as int, 0),
            x_dither_offset(x as int, y as int, 1),
            x_dither_offset(x as int, y as int, 2),
        ),
        final(data)@ == old(data)@,
{
    let _len: usize = data.len();
    let ghost d0 = data@;
    let mut c: usize = 0;
    while c < 3
        invariant
            c <= 3,
            pos + 3 <= data@.len() <= usize::MAX,
            data@ == d0,
        decreases 3 - c,
    {
        let left: i64 = x as i64 + (c as i64) * 17;
        let right: i64 = y as i64;
        let mixed: i64 = left ^ right;
        assert(-0x1_0000_0000i64 <= mixed <= 0x1_0000_0000i64) by (bit_vector)
            requires
                mixed == left ^ right,
                -0x8000_0000i64 <= left <= 0x8000_0040i64,
                -0x8000_0000i64 <= right <= 0x7fff_ffffi64,
        ;
        let product: i64 = (mixed * 236) * 1234;
        let mask: i64 = product & 511;
        assert(0 <= product & 511 <= 511) by (bit_vector);
        let offset: i64 = toward_zero(mask - 128, 512);
        proof {
            lemma_x_dither_adds_nothing(x, y, c as int);
        }
        add_offset(data, pos + c, offset);
        assert(data@ =~= d0);
        c = c + 1;
    }
    proof {
        lemma_x_dither_adds_nothing(x, y, 0);
        lemma_x_dither_adds_nothing(x, y, 1);
        lemma_x_dither_adds_nothing(x, y, 2);
        assert(data@ =~= offset_by(d0, pos as int, 0, 0, 0));
    }
}

/// The kernel of a diffusion method, if the method diffuses an error.
pub open spec fn kernel_of(method: SixelDiffusion) -> Option<Kernel> {
    match method {
        SixelDiffusion::Atkinson => Some(kernel_atkinson()),
        SixelDiffusion::FS => Some(kernel_fs()),
        SixelDiffusion::JaJuNi => Some(kernel_jajuni()),
        SixelDiffusion::Stucki => Some(kernel_stucki()),
        SixelDiffusion::Burkes => Some(kernel_burkes()),
        _ => None,
    }
}

/// Whether the neighbors of a method's kernel lie in an image of `width`
/// columns and `height` rows, for the pixel in column `x` and row `y`.
pub open spec fn kernel_fits(method: SixelDiffusion, x: int, y: int, width: int, height: int) -> bool {
    match method {
        SixelDiffusion::Atkinson | SixelDiffusion::JaJuNi | SixelDiffusion::Stucki => x < width
            - 2 && y < height - 2,
        SixelDiffusion::FS => x < width - 1 && y < height - 1,
        SixelDiffusion::Burkes => x < width - 2 && y < height - 1,
        _ => false,
    }
}

/// The pixel buffer after the method was applied to the pixel at byte index
/// `pos`: the kernel's diffusion where the kernel fits, else the buffer as
/// it was.
pub open spec fn dithered(
    data: Seq<u8>,
    pos: int,
    x: int,
    y: int,
    width: int,
    height: int,
    method: SixelDiffusion,
) -> Seq<u8> {
    match kernel_of(method) {
        Some(k) => if kernel_fits(method, x, y, width, height) {
            diffused(data, pos, width, k)
        } else {
            data
        },
        None => data,
    }
}

/// The rows from `y` on hold the columns that a kernel reaches.
proof fn lemma_footprint(width: int, height: int, x: int, y: int, down: int, right: int)
    requires
        0 <= x,
        0 <= y,
        0 <= down,
        0 <= right,
        x + right < width,
        y + down < height,
    ensures
        (down * width + right) * 3 + 3 <= 3 * ((height - y) * width - x),
{
    assert(down * width + width <= (height - y) * width) by (nonlinear_arith)
        requires
            down + 1 <= height - y,
            0 <= width,
    ;
}

/// Applies a diffusion method to the pixel at byte index `pos`, which stands
/// in column `x` and row `y` of an image of `width` columns and `height`
/// rows. For a method with a kernel the pixel must be one of the image, and
/// the buffer must hold the image from that pixel on. A method without a
/// kernel leaves every buffer as it is.
pub fn sixel_apply_15bpp_dither(
    pixels: &mut Vec<u8>,
    pos: usize,
    x: i32,
    y: i32,
    width: i32,
    height: i32,
    method_for_diffuse: SixelDiffusion,
)
    requires
        kernel_of(method_for_diffuse) is Some ==> {
            &&& 0 <= x < width
            &&& 0 <= y < height
            &&& pos + 3 * ((height - y) * width - x) <= old(pixels)@.len()
        },
    ensures
        final(pixels)@ == dithered(
            old(pixels)@,
            pos as int,
            x as int,
            y as int,
            width as int,
            height as int,
            method_for_diffuse,
        ),
        final(pixels)@.len() == old(pixels)@.len(),
        kernel_of(method_for_diffuse) is None ==> final(pixels)@ == old(pixels)@,
{
    match method_for_diffuse {
        SixelDiffusion::Off | SixelDiffusion::Auto => {
            dither_func_none(pixels, width);
        },
        SixelDiffusion::Atkinson => {
            if x < width - 2 && y < height - 2 {
                proof {
                    lemma_footprint(width as int, height as int, x as int, y as int, 2, 0);
                }
                dither_func_atkinson(pixels, pos, width as usize);
            }
        },
        SixelDiffusion::FS => {
            if x < width - 1 && y < height - 1 {
                proof {
                    lemma_footprint(width as int, height as int, x as int, y as int, 1, 0);
                }
                dither_func_fs(pixels, pos, width as usize);
            }
        },
        SixelDiffusion::JaJuNi => {
            if x < width - 2 && y < height - 2 {
                proof {
                    lemma_footprint(width as int, height as int, x as int, y as int, 2, 2);
                }
                dither_func_jajuni(pixels, pos, width as usize);
            }
        },
        SixelDiffusion::Stucki => {
            if x < width - 2 && y < height - 2 {
                proof {
                    lemma_footprint(width as int, height as int, x as int, y as int, 2, 2);
                }
                dither_func_stucki(pixels, pos, width as usize);
            }
        },
        SixelDiffusion::Burkes => {
            if x < width - 2 && y < height - 1 {
                proof {
                    lemma_footprint(width as int, height as int, x as int, y as int, 1, 2);
                }
                dither_func_burkes(pixels, pos, width as usize);
            }
        },
        SixelDiffusion::ADither => {
            let len: usize = pixels.len();
            if pos <= len && len - pos >= 3 {
                dither_func_a_dither(pixels, pos, width, x, y);
            }
        },
        SixelDiffusion::XDither => {
            let len: usize = pixels.len();
            if pos <= len && len - pos >= 3 {
                dither_func_x_dither(pixels, pos, width, x, y);
            }
        },
    }
}

/// A method without a kernel leaves the buffer as it is, wherever the pixel
/// stands and whatever the buffer holds.
pub proof fn lemma_no_kernel_changes_nothing(
    data: Seq<u8>,
    pos: int,
    x: int,
    y: int,
    width: int,
    height: int,
    method: SixelDiffusion,
)
    requires
        kernel_of(method) is None,
    ensures
        dithered(data, pos, x, y, width, height, method) == data,
{
}


/// The share of an error is not negative.
pub proof fn lemma_share(v: u8, num: int, k: Kernel)
    requires
        k.den > 0,
        k.bias >= 0,
        num >= 0,
    ensures
        share(v, num, k) >= 0,
{
    lemma_error_bound(v);
    let e = channel_error(v);
    assert((e + k.bias) * num >= 0) by (nonlinear_arith)
        requires
            e + k.bias >= 0,
            num >= 0,
    ;
    assert(((e + k.bias) * num) / k.den >= 0) by (nonlinear_arith)
        requires
            (e + k.bias) * num >= 0,
            k.den > 0,
    ;
}

/// Whether the first `n` neighbors of a kernel lie in a buffer of `len`
/// bytes, at or after byte index `from`, and have shares that are not
/// negative.
pub open spec fn taps_within(k: Kernel, pos: int, width: int, from: int, len: int, n: int) -> bool {
    &&& k.den > 0
    &&& k.bias >= 0
    &&& forall|j: int|
        0 <= j < n ==> {
            &&& from <= tap_at(pos, width, #[trigger] k.taps[j])
            &&& tap_at(pos, width, k.taps[j]) + 3 <= len
            &&& k.taps[j].num >= 0
        }
}

/// Shares are added to neighbors only, and a channel with a share added is
/// not below what it was and not above 255: the buffer keeps its length,
/// every byte in front of the neighbors stays as it is, and no byte
/// decreases.
pub proof fn lemma_spread_adds_forward(
    data: Seq<u8>,
    pos: int,
    width: int,
    er: u8,
    eg: u8,
    eb: u8,
    k: Kernel,
    n: int,
    from: int,
)
    requires
        0 <= n <= k.taps.len(),
        0 <= from,
        taps_within(k, pos, width, from, data.len() as int, n),
    ensures
        spread(data, pos, width, er, eg, eb, k, n).len() == data.len(),
        forall|i: int|
            0 <= i < data.len() ==> data[i] <= #[trigger] spread(data, pos, width, er, eg, eb, k, n)[i]
                <= 255,
        forall|i: int|
            0 <= i < from ==> #[trigger] spread(data, pos, width, er, eg, eb, k, n)[i] == data[i],
    decreases n,
{
    if n > 0 {
        lemma_spread_adds_forward(data, pos, width, er, eg, eb, k, n - 1, from);
        let tap = k.taps[n - 1];
        lemma_share(er, tap.num, k);
        lemma_share(eg, tap.num, k);
        lemma_share(eb, tap.num, k);
    }
}

/// The neighbors of a kernel that fits lie in the image, behind the pixel.
proof fn lemma_tap_fits(
    width: int,
    height: int,
    x: int,
    y: int,
    pos: int,
    len: int,
    dx: int,
    dy: int,
    wdy: int,
)
    requires
        0 <= x,
        0 <= y,
        0 <= pos,
        0 <= dy,
        (dy == 0 ==> dx >= 1),
        (dy >= 1 ==> width + dx >= 1),
        x + dx < width,
        y + dy < height,
        wdy == dy * width,
        pos + 3 * ((height - y) * width - x) <= len,
    ensures
        pos + 3 <= pos + (wdy + dx) * 3,
        pos + (wdy + dx) * 3 + 3 <= len,
{
    assert(dy * width + width <= (height - y) * width) by (nonlinear_arith)
        requires
            dy + 1 <= height - y,
            0 <= width,
    ;
    if dy > 0 {
        assert(dy * width >= width) by (nonlinear_arith)
            requires
                dy >= 1,
                width >= 0,
        ;
    } else {
        assert(dy * width == 0) by (nonlinear_arith)
            requires
                dy == 0,
        ;
    }
}

/// The neighbors of the kernel of Floyd-Steinberg diffusion lie in the image, behind
/// the pixel, where the kernel fits.
proof fn lemma_fs_within(width: int, height: int, x: int, y: int, pos: int, len: int)
    requires
        0 <= x,
        0 <= y,
        0 <= pos,
        x < width - 1,
        y < height - 1,
        pos + 3 * ((height - y) * width - x) <= len,
    ensures
        taps_within(kernel_fs(), pos, width, pos + 3, len, 3),
{
    let k = kernel_fs();
    assert forall|j: int| 0 <= j < 3 implies ({
        &&& pos + 3 <= tap_at(pos, width, #[trigger] k.taps[j])
        &&& tap_at(pos, width, k.taps[j]) + 3 <= len
        &&& k.taps[j].num >= 0
    }) by {
        if j == 0 {
            lemma_tap_fits(width, height, x, y, pos, len, 1, 0, 0 * width);
            assert(k.taps[0].dy * width == 0 * width);
        } else if j == 1 {
            lemma_tap_fits(width, height, x, y, pos, len, -1, 1, 1 * width);
            assert(k.taps[1].dy * width == 1 * width);
        } else {
            lemma_tap_fits(width, height, x, y, pos, len, 0, 1, 1 * width);
            assert(k.taps[2].dy * width == 1 * width);
        }
    }
}

/// The neighbors of the kernel of Atkinson's diffusion lie in the image, behind
/// the pixel, where the kernel fits.
proof fn lemma_atkinson_within(width: int, height: int, x: int, y: int, pos: int, len: int)
    requires
        0 <= x,
        0 <= y,
        0 <= pos,
        x < width - 2,
        y < height - 2,
        pos + 3 * ((height - y) * width - x) <= len,
    ensures
        taps_within(kernel_atkinson(), pos, width, pos + 3, len, 6),
{
    let k = kernel_atkinson();
    assert forall|j: int| 0 <= j < 6 implies ({
        &&& pos + 3 <= tap_at(pos, width, #[trigger] k.taps[j])
        &&& tap_at(pos, width, k.taps[j]) + 3 <= len
        &&& k.taps[j].num >= 0
    }) by {
        if j == 0 {
            lemma_tap_fits(width, height, x, y, pos, len, 1, 0, 0 * width);
            assert(k.taps[0].dy * width == 0 * width);
        } else if j == 1 {
            lemma_tap_fits(width, height, x, y, pos, len, 2, 0, 0 * width);
            assert(k.taps[1].dy * width == 0 * width);
        } else if j == 2 {
            lemma_tap_fits(width, height, x, y, pos, len, -1, 1, 1 * width);
            assert(k.taps[2].dy * width == 1 * width);
        } else if j == 3 {
            lemma_tap_fits(width, height, x, y, pos, len, 0, 1, 1 * width);
            assert(k.taps[3].dy * width == 1 * width);
        } else if j == 4 {
            lemma_tap_fits(width, height, x, y, pos, len, 1, 1, 1 * width);
            assert(k.taps[4].dy * width == 1 * width);
        } else {
            lemma_tap_fits(width, height, x, y, pos, len, 0, 2, 2 * width);
            assert(k.taps[5].dy * width == 2 * width);
        }
    }
}

/// The neighbors of the kernel of Jarvis, Judice & Ninke diffusion lie in the image, behind
/// the pixel, where the kernel fits.
proof fn lemma_jajuni_within(width: int, height: int, x: int, y: int, pos: int, len: int)
    requires
        0 <= x,
        0 <= y,
        0 <= pos,
        x < width - 2,
        y < height - 2,
        pos + 3 * ((height - y) * width - x) <= len,
    ensures
        taps_within(kernel_jajuni(), pos, width, pos + 3, len, 12),
{
    let k = kernel_jajuni();
    assert forall|j: int| 0 <= j < 12 implies ({
        &&& pos + 3 <= tap_at(pos, width, #[trigger] k.taps[j])
        &&& tap_at(pos, width, k.taps[j]) + 3 <= len
        &&& k.taps[j].num >= 0
    }) by {
        if j == 0 {
            lemma_tap_fits(width, height, x, y, pos, len, 1, 0, 0 * width);
            assert(k.taps[0].dy * width == 0 * width);
        } else if j == 1 {
            lemma_tap_fits(width, height, x, y, pos, len, 2, 0, 0 * width);
            assert(k.taps[1].dy * width == 0 * width);
        } else if j == 2 {
            lemma_tap_fits(width, height, x, y, pos, len, -2, 1, 1 * width);
            assert(k.taps[2].dy * width == 1 * width);
        } else if j == 3 {
            lemma_tap_fits(width, height, x, y, pos, len, -1, 1, 1 * width);
            assert(k.taps[3].dy * width == 1 * width);
        } else if j == 4 {
            lemma_tap_fits(width, height, x, y, pos, len, 0, 1, 1 * width);
            assert(k.taps[4].dy * width == 1 * width);
        } else if j == 5 {
            lemma_tap_fits(width, height, x, y, pos, len, 1, 1, 1 * width);
            assert(k.taps[5].dy * width == 1 * width);
        } else if j == 6 {
            lemma_tap_fits(width, height, x, y, pos, len, 2, 1, 1 * width);
            assert(k.taps[6].dy * width == 1 * width);
        } else if j == 7 {
            lemma_tap_fits(width, height, x, y, pos, len, -2, 2, 2 * width);
            assert(k.taps[7].dy * width == 2 * width);
        } else if j == 8 {
            lemma_tap_fits(width, height, x, y, pos, len, -1, 2, 2 * width);
            assert(k.taps[8].dy * width == 2 * width);
        } else if j == 9 {
            lemma_tap_fits(width, height, x, y, pos, len, 0, 2, 2 * width);
            assert(k.taps[9].dy * width == 2 * width);
        } else if j == 10 {
            lemma_tap_fits(width, height, x, y, pos, len, 1, 2, 2 * width);
            assert(k.taps[10].dy * width == 2 * width);
        } else {
            lemma_tap_fits(width, height, x, y, pos, len, 2, 2, 2 * width);
            assert(k.taps[11].dy * width == 2 * width);
        }
    }
}

/// The neighbors of the kernel of Stucki's diffusion lie in the image, behind
/// the pixel, where the kernel fits.
proof fn lemma_stucki_within(width: int, height: int, x: int, y: int, pos: int, len: int)
    requires
        0 <= x,
        0 <= y,
        0 <= pos,
        x < width - 2,
        y < height - 2,
        pos + 3 * ((height - y) * width - x) <= len,
    ensures
        taps_within(kernel_stucki(), pos, width, pos + 3, len, 12),
{
    let k = kernel_stucki();
    assert forall|j: int| 0 <= j < 12 implies ({
        &&& pos + 3 <= tap_at(pos, width, #[trigger] k.taps[j])
        &&& tap_at(pos, width, k.taps[j]) + 3 <= len
        &&& k.taps[j].num >= 0
    }) by {
        if j == 0 {
            lemma_tap_fits(width, height, x, y, pos, len, 1, 0, 0 * width);
            assert(k.taps[0].dy * width == 0 * width);
        } else if j == 1 {
            lemma_tap_fits(width, height, x, y, pos, len, 2, 0, 0 * width);
            assert(k.taps[1].dy * width == 0 * width);
        } else if j == 2 {
            lemma_tap_fits(width, height, x, y, pos, len, -2, 1, 1 * width);
            assert(k.taps[2].dy * width == 1 * width);
        } else if j == 3 {
            lemma_tap_fits(width, height, x, y, pos, len, -1, 1, 1 * width);
            assert(k.taps[3].dy * width == 1 * width);
        } else if j == 4 {
            lemma_tap_fits(width, height, x, y, pos, len, 0, 1, 1 * width);
            assert(k.taps[4].dy * width == 1 * width);
        } else if j == 5 {
            lemma_tap_fits(width, height, x, y, pos, len, 1, 1, 1 * width);
            assert(k.taps[5].dy * width == 1 * width);
        } else if j == 6 {
            lemma_tap_fits(width, height, x, y, pos, len, 2, 1, 1 * width);
            assert(k.taps[6].dy * width == 1 * width);
        } else if j == 7 {
            lemma_tap_fits(width, height, x, y, pos, len, -2, 2, 2 * width);
            assert(k.taps[7].dy * width == 2 * width);
        } else if j == 8 {
            lemma_tap_fits(width, height, x, y, pos, len, -1, 2, 2 * width);
            assert(k.taps[8].dy * width == 2 * width);
        } else if j == 9 {
            lemma_tap_fits(width, height, x, y, pos, len, 0, 2, 2 * width);
            assert(k.taps[9].dy * width == 2 * width);
        } else if j == 10 {
            lemma_tap_fits(width, height, x, y, pos, len, 1, 2, 2 * width);
            assert(k.taps[10].dy * width == 2 * width);
        } else {
            lemma_tap_fits(width, height, x, y, pos, len, 2, 2, 2 * width);
            assert(k.taps[11].dy * width == 2 * width);
        }
    }
}

/// The neighbors of the kernel of Burkes' diffusion lie in the image, behind
/// the pixel, where the kernel fits.
proof fn lemma_burkes_within(width: int, height: int, x: int, y: int, pos: int, len: int)
    requires
        0 <= x,
        0 <= y,
        0 <= pos,
        x < width - 2,
        y < height - 1,
        pos + 3 * ((height - y) * width - x) <= len,
    ensures
        taps_within(kernel_burkes(), pos, width, pos + 3, len, 7),
{
    let k = kernel_burkes();
    assert forall|j: int| 0 <= j < 7 implies ({
        &&& pos + 3 <= tap_at(pos, width, #[trigger] k.taps[j])
        &&& tap_at(pos, width, k.taps[j]) + 3 <= len
        &&& k.taps[j].num >= 0
    }) by {
        if j == 0 {
            lemma_tap_fits(width, height, x, y, pos, len, 1, 0, 0 * width);
            assert(k.taps[0].dy * width == 0 * width);
        } else if j == 1 {
            lemma_tap_fits(width, height, x, y, pos, len, 2, 0, 0 * width);
            assert(k.taps[1].dy * width == 0 * width);
        } else if j == 2 {
            lemma_tap_fits(width, height, x, y, pos, len, -2, 1, 1 * width);
            assert(k.taps[2].dy * width == 1 * width);
        } else if j == 3 {
            lemma_tap_fits(width, height, x, y, pos, len, -1, 1, 1 * width);
            assert(k.taps[3].dy * width == 1 * width);
        } else if j == 4 {
            lemma_tap_fits(width, height, x, y, pos, len, 0, 1, 1 * width);
            assert(k.taps[4].dy * width == 1 * width);
        } else if j == 5 {
            lemma_tap_fits(width, height, x, y, pos, len, 1, 1, 1 * width);
            assert(k.taps[5].dy * width == 1 * width);
        } else {
            lemma_tap_fits(width, height, x, y, pos, len, 2, 1, 1 * width);
            assert(k.taps[6].dy * width == 1 * width);
        }
    }
}

/// A diffusion method adds to pixels behind the pixel at hand only, and a
/// channel that it adds to is not below what it was and not above 255: the
/// buffer keeps its length, every byte up to the end of the pixel stays as it
/// is, and no byte decreases. The methods without a kernel change nothing.
pub proof fn lemma_dithered(
    data: Seq<u8>,
    pos: int,
    x: int,
    y: int,
    width: int,
    height: int,
    method: SixelDiffusion,
)
    requires
        0 <= x < width,
        0 <= y < height,
        0 <= pos,
        pos + 3 * ((height - y) * width - x) <= data.len(),
    ensures
        dithered(data, pos, x, y, width, height, method).len() == data.len(),
        forall|i: int|
            0 <= i < data.len() ==> data[i] <= #[trigger] dithered(
                data,
                pos,
                x,
                y,
                width,
                height,
                method,
            )[i] <= 255,
        forall|i: int|
            0 <= i < pos + 3 ==> #[trigger] dithered(data, pos, x, y, width, height, method)[i]
                == data[i],
        kernel_of(method) is None ==> dithered(data, pos, x, y, width, height, method) == data,
{
    let len = data.len() as int;
    let (er, eg, eb) = (data[pos], data[pos + 1], data[pos + 2]);
    if kernel_fits(method, x, y, width, height) {
        match method {
            SixelDiffusion::Atkinson => {
                lemma_atkinson_within(width, height, x, y, pos, len);
                lemma_spread_adds_forward(data, pos, width, er, eg, eb, kernel_atkinson(), 6, pos + 3);
            },
            SixelDiffusion::FS => {
                lemma_fs_within(width, height, x, y, pos, len);
                lemma_spread_adds_forward(data, pos, width, er, eg, eb, kernel_fs(), 3, pos + 3);
            },
            SixelDiffusion::JaJuNi => {
                lemma_jajuni_within(width, height, x, y, pos, len);
                lemma_spread_adds_forward(data, pos, width, er, eg, eb, kernel_jajuni(), 12, pos + 3);
            },
            SixelDiffusion::Stucki => {
                lemma_stucki_within(width, height, x, y, pos, len);
                lemma_spread_adds_forward(data, pos, width, er, eg, eb, kernel_stucki(), 12, pos + 3);
            },
            SixelDiffusion::Burkes => {
                lemma_burkes_within(width, height, x, y, pos, len);
                lemma_spread_adds_forward(data, pos, width, er, eg, eb, kernel_burkes(), 7, pos + 3);
            },
            _ => {},
        }
    }
}

} // verus!
