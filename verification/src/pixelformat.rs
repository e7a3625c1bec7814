//! Normalization of pixel formats.
//!
//! A color or a gray level with whole bytes becomes a color of three bytes:
//! red, green and blue. Packed palette indices and gray levels become one
//! byte each. The result always has three bytes for each pixel of the image;
//! where it holds one byte a pixel, zeros follow.

use vstd::prelude::*;
use crate::arith::lemma_cell_in_grid;
use crate::arith::lemma_product_bound;
use crate::enums::PixelFormat;
use crate::error::{SixelError, SixelResult};

verus! {

/// The bytes of a pixel, for a format with whole bytes; 0 for a packed one.
pub open spec fn bytes_per_pixel(format: PixelFormat) -> int {
    match format {
        PixelFormat::G8 => 1,
        PixelFormat::RGB555
        | PixelFormat::RGB565
        | PixelFormat::BGR555
        | PixelFormat::BGR565
        | PixelFormat::AG88
        | PixelFormat::GA88 => 2,
        PixelFormat::RGB888 | PixelFormat::BGR888 => 3,
        PixelFormat::ARGB8888
        | PixelFormat::RGBA8888
        | PixelFormat::ABGR8888
        | PixelFormat::BGRA8888 => 4,
        _ => 0,
    }
}

/// The bits of a pixel, for a format of palette indices or packed gray
/// levels; 0 for another one.
pub open spec fn bits_per_index(format: PixelFormat) -> int {
    match format {
        PixelFormat::G1 | PixelFormat::PAL1 => 1,
        PixelFormat::G2 | PixelFormat::PAL2 => 2,
        PixelFormat::G4 | PixelFormat::PAL4 => 4,
        PixelFormat::PAL8 => 8,
        _ => 0,
    }
}

/// The format of the normalized pixels: RGB888 for colors and gray levels
/// with whole bytes, G8 for packed gray levels, PAL8 for palette indices.
pub open spec fn canonical(format: PixelFormat) -> PixelFormat {
    match format {
        PixelFormat::G1 | PixelFormat::G2 | PixelFormat::G4 => PixelFormat::G8,
        PixelFormat::PAL1 | PixelFormat::PAL2 | PixelFormat::PAL4 | PixelFormat::PAL8 => PixelFormat::PAL8,
        _ => PixelFormat::RGB888,
    }
}

/// The bytes of a row of packed pixels: rows start at whole bytes.
pub open spec fn row_bytes(format: PixelFormat, width: int) -> int {
    (width * bits_per_index(format) + 7) / 8
}

/// The bytes that an image of a format holds.
pub open spec fn source_len(format: PixelFormat, width: int, height: int) -> int {
    if bytes_per_pixel(format) > 0 {
        height * width * bytes_per_pixel(format)
    } else {
        height * row_bytes(format, width)
    }
}

/// The `depth` bytes from `at` on as one number, the first byte first.
pub open spec fn word(src: Seq<u8>, at: int, depth: int) -> u32
    decreases depth,
{
    if depth <= 0 {
        0u32
    } else {
        (word(src, at, depth - 1) << 8) | (src[at + depth - 1] as u32)
    }
}

/// Channel `c` (0 red, 1 green, 2 blue) of a pixel whose bytes are the
/// number `w`.
pub open spec fn channel(format: PixelFormat, w: u32, c: int) -> u8 {
    let (r, g, b): (u32, u32, u32) = match format {
        PixelFormat::RGB555 => (
            ((w >> 10) & 0x1f) << 3,
            ((w >> 5) & 0x1f) << 3,
            (w & 0x1f) << 3,
        ),
        PixelFormat::RGB565 => (
            ((w >> 11) & 0x1f) << 3,
            ((w >> 5) & 0x3f) << 2,
            (w & 0x1f) << 3,
        ),
        PixelFormat::BGR555 => (
            (w & 0x1f) << 3,
            ((w >> 5) & 0x1f) << 3,
            ((w >> 10) & 0x1f) << 3,
        ),
        PixelFormat::BGR565 => (
            (w & 0x1f) << 3,
            ((w >> 5) & 0x3f) << 2,
            ((w >> 11) & 0x1f) << 3,
        ),
        PixelFormat::RGB888 | PixelFormat::ARGB8888 => (
            (w >> 16) & 0xff,
            (w >> 8) & 0xff,
            w & 0xff,
        ),
        PixelFormat::BGR888 | PixelFormat::ABGR8888 => (
            w & 0xff,
            (w >> 8) & 0xff,
            (w >> 16) & 0xff,
        ),
        PixelFormat::RGBA8888 => ((w >> 24) & 0xff, (w >> 16) & 0xff, (w >> 8) & 0xff),
        PixelFormat::BGRA8888 => ((w >> 8) & 0xff, (w >> 16) & 0xff, (w >> 24) & 0xff),
        PixelFormat::G8 | PixelFormat::AG88 => (w & 0xff, w & 0xff, w & 0xff),
        PixelFormat::GA88 => ((w >> 8) & 0xff, (w >> 8) & 0xff, (w >> 8) & 0xff),
        _ => (0u32, 0u32, 0u32),
    };
    if c == 0 {
        r as u8
    } else if c == 1 {
        g as u8
    } else {
        b as u8
    }
}

/// The pixels that a byte of a packed format holds.
pub open spec fn pixels_per_byte(format: PixelFormat) -> int {
    match format {
        PixelFormat::G1 | PixelFormat::PAL1 => 8,
        PixelFormat::G2 | PixelFormat::PAL2 => 4,
        PixelFormat::G4 | PixelFormat::PAL4 => 2,
        _ => 1,
    }
}

/// The bits of a byte that hold a pixel of a packed format.
pub open spec fn index_mask(format: PixelFormat) -> u8 {
    match format {
        PixelFormat::G1 | PixelFormat::PAL1 => 1u8,
        PixelFormat::G2 | PixelFormat::PAL2 => 3u8,
        PixelFormat::G4 | PixelFormat::PAL4 => 15u8,
        _ => 255u8,
    }
}

/// The packed value of the pixel in row `y` and column `x`: the first pixel
/// of a byte stands in the byte's upper bits.
pub open spec fn packed_value(src: Seq<u8>, format: PixelFormat, width: int, y: int, x: int) -> u8 {
    let per = pixels_per_byte(format);
    let byte = src[y * row_bytes(format, width) + x / per];
    let shift = ((per - 1 - x % per) * bits_per_index(format)) as u8;
    (byte >> shift) & index_mask(format)
}

/// Byte `i` of the normalized image.
pub open spec fn normalized_byte(
    src: Seq<u8>,
    format: PixelFormat,
    width: int,
    height: int,
    i: int,
) -> u8 {
    if bytes_per_pixel(format) > 0 {
        let depth = bytes_per_pixel(format);
        channel(format, word(src, (i / 3) * depth, depth), i % 3)
    } else if i < height * width {
        packed_value(src, format, width, i / width, i % width)
    } else {
        0u8
    }
}

/// The normalized image: three bytes for each pixel.
pub open spec fn normalized(src: Seq<u8>, format: PixelFormat, width: int, height: int) -> Seq<u8> {
    Seq::new(
        (3 * (height * width)) as nat,
        |i: int| normalized_byte(src, format, width, height, i),
    )
}

/// The error with which an image is not normalized, if any: dimensions below
/// 1 are bad input, more than `i32::MAX` bytes in the result are an integer
/// overflow, and fewer bytes than the format holds for the dimensions are bad
/// input.
pub open spec fn normalize_error(src_len: int, format: PixelFormat, width: int, height: int) -> Option<
    SixelError,
> {
    if width < 1 || height < 1 {
        Some(SixelError::BadInput)
    } else if 3 * (height * width) > i32::MAX {
        Some(SixelError::BadIntegerOverflow)
    } else if src_len < source_len(format, width, height) {
        Some(SixelError::BadInput)
    } else {
        None
    }
}

/// The normalized image has three bytes for each pixel.
pub proof fn lemma_normalized_len(src: Seq<u8>, format: PixelFormat, width: int, height: int)
    requires
        0 <= width,
        0 <= height,
    ensures
        normalized(src, format, width, height).len() == 3 * (height * width),
{
    assert(0 <= height * width) by (nonlinear_arith)
        requires
            0 <= width,
            0 <= height,
    ;
}

/// The three bytes of a color are the color.
proof fn lemma_rgb888_word(b0: u8, b1: u8, b2: u8)
    ensures
        ({
            let w = (((((0u32 << 8) | (b0 as u32)) << 8) | (b1 as u32)) << 8) | (b2 as u32);
            &&& ((w >> 16) & 0xff) as u8 == b0
            &&& ((w >> 8) & 0xff) as u8 == b1
            &&& (w & 0xff) as u8 == b2
        }),
{
    assert({
        let w = (((((0u32 << 8) | (b0 as u32)) << 8) | (b1 as u32)) << 8) | (b2 as u32);
        &&& ((w >> 16) & 0xff) as u8 == b0
        &&& ((w >> 8) & 0xff) as u8 == b1
        &&& (w & 0xff) as u8 == b2
    }) by (bit_vector);
}

/// An image in RGB888 is normalized as it is.
pub proof fn lemma_normalized_rgb888(src: Seq<u8>, width: int, height: int)
    requires
        0 <= width,
        0 <= height,
        src.len() >= 3 * (height * width),
    ensures
        normalized(src, PixelFormat::RGB888, width, height) == src.take(3 * (height * width)),
{
    lemma_normalized_len(src, PixelFormat::RGB888, width, height);
    let out = normalized(src, PixelFormat::RGB888, width, height);
    assert forall|i: int| 0 <= i < out.len() implies out[i] == src[i] by {
        let at = (i / 3) * 3;
        lemma_rgb888_word(src[at], src[at + 1], src[at + 2]);
        assert(word(src, at, 0) == 0u32);
        assert(word(src, at, 1) == (word(src, at, 0) << 8) | (src[at] as u32));
        assert(word(src, at, 2) == (word(src, at, 1) << 8) | (src[at + 1] as u32));
        assert(word(src, at, 3) == (word(src, at, 2) << 8) | (src[at + 2] as u32));
    }
    assert(out =~= src.take(3 * (height * width)));
}

/// Normalizing what is normalized to RGB888 changes nothing.
pub proof fn lemma_normalized_again(src: Seq<u8>, format: PixelFormat, width: int, height: int)
    requires
        0 <= width,
        0 <= height,
    ensures
        normalized(normalized(src, format, width, height), PixelFormat::RGB888, width, height)
            == normalized(src, format, width, height),
{
    lemma_normalized_len(src, format, width, height);
    let once = normalized(src, format, width, height);
    lemma_normalized_rgb888(once, width, height);
    assert(once.take(3 * (height * width)) =~= once);
}

/// Computes the bytes of a pixel of a format with whole bytes.
fn depth_of(format: PixelFormat) -> (depth: usize)
    ensures
        depth == bytes_per_pixel(format),
{
    match format {
        PixelFormat::G8 => 1,
        PixelFormat::RGB555
        | PixelFormat::RGB565
        | PixelFormat::BGR555
        | PixelFormat::BGR565
        | PixelFormat::AG88
        | PixelFormat::GA88 => 2,
        PixelFormat::RGB888 | PixelFormat::BGR888 => 3,
        PixelFormat::ARGB8888
        | PixelFormat::RGBA8888
        | PixelFormat::ABGR8888
        | PixelFormat::BGRA8888 => 4,
        _ => 0,
    }
}

/// Computes the bits of a pixel of a packed format.
fn bits_of(format: PixelFormat) -> (bits: usize)
    ensures
        bits == bits_per_index(format),
        bits == 0 || bits * pixels_per_byte(format) == 8,
{
    match format {
        PixelFormat::G1 | PixelFormat::PAL1 => 1,
        PixelFormat::G2 | PixelFormat::PAL2 => 2,
        PixelFormat::G4 | PixelFormat::PAL4 => 4,
        PixelFormat::PAL8 => 8,
        _ => 0,
    }
}

/// Computes the format of the normalized pixels.
fn canonical_of(format: PixelFormat) -> (c: PixelFormat)
    ensures
        c == canonical(format),
{
    match format {
        PixelFormat::G1 | PixelFormat::G2 | PixelFormat::G4 => PixelFormat::G8,
        PixelFormat::PAL1 | PixelFormat::PAL2 | PixelFormat::PAL4 | PixelFormat::PAL8 => PixelFormat::PAL8,
        _ => PixelFormat::RGB888,
    }
}

/// Reads the bytes of a pixel as one number.
fn word_at(src: &[u8], at: usize, depth: usize) -> (w: u32)
    requires
        depth <= 4,
        at + depth <= src@.len(),
    ensures
        w == word(src@, at as int, depth as int),
{
    let mut w: u32 = 0;
    let mut k: usize = 0;
    let _len: usize = src.len();
    while k < depth
        invariant
            k <= depth <= 4,
            at + depth <= src@.len() <= usize::MAX,
            w == word(src@, at as int, k as int),
        decreases depth - k,
    {
        w = (w << 8) | (src[at + k] as u32);
        k = k + 1;
    }
    w
}

/// Computes the three channels of a pixel.
fn channels_of(format: PixelFormat, w: u32) -> (rgb: (u8, u8, u8))
    ensures
        rgb.0 == channel(format, w, 0),
        rgb.1 == channel(format, w, 1),
        rgb.2 == channel(format, w, 2),
{
    let (r, g, b): (u32, u32, u32) = match format {
        PixelFormat::RGB555 => (
            ((w >> 10) & 0x1f) << 3,
            ((w >> 5) & 0x1f) << 3,
            (w & 0x1f) << 3,
        ),
        PixelFormat::RGB565 => (
            ((w >> 11) & 0x1f) << 3,
            ((w >> 5) & 0x3f) << 2,
            (w & 0x1f) << 3,
        ),
        PixelFormat::BGR555 => (
            (w & 0x1f) << 3,
            ((w >> 5) & 0x1f) << 3,
            ((w >> 10) & 0x1f) << 3,
        ),
        PixelFormat::BGR565 => (
            (w & 0x1f) << 3,
            ((w >> 5) & 0x3f) << 2,
            ((w >> 11) & 0x1f) << 3,
        ),
        PixelFormat::RGB888 | PixelFormat::ARGB8888 => (
            (w >> 16) & 0xff,
            (w >> 8) & 0xff,
            w & 0xff,
        ),
        PixelFormat::BGR888 | PixelFormat::ABGR8888 => (
            w & 0xff,
            (w >> 8) & 0xff,
            (w >> 16) & 0xff,
        ),
        PixelFormat::RGBA8888 => ((w >> 24) & 0xff, (w >> 16) & 0xff, (w >> 8) & 0xff),
        PixelFormat::BGRA8888 => ((w >> 8) & 0xff, (w >> 16) & 0xff, (w >> 24) & 0xff),
        PixelFormat::G8 | PixelFormat::AG88 => (w & 0xff, w & 0xff, w & 0xff),
        PixelFormat::GA88 => ((w >> 8) & 0xff, (w >> 8) & 0xff, (w >> 8) & 0xff),
        _ => (0u32, 0u32, 0u32),
    };
    (
        #[verifier::truncate]
        (r as u8),
        #[verifier::truncate]
        (g as u8),
        #[verifier::truncate]
        (b as u8),
    )
}

/// Normalizes an image of a format with whole bytes.
fn expand_colors(src: &[u8], format: PixelFormat, width: usize, height: usize) -> (out: Vec<u8>)
    requires
        bytes_per_pixel(format) > 0,
        1 <= width,
        1 <= height,
        3 * (height * width) <= i32::MAX,
        height * width * bytes_per_pixel(format) <= src@.len(),
    ensures
        out@ == normalized(src@, format, width as int, height as int),
{
    let depth: usize = depth_of(format);
    let count: usize = height * width;
    let mut out: Vec<u8> = Vec::new();
    let mut p: usize = 0;
    while p < count
        invariant
            p <= count,
            count == height * width,
            3 * count <= i32::MAX,
            1 <= depth <= 4,
            depth == bytes_per_pixel(format),
            count * depth <= src@.len(),
            out@.len() == 3 * p,
            forall|i: int|
                0 <= i < 3 * p ==> #[trigger] out@[i] == normalized_byte(
                    src@,
                    format,
                    width as int,
                    height as int,
                    i,
                ),
        decreases count - p,
    {
        proof {
            assert(p * depth + depth <= count * depth) by (nonlinear_arith)
                requires
                    p < count,
                    0 <= depth,
            ;
            assert(0 <= p * depth) by (nonlinear_arith)
                requires
                    0 <= p,
                    0 <= depth,
            ;
        }
        let w: u32 = word_at(src, p * depth, depth);
        let (r, g, b) = channels_of(format, w);
        out.push(r);
        out.push(g);
        out.push(b);
        p = p + 1;
    }
    assert(out@ =~= normalized(src@, format, width as int, height as int));
    out
}

/// Normalizes an image of a packed format.
fn expand_indices(src: &[u8], format: PixelFormat, width: usize, height: usize) -> (out: Vec<u8>)
    requires
        bits_per_index(format) > 0,
        1 <= width <= i32::MAX,
        1 <= height <= i32::MAX,
        3 * (height * width) <= i32::MAX,
        height * row_bytes(format, width as int) <= src@.len(),
    ensures
        out@ == normalized(src@, format, width as int, height as int),
{
    let bits: usize = bits_of(format);
    let per: usize = 8 / bits;
    let mask: u8 = if bits == 1 {
        1
    } else if bits == 2 {
        3
    } else if bits == 4 {
        15
    } else {
        255
    };
    proof {
        lemma_product_bound(width as int, bits as int, i32::MAX as int, 8);
        lemma_product_bound(height as int, width as int, i32::MAX as int, i32::MAX as int);
    }
    let stride: usize = (((width as u64) * (bits as u64) + 7) / 8) as usize;
    let count: usize = height * width;
    let ghost w = width as int;
    let ghost h = height as int;
    let _len: usize = src.len();
    let mut out: Vec<u8> = Vec::new();
    let mut y: usize = 0;
    assert(0 * width == 0) by (nonlinear_arith);
    while y < height
        invariant
            y <= height,
            1 <= width,
            1 <= stride,
            src@.len() <= usize::MAX,
            w == width,
            h == height,
            count == height * width,
            3 * count <= i32::MAX,
            bits == bits_per_index(format),
            per == pixels_per_byte(format),
            bits * per == 8,
            1 <= per <= 8,
            mask == index_mask(format),
            stride == row_bytes(format, w),
            height * stride <= src@.len(),
            out@.len() == y * width,
            forall|i: int|
                0 <= i < y * width ==> #[trigger] out@[i] == normalized_byte(src@, format, w, h, i),
        decreases height - y,
    {
        proof {
            lemma_cell_in_grid(stride as int, h, y as int, 0);
            assert(y * stride + stride <= height * stride) by (nonlinear_arith)
                requires
                    y < height,
                    0 <= stride,
            ;
            lemma_cell_in_grid(w, h, y as int, 0);
        }
        let line: usize = y * stride;
        let mut x: usize = 0;
        while x < width
            invariant
                x <= width,
                y < height,
                1 <= width,
                w == width,
                h == height,
                count == height * width,
                3 * count <= i32::MAX,
                bits == bits_per_index(format),
                per == pixels_per_byte(format),
                bits * per == 8,
                1 <= per <= 8,
                mask == index_mask(format),
                stride == row_bytes(format, w),
                line == y * stride,
                line + stride <= src@.len() <= usize::MAX,
                out@.len() == y * width + x,
                forall|i: int|
                    0 <= i < y * width + x ==> #[trigger] out@[i] == normalized_byte(
                        src@,
                        format,
                        w,
                        h,
                        i,
                    ),
            decreases width - x,
        {
            proof {
                lemma_cell_in_grid(w, h, y as int, x as int);
                if per == 8 {
                    assert(bits == 1) by (nonlinear_arith)
                        requires
                            bits * per == 8,
                            per == 8,
                    ;
                    assert(w * bits == 1 * w) by (nonlinear_arith)
                        requires
                            bits == 1,
                    ;
                } else if per == 4 {
                    assert(bits == 2) by (nonlinear_arith)
                        requires
                            bits * per == 8,
                            per == 4,
                    ;
                    assert(w * bits == 2 * w) by (nonlinear_arith)
                        requires
                            bits == 2,
                    ;
                } else if per == 2 {
                    assert(bits == 4) by (nonlinear_arith)
                        requires
                            bits * per == 8,
                            per == 2,
                    ;
                    assert(w * bits == 4 * w) by (nonlinear_arith)
                        requires
                            bits == 4,
                    ;
                } else {
                    assert(per == 1);
                    assert(bits == 8) by (nonlinear_arith)
                        requires
                            bits * per == 8,
                            per == 1,
                    ;
                    assert(w * bits == 8 * w) by (nonlinear_arith)
                        requires
                            bits == 8,
                    ;
                }
                assert(x / per < stride);
            }
            let byte: u8 = src[line + x / per];
            let place: usize = per - 1 - x % per;
            assert(place * bits <= 7) by (nonlinear_arith)
                requires
                    place <= per - 1,
                    bits * per == 8,
                    1 <= bits,
                    1 <= per,
            ;
            let shift: u8 = (place * bits) as u8;
            out.push((byte >> shift) & mask);
            x = x + 1;
        }
        assert((y + 1) * width == y * width + width) by (nonlinear_arith);
        y = y + 1;
    }
    let mut i: usize = count;
    while i < 3 * count
        invariant
            count <= i <= 3 * count,
            w == width,
            h == height,
            count == height * width,
            3 * count <= i32::MAX,
            bits_per_index(format) > 0,
            out@.len() == i,
            forall|j: int| 0 <= j < i ==> #[trigger] out@[j] == normalized_byte(src@, format, w, h, j),
        decreases 3 * count - i,
    {
        out.push(0u8);
        i = i + 1;
    }
    assert(out@ =~= normalized(src@, format, w, h));
    out
}

/// Normalizes the pixels of `src` from `src_pixelformat` into `dst`, and
/// returns the format of the normalized pixels.
///
/// `dst` is left as it is where the image is not normalized.
pub fn sixel_helper_normalize_pixelformat(
    dst: &mut Vec<u8>,
    src: &[u8],
    src_pixelformat: PixelFormat,
    width: i32,
    height: i32,
) -> (r: SixelResult<PixelFormat>)
    ensures
        r == match normalize_error(
            src@.len() as int,
            src_pixelformat,
            width as int,
            height as int,
        ) {
            Some(e) => Err::<PixelFormat, SixelError>(e),
            None => Ok::<PixelFormat, SixelError>(canonical(src_pixelformat)),
        },
        r is Ok ==> final(dst)@ == normalized(
            src@,
            src_pixelformat,
            width as int,
            height as int,
        ),
        r is Ok ==> final(dst)@.len() == 3 * (height * width),
        r is Err ==> final(dst)@ == old(dst)@,
{
    if width < 1 || height < 1 {
        return Err(SixelError::BadInput);
    }
    proof {
        lemma_product_bound(height as int, width as int, i32::MAX as int, i32::MAX as int);
        lemma_normalized_len(src@, src_pixelformat, width as int, height as int);
    }
    let area: u64 = (height as u64) * (width as u64);
    if 3 * area > i32::MAX as u64 {
        return Err(SixelError::BadIntegerOverflow);
    }
    let depth: usize = depth_of(src_pixelformat);
    let bits: usize = bits_of(src_pixelformat);
    let w: usize = width as usize;
    let h: usize = height as usize;
    if depth > 0 {
        proof {
            lemma_product_bound(area as int, depth as int, i32::MAX as int, 4);
        }
        if (src.len() as u64) < area * (depth as u64) {
            return Err(SixelError::BadInput);
        }
        *dst = expand_colors(src, src_pixelformat, w, h);
    } else {
        proof {
            lemma_product_bound(width as int, bits as int, i32::MAX as int, 8);
        }
        let stride: u64 = ((width as u64) * (bits as u64) + 7) / 8;
        proof {
            lemma_product_bound(height as int, stride as int, i32::MAX as int, 0x1_0000_0000);
        }
        if (src.len() as u64) < (height as u64) * stride {
            return Err(SixelError::BadInput);
        }
        *dst = expand_indices(src, src_pixelformat, w, h);
    }
    Ok(canonical_of(src_pixelformat))
}

} // verus!
