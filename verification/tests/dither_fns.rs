use sixela::dither_fns::{
    dither_func_a_dither, dither_func_atkinson, dither_func_burkes, dither_func_fs,
    dither_func_jajuni, dither_func_none, dither_func_stucki, dither_func_x_dither,
    sixel_apply_15bpp_dither,
};
use sixela::enums::SixelDiffusion;

struct Picture {
    state: u32,
}

impl Picture {
    fn next(&mut self, k: u32) -> u32 {
        self.state = self.state.wrapping_mul(1103515245).wrapping_add(12345) % (1 << 31);
        (self.state >> 16) % k
    }
}

fn image(seed: u32, width: usize, height: usize, bright: bool) -> Vec<u8> {
    let mut picture = Picture { state: seed };
    (0..3 * width * height)
        .map(|_| if bright { 200 + picture.next(56) as u8 } else { picture.next(256) as u8 })
        .collect()
}

fn hash(bytes: &[u8]) -> u64 {
    let mut h: u64 = 0xcbf29ce484222325;
    for &b in bytes {
        h ^= b as u64;
        h = h.wrapping_mul(0x100000001b3);
    }
    h
}

fn sum(bytes: &[u8]) -> u32 {
    bytes.iter().map(|&b| b as u32).sum()
}

/// The image after the method was applied to every pixel, row by row.
fn diffused(method: SixelDiffusion, seed: u32, width: usize, height: usize, bright: bool) -> Vec<u8> {
    let mut pixels = image(seed, width, height, bright);
    for y in 0..height {
        for x in 0..width {
            sixel_apply_15bpp_dither(
                &mut pixels,
                3 * (y * width + x),
                x as i32,
                y as i32,
                width as i32,
                height as i32,
                method,
            );
        }
    }
    pixels
}

/// An image of 5 by 3 pixels in which every channel is 7, but for the third
/// pixel, and the bytes that differ from 7 after the kernel was applied to
/// the first pixel.
fn changed(kernel: fn(&mut Vec<u8>, usize, usize)) -> Vec<(usize, u8)> {
    let mut pixels = vec![7u8; 45];
    pixels[6] = 0;
    pixels[7] = 254;
    pixels[8] = 255;
    kernel(&mut pixels, 0, 5);
    pixels.iter().enumerate().filter(|(_, &v)| v != 7).map(|(i, &v)| (i, v)).collect()
}

#[test]
fn floyd_steinberg_shares() {
    // An error of 7 gives 7 * 5 / 16 = 2 to the right and below, and
    // 7 * 3 / 16 = 1 below to the left.
    assert_eq!(
        changed(dither_func_fs),
        vec![(3, 9), (4, 9), (5, 9), (6, 0), (7, 254), (8, 255), (12, 8), (13, 8), (14, 8), (15, 9), (16, 9), (17, 9)]
    );
}

#[test]
fn atkinson_shares() {
    // An error of 7 gives (7 + 4) / 8 = 1 to each of six neighbors; a channel
    // stays at 255.
    assert_eq!(
        changed(dither_func_atkinson),
        vec![
            (3, 8), (4, 8), (5, 8), (6, 1), (7, 255), (8, 255), (12, 8), (13, 8), (14, 8), (15, 8),
            (16, 8), (17, 8), (18, 8), (19, 8), (20, 8), (30, 8), (31, 8), (32, 8),
        ]
    );
}

#[test]
fn jarvis_judice_ninke_shares() {
    // An error of 7 with the bias of 24 gives 31 * 7 / 48 = 4, 31 * 5 / 48 = 3
    // and 31 * 3 / 48 = 1; the shares of 1 / 48 are nothing.
    assert_eq!(
        changed(dither_func_jajuni),
        vec![
            (3, 11), (4, 11), (5, 11), (6, 3), (7, 255), (8, 255), (9, 8), (10, 8), (11, 8),
            (12, 10), (13, 10), (14, 10), (15, 11), (16, 11), (17, 11), (18, 10), (19, 10),
            (20, 10), (21, 8), (22, 8), (23, 8), (27, 8), (28, 8), (29, 8), (30, 10), (31, 10),
            (32, 10), (33, 8), (34, 8), (35, 8),
        ]
    );
}

#[test]
fn stucki_shares() {
    // An error of 7 with the bias of 24 gives 31 * 8 / 48 = 5, 31 * 4 / 48 = 2
    // and 31 * 2 / 48 = 1; the shares of 1 / 48 are nothing.
    assert_eq!(
        changed(dither_func_stucki),
        vec![
            (3, 12), (4, 12), (5, 12), (6, 2), (7, 255), (8, 255), (9, 8), (10, 8), (11, 8),
            (12, 9), (13, 9), (14, 9), (15, 12), (16, 12), (17, 12), (18, 9), (19, 9), (20, 9),
            (21, 8), (22, 8), (23, 8), (27, 8), (28, 8), (29, 8), (30, 9), (31, 9), (32, 9),
            (33, 8), (34, 8), (35, 8),
        ]
    );
}

#[test]
fn burkes_shares() {
    // An error of 7 with the bias of 8 gives 15 * 4 / 16 = 3 and
    // 15 * 2 / 16 = 1; the shares of 1 / 16 are nothing.
    assert_eq!(
        changed(dither_func_burkes),
        vec![
            (3, 10), (4, 10), (5, 10), (6, 1), (7, 255), (8, 255), (12, 8), (13, 8), (14, 8),
            (15, 10), (16, 10), (17, 10), (18, 8), (19, 8), (20, 8),
        ]
    );
}

#[test]
fn whole_images() {
    let expected: [(SixelDiffusion, [(u64, u32); 4]); 5] = [
        (
            SixelDiffusion::FS,
            [
                (0x4011f6d06a29ddd3, 6982),
                (0x3842ab8355a05511, 6242),
                (0x20cc888e92578254, 24851),
                (0x406331fff5cdff95, 13674),
            ],
        ),
        (
            SixelDiffusion::Atkinson,
            [
                (0x40b0c2fc653040ce, 6969),
                (0x5cca8d871e6cb45b, 6232),
                (0x229919f18256452e, 24959),
                (0x70310558ec843499, 13698),
            ],
        ),
        (
            SixelDiffusion::JaJuNi,
            [
                (0xfaf1029197908489, 7266),
                (0x755b103efd3c01fb, 6284),
                (0x5737be8ec980fff9, 26798),
                (0x875d2303542722c3, 13974),
            ],
        ),
        (
            SixelDiffusion::Stucki,
            [
                (0xc64e777597952d4, 7271),
                (0x2f70a7303868f87c, 6289),
                (0x930bd2d8cb04f73, 26776),
                (0x721494a7795cbe5b, 13972),
            ],
        ),
        (
            SixelDiffusion::Burkes,
            [
                (0xeec52f549055c9c1, 7116),
                (0xedba822b1760d55c, 6279),
                (0xe44cfd007048c07d, 25644),
                (0x2312bfa8e70f49f0, 13817),
            ],
        ),
    ];
    let images = [(5, 4, 11, false), (3, 3, 12, true), (9, 7, 13, false), (4, 5, 14, true)];
    for (method, results) in expected {
        for (&(width, height, seed, bright), &result) in images.iter().zip(results.iter()) {
            let pixels = diffused(method, seed, width, height, bright);
            assert_eq!((hash(&pixels), sum(&pixels)), result, "{:?} {}x{}", method, width, height);
        }
    }
}

#[test]
fn methods_without_a_kernel_change_nothing() {
    for method in
        [SixelDiffusion::Off, SixelDiffusion::Auto, SixelDiffusion::ADither, SixelDiffusion::XDither]
    {
        assert_eq!(diffused(method, 21, 7, 6, false), image(21, 7, 6, false));
    }
    let mut pixels = image(22, 4, 4, false);
    let before = pixels.clone();
    dither_func_none(&mut pixels, 4);
    dither_func_a_dither(&mut pixels, 9, 4, 3, 0);
    dither_func_x_dither(&mut pixels, 9, 4, 3, 0);
    dither_func_a_dither(&mut pixels, 0, 4, i32::MAX, i32::MIN);
    dither_func_x_dither(&mut pixels, 0, 4, i32::MIN, i32::MAX);
    assert_eq!(pixels, before);
    // Wherever the pixel stands and whatever the buffer holds.
    for method in
        [SixelDiffusion::Off, SixelDiffusion::Auto, SixelDiffusion::ADither, SixelDiffusion::XDither]
    {
        sixel_apply_15bpp_dither(&mut pixels, 1000, -5, 99, 0, -1, method);
        sixel_apply_15bpp_dither(&mut pixels, 46, 3, 3, 4, 4, method);
        assert_eq!(pixels, before);
        let mut nothing: Vec<u8> = Vec::new();
        sixel_apply_15bpp_dither(&mut nothing, 0, 0, 0, 1, 1, method);
        assert!(nothing.is_empty());
    }
}

#[test]
fn diffusion_adds_to_later_pixels_only_and_never_wraps() {
    for method in [
        SixelDiffusion::FS,
        SixelDiffusion::Atkinson,
        SixelDiffusion::JaJuNi,
        SixelDiffusion::Stucki,
        SixelDiffusion::Burkes,
    ] {
        let (width, height) = (6usize, 5usize);
        let mut pixels = image(31, width, height, true);
        for y in 0..height {
            for x in 0..width {
                let before = pixels.clone();
                let pos = 3 * (y * width + x);
                sixel_apply_15bpp_dither(
                    &mut pixels,
                    pos,
                    x as i32,
                    y as i32,
                    width as i32,
                    height as i32,
                    method,
                );
                assert_eq!(pixels.len(), before.len());
                assert_eq!(&pixels[..pos + 3], &before[..pos + 3]);
                assert!(pixels.iter().zip(before.iter()).all(|(after, before)| after >= before));
            }
        }
    }
}

#[test]
fn a_kernel_that_does_not_fit_is_not_applied() {
    let (width, height) = (4usize, 3usize);
    for (method, right, below) in [
        (SixelDiffusion::FS, 1, 1),
        (SixelDiffusion::Atkinson, 2, 2),
        (SixelDiffusion::JaJuNi, 2, 2),
        (SixelDiffusion::Stucki, 2, 2),
        (SixelDiffusion::Burkes, 2, 1),
    ] {
        for y in 0..height {
            for x in 0..width {
                let mut pixels = vec![7u8; 3 * width * height];
                sixel_apply_15bpp_dither(
                    &mut pixels,
                    3 * (y * width + x),
                    x as i32,
                    y as i32,
                    width as i32,
                    height as i32,
                    method,
                );
                let fits = x + right < width && y + below < height;
                assert_eq!(pixels != vec![7u8; 3 * width * height], fits, "{:?} {} {}", method, x, y);
            }
        }
    }
}
