use sixela::builder::Sixel;
use sixela::enums::{LargestDim, PixelFormat, Quality, RepColor, SixelDiffusion};
use sixela::error::SixelError;

#[test]
fn empty_builder() {
    let sixel = Sixel::new();
    assert_eq!(sixel.bytes, None);
    assert_eq!((sixel.width, sixel.height), (0, 0));
    assert_eq!(sixel.format, PixelFormat::RGB888);
    assert_eq!(sixel.diffuse, SixelDiffusion::Auto);
    assert_eq!(sixel.largest, LargestDim::Auto);
    assert_eq!(sixel.rep, RepColor::Auto);
    assert_eq!(sixel.quality, Quality::Auto);
    let other = Sixel::default();
    assert_eq!((other.bytes, other.width, other.height), (None, 0, 0));
}

#[test]
fn builder_constructors() {
    let bytes = [1u8, 2, 3];
    let sixel = Sixel::with_bytes(&bytes);
    assert_eq!((sixel.bytes, sixel.width, sixel.height), (Some(&bytes[..]), 0, 0));
    let sixel = Sixel::with_size(4, 5);
    assert_eq!((sixel.bytes, sixel.width, sixel.height), (None, 4, 5));
    let sixel = Sixel::with_bytes_size(&bytes, 1, 1);
    assert_eq!((sixel.bytes, sixel.width, sixel.height), (Some(&bytes[..]), 1, 1));
}

#[test]
fn builder_setters() {
    let bytes = [0u8; 4];
    let sixel = Sixel::new()
        .bytes(&bytes)
        .width(2)
        .height(3)
        .format(PixelFormat::G8)
        .diffuse(SixelDiffusion::Burkes)
        .largest(LargestDim::Lum)
        .rep(RepColor::AverageColors)
        .quality(Quality::High);
    assert_eq!(sixel.bytes, Some(&bytes[..]));
    assert_eq!((sixel.width, sixel.height), (2, 3));
    assert_eq!(sixel.format, PixelFormat::G8);
    assert_eq!(sixel.diffuse, SixelDiffusion::Burkes);
    assert_eq!(sixel.largest, LargestDim::Lum);
    assert_eq!(sixel.rep, RepColor::AverageColors);
    assert_eq!(sixel.quality, Quality::High);
    let sixel = sixel.size(7, 8);
    assert_eq!((sixel.width, sixel.height), (7, 8));
    assert_eq!(sixel.format, PixelFormat::G8);
}

#[test]
fn builder_shorthands() {
    assert_eq!(Sixel::new().format_rgb555().format, PixelFormat::RGB555);
    assert_eq!(Sixel::new().format_rgb565().format, PixelFormat::RGB565);
    assert_eq!(Sixel::new().format_g8().format_rgb888().format, PixelFormat::RGB888);
    assert_eq!(Sixel::new().format_bgr555().format, PixelFormat::BGR555);
    assert_eq!(Sixel::new().format_bgr565().format, PixelFormat::BGR565);
    assert_eq!(Sixel::new().format_bgr888().format, PixelFormat::BGR888);
    assert_eq!(Sixel::new().format_argb8888().format, PixelFormat::ARGB8888);
    assert_eq!(Sixel::new().format_rgba8888().format, PixelFormat::RGBA8888);
    assert_eq!(Sixel::new().format_abgr8888().format, PixelFormat::ABGR8888);
    assert_eq!(Sixel::new().format_bgra8888().format, PixelFormat::BGRA8888);
    assert_eq!(Sixel::new().format_g1().format, PixelFormat::G1);
    assert_eq!(Sixel::new().format_g2().format, PixelFormat::G2);
    assert_eq!(Sixel::new().format_g4().format, PixelFormat::G4);
    assert_eq!(Sixel::new().format_g8().format, PixelFormat::G8);
    assert_eq!(Sixel::new().format_ag88().format, PixelFormat::AG88);
    assert_eq!(Sixel::new().format_ga88().format, PixelFormat::GA88);
    assert_eq!(Sixel::new().format_pal1().format, PixelFormat::PAL1);
    assert_eq!(Sixel::new().format_pal2().format, PixelFormat::PAL2);
    assert_eq!(Sixel::new().format_pal4().format, PixelFormat::PAL4);
    assert_eq!(Sixel::new().format_pal8().format, PixelFormat::PAL8);
    assert_eq!(Sixel::new().largest_norm().largest, LargestDim::Norm);
    assert_eq!(Sixel::new().largest_lum().largest, LargestDim::Lum);
    assert_eq!(Sixel::new().largest_lum().largest_auto().largest, LargestDim::Auto);
    assert_eq!(Sixel::new().rep_center().rep, RepColor::Center);
    assert_eq!(Sixel::new().rep_average().rep, RepColor::AverageColors);
    assert_eq!(Sixel::new().rep_pixels().rep, RepColor::AveragePixels);
    assert_eq!(Sixel::new().rep_pixels().rep_auto().rep, RepColor::Auto);
    assert_eq!(Sixel::new().diffuse_none().diffuse, SixelDiffusion::Off);
    assert_eq!(Sixel::new().diffuse_atkinson().diffuse, SixelDiffusion::Atkinson);
    assert_eq!(Sixel::new().diffuse_fs().diffuse, SixelDiffusion::FS);
    assert_eq!(Sixel::new().diffuse_jajuni().diffuse, SixelDiffusion::JaJuNi);
    assert_eq!(Sixel::new().diffuse_stucki().diffuse, SixelDiffusion::Stucki);
    assert_eq!(Sixel::new().diffuse_burkes().diffuse, SixelDiffusion::Burkes);
    assert_eq!(Sixel::new().diffuse_adither().diffuse, SixelDiffusion::ADither);
    assert_eq!(Sixel::new().diffuse_xdither().diffuse, SixelDiffusion::XDither);
    assert_eq!(Sixel::new().diffuse_fs().diffuse_auto().diffuse, SixelDiffusion::Auto);
    assert_eq!(Sixel::new().quality_high().quality, Quality::High);
    assert_eq!(Sixel::new().quality_low().quality, Quality::Low);
    assert_eq!(Sixel::new().quality_full().quality, Quality::Full);
    assert_eq!(Sixel::new().quality_high_color().quality, Quality::HighColor);
    assert_eq!(Sixel::new().quality_full().quality_auto().quality, Quality::Auto);
}

#[test]
fn builder_is_validated() {
    let bytes = [0u8; 12];
    assert_eq!(Sixel::with_bytes_size(&bytes, 2, 2).validate(), Ok(()));
    assert_eq!(Sixel::with_bytes_size(&bytes[0..11], 2, 2).validate(), Err(SixelError::BadInput));
    assert_eq!(Sixel::with_bytes_size(&bytes, 0, 2).validate(), Err(SixelError::BadInput));
    assert_eq!(Sixel::with_bytes_size(&bytes, 2, 0).validate(), Err(SixelError::BadInput));
    assert_eq!(Sixel::with_bytes_size(&bytes, -2, -2).validate(), Err(SixelError::BadInput));
    assert_eq!(Sixel::with_size(2, 2).validate(), Err(SixelError::BadInput));
    assert_eq!(Sixel::new().validate(), Err(SixelError::BadInput));
    // One byte a pixel.
    assert_eq!(Sixel::with_bytes_size(&bytes[0..4], 2, 2).format_g8().validate(), Ok(()));
    assert_eq!(Sixel::with_bytes_size(&bytes[0..4], 2, 2).format_pal8().validate(), Ok(()));
    assert_eq!(
        Sixel::with_bytes_size(&bytes[0..3], 2, 2).format_g8().validate(),
        Err(SixelError::BadInput)
    );
    // One bit a pixel: nine pixels take two bytes.
    assert_eq!(Sixel::with_bytes_size(&bytes[0..2], 3, 3).format_g1().validate(), Ok(()));
    assert_eq!(
        Sixel::with_bytes_size(&bytes[0..1], 3, 3).format_pal1().validate(),
        Err(SixelError::BadInput)
    );
    assert_eq!(
        Sixel::with_bytes_size(&bytes, i32::MAX, i32::MAX).format_argb8888().validate(),
        Err(SixelError::BadInput)
    );
}
