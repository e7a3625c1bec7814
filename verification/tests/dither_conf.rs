use sixela::dither::{DitherConf, DitherMode};
use sixela::enums::{LargestDim, PixelFormat, Quality, RepColor, SixelDiffusion};
use sixela::error::SixelError;

#[test]
fn new_configuration() {
    let dither = DitherConf::new(16).unwrap();
    assert_eq!(dither.palette, vec![0u8; 48]);
    assert_eq!(dither.cachetable, None);
    assert_eq!((dither.reqcolors, dither.ncolors, dither.origcolors), (16, 16, -1));
    assert_eq!(dither.keycolor, -1);
    assert!(!dither.optimized && !dither.optimize_palette && !dither.bodyonly);
    assert_eq!(dither.complexion, 1);
    assert_eq!(dither.method_for_largest, LargestDim::Norm);
    assert_eq!(dither.method_for_rep, RepColor::Center);
    assert_eq!(dither.method_for_diffuse, SixelDiffusion::FS);
    assert_eq!(dither.quality_mode, Quality::Low);
    assert_eq!(dither.pixelformat, PixelFormat::RGB888);
}

#[test]
fn new_configuration_bounds() {
    assert_eq!(DitherConf::new(1).unwrap().ncolors, 1);
    assert_eq!(DitherConf::new(256).unwrap().palette.len(), 768);
    assert_eq!(DitherConf::new(0).err(), Some(SixelError::BadInput));
    assert_eq!(DitherConf::new(257).err(), Some(SixelError::BadInput));
    assert_eq!(DitherConf::new(i32::MAX).err(), Some(SixelError::BadInput));
    let high = DitherConf::new(-1).unwrap();
    assert_eq!((high.ncolors, high.reqcolors, high.quality_mode), (256, 256, Quality::HighColor));
    assert_eq!(high.palette.len(), 768);
    assert_eq!(DitherConf::new(i32::MIN).unwrap().quality_mode, Quality::HighColor);
}

#[test]
fn automatic_methods_are_resolved() {
    let mut dither = DitherConf::new(8).unwrap();
    dither.set_method_for_largest(LargestDim::Lum);
    assert_eq!(dither.method_for_largest, LargestDim::Lum);
    dither.set_method_for_largest(LargestDim::Auto);
    assert_eq!(dither.method_for_largest, LargestDim::Norm);
    dither.set_method_for_rep(RepColor::AveragePixels);
    assert_eq!(dither.method_for_rep, RepColor::AveragePixels);
    dither.set_method_for_rep(RepColor::Auto);
    assert_eq!(dither.method_for_rep, RepColor::Center);
    dither.set_quality_mode(Quality::Auto);
    assert_eq!(dither.quality_mode, Quality::High);
    dither.set_quality_mode(Quality::Full);
    assert_eq!(dither.quality_mode, Quality::Full);
    dither.set_diffusion_method(SixelDiffusion::Auto);
    assert_eq!(dither.method_for_diffuse, SixelDiffusion::Atkinson);
    dither.set_diffusion_method(SixelDiffusion::Stucki);
    assert_eq!(dither.method_for_diffuse, SixelDiffusion::Stucki);

    let mut dither = DitherConf::new(9).unwrap();
    dither.set_quality_mode(Quality::Auto);
    assert_eq!(dither.quality_mode, Quality::Low);
    let mut dither = DitherConf::new(16).unwrap();
    dither.set_diffusion_method(SixelDiffusion::Auto);
    assert_eq!(dither.method_for_diffuse, SixelDiffusion::Atkinson);
    let mut dither = DitherConf::new(17).unwrap();
    dither.set_diffusion_method(SixelDiffusion::Auto);
    assert_eq!(dither.method_for_diffuse, SixelDiffusion::FS);
}

#[test]
fn getters_and_setters() {
    let mut dither = DitherConf::new(2).unwrap();
    dither.set_palette(vec![1, 2, 3, 4, 5, 6]);
    assert_eq!(dither.get_palette(), &[1, 2, 3, 4, 5, 6]);
    assert_eq!(dither.get_num_of_palette_colors(), 2);
    assert_eq!(dither.get_num_of_histogram_colors(), -1);
    dither.set_complexion_score(7);
    assert_eq!(dither.complexion, 7);
    dither.set_body_only(true);
    assert!(dither.bodyonly);
    dither.set_optimize_palette(true);
    assert!(dither.optimize_palette);
    dither.set_pixelformat(PixelFormat::G8);
    assert_eq!(dither.pixelformat, PixelFormat::G8);
    dither.set_transparent(1);
    assert_eq!(dither.keycolor, 1);
}

#[test]
fn palette_is_prepared_and_taken() {
    let mut dither = DitherConf::new(256).unwrap();
    let image = [1u8, 2, 3, 4, 5, 6];
    let request = dither
        .prepare(&image, 2, 1, PixelFormat::BGR888, LargestDim::Auto, RepColor::Auto, Quality::Auto)
        .unwrap();
    assert_eq!(request.pixels, vec![3, 2, 1, 6, 5, 4]);
    assert_eq!(request.reqcolors, 256);
    assert_eq!(request.method_for_largest, LargestDim::Norm);
    assert_eq!(request.method_for_rep, RepColor::Center);
    assert_eq!(request.quality_mode, Quality::Low);
    assert_eq!(dither.pixelformat, PixelFormat::RGB888);
    assert_eq!(dither.quality_mode, Quality::Low);
    let request = dither
        .prepare(
            &image,
            2,
            1,
            PixelFormat::RGB888,
            LargestDim::Lum,
            RepColor::AverageColors,
            Quality::High,
        )
        .unwrap();
    assert_eq!(request.pixels, image);
    assert_eq!(request.method_for_largest, LargestDim::Lum);
    assert_eq!(request.method_for_rep, RepColor::AverageColors);
    assert_eq!(request.quality_mode, Quality::High);
    // The builder has three bytes for each pixel, and no more.
    let request = dither
        .prepare(&image, 1, 1, PixelFormat::RGB888, LargestDim::Lum, RepColor::Auto, Quality::High)
        .unwrap();
    assert_eq!(request.pixels, vec![1, 2, 3]);
    let result =
        dither.prepare(&image, 7, 7, PixelFormat::RGB888, LargestDim::Lum, RepColor::Auto, Quality::High);
    assert_eq!(result.err(), Some(SixelError::BadInput));
    // An image that is not normalized leaves the format only.
    let result =
        dither.prepare(&image, 2, 2, PixelFormat::BGR888, LargestDim::Auto, RepColor::Auto, Quality::Full);
    assert_eq!(result.err(), Some(SixelError::BadInput));
    assert_eq!(dither.pixelformat, PixelFormat::BGR888);
    assert_eq!(dither.method_for_largest, LargestDim::Lum);
    assert_eq!(dither.quality_mode, Quality::High);
    // Packed gray levels become one byte each.
    let request = dither
        .prepare(&[0b0110_0000], 2, 1, PixelFormat::G2, LargestDim::Auto, RepColor::Auto, Quality::Auto)
        .unwrap();
    assert_eq!(request.pixels, vec![1, 2, 0, 0, 0, 0]);
    assert_eq!(dither.pixelformat, PixelFormat::G8);

    // Fewer colors in the image than were asked for: nothing to diffuse.
    dither.initialize(vec![9, 9, 9, 8, 8, 8], 2, 2);
    assert_eq!(dither.palette, vec![9, 9, 9, 8, 8, 8]);
    assert_eq!((dither.ncolors, dither.origcolors), (2, 2));
    assert!(dither.optimized);
    assert_eq!(dither.method_for_diffuse, SixelDiffusion::Off);
    assert_eq!(dither.pixelformat, PixelFormat::G8);

    let mut dither = DitherConf::new(2).unwrap();
    dither.initialize(vec![9, 9, 9, 8, 8, 8], 2, 3);
    assert_eq!(dither.method_for_diffuse, SixelDiffusion::FS);
    let mut dither = DitherConf::new(2).unwrap();
    dither.initialize(vec![9, 9, 9, 8, 8, 8], 2, 2);
    assert_eq!(dither.method_for_diffuse, SixelDiffusion::Off);
}

#[test]
fn color_cache_is_made_for_the_applier() {
    let image = [7u8; 12];
    let mut dither = DitherConf::new(4).unwrap();
    // Not compressible: no cache.
    let request = dither.prepare_apply(&image, 2, 2).unwrap();
    assert_eq!((request.pixels, request.use_cache), (image.to_vec(), false));
    assert_eq!(dither.cachetable, None);
    dither.initialize(vec![0; 12], 4, 9);
    assert!(dither.prepare_apply(&image, 2, 2).unwrap().use_cache);
    assert_eq!(dither.cachetable.as_ref().map(|t| t.len()), Some(32768));
    assert!(dither.cachetable.as_ref().unwrap().iter().all(|&e| e == 0));
    // A cache that is there stays.
    dither.cachetable.as_mut().unwrap()[5] = 77;
    dither.prepare_apply(&image, 2, 2).unwrap();
    assert_eq!(dither.cachetable.as_ref().unwrap()[5], 77);

    // Full quality: not compressible any more.
    let mut dither = DitherConf::new(4).unwrap();
    dither.initialize(vec![0; 12], 4, 9);
    dither.set_quality_mode(Quality::Full);
    assert!(!dither.prepare_apply(&image, 2, 2).unwrap().use_cache);
    assert!(!dither.optimized);
    assert_eq!(dither.cachetable, None);

    // The applier has three bytes for each pixel, and no more.
    let request = dither.prepare_apply(&image, 1, 2).unwrap();
    assert_eq!(request.pixels.len(), 6);
    assert_eq!(request.dest, vec![0u8; 2]);
    assert_eq!(dither.prepare_apply(&image, 3, 2).err(), Some(SixelError::BadInput));
    assert_eq!(dither.prepare_apply(&image, 0, 2).err(), Some(SixelError::BadInput));
    for format in [PixelFormat::RGB565, PixelFormat::BGR888, PixelFormat::RGBA8888, PixelFormat::G8] {
        dither.set_pixelformat(format);
        let request = dither.prepare_apply(&image, 2, 1).unwrap();
        assert_eq!(request.pixels.len(), 6);
        assert_eq!(request.dest.len(), 2);
        assert_eq!(dither.pixelformat, PixelFormat::RGB888);
    }

    // The monochrome palettes have no cache.
    for mode in [DitherMode::MonoDark, DitherMode::MonoLight, DitherMode::G1] {
        let mut dither = DitherConf::new_mode(mode).unwrap();
        assert!(!dither.prepare_apply(&image, 2, 2).unwrap().use_cache);
    }
    // An image in another format is normalized.
    let mut dither = DitherConf::new_mode(DitherMode::G2).unwrap();
    dither.set_pixelformat(PixelFormat::BGR888);
    let request = dither.prepare_apply(&[1, 2, 3], 1, 1).unwrap();
    assert_eq!((request.pixels, request.use_cache), (vec![3, 2, 1], true));
    assert_eq!(dither.pixelformat, PixelFormat::RGB888);
    // Where it is not normalized, the cache is made all the same.
    let mut dither = DitherConf::new_mode(DitherMode::G2).unwrap();
    dither.set_pixelformat(PixelFormat::BGR888);
    assert_eq!(dither.prepare_apply(&[1, 2], 1, 1).err(), Some(SixelError::BadInput));
    assert!(dither.cachetable.is_some());
    assert_eq!(dither.pixelformat, PixelFormat::BGR888);

    dither.apply_palette(3);
    assert_eq!(dither.ncolors, 3);
}

#[test]
fn second_names_of_the_configuration() {
    let mut dither = sixela::sixel_dither::sixel_dither_get(DitherMode::XTerm16).unwrap();
    assert_eq!(dither.ncolors, 16);
    assert_eq!(dither.palette.len(), 768);
    assert_eq!(dither.keycolor, -1);
    assert!(dither.optimized);
    dither.set_diffusion_type(SixelDiffusion::Auto);
    assert_eq!(dither.method_for_diffuse, SixelDiffusion::Atkinson);
    dither.set_diffusion_type(SixelDiffusion::Burkes);
    assert_eq!(dither.method_for_diffuse, SixelDiffusion::Burkes);
    let dither = sixela::sixel_dither::sixel_dither_get(DitherMode::MonoLight).unwrap();
    assert_eq!((dither.ncolors, dither.keycolor), (2, 0));
    assert_eq!(dither.palette, vec![255, 255, 255, 0, 0, 0]);
}
