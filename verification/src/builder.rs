//! A builder for encoding one image.

use vstd::prelude::*;
use crate::enums::{LargestDim, PixelFormat, Quality, RepColor, SixelDiffusion};
use crate::error::{SixelError, SixelResult};

verus! {

/// A configurable sixel builder from a slice of pixel data.
///
/// By default the pixel format is `RGB888`, and the diffusion, the largest
/// dimension, the representative color and the quality are automatic.
#[derive(Clone, Debug, PartialEq, Eq, Hash)]
pub struct Sixel<'a> {
    /// The image data.
    pub bytes: Option<&'a [u8]>,
    /// The image's width.
    pub width: i32,
    /// The image's height.
    pub height: i32,
    /// The pixel format of the image data.
    pub format: PixelFormat,
    /// The diffusion method.
    pub diffuse: SixelDiffusion,
    /// The method for finding the largest dimension.
    pub largest: LargestDim,
    /// The method for choosing the representative color.
    pub rep: RepColor,
    /// The quality mode.
    pub quality: Quality,
}

impl<'a> Default for Sixel<'a> {
    fn default() -> (r: Self)
        ensures
            r == Sixel::spec_new(),
    {
        Sixel::new()
    }
}

impl<'a> Sixel<'a> {
    /// The empty builder: no bytes, no size, the default options.
    pub open spec fn spec_new() -> Sixel<'a> {
        Sixel {
            bytes: None,
            width: 0,
            height: 0,
            format: PixelFormat::RGB888,
            diffuse: SixelDiffusion::Auto,
            largest: LargestDim::Auto,
            rep: RepColor::Auto,
            quality: Quality::Auto,
        }
    }

    /// Whether the builder can be built: both dimensions are positive, the
    /// bytes are set, and they are as many as the format requires for the
    /// dimensions.
    pub open spec fn buildable(&self) -> bool {
        &&& self.width >= 1
        &&& self.height >= 1
        &&& self.bytes matches Some(bytes) && bytes@.len() >= self.format.spec_required_bytes(
            self.width as int,
            self.height as int,
        )
    }

    /// Returns a new empty sixel builder.
    #[must_use]
    pub fn new() -> (r: Self)
        ensures
            r == Sixel::spec_new(),
    {
        Sixel {
            bytes: None,
            width: 0,
            height: 0,
            format: PixelFormat::RGB888,
            diffuse: SixelDiffusion::Auto,
            largest: LargestDim::Auto,
            rep: RepColor::Auto,
            quality: Quality::Auto,
        }
    }

    /// Returns a new empty sixel builder with the given byte slice.
    #[must_use]
    pub fn with_bytes(bytes: &'a [u8]) -> (r: Self)
        ensures
            r == (Sixel { bytes: Some(bytes), ..Sixel::spec_new() }),
    {
        Sixel::new().bytes(bytes)
    }

    /// Returns a new empty sixel builder with the given size.
    #[must_use]
    pub fn with_size(width: i32, height: i32) -> (r: Self)
        ensures
            r == (Sixel { width, height, ..Sixel::spec_new() }),
    {
        Sixel::new().size(width, height)
    }

    /// Returns a new empty sixel builder with the given byte slice and size.
    #[must_use]
    pub fn with_bytes_size(bytes: &'a [u8], width: i32, height: i32) -> (r: Self)
        ensures
            r == (Sixel { bytes: Some(bytes), width, height, ..Sixel::spec_new() }),
    {
        Sixel::new().bytes(bytes).size(width, height)
    }

    /// Checks that the builder can be built.
    ///
    /// # Errors
    /// Returns `BadInput` if the bytes slice has not been set, if the width
    /// or the height is not positive, or if the slice is not long enough.
    pub fn validate(&self) -> (r: SixelResult<()>)
        ensures
            r is Ok <==> self.buildable(),
            r is Err ==> r == Err::<(), SixelError>(SixelError::BadInput),
    {
        if self.width < 1 || self.height < 1 {
            return Err(SixelError::BadInput);
        }
        match self.bytes {
            Some(bytes) => {
                let required: u128 = self.format.required_bytes_wide(self.width, self.height);
                if (bytes.len() as u128) < required {
                    Err(SixelError::BadInput)
                } else {
                    Ok(())
                }
            },
            None => Err(SixelError::BadInput),
        }
    }

    /// Sets the byte slice of image data.
    #[must_use]
    pub fn bytes(self, bytes: &'a [u8]) -> (r: Self)
        ensures
            r == (Sixel { bytes: Some(bytes), ..self }),
    {
        let mut this = self;
        this.bytes = Some(bytes);
        this
    }

    /// Sets the width.
    #[must_use]
    pub fn width(self, width: i32) -> (r: Self)
        ensures
            r == (Sixel { width, ..self }),
    {
        let mut this = self;
        this.width = width;
        this
    }

    /// Sets the height.
    #[must_use]
    pub fn height(self, height: i32) -> (r: Self)
        ensures
            r == (Sixel { height, ..self }),
    {
        let mut this = self;
        this.height = height;
        this
    }

    /// Sets the size (width, height).
    #[must_use]
    pub fn size(self, width: i32, height: i32) -> (r: Self)
        ensures
            r == (Sixel { width, height, ..self }),
    {
        let mut this = self;
        this.width = width;
        this.height = height;
        this
    }

    /// Sets the pixel format.
    #[must_use]
    pub fn format(self, format: PixelFormat) -> (r: Self)
        ensures
            r == (Sixel { format, ..self }),
    {
        let mut this = self;
        this.format = format;
        this
    }

    /// Sets the method for diffusion.
    #[must_use]
    pub fn diffuse(self, diffuse: SixelDiffusion) -> (r: Self)
        ensures
            r == (Sixel { diffuse, ..self }),
    {
        let mut this = self;
        this.diffuse = diffuse;
        this
    }

    /// Sets the method for largest.
    #[must_use]
    pub fn largest(self, largest: LargestDim) -> (r: Self)
        ensures
            r == (Sixel { largest, ..self }),
    {
        let mut this = self;
        this.largest = largest;
        this
    }

    /// Sets the method for rep.
    #[must_use]
    pub fn rep(self, rep: RepColor) -> (r: Self)
        ensures
            r == (Sixel { rep, ..self }),
    {
        let mut this = self;
        this.rep = rep;
        this
    }

    /// Sets the quality.
    #[must_use]
    pub fn quality(self, quality: Quality) -> (r: Self)
        ensures
            r == (Sixel { quality, ..self }),
    {
        let mut this = self;
        this.quality = quality;
        this
    }

    /// Sets the `format` field to [`PixelFormat::RGB555`].
    #[must_use]
    pub fn format_rgb555(self) -> (r: Self)
        ensures
            r == (Sixel { format: PixelFormat::RGB555, ..self }),
    {
        let mut this = self;
        this.format = PixelFormat::RGB555;
        this
    }

    /// Sets the `format` field to [`PixelFormat::RGB565`].
    #[must_use]
    pub fn format_rgb565(self) -> (r: Self)
        ensures
            r == (Sixel { format: PixelFormat::RGB565, ..self }),
    {
        let mut this = self;
        this.format = PixelFormat::RGB565;
        this
    }

    /// Sets the `format` field to [`PixelFormat::RGB888`].
    #[must_use]
    pub fn format_rgb888(self) -> (r: Self)
        ensures
            r == (Sixel { format: PixelFormat::RGB888, ..self }),
    {
        let mut this = self;
        this.format = PixelFormat::RGB888;
        this
    }

    /// Sets the `format` field to [`PixelFormat::BGR555`].
    #[must_use]
    pub fn format_bgr555(self) -> (r: Self)
        ensures
            r == (Sixel { format: PixelFormat::BGR555, ..self }),
    {
        let mut this = self;
        this.format = PixelFormat::BGR555;
        this
    }

    /// Sets the `format` field to [`PixelFormat::BGR565`].
    #[must_use]
    pub fn format_bgr565(self) -> (r: Self)
        ensures
            r == (Sixel { format: PixelFormat::BGR565, ..self }),
    {
        let mut this = self;
        this.format = PixelFormat::BGR565;
        this
    }

    /// Sets the `format` field to [`PixelFormat::BGR888`].
    #[must_use]
    pub fn format_bgr888(self) -> (r: Self)
        ensures
            r == (Sixel { format: PixelFormat::BGR888, ..self }),
    {
        let mut this = self;
        this.format = PixelFormat::BGR888;
        this
    }

    /// Sets the `format` field to [`PixelFormat::ARGB8888`].
    #[must_use]
    pub fn format_argb8888(self) -> (r: Self)
        ensures
            r == (Sixel { format: PixelFormat::ARGB8888, ..self }),
    {
        let mut this = self;
        this.format = PixelFormat::ARGB8888;
        this
    }

    /// Sets the `format` field to [`PixelFormat::RGBA8888`].
    #[must_use]
    pub fn format_rgba8888(self) -> (r: Self)
        ensures
            r == (Sixel { format: PixelFormat::RGBA8888, ..self }),
    {
        let mut this = self;
        this.format = PixelFormat::RGBA8888;
        this
    }

    /// Sets the `format` field to [`PixelFormat::ABGR8888`].
    #[must_use]
    pub fn format_abgr8888(self) -> (r: Self)
        ensures
            r == (Sixel { format: PixelFormat::ABGR8888, ..self }),
    {
        let mut this = self;
        this.format = PixelFormat::ABGR8888;
        this
    }

    /// Sets the `format` field to [`PixelFormat::BGRA8888`].
    #[must_use]
    pub fn format_bgra8888(self) -> (r: Self)
        ensures
            r == (Sixel { format: PixelFormat::BGRA8888, ..self }),
    {
        let mut this = self;
        this.format = PixelFormat::BGRA8888;
        this
    }

    /// Sets the `format` field to [`PixelFormat::G1`].
    #[must_use]
    pub fn format_g1(self) -> (r: Self)
        ensures
            r == (Sixel { format: PixelFormat::G1, ..self }),
    {
        let mut this = self;
        this.format = PixelFormat::G1;
        this
    }

    /// Sets the `format` field to [`PixelFormat::G2`].
    #[must_use]
    pub fn format_g2(self) -> (r: Self)
        ensures
            r == (Sixel { format: PixelFormat::G2, ..self }),
    {
        let mut this = self;
        this.format = PixelFormat::G2;
        this
    }

    /// Sets the `format` field to [`PixelFormat::G4`].
    #[must_use]
    pub fn format_g4(self) -> (r: Self)
        ensures
            r == (Sixel { format: PixelFormat::G4, ..self }),
    {
        let mut this = self;
        this.format = PixelFormat::G4;
        this
    }

    /// Sets the `format` field to [`PixelFormat::G8`].
    #[must_use]
    pub fn format_g8(self) -> (r: Self)
        ensures
            r == (Sixel { format: PixelFormat::G8, ..self }),
    {
        let mut this = self;
        this.format = PixelFormat::G8;
        this
    }

    /// Sets the `format` field to [`PixelFormat::AG88`].
    #[must_use]
    pub fn format_ag88(self) -> (r: Self)
        ensures
            r == (Sixel { format: PixelFormat::AG88, ..self }),
    {
        let mut this = self;
        this.format = PixelFormat::AG88;
        this
    }

    /// Sets the `format` field to [`PixelFormat::GA88`].
    #[must_use]
    pub fn format_ga88(self) -> (r: Self)
        ensures
            r == (Sixel { format: PixelFormat::GA88, ..self }),
    {
        let mut this = self;
        this.format = PixelFormat::GA88;
        this
    }

    /// Sets the `format` field to [`PixelFormat::PAL1`].
    #[must_use]
    pub fn format_pal1(self) -> (r: Self)
        ensures
            r == (Sixel { format: PixelFormat::PAL1, ..self }),
    {
        let mut this = self;
        this.format = PixelFormat::PAL1;
        this
    }

    /// Sets the `format` field to [`PixelFormat::PAL2`].
    #[must_use]
    pub fn format_pal2(self) -> (r: Self)
        ensures
            r == (Sixel { format: PixelFormat::PAL2, ..self }),
    {
        let mut this = self;
        this.format = PixelFormat::PAL2;
        this
    }

    /// Sets the `format` field to [`PixelFormat::PAL4`].
    #[must_use]
    pub fn format_pal4(self) -> (r: Self)
        ensures
            r == (Sixel { format: PixelFormat::PAL4, ..self }),
    {
        let mut this = self;
        this.format = PixelFormat::PAL4;
        this
    }

    /// Sets the `format` field to [`PixelFormat::PAL8`].
    #[must_use]
    pub fn format_pal8(self) -> (r: Self)
        ensures
            r == (Sixel { format: PixelFormat::PAL8, ..self }),
    {
        let mut this = self;
        this.format = PixelFormat::PAL8;
        this
    }

    /// Sets the `largest` field to [`LargestDim::Auto`].
    #[must_use]
    pub fn largest_auto(self) -> (r: Self)
        ensures
            r == (Sixel { largest: LargestDim::Auto, ..self }),
    {
        let mut this = self;
        this.largest = LargestDim::Auto;
        this
    }

    /// Sets the `largest` field to [`LargestDim::Norm`].
    #[must_use]
    pub fn largest_norm(self) -> (r: Self)
        ensures
            r == (Sixel { largest: LargestDim::Norm, ..self }),
    {
        let mut this = self;
        this.largest = LargestDim::Norm;
        this
    }

    /// Sets the `largest` field to [`LargestDim::Lum`].
    #[must_use]
    pub fn largest_lum(self) -> (r: Self)
        ensures
            r == (Sixel { largest: LargestDim::Lum, ..self }),
    {
        let mut this = self;
        this.largest = LargestDim::Lum;
        this
    }

    /// Sets the `rep` field to [`RepColor::Auto`].
    #[must_use]
    pub fn rep_auto(self) -> (r: Self)
        ensures
            r == (Sixel { rep: RepColor::Auto, ..self }),
    {
        let mut this = self;
        this.rep = RepColor::Auto;
        this
    }

    /// Sets the `rep` field to [`RepColor::Center`].
    #[must_use]
    pub fn rep_center(self) -> (r: Self)
        ensures
            r == (Sixel { rep: RepColor::Center, ..self }),
    {
        let mut this = self;
        this.rep = RepColor::Center;
        this
    }

    /// Sets the `rep` field to [`RepColor::AverageColors`].
    #[must_use]
    pub fn rep_average(self) -> (r: Self)
        ensures
            r == (Sixel { rep: RepColor::AverageColors, ..self }),
    {
        let mut this = self;
        this.rep = RepColor::AverageColors;
        this
    }

    /// Sets the `rep` field to [`RepColor::AveragePixels`].
    #[must_use]
    pub fn rep_pixels(self) -> (r: Self)
        ensures
            r == (Sixel { rep: RepColor::AveragePixels, ..self }),
    {
        let mut this = self;
        this.rep = RepColor::AveragePixels;
        this
    }

    /// Sets the `diffuse` field to [`SixelDiffusion::Auto`].
    #[must_use]
    pub fn diffuse_auto(self) -> (r: Self)
        ensures
            r == (Sixel { diffuse: SixelDiffusion::Auto, ..self }),
    {
        let mut this = self;
        this.diffuse = SixelDiffusion::Auto;
        this
    }

    /// Sets the `diffuse` field to [`SixelDiffusion::Off`].
    #[must_use]
    pub fn diffuse_none(self) -> (r: Self)
        ensures
            r == (Sixel { diffuse: SixelDiffusion::Off, ..self }),
    {
        let mut this = self;
        this.diffuse = SixelDiffusion::Off;
        this
    }

    /// Sets the `diffuse` field to [`SixelDiffusion::Atkinson`].
    #[must_use]
    pub fn diffuse_atkinson(self) -> (r: Self)
        ensures
            r == (Sixel { diffuse: SixelDiffusion::Atkinson, ..self }),
    {
        let mut this = self;
        this.diffuse = SixelDiffusion::Atkinson;
        this
    }

    /// Sets the `diffuse` field to [`SixelDiffusion::FS`].
    #[must_use]
    pub fn diffuse_fs(self) -> (r: Self)
        ensures
            r == (Sixel { diffuse: SixelDiffusion::FS, ..self }),
    {
        let mut this = self;
        this.diffuse = SixelDiffusion::FS;
        this
    }

    /// Sets the `diffuse` field to [`SixelDiffusion::JaJuNi`].
    #[must_use]
    pub fn diffuse_jajuni(self) -> (r: Self)
        ensures
            r == (Sixel { diffuse: SixelDiffusion::JaJuNi, ..self }),
    {
        let mut this = self;
        this.diffuse = SixelDiffusion::JaJuNi;
        this
    }

    /// Sets the `diffuse` field to [`SixelDiffusion::Stucki`].
    #[must_use]
    pub fn diffuse_stucki(self) -> (r: Self)
        ensures
            r == (Sixel { diffuse: SixelDiffusion::Stucki, ..self }),
    {
        let mut this = self;
        this.diffuse = SixelDiffusion::Stucki;
        this
    }

    /// Sets the `diffuse` field to [`SixelDiffusion::Burkes`].
    #[must_use]
    pub fn diffuse_burkes(self) -> (r: Self)
        ensures
            r == (Sixel { diffuse: SixelDiffusion::Burkes, ..self }),
    {
        let mut this = self;
        this.diffuse = SixelDiffusion::Burkes;
        this
    }

    /// Sets the `diffuse` field to [`SixelDiffusion::ADither`].
    #[must_use]
    pub fn diffuse_adither(self) -> (r: Self)
        ensures
            r == (Sixel { diffuse: SixelDiffusion::ADither, ..self }),
    {
        let mut this = self;
        this.diffuse = SixelDiffusion::ADither;
        this
    }

    /// Sets the `diffuse` field to [`SixelDiffusion::XDither`].
    #[must_use]
    pub fn diffuse_xdither(self) -> (r: Self)
        ensures
            r == (Sixel { diffuse: SixelDiffusion::XDither, ..self }),
    {
        let mut this = self;
        this.diffuse = SixelDiffusion::XDither;
        this
    }

    /// Sets the `quality` field to [`Quality::Auto`].
    #[must_use]
    pub fn quality_auto(self) -> (r: Self)
        ensures
            r == (Sixel { quality: Quality::Auto, ..self }),
    {
        let mut this = self;
        this.quality = Quality::Auto;
        this
    }

    /// Sets the `quality` field to [`Quality::High`].
    #[must_use]
    pub fn quality_high(self) -> (r: Self)
        ensures
            r == (Sixel { quality: Quality::High, ..self }),
    {
        let mut this = self;
        this.quality = Quality::High;
        this
    }

    /// Sets the `quality` field to [`Quality::Low`].
    #[must_use]
    pub fn quality_low(self) -> (r: Self)
        ensures
            r == (Sixel { quality: Quality::Low, ..self }),
    {
        let mut this = self;
        this.quality = Quality::Low;
        this
    }

    /// Sets the `quality` field to [`Quality::Full`].
    #[must_use]
    pub fn quality_full(self) -> (r: Self)
        ensures
            r == (Sixel { quality: Quality::Full, ..self }),
    {
        let mut this = self;
        this.quality = Quality::Full;
        this
    }

    /// Sets the `quality` field to [`Quality::HighColor`].
    #[must_use]
    pub fn quality_high_color(self) -> (r: Self)
        ensures
            r == (Sixel { quality: Quality::HighColor, ..self }),
    {
        let mut this = self;
        this.quality = Quality::HighColor;
        this
    }
}

} // verus!
