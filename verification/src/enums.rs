//! The options of the encoder.

use vstd::prelude::*;

verus! {

/// Method for finding the largest dimension for splitting,
/// and sorting by that component.
#[derive(Copy, Clone, Debug, PartialEq, Eq, Hash, Structural)]
pub enum LargestDim {
    /// Choose automatically the method for finding the largest dimension.
    Auto,
    /// Simply comparing the range in RGB space.
    Norm,
    /// Transforming into luminosities before the comparison.
    Lum,
}

impl Default for LargestDim {
    fn default() -> (r: Self)
        ensures
            r == LargestDim::Auto,
    {
        LargestDim::Auto
    }
}

/// A second name of `LargestDim`.
pub type MethodForLargest = LargestDim;

/// Method for choosing a representative color from the box.
#[derive(Copy, Clone, Debug, PartialEq, Eq, Hash, Structural)]
pub enum RepColor {
    /// Choose automatically the method for selecting the representative color.
    Auto,
    /// Choose the center of the box.
    Center,
    /// Choose the average of all the colors in the box.
    AverageColors,
    /// Choose the average of all the pixels in the box.
    AveragePixels,
}

impl Default for RepColor {
    fn default() -> (r: Self)
        ensures
            r == RepColor::Auto,
    {
        RepColor::Auto
    }
}

/// A second name of `RepColor`.
pub type MethodForRep = RepColor;

/// Method of diffusion.
#[derive(Copy, Clone, Debug, PartialEq, Eq, Hash, Structural)]
pub enum SixelDiffusion {
    /// Choose diffusion type automatically.
    Auto,
    /// Do not diffuse.
    Off,
    /// Diffuse with Bill Atkinson's method.
    Atkinson,
    /// Diffuse with Floyd-Steinberg method.
    FS,
    /// Diffuse with Jarvis, Judice & Ninke method.
    JaJuNi,
    /// Diffuse with Stucki's method.
    Stucki,
    /// Diffuse with Burkes' method.
    Burkes,
    /// Positionally stable arithmetic dither.
    ADither,
    /// Positionally stable arithmetic xor based dither.
    XDither,
}

impl Default for SixelDiffusion {
    fn default() -> (r: Self)
        ensures
            r == SixelDiffusion::Auto,
    {
        SixelDiffusion::Auto
    }
}

/// Quality modes.
#[derive(Copy, Clone, Debug, PartialEq, Eq, Hash, Structural)]
pub enum Quality {
    /// Choose quality mode automatically.
    Auto,
    /// High quality palette construction.
    High,
    /// Low quality palette construction.
    Low,
    /// Full quality palette construction.
    Full,
    /// High color.
    HighColor,
}

impl Default for Quality {
    fn default() -> (r: Self)
        ensures
            r == Quality::Auto,
    {
        Quality::Auto
    }
}

/// Policies of SIXEL encoding.
#[derive(Clone, Copy, Debug, PartialEq, Eq, Hash, Structural)]
pub enum EncodePolicy {
    /// Choose encoding policy automatically.
    Auto,
    /// Encode as fast as possible.
    Fast,
    /// Encode to as small sixel sequence as possible.
    Size,
}

impl Default for EncodePolicy {
    fn default() -> (r: Self)
        ensures
            r == EncodePolicy::Auto,
    {
        EncodePolicy::Auto
    }
}

/// Palette type.
#[derive(Clone, Copy, Debug, PartialEq, Eq, Hash, Structural)]
pub enum PaletteType {
    /// Choose palette type automatically.
    Auto,
    /// HLS colorspace.
    HLS,
    /// RGB colorspace.
    RGB,
}

impl Default for PaletteType {
    fn default() -> (r: Self)
        ensures
            r == PaletteType::Auto,
    {
        PaletteType::Auto
    }
}

/// Pixel format type of input image.
#[derive(Copy, Clone, Debug, PartialEq, Eq, Hash, Structural)]
pub enum PixelFormat {
    /// RGB color 15bpp.
    RGB555,
    /// RGB color 16bpp.
    RGB565,
    /// RGB color 24bpp.
    RGB888,
    /// BGR color 15bpp.
    BGR555,
    /// BGR color 16bpp.
    BGR565,
    /// BGR color 24bpp.
    BGR888,
    /// ARGB color 32bpp.
    ARGB8888,
    /// RGBA color 32bpp.
    RGBA8888,
    /// ABGR color 32bpp.
    ABGR8888,
    /// BGRA color 32bpp.
    BGRA8888,
    /// Grayscale 1bpp.
    G1,
    /// Grayscale 2bpp.
    G2,
    /// Grayscale 4bpp.
    G4,
    /// Grayscale 8bpp.
    G8,
    /// AG grayscale 16bpp.
    AG88,
    /// GA grayscale 16bpp.
    GA88,
    /// Palette 1bpp.
    PAL1,
    /// Palette 2bpp.
    PAL2,
    /// Palette 4bpp.
    PAL4,
    /// Palette 8bpp.
    PAL8,
}

impl Default for PixelFormat {
    fn default() -> (r: Self)
        ensures
            r == PixelFormat::RGB888,
    {
        PixelFormat::RGB888
    }
}

/// The kind of a pixel format.
#[derive(Copy, Clone, Debug, PartialEq, Eq, Hash, Structural)]
pub enum FormatType {
    /// Colors.
    Color,
    /// Gray levels.
    Grayscale,
    /// Palette indices.
    Palette,
}

impl PixelFormat {
    /// The kind of a format.
    pub open spec fn spec_format_type(self) -> FormatType {
        match self {
            PixelFormat::G1
            | PixelFormat::G2
            | PixelFormat::G4
            | PixelFormat::G8
            | PixelFormat::AG88
            | PixelFormat::GA88 => FormatType::Grayscale,
            PixelFormat::PAL1 | PixelFormat::PAL2 | PixelFormat::PAL4 | PixelFormat::PAL8 => FormatType::Palette,
            _ => FormatType::Color,
        }
    }

    /// Returns the kind of the current format.
    pub fn format_type(self) -> (kind: FormatType)
        ensures
            kind == self.spec_format_type(),
    {
        match self {
            PixelFormat::G1
            | PixelFormat::G2
            | PixelFormat::G4
            | PixelFormat::G8
            | PixelFormat::AG88
            | PixelFormat::GA88 => FormatType::Grayscale,
            PixelFormat::PAL1 | PixelFormat::PAL2 | PixelFormat::PAL4 | PixelFormat::PAL8 => FormatType::Palette,
            _ => FormatType::Color,
        }
    }

    /// The bits per pixel of a format.
    pub open spec fn spec_bpp(self) -> nat {
        match self {
            PixelFormat::RGB555 | PixelFormat::BGR555 => 15,
            PixelFormat::RGB565 | PixelFormat::BGR565 | PixelFormat::AG88 | PixelFormat::GA88 => 16,
            PixelFormat::RGB888 | PixelFormat::BGR888 => 24,
            PixelFormat::G8 | PixelFormat::PAL8 => 8,
            PixelFormat::ARGB8888
            | PixelFormat::RGBA8888
            | PixelFormat::ABGR8888
            | PixelFormat::BGRA8888 => 32,
            PixelFormat::G1 | PixelFormat::PAL1 => 1,
            PixelFormat::G2 | PixelFormat::PAL2 => 2,
            PixelFormat::G4 | PixelFormat::PAL4 => 4,
        }
    }

    /// The bytes that hold `width * height` pixels of a format: the bits,
    /// rounded up to whole bytes.
    pub open spec fn spec_required_bytes(self, width: int, height: int) -> int {
        (width * height * self.spec_bpp() + 7) / 8
    }

    /// Returns the bits per pixel of the current format.
    pub fn bpp(self) -> (bits: usize)
        ensures
            bits == self.spec_bpp(),
    {
        match self {
            PixelFormat::RGB555 | PixelFormat::BGR555 => 15,
            PixelFormat::RGB565 | PixelFormat::BGR565 | PixelFormat::AG88 | PixelFormat::GA88 => 16,
            PixelFormat::RGB888 | PixelFormat::BGR888 => 24,
            PixelFormat::G8 | PixelFormat::PAL8 => 8,
            PixelFormat::ARGB8888
            | PixelFormat::RGBA8888
            | PixelFormat::ABGR8888
            | PixelFormat::BGRA8888 => 32,
            PixelFormat::G1 | PixelFormat::PAL1 => 1,
            PixelFormat::G2 | PixelFormat::PAL2 => 2,
            PixelFormat::G4 | PixelFormat::PAL4 => 4,
        }
    }

    /// Returns the number of bytes required to store an image of the given
    /// dimensions, using the current pixel format.
    pub fn required_bytes(self, width: i32, height: i32) -> (bytes: usize)
        requires
            0 <= width,
            0 <= height,
            self.spec_required_bytes(width as int, height as int) <= usize::MAX,
        ensures
            bytes == self.spec_required_bytes(width as int, height as int),
    {
        let total: u128 = self.required_bytes_wide(width, height);
        total as usize
    }

    /// The same count as `required_bytes`, in a type that holds it for every
    /// pair of non-negative dimensions.
    pub fn required_bytes_wide(self, width: i32, height: i32) -> (bytes: u128)
        requires
            0 <= width,
            0 <= height,
        ensures
            bytes == self.spec_required_bytes(width as int, height as int),
    {
        let w: u128 = width as u128;
        let h: u128 = height as u128;
        let bits: u128 = self.bpp() as u128;
        assert(w * h <= 0x8000_0000 * 0x8000_0000) by (nonlinear_arith)
            requires
                w <= 0x8000_0000,
                h <= 0x8000_0000,
        ;
        let px: u128 = w * h;
        assert(px * bits <= 0x4000_0000_0000_0000 * 32) by (nonlinear_arith)
            requires
                px <= 0x4000_0000_0000_0000,
                bits <= 32,
        ;
        (px * bits + 7) / 8
    }
}

} // verus!
