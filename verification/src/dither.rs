//! The quantization configuration.
//!
//! The configuration owns the palette. Building a palette from an image and
//! matching an image's pixels to a palette are done by collaborators outside
//! this crate: the configuration makes the image ready for them, decides what
//! they are asked for, and takes what they return.

use vstd::prelude::*;
use crate::enums::{LargestDim, PixelFormat, Quality, RepColor, SixelDiffusion};
use crate::pixelformat::{
    bytes_per_pixel, canonical, normalize_error, normalized, sixel_helper_normalize_pixelformat,
};
use crate::error::{SixelError, SixelResult};
use crate::palettes::{
    gray_ramp, mono_dark, mono_light, pal_gray, pal_mono_dark, pal_mono_light, pal_vt340,
    pal_xterm256, vt340, xterm256,
};

verus! {

/// The largest number of palette slots.
pub const SIXEL_PALETTE_MAX: usize = 256;

/// The entries of the color cache: one per color of five bits a channel.
pub const CACHE_ENTRIES: usize = 32768;

/// Predefined dithering modes for sixel output.
#[derive(Clone, Copy, Debug, PartialEq, Eq, Hash, Structural)]
pub enum DitherMode {
    /// Monochrome terminal with dark background.
    MonoDark,
    /// Monochrome terminal with light background.
    MonoLight,
    /// Xterm 16 color.
    XTerm16,
    /// Xterm 256 color.
    XTerm256,
    /// VT340 monochrome.
    VT340Mono,
    /// VT340 color.
    VT340Color,
    /// 1 bit grayscale.
    G1,
    /// 2 bit grayscale.
    G2,
    /// 4 bit grayscale.
    G4,
    /// 8 bit grayscale.
    G8,
}

impl DitherMode {
    /// The number of colors of a mode.
    pub open spec fn spec_ncolors(self) -> int {
        match self {
            DitherMode::MonoDark | DitherMode::MonoLight | DitherMode::G1 => 2,
            DitherMode::G2 => 4,
            DitherMode::XTerm16 | DitherMode::VT340Mono | DitherMode::VT340Color | DitherMode::G4 => 16,
            DitherMode::XTerm256 | DitherMode::G8 => 256,
        }
    }

    /// The palette of a mode.
    pub open spec fn spec_palette(self) -> Seq<u8> {
        match self {
            DitherMode::MonoDark => mono_dark(),
            DitherMode::MonoLight => mono_light(),
            DitherMode::XTerm16 | DitherMode::XTerm256 => xterm256(),
            DitherMode::VT340Mono | DitherMode::VT340Color => vt340(),
            DitherMode::G1 => gray_ramp(2),
            DitherMode::G2 => gray_ramp(4),
            DitherMode::G4 => gray_ramp(16),
            DitherMode::G8 => gray_ramp(256),
        }
    }

    /// The key color of a mode: slot 0 for the monochrome modes, else none.
    pub open spec fn spec_keycolor(self) -> int {
        match self {
            DitherMode::MonoDark | DitherMode::MonoLight => 0,
            _ => -1,
        }
    }
}

/// What the palette builder is asked for.
#[derive(Debug)]
pub struct PaletteRequest {
    /// The normalized pixels of the image.
    pub pixels: Vec<u8>,
    /// The number of colors asked for.
    pub reqcolors: i32,
    /// Method for finding the largest dimension.
    pub method_for_largest: LargestDim,
    /// Method for choosing a color from the box.
    pub method_for_rep: RepColor,
    /// Quality of the histogram.
    pub quality_mode: Quality,
}

/// What the palette applier is asked for.
#[derive(Debug)]
pub struct ApplyRequest {
    /// The normalized pixels of the image.
    pub pixels: Vec<u8>,
    /// The buffer for the palette index of each pixel.
    pub dest: Vec<u8>,
    /// Whether the applier may use the color cache.
    pub use_cache: bool,
}

/// Configuration for sixel dithering.
#[derive(Debug)]
pub struct DitherConf {
    /// Palette definition.
    pub palette: Vec<u8>,
    /// Cache table.
    pub cachetable: Option<Vec<u16>>,
    /// The number of requested colors.
    pub reqcolors: i32,
    /// The number of active colors.
    pub ncolors: i32,
    /// The number of colors of the image.
    pub origcolors: i32,
    /// Pixel is 15bpp compressible.
    pub optimized: bool,
    /// Minimize palette size.
    pub optimize_palette: bool,
    /// For complexion correction.
    pub complexion: i32,
    /// Do not output palette section if true.
    pub bodyonly: bool,
    /// Method for finding the largest dimension for splitting.
    pub method_for_largest: LargestDim,
    /// Method for choosing a color from the box.
    pub method_for_rep: RepColor,
    /// Method for diffusing.
    pub method_for_diffuse: SixelDiffusion,
    /// Quality of histogram.
    pub quality_mode: Quality,
    /// Background color.
    pub keycolor: i32,
    /// Pixelformat for internal processing.
    pub pixelformat: PixelFormat,
}

/// A second name of `DitherConf`.
#[allow(non_camel_case_types)]
pub type sixel_dither = DitherConf;

/// The method for the largest dimension that stands for `Auto`.
pub open spec fn resolved_largest(method: LargestDim) -> LargestDim {
    if method == LargestDim::Auto {
        LargestDim::Norm
    } else {
        method
    }
}

/// The method for the representative color that stands for `Auto`.
pub open spec fn resolved_rep(method: RepColor) -> RepColor {
    if method == RepColor::Auto {
        RepColor::Center
    } else {
        method
    }
}

/// The quality mode that stands for `Auto`: high for up to eight colors,
/// else low.
pub open spec fn resolved_quality(mode: Quality, ncolors: int) -> Quality {
    if mode == Quality::Auto {
        if ncolors <= 8 {
            Quality::High
        } else {
            Quality::Low
        }
    } else {
        mode
    }
}

/// The diffusion method that stands for `Auto`: Floyd-Steinberg for more
/// than sixteen colors, else Atkinson.
pub open spec fn resolved_diffusion(method: SixelDiffusion, ncolors: int) -> SixelDiffusion {
    if method == SixelDiffusion::Auto {
        if ncolors > 16 {
            SixelDiffusion::FS
        } else {
            SixelDiffusion::Atkinson
        }
    } else {
        method
    }
}

impl DitherConf {
    /// The configuration's invariant: up to 256 active colors.
    pub open spec fn wf(&self) -> bool {
        &&& 0 <= self.ncolors <= SIXEL_PALETTE_MAX
        &&& self.cachetable matches Some(table) ==> table@.len() == CACHE_ENTRIES
    }

    /// A configuration that differs from `pre` at most in what `initialize`,
    /// `apply_palette` and their preparations set.
    pub open spec fn same_setup(&self, pre: &DitherConf) -> bool {
        &&& self.reqcolors == pre.reqcolors
        &&& self.optimize_palette == pre.optimize_palette
        &&& self.complexion == pre.complexion
        &&& self.bodyonly == pre.bodyonly
        &&& self.keycolor == pre.keycolor
    }

    /// Creates a new dither configuration with the specified number of
    /// colors.
    ///
    /// A negative number asks for the high-color mode, with 256 slots. Zero
    /// and numbers above 256 are bad input.
    pub fn new(ncolors: i32) -> (r: SixelResult<Self>)
        ensures
            r is Err <==> ncolors == 0 || ncolors > SIXEL_PALETTE_MAX,
            r is Err ==> r->Err_0 == SixelError::BadInput,
            r matches Ok(d) ==> {
                &&& d.wf()
                &&& d.ncolors == if ncolors < 0 {
                    SIXEL_PALETTE_MAX as int
                } else {
                    ncolors as int
                }
                &&& d.reqcolors == d.ncolors
                &&& d.quality_mode == if ncolors < 0 {
                    Quality::HighColor
                } else {
                    Quality::Low
                }
                &&& d.palette@ == Seq::new((d.ncolors * 3) as nat, |i: int| 0u8)
                &&& d.cachetable is None
                &&& d.origcolors == -1
                &&& d.keycolor == -1
                &&& !d.optimized
                &&& !d.optimize_palette
                &&& d.complexion == 1
                &&& !d.bodyonly
                &&& d.method_for_largest == LargestDim::Norm
                &&& d.method_for_rep == RepColor::Center
                &&& d.method_for_diffuse == SixelDiffusion::FS
                &&& d.pixelformat == PixelFormat::RGB888
            },
    {
        let mut ncolors = ncolors;
        let quality_mode = if ncolors < 0 {
            ncolors = SIXEL_PALETTE_MAX as i32;
            Quality::HighColor
        } else {
            if ncolors > SIXEL_PALETTE_MAX as i32 {
                return Err(SixelError::BadInput);
            }
            if ncolors < 1 {
                return Err(SixelError::BadInput);
            }
            Quality::Low
        };
        let palette: Vec<u8> = vec![0u8; ncolors as usize * 3];
        assert(palette@ =~= Seq::new((ncolors * 3) as nat, |i: int| 0u8));
        Ok(
            DitherConf {
                palette,
                cachetable: None,
                reqcolors: ncolors,
                ncolors,
                origcolors: -1,
                keycolor: -1,
                optimized: false,
                optimize_palette: false,
                complexion: 1,
                bodyonly: false,
                method_for_largest: LargestDim::Norm,
                method_for_rep: RepColor::Center,
                method_for_diffuse: SixelDiffusion::FS,
                quality_mode,
                pixelformat: PixelFormat::RGB888,
            },
        )
    }

    /// Creates the configuration of a predefined mode: its number of
    /// colors, its palette and its key color.
    pub fn new_mode(dither_mode: DitherMode) -> (r: SixelResult<Self>)
        ensures
            r matches Ok(d) && {
                &&& d.wf()
                &&& d.ncolors == dither_mode.spec_ncolors()
                &&& d.reqcolors == d.ncolors
                &&& d.palette@ == dither_mode.spec_palette()
                &&& d.keycolor == dither_mode.spec_keycolor()
                &&& d.optimized
                &&& !d.optimize_palette
                &&& d.quality_mode == Quality::Low
                &&& d.cachetable is None
                &&& d.origcolors == -1
                &&& d.complexion == 1
                &&& !d.bodyonly
                &&& d.method_for_largest == LargestDim::Norm
                &&& d.method_for_rep == RepColor::Center
                &&& d.method_for_diffuse == SixelDiffusion::FS
                &&& d.pixelformat == PixelFormat::RGB888
            },
    {
        let (ncolors, palette, keycolor): (i32, Vec<u8>, i32) = match dither_mode {
            DitherMode::MonoDark => (2, pal_mono_dark(), 0),
            DitherMode::MonoLight => (2, pal_mono_light(), 0),
            DitherMode::XTerm16 => (16, pal_xterm256(), -1),
            DitherMode::XTerm256 => (256, pal_xterm256(), -1),
            DitherMode::VT340Mono => (16, pal_vt340(), -1),
            DitherMode::VT340Color => (16, pal_vt340(), -1),
            DitherMode::G1 => (2, pal_gray(2), -1),
            DitherMode::G2 => (4, pal_gray(4), -1),
            DitherMode::G4 => (16, pal_gray(16), -1),
            DitherMode::G8 => (256, pal_gray(256), -1),
        };
        match DitherConf::new(ncolors) {
            Ok(mut result) => {
                result.palette = palette;
                result.keycolor = keycolor;
                result.optimized = true;
                result.optimize_palette = false;
                Ok(result)
            },
            Err(e) => Err(e),
        }
    }

    /// Sets the method for finding the largest dimension; `Auto` stands for
    /// `Norm`.
    pub fn set_method_for_largest(&mut self, method_for_largest: LargestDim)
        ensures
            *final(self) == (DitherConf {
                method_for_largest: resolved_largest(method_for_largest),
                ..*old(self)
            }),
    {
        self.method_for_largest = if matches!(method_for_largest, LargestDim::Auto) {
            LargestDim::Norm
        } else {
            method_for_largest
        };
    }

    /// Sets the method for choosing the representative color; `Auto` stands
    /// for `Center`.
    pub fn set_method_for_rep(&mut self, method_for_rep: RepColor)
        ensures
            *final(self) == (DitherConf {
                method_for_rep: resolved_rep(method_for_rep),
                ..*old(self)
            }),
    {
        self.method_for_rep = if matches!(method_for_rep, RepColor::Auto) {
            RepColor::Center
        } else {
            method_for_rep
        };
    }

    /// Sets the quality mode; `Auto` stands for `High` with up to eight
    /// active colors, else for `Low`.
    pub fn set_quality_mode(&mut self, quality_mode: Quality)
        ensures
            *final(self) == (DitherConf {
                quality_mode: resolved_quality(quality_mode, old(self).ncolors as int),
                ..*old(self)
            }),
    {
        self.quality_mode = if matches!(quality_mode, Quality::Auto) {
            if self.ncolors <= 8 {
                Quality::High
            } else {
                Quality::Low
            }
        } else {
            quality_mode
        };
    }

    /// Sets the diffusion method; `Auto` stands for Floyd-Steinberg with
    /// more than sixteen active colors, else for Atkinson.
    pub fn set_diffusion_method(&mut self, method: SixelDiffusion)
        ensures
            *final(self) == (DitherConf {
                method_for_diffuse: resolved_diffusion(method, old(self).ncolors as int),
                ..*old(self)
            }),
    {
        self.method_for_diffuse = if matches!(method, SixelDiffusion::Auto) {
            if self.ncolors > 16 {
                SixelDiffusion::FS
            } else {
                SixelDiffusion::Atkinson
            }
        } else {
            method
        };
    }

    /// Takes the options with which a palette is built for an image, and
    /// tells what the palette builder is asked for: the image in RGB888, the
    /// number of colors, and the methods and the quality mode that stand for
    /// the automatic ones.
    ///
    /// The image is normalized: the builder has three bytes for each pixel.
    /// Where the image is not normalized, the configuration has taken the
    /// pixel format and nothing else.
    pub fn prepare(
        &mut self,
        data: &[u8],
        width: i32,
        height: i32,
        pixelformat: PixelFormat,
        method_for_largest: LargestDim,
        method_for_rep: RepColor,
        quality_mode: Quality,
    ) -> (r: SixelResult<PaletteRequest>)
        ensures
            match normalize_error(data@.len() as int, pixelformat, width as int, height as int) {
                Some(e) => {
                    &&& r is Err
                    &&& r->Err_0 == e
                    &&& *final(self) == (DitherConf { pixelformat, ..*old(self) })
                },
                None => {
                    &&& r is Ok
                    &&& r->Ok_0.pixels@ == normalized(
                        data@,
                        pixelformat,
                        width as int,
                        height as int,
                    )
                    &&& r->Ok_0.pixels@.len() == 3 * (height * width)
                    &&& r->Ok_0.reqcolors == old(self).reqcolors
                    &&& r->Ok_0.method_for_largest == resolved_largest(method_for_largest)
                    &&& r->Ok_0.method_for_rep == resolved_rep(method_for_rep)
                    &&& r->Ok_0.quality_mode == resolved_quality(
                        quality_mode,
                        old(self).ncolors as int,
                    )
                    &&& *final(self) == (DitherConf {
                        pixelformat: canonical(pixelformat),
                        method_for_largest: resolved_largest(method_for_largest),
                        method_for_rep: resolved_rep(method_for_rep),
                        quality_mode: resolved_quality(quality_mode, old(self).ncolors as int),
                        ..*old(self)
                    })
                },
            },
    {
        self.set_pixelformat(pixelformat);
        let mut input_pixels: Vec<u8> = Vec::new();
        match sixel_helper_normalize_pixelformat(
            &mut input_pixels,
            data,
            pixelformat,
            width,
            height,
        ) {
            Ok(format) => {
                self.set_pixelformat(format);
            },
            Err(e) => {
                return Err(e);
            },
        }
        self.set_method_for_largest(method_for_largest);
        self.set_method_for_rep(method_for_rep);
        self.set_quality_mode(quality_mode);
        Ok(
            PaletteRequest {
                pixels: input_pixels,
                reqcolors: self.reqcolors,
                method_for_largest: self.method_for_largest,
                method_for_rep: self.method_for_rep,
                quality_mode: self.quality_mode,
            },
        )
    }

    /// Takes the palette that was built for the image: its bytes, the number
    /// of its colors, and the number of colors of the image.
    ///
    /// With no more colors in the image than were asked for, nothing is
    /// left to diffuse.
    pub fn initialize(&mut self, palette: Vec<u8>, ncolors: i32, origcolors: i32)
        ensures
            *final(self) == (DitherConf {
                palette,
                ncolors,
                origcolors,
                optimized: true,
                method_for_diffuse: if origcolors <= old(self).reqcolors {
                    SixelDiffusion::Off
                } else {
                    old(self).method_for_diffuse
                },
                ..*old(self)
            }),
    {
        self.ncolors = ncolors;
        self.origcolors = origcolors;
        self.palette = palette;
        self.optimized = true;
        if self.origcolors <= self.reqcolors {
            self.method_for_diffuse = SixelDiffusion::Off;
        }
    }

    /// Get number of palette colors.
    pub fn get_num_of_palette_colors(&self) -> (n: i32)
        ensures
            n == self.ncolors,
    {
        self.ncolors
    }

    /// Get number of histogram colors.
    pub fn get_num_of_histogram_colors(&self) -> (n: i32)
        ensures
            n == self.origcolors,
    {
        self.origcolors
    }

    /// Get the palette.
    pub fn get_palette(&self) -> (palette: &[u8])
        ensures
            palette@ == self.palette@,
    {
        self.palette.as_slice()
    }

    /// Set the palette.
    pub fn set_palette(&mut self, palette: Vec<u8>)
        ensures
            *final(self) == (DitherConf { palette, ..*old(self) }),
    {
        self.palette = palette;
    }

    /// Set the factor of complexion color correcting.
    pub fn set_complexion_score(&mut self, score: i32)
        ensures
            *final(self) == (DitherConf { complexion: score, ..*old(self) }),
    {
        self.complexion = score;
    }

    /// Set whether omitting palette definition.
    pub fn set_body_only(&mut self, bodyonly: bool)
        ensures
            *final(self) == (DitherConf { bodyonly, ..*old(self) }),
    {
        self.bodyonly = bodyonly;
    }

    /// Set whether optimize palette size.
    pub fn set_optimize_palette(&mut self, do_op: bool)
        ensures
            *final(self) == (DitherConf { optimize_palette: do_op, ..*old(self) }),
    {
        self.optimize_palette = do_op;
    }

    /// Set the pixel format.
    pub fn set_pixelformat(&mut self, pixelformat: PixelFormat)
        ensures
            *final(self) == (DitherConf { pixelformat, ..*old(self) }),
    {
        self.pixelformat = pixelformat;
    }

    /// Set the transparent color index.
    pub fn set_transparent(&mut self, index: i32)
        ensures
            *final(self) == (DitherConf { keycolor: index, ..*old(self) }),
    {
        self.keycolor = index;
    }

    /// Whether the palette applier may use the color cache: the pixels are
    /// compressible, the quality mode is not `Full`, and the palette is none
    /// of the two monochrome ones.
    pub open spec fn caches(&self) -> bool {
        &&& self.optimized
        &&& self.quality_mode != Quality::Full
        &&& self.palette@ != mono_dark()
        &&& self.palette@ != mono_light()
    }

    /// Gets the configuration ready for the palette applier, and tells what
    /// the applier is asked for: the image in RGB888, a buffer of one byte
    /// for the palette index of each pixel, and whether it may use the color
    /// cache.
    ///
    /// In quality mode `Full` the pixels count as not compressible. A color
    /// cache is made where the applier may use one and none is there. The
    /// image is normalized: the applier has three bytes for each pixel, and
    /// the configuration takes the format of the normalized pixels, which is
    /// RGB888 for every format of colors.
    pub fn prepare_apply(&mut self, pixels: &[u8], width: i32, height: i32) -> (r: SixelResult<
        ApplyRequest,
    >)
        requires
            old(self).wf(),
        ensures
            final(self).wf(),
            final(self).optimized == (old(self).optimized && old(self).quality_mode
                != Quality::Full),
            old(self).cachetable is Some ==> final(self).cachetable == old(self).cachetable,
            old(self).cachetable is None ==> (final(self).cachetable is Some <==> old(
                self,
            ).caches()),
            old(self).cachetable is None && old(self).caches() ==> final(self).cachetable->0@
                == Seq::new(CACHE_ENTRIES as nat, |i: int| 0u16),
            final(self).palette == old(self).palette,
            final(self).same_setup(old(self)),
            final(self).ncolors == old(self).ncolors,
            final(self).origcolors == old(self).origcolors,
            final(self).method_for_largest == old(self).method_for_largest,
            final(self).method_for_rep == old(self).method_for_rep,
            final(self).method_for_diffuse == old(self).method_for_diffuse,
            final(self).quality_mode == old(self).quality_mode,
            match normalize_error(
                pixels@.len() as int,
                old(self).pixelformat,
                width as int,
                height as int,
            ) {
                Some(e) => {
                    &&& r is Err
                    &&& r->Err_0 == e
                    &&& final(self).pixelformat == old(self).pixelformat
                },
                None => {
                    &&& r is Ok
                    &&& r->Ok_0.pixels@ == normalized(
                        pixels@,
                        old(self).pixelformat,
                        width as int,
                        height as int,
                    )
                    &&& r->Ok_0.pixels@.len() == 3 * (height * width)
                    &&& r->Ok_0.dest@ == Seq::new((height * width) as nat, |i: int| 0u8)
                    &&& r->Ok_0.dest@.len() == height * width
                    &&& r->Ok_0.use_cache == final(self).cachetable is Some
                    &&& final(self).pixelformat == canonical(old(self).pixelformat)
                    &&& bytes_per_pixel(old(self).pixelformat) > 0 ==> final(self).pixelformat
                        == PixelFormat::RGB888
                },
            },
    {
        if matches!(self.quality_mode, Quality::Full) {
            self.optimized = false;
        }
        if self.cachetable.is_none() && self.optimized {
            let dark = pal_mono_dark();
            let light = pal_mono_light();
            if !same_bytes(&self.palette, &dark) && !same_bytes(&self.palette, &light) {
                let table: Vec<u16> = vec![0u16; CACHE_ENTRIES];
                assert(table@ =~= Seq::new(CACHE_ENTRIES as nat, |i: int| 0u16));
                self.cachetable = Some(table);
            }
        }
        let mut input_pixels: Vec<u8> = Vec::new();
        match sixel_helper_normalize_pixelformat(
            &mut input_pixels,
            pixels,
            self.pixelformat,
            width,
            height,
        ) {
            Ok(format) => {
                self.pixelformat = format;
            },
            Err(e) => {
                return Err(e);
            },
        }
        let cells: usize = input_pixels.len() / 3;
        let dest: Vec<u8> = vec![0u8; cells];
        assert(dest@ =~= Seq::new((height * width) as nat, |i: int| 0u8));
        Ok(ApplyRequest { pixels: input_pixels, dest, use_cache: self.cachetable.is_some() })
    }

    /// Takes what the palette applier returned: the number of colors in
    /// use.
    pub fn apply_palette(&mut self, ncolors: i32)
        ensures
            *final(self) == (DitherConf { ncolors, ..*old(self) }),
    {
        self.ncolors = ncolors;
    }
}

impl sixel_dither {
    /// Creates the configuration of a predefined mode: its number of
    /// colors, its palette and its key color.
    pub fn sixel_dither_get(builtin_dither: DitherMode) -> (r: SixelResult<Self>)
        ensures
            r matches Ok(d) && {
                &&& d.wf()
                &&& d.ncolors == builtin_dither.spec_ncolors()
                &&& d.reqcolors == d.ncolors
                &&& d.palette@ == builtin_dither.spec_palette()
                &&& d.keycolor == builtin_dither.spec_keycolor()
                &&& d.optimized
                &&& !d.optimize_palette
                &&& d.quality_mode == Quality::Low
                &&& d.cachetable is None
                &&& d.origcolors == -1
                &&& d.complexion == 1
                &&& !d.bodyonly
                &&& d.method_for_largest == LargestDim::Norm
                &&& d.method_for_rep == RepColor::Center
                &&& d.method_for_diffuse == SixelDiffusion::FS
                &&& d.pixelformat == PixelFormat::RGB888
            },
    {
        DitherConf::new_mode(builtin_dither)
    }

    /// Sets the diffusion type; `Auto` stands for Floyd-Steinberg with more
    /// than sixteen active colors, else for Atkinson.
    pub fn set_diffusion_type(&mut self, method_for_diffuse: SixelDiffusion)
        ensures
            *final(self) == (DitherConf {
                method_for_diffuse: resolved_diffusion(
                    method_for_diffuse,
                    old(self).ncolors as int,
                ),
                ..*old(self)
            }),
    {
        self.set_diffusion_method(method_for_diffuse);
    }
}

/// Tells whether two byte vectors hold the same bytes.
pub fn same_bytes(a: &Vec<u8>, b: &Vec<u8>) -> (same: bool)
    ensures
        same == (a@ == b@),
{
    if a.len() != b.len() {
        return false;
    }
    let mut i: usize = 0;
    while i < a.len()
        invariant
            i <= a@.len(),
            a@.len() == b@.len(),
            forall|k: int| 0 <= k < i ==> a@[k] == b@[k],
        decreases a@.len() - i,
    {
        if a[i] != b[i] {
            return false;
        }
        i = i + 1;
    }
    assert(a@ =~= b@);
    true
}

} // verus!
