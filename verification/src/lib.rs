//! Encoding of raster images as SIXEL character streams.
//!
//! The crate holds the stages that share one model of six-row bands and
//! palette indices:
//!
//! - the diffusion kernels (`dither_fns`);
//! - the protocol writer (`output`, `tosixel`), a bounded buffer in front of a
//!   byte sink;
//! - the band encoder (`band`, `body`), which writes an image of palette
//!   indices band by band;
//! - the high-color encoder (`slots`, `highcolor`, `encode`), which gives the
//!   colors of an image palette slots pass by pass;
//! - the quantization configuration (`dither`, `palettes`), the builder
//!   (`builder`) and the normalization of pixel formats (`pixelformat`).
//!
//! Every function states what it returns and what it writes, over the
//! mathematical models of the modules `stream`, `runs`, `protocol`, `band`,
//! `body`, `slots` and `highcolor`. The modules `laws`, `selection`, `feeds`,
//! `coverage` and `accounting` hold what follows for every stream and for
//! every image.
//!
//! Building a palette from an image and matching the pixels of an image to a
//! palette are no part of the crate: the encoders take palette indices, or
//! colors that they give slots themselves.

pub mod accounting;
pub mod arith;
pub mod band;
pub mod body;
pub mod builder;
pub mod coverage;
pub mod decimal;
pub mod dither;
pub mod dither_fns;
pub mod encode;
pub mod enums;
pub mod error;
pub mod feeds;
pub mod highcolor;
pub mod laws;
pub mod output;
pub mod palettes;
pub mod pixelformat;
pub mod protocol;
pub mod runs;
pub mod selection;
pub mod slots;
pub mod stream;
pub mod tosixel;

pub use builder::Sixel;
pub use dither::{sixel_dither, DitherConf, DitherMode};
pub use enums::{
    EncodePolicy, FormatType, LargestDim, MethodForLargest, MethodForRep, PaletteType,
    PixelFormat, Quality, RepColor, SixelDiffusion,
};
pub use error::{SixelError, SixelResult};
pub use output::{sixel_node, sixel_output, SixelNode, SixelOutput};
