//! The encoders of whole images.

use vstd::prelude::*;
use vstd::slice::slice_to_vec;
use crate::band::{Pen, BAND_ROWS};
use crate::arith::lemma_product_bound;
use crate::body::{bands, body_bytes, body_error, body_pen, check_body, BodyOptions};
use crate::dither::DitherConf;
use crate::enums::{PixelFormat, Quality, SixelDiffusion};
use crate::pixelformat::{
    canonical, normalize_error, normalized, sixel_helper_normalize_pixelformat,
};
use crate::highcolor::{
    canvas_fits, no_marks, pass, scan_pass, unmarked, Canvas, Frame, Workspace,
};
use crate::slots::{SlotTable, Slots, ASSIGNABLE};
use crate::error::{SixelError, SixelResult};
use crate::output::sixel_output;
use crate::protocol::{header_bytes, introducer, terminator};
use crate::stream::{lemma_settled_plain, settled};
use crate::tosixel::footer_sink;

verus! {

/// What is done to an image's pixels before the band encoder has them.
#[derive(Clone, Copy, Debug, PartialEq, Eq, Structural)]
pub enum Preparation {
    /// The pixels are packed palette indices or gray levels: they are
    /// unpacked to one byte each.
    Unpack,
    /// The pixels are the bytes that the band encoder reads.
    Direct,
    /// The pixels are colors: each is matched to a palette slot.
    ApplyPalette,
}

/// The preparation that a pixel format asks for.
pub open spec fn spec_preparation(format: PixelFormat) -> Preparation {
    match format {
        PixelFormat::PAL1
        | PixelFormat::PAL2
        | PixelFormat::PAL4
        | PixelFormat::G1
        | PixelFormat::G2
        | PixelFormat::G4 => Preparation::Unpack,
        PixelFormat::PAL8 | PixelFormat::G8 | PixelFormat::GA88 | PixelFormat::AG88 => Preparation::Direct,
        _ => Preparation::ApplyPalette,
    }
}

/// Tells what is done to an image's pixels before the band encoder has them.
pub fn preparation(format: PixelFormat) -> (p: Preparation)
    ensures
        p == spec_preparation(format),
{
    match format {
        PixelFormat::PAL1
        | PixelFormat::PAL2
        | PixelFormat::PAL4
        | PixelFormat::G1
        | PixelFormat::G2
        | PixelFormat::G4 => Preparation::Unpack,
        PixelFormat::PAL8 | PixelFormat::G8 | PixelFormat::GA88 | PixelFormat::AG88 => Preparation::Direct,
        _ => Preparation::ApplyPalette,
    }
}

/// Makes the palette indices of an image whose pixels need no palette
/// applier: packed pixels are unpacked, and `dither` takes their format;
/// pixels of one byte or of a gray level with alpha are taken as they are.
/// For an image of colors the result is `None`: its indices are what the
/// palette applier returns.
pub fn indexed_pixels(pixels: &[u8], width: i32, height: i32, dither: &mut DitherConf) -> (r:
    SixelResult<Option<Vec<u8>>>)
    ensures
        match spec_preparation(old(dither).pixelformat) {
            Preparation::Unpack => match normalize_error(
                pixels@.len() as int,
                old(dither).pixelformat,
                width as int,
                height as int,
            ) {
                Some(e) => r is Err && r->Err_0 == e && *final(dither) == *old(dither),
                None => {
                    &&& r is Ok
                    &&& r->Ok_0 is Some
                    &&& r->Ok_0->0@ == normalized(
                        pixels@,
                        old(dither).pixelformat,
                        width as int,
                        height as int,
                    )
                    &&& *final(dither) == (DitherConf {
                        pixelformat: canonical(old(dither).pixelformat),
                        ..*old(dither)
                    })
                },
            },
            Preparation::Direct => {
                &&& r is Ok
                &&& r->Ok_0 is Some
                &&& r->Ok_0->0@ == pixels@
                &&& *final(dither) == *old(dither)
            },
            Preparation::ApplyPalette => {
                &&& r is Ok
                &&& r->Ok_0 is None
                &&& *final(dither) == *old(dither)
            },
        },
{
    match preparation(dither.pixelformat) {
        Preparation::Unpack => {
            let mut paletted_pixels: Vec<u8> = Vec::new();
            match sixel_helper_normalize_pixelformat(
                &mut paletted_pixels,
                pixels,
                dither.pixelformat,
                width,
                height,
            ) {
                Ok(format) => {
                    dither.pixelformat = format;
                    Ok(Some(paletted_pixels))
                },
                Err(e) => Err(e),
            }
        },
        Preparation::Direct => Ok(Some(slice_to_vec(pixels))),
        Preparation::ApplyPalette => Ok(None),
    }
}

impl sixel_output {
    /// The bytes of an image of palette indices between header and footer:
    /// the header and the body.
    pub open spec fn dither_bytes(
        &self,
        pixels: Seq<u8>,
        width: int,
        height: int,
        dither: &DitherConf,
    ) -> Seq<u8> {
        header_bytes(width, height, self.skip_dcs_envelope, self.has_8bit_control) + body_bytes(
            pixels,
            dither.palette@,
            self.save_pixel,
            self.save_count as int,
            self.body_options(
                width,
                height,
                dither.ncolors as int,
                dither.keycolor as int,
                dither.bodyonly,
                false,
            ),
        )
    }

    /// `self` is `pre` after `bytes` and the footer were written.
    pub open spec fn finished(&self, pre: &sixel_output, bytes: Seq<u8>) -> bool {
        let (sent, rest) = settled(pre.sink@, pre.buffer@ + bytes, pre.penetrate_multiplexer);
        &&& self.same_options(pre)
        &&& self.buffer@ == Seq::<u8>::empty()
        &&& self.sink@ == footer_sink(
            sent,
            rest,
            pre.skip_dcs_envelope,
            pre.penetrate_multiplexer,
            pre.has_8bit_control,
        )
    }

    /// Without penetration, a finished stream is what the sink and the
    /// buffer held, the bytes written, and the terminator.
    pub proof fn lemma_finished_plain(&self, pre: &sixel_output, bytes: Seq<u8>)
        requires
            self.finished(pre, bytes),
            !pre.penetrate_multiplexer,
        ensures
            self.sink@ == pre.sink@ + pre.buffer@ + bytes + terminator(
                pre.skip_dcs_envelope,
                false,
                pre.has_8bit_control,
            ),
    {
        let t = terminator(pre.skip_dcs_envelope, false, pre.has_8bit_control);
        let (sent, rest) = settled(pre.sink@, pre.buffer@ + bytes, false);
        lemma_settled_plain(pre.sink@, pre.buffer@ + bytes);
        lemma_settled_plain(sent, rest + t);
        assert(sent + rest == pre.sink@ + (pre.buffer@ + bytes));
        assert(sent + (rest + t) =~= (sent + rest) + t);
        assert(pre.sink@ + (pre.buffer@ + bytes) + t =~= pre.sink@ + pre.buffer@ + bytes + t);
        let (sent2, rest2) = settled(sent, rest + t, false);
        assert(sent2 + rest2 =~= sent + (rest + t));
        if rest2.len() == 0 {
            assert(sent2 =~= sent2 + rest2);
        }
    }

    /// The stream of an image of palette indices, written by a writer that has
    /// written nothing before and wraps no packets, is the header, the body
    /// and the terminator: it starts with the introducer and ends with the
    /// terminator.
    pub proof fn lemma_stream_of_image(
        &self,
        pre: &sixel_output,
        pixels: Seq<u8>,
        width: int,
        height: int,
        dither: &DitherConf,
    )
        requires
            self.finished(pre, pre.dither_bytes(pixels, width, height, dither)),
            pre.sink@.len() == 0,
            pre.buffer@.len() == 0,
            !pre.penetrate_multiplexer,
        ensures
            self.sink@ == pre.dither_bytes(pixels, width, height, dither) + terminator(
                pre.skip_dcs_envelope,
                false,
                pre.has_8bit_control,
            ),
            self.sink@.take(
                introducer(pre.skip_dcs_envelope, pre.has_8bit_control).len() as int,
            ) == introducer(pre.skip_dcs_envelope, pre.has_8bit_control),
            self.sink@.skip(
                self.sink@.len() - terminator(
                    pre.skip_dcs_envelope,
                    false,
                    pre.has_8bit_control,
                ).len(),
            ) == terminator(pre.skip_dcs_envelope, false, pre.has_8bit_control),
    {
        let bytes = pre.dither_bytes(pixels, width, height, dither);
        let end = terminator(pre.skip_dcs_envelope, false, pre.has_8bit_control);
        let start = introducer(pre.skip_dcs_envelope, pre.has_8bit_control);
        self.lemma_finished_plain(pre, bytes);
        assert(pre.sink@ + pre.buffer@ + bytes + end =~= bytes + end);
        assert(self.sink@.take(start.len() as int) =~= start);
        assert(self.sink@.skip(self.sink@.len() - end.len()) =~= end);
    }

    /// Encodes an image of palette indices, one per pixel: the header, the
    /// body with the palette of `dither`, and the footer.
    ///
    /// The input is checked as the body encoder checks it, and nothing is
    /// written where it is rejected.
    pub fn encode_dither(
        &mut self,
        pixels: &[u8],
        width: i32,
        height: i32,
        dither: &DitherConf,
    ) -> (r: SixelResult<()>)
        requires
            old(self).wf(),
        ensures
            final(self).wf(),
            final(self).save_count <= old(self).save_count,
            r == match body_error(
                pixels@.len() as int,
                dither.palette@.len() as int,
                old(self).save_count as int,
                width as int,
                height as int,
                dither.ncolors as int,
                dither.keycolor as int,
                dither.bodyonly,
            ) {
                Some(e) => Err::<(), SixelError>(e),
                None => Ok::<(), SixelError>(()),
            },
            r is Err ==> *final(self) == *old(self),
            r is Ok ==> {
                &&& final(self).finished(
                    old(self),
                    old(self).dither_bytes(pixels@, width as int, height as int, dither),
                )
                &&& final(self).pen() == bands(
                    pixels@,
                    0,
                    body_pen(old(self).save_pixel, old(self).save_count as int),
                    old(self).body_options(
                        width as int,
                        height as int,
                        dither.ncolors as int,
                        dither.keycolor as int,
                        dither.bodyonly,
                        false,
                    ),
                ).1
            },
    {
        match check_body(
            pixels.len(),
            dither.palette.len(),
            self.save_count,
            width,
            height,
            dither.ncolors,
            dither.keycolor,
            dither.bodyonly,
        ) {
            Some(e) => {
                return Err(e);
            },
            None => {},
        }
        let ghost header = header_bytes(
            width as int,
            height as int,
            self.skip_dcs_envelope,
            self.has_8bit_control,
        );
        let _ = self.encode_header(width, height);
        let ghost mid = *self;
        let _ = self.encode_body(
            pixels,
            width,
            height,
            dither.palette.as_slice(),
            dither.ncolors as usize,
            dither.keycolor,
            dither.bodyonly,
            None,
        );
        proof {
            let body = body_bytes(
                pixels@,
                dither.palette@,
                mid.save_pixel,
                mid.save_count as int,
                mid.body_options(
                    width as int,
                    height as int,
                    dither.ncolors as int,
                    dither.keycolor as int,
                    dither.bodyonly,
                    false,
                ),
            );
            self.lemma_streamed_twice(&mid, old(self), header, body);
        }
        let _ = self.encode_footer();
        Ok(())
    }

    /// Encodes an image of colors in RGB888 in passes: the header, the body
    /// of each pass with the palette as the pass left it, and the footer. The
    /// diffusion method of `dither` is applied to the image in place, and the
    /// palette of `dither` takes the colors. A palette of fewer than 255
    /// colors is first extended with zero bytes to 255 colors.
    ///
    /// Nothing is written and nothing changes where the input is rejected.
    pub fn encode_highcolor_rgb888(
        &mut self,
        pixels: &mut Vec<u8>,
        width: i32,
        height: i32,
        dither: &mut DitherConf,
    ) -> (r: SixelResult<()>)
        requires
            old(self).wf(),
        ensures
            final(self).wf(),
            final(self).save_count <= old(self).save_count,
            r == match highcolor_error(
                old(pixels)@.len() as int,
                old(dither).palette@.len() as int,
                old(self).save_count as int,
                width as int,
                height as int,
            ) {
                Some(e) => Err::<(), SixelError>(e),
                None => Ok::<(), SixelError>(()),
            },
            r is Err ==> *final(self) == *old(self),
            r is Err ==> final(pixels)@ == old(pixels)@,
            r is Err ==> *final(dither) == *old(dither),
            r is Ok ==> exists|n: nat|
                {
                    &&& #[trigger] final(self).highcolor_encoded(
                        old(self),
                        old(pixels)@,
                        width as int,
                        height as int,
                        old(dither),
                        final(dither),
                        n,
                    )
                    &&& final(pixels)@ == highcolor_scanned(
                        old(self),
                        old(pixels)@,
                        width as int,
                        height as int,
                        old(dither),
                        n,
                    )
                },
    {
        match check_highcolor(
            pixels.len(),
            dither.palette.len(),
            self.save_count,
            width,
            height,
        ) {
            Some(e) => {
                return Err(e);
            },
            None => {},
        }
        let w: usize = width as usize;
        let h: usize = height as usize;
        let method: SixelDiffusion = dither.method_for_diffuse;
        let bodyonly: bool = dither.bodyonly;
        let ghost f = Frame { width: width as int, height: height as int, method };
        let ghost o = self.body_options(width as int, 0, ASSIGNABLE as int, 255, bodyonly, true);
        let ghost pen0 = self.pen();
        proof {
            lemma_product_bound(height as int, width as int, i32::MAX as int, i32::MAX as int);
        }
        let mut work = Workspace {
            paletted: vec![0u8; h * w],
            marks: vec![false; BAND_ROWS * w],
            table: SlotTable::new(),
        };
        let ghost c0 = initial_canvas(pixels@, dither.palette@, f);
        pad_palette(&mut dither.palette);
        proof {
            assert(work.paletted@ =~= c0.paletted);
            assert(work.marks@ =~= c0.marks);
        }
        let ghost header = header_bytes(
            width as int,
            height as int,
            self.skip_dcs_envelope,
            self.has_8bit_control,
        );
        let _ = self.encode_header(width, height);
        let ghost mut emitted: Seq<u8> = Seq::<u8>::empty();
        let ghost mut n: nat = 0;
        assert(header + emitted =~= header);
        let mut row0: usize = 0;
        while row0 < h
            invariant
                w == width,
                h == height,
                row0 <= h,
                f == (Frame { width: width as int, height: height as int, method }),
                o == old(self).body_options(width as int, 0, ASSIGNABLE as int, 255, bodyonly, true),
                bodyonly == old(dither).bodyonly,
                canvas_fits(work.canvas(pixels@, dither.palette@), f),
                self.wf(),
                self.save_count + w <= i32::MAX,
                self.save_count <= old(self).save_count,
                self.streamed(old(self), header + emitted),
                *dither == (DitherConf { palette: dither.palette, ..*old(dither) }),
                dither.palette@.len() == padded_palette(old(dither).palette@).len(),
                highcolor_run(c0, f, pen0, o, n) == (
                    emitted,
                    work.canvas(pixels@, dither.palette@),
                    row0 as int,
                    self.pen(),
                ),
            decreases h - row0, unmarked(work.marks@),
        {
            let ghost pen = self.pen();
            let (rows, next) = scan_pass(pixels, &mut dither.palette, &mut work, w, h, row0, method);
            let ghost scanned = work.canvas(pixels@, dither.palette@);
            let ghost po = BodyOptions { height: rows as int, ..o };
            let ghost mid = *self;
            proof {
                lemma_product_bound(rows as int, width as int, height as int, width as int);
                assert(mid.body_options(
                    width as int,
                    rows as int,
                    ASSIGNABLE as int,
                    255,
                    bodyonly,
                    true,
                ) == po);
            }
            let _ = self.encode_body(
                work.paletted.as_slice(),
                width,
                rows as i32,
                dither.palette.as_slice(),
                ASSIGNABLE,
                255,
                bodyonly,
                Some(work.table.palstate.as_slice()),
            );
            work.table.recycling = true;
            proof {
                let body = body_bytes(
                    scanned.paletted,
                    scanned.palette,
                    pen.save_pixel,
                    pen.save_count,
                    po,
                );
                self.lemma_streamed_twice(&mid, old(self), header + emitted, body);
                assert(header + emitted + body =~= header + (emitted + body));
                emitted = emitted + body;
                n = n + 1;
            }
            row0 = next;
        }
        let _ = self.encode_footer();
        assert(self.highcolor_encoded(
            old(self),
            old(pixels)@,
            width as int,
            height as int,
            old(dither),
            dither,
            n,
        ));
        assert(pixels@ == highcolor_scanned(
            old(self),
            old(pixels)@,
            width as int,
            height as int,
            old(dither),
            n,
        ));
        Ok(())
    }

    /// The image that the passes of `encode_highcolor` scan: an image in
    /// RGB888 as it is, another one normalized.
    pub open spec fn highcolor_source(
        pixels: Seq<u8>,
        format: PixelFormat,
        width: int,
        height: int,
    ) -> Seq<u8> {
        if format == PixelFormat::RGB888 {
            pixels
        } else {
            normalized(pixels, format, width, height)
        }
    }

    /// The error with which `encode_highcolor` rejects its input, if any: the
    /// error with which an image that is not in RGB888 is not normalized, else
    /// the error of the passes for the image that they scan.
    pub open spec fn highcolor_rejection(
        pixels: Seq<u8>,
        format: PixelFormat,
        palette_len: int,
        save_count: int,
        width: int,
        height: int,
    ) -> Option<SixelError> {
        if format != PixelFormat::RGB888 && normalize_error(
            pixels.len() as int,
            format,
            width,
            height,
        ) is Some {
            normalize_error(pixels.len() as int, format, width, height)
        } else {
            highcolor_error(
                Self::highcolor_source(pixels, format, width, height).len() as int,
                palette_len,
                save_count,
                width,
                height,
            )
        }
    }

    /// Encodes an image of colors in passes: the header, the body of each
    /// pass with the palette as the pass left it, and the footer. The palette
    /// of `dither` takes the colors. A palette of fewer than 255 colors is
    /// first extended with zero bytes to 255 colors.
    ///
    /// An image in RGB888 is scanned in place: the diffusion method of `dither`
    /// is applied to it. An image in another format is normalized, and the
    /// passes scan the normalized image.
    ///
    /// Nothing is written and nothing changes where the input is rejected.
    pub fn encode_highcolor(
        &mut self,
        pixels: &mut Vec<u8>,
        width: i32,
        height: i32,
        dither: &mut DitherConf,
    ) -> (r: SixelResult<()>)
        requires
            old(self).wf(),
        ensures
            final(self).wf(),
            final(self).save_count <= old(self).save_count,
            r is Err ==> *final(self) == *old(self),
            r is Err ==> final(pixels)@ == old(pixels)@,
            r is Err ==> *final(dither) == *old(dither),
            r == match Self::highcolor_rejection(
                old(pixels)@,
                old(dither).pixelformat,
                old(dither).palette@.len() as int,
                old(self).save_count as int,
                width as int,
                height as int,
            ) {
                Some(e) => Err::<(), SixelError>(e),
                None => Ok::<(), SixelError>(()),
            },
            (r is Ok ==> exists|n: nat|
                {
                    &&& #[trigger] final(self).highcolor_encoded(
                        old(self),
                        Self::highcolor_source(
                            old(pixels)@,
                            old(dither).pixelformat,
                            width as int,
                            height as int,
                        ),
                        width as int,
                        height as int,
                        old(dither),
                        final(dither),
                        n,
                    )
                    &&& old(dither).pixelformat == PixelFormat::RGB888 ==> final(pixels)@
                        == highcolor_scanned(
                        old(self),
                        old(pixels)@,
                        width as int,
                        height as int,
                        old(dither),
                        n,
                    )
                }),
            (old(dither).pixelformat != PixelFormat::RGB888 ==> final(pixels)@ == old(pixels)@),
    {
        if matches!(dither.pixelformat, PixelFormat::RGB888) {
            let r = self.encode_highcolor_rgb888(pixels, width, height, dither);
            proof {
                if r is Ok {
                    let n = choose|n: nat|
                        {
                            &&& #[trigger] self.highcolor_encoded(
                                old(self),
                                old(pixels)@,
                                width as int,
                                height as int,
                                old(dither),
                                dither,
                                n,
                            )
                            &&& pixels@ == highcolor_scanned(
                                old(self),
                                old(pixels)@,
                                width as int,
                                height as int,
                                old(dither),
                                n,
                            )
                        };
                    assert(self.highcolor_encoded(
                        old(self),
                        old(pixels)@,
                        width as int,
                        height as int,
                        old(dither),
                        dither,
                        n,
                    ));
                }
            }
            r
        } else {
            let mut canonical: Vec<u8> = Vec::new();
            match sixel_helper_normalize_pixelformat(
                &mut canonical,
                pixels.as_slice(),
                dither.pixelformat,
                width,
                height,
            ) {
                Err(e) => {
                    return Err(e);
                },
                Ok(_) => {},
            }
            let r = self.encode_highcolor_rgb888(&mut canonical, width, height, dither);
            proof {
                if r is Ok {
                    let source = normalized(
                        old(pixels)@,
                        old(dither).pixelformat,
                        width as int,
                        height as int,
                    );
                    let n = choose|n: nat| #[trigger]
                        self.highcolor_encoded(
                            old(self),
                            source,
                            width as int,
                            height as int,
                            old(dither),
                            dither,
                            n,
                        );
                    assert(self.highcolor_encoded(
                        old(self),
                        source,
                        width as int,
                        height as int,
                        old(dither),
                        dither,
                        n,
                    ));
                }
            }
            r
        }
    }

    /// The palette indices that `encode` writes for an image whose quality
    /// mode is not `HighColor`, or the error with which it rejects the image:
    /// packed pixels are unpacked, pixels of one byte or of a gray level with
    /// alpha are the indices, and for an image of colors the indices are those
    /// that the palette applier has returned. An image of colors without
    /// these is not implemented.
    pub open spec fn palette_indices(
        pixels: Seq<u8>,
        applied: Option<&[u8]>,
        format: PixelFormat,
        width: int,
        height: int,
    ) -> Result<Seq<u8>, SixelError> {
        match spec_preparation(format) {
            Preparation::Unpack => match normalize_error(
                pixels.len() as int,
                format,
                width,
                height,
            ) {
                Some(e) => Err(e),
                None => Ok(normalized(pixels, format, width, height)),
            },
            Preparation::Direct => Ok(pixels),
            Preparation::ApplyPalette => match applied {
                Some(indices) => Ok(indices@),
                None => Err(SixelError::NotImplemented),
            },
        }
    }

    /// The pixel format that `encode` leaves in the configuration of an
    /// image whose quality mode is not `HighColor`: that of the unpacked
    /// pixels, if the pixels were packed.
    pub open spec fn palette_format(format: PixelFormat) -> PixelFormat {
        if spec_preparation(format) == Preparation::Unpack {
            canonical(format)
        } else {
            format
        }
    }

    /// Encodes an image of the pixel format of `dither`.
    ///
    /// In quality mode `HighColor` the image is encoded with
    /// `encode_highcolor`. Else its palette indices are encoded with
    /// `encode_dither`: the unpacked pixels of a packed format, the pixels
    /// themselves where they have one byte or a gray level with alpha, and
    /// for an image of colors the indices `applied` that the palette applier
    /// has returned for it.
    ///
    /// A width or a height below 1 is bad input. Nothing is written and
    /// nothing changes where the image is rejected.
    pub fn encode(
        &mut self,
        pixels: &mut Vec<u8>,
        width: i32,
        height: i32,
        _depth: i32,
        dither: &mut DitherConf,
        applied: Option<&[u8]>,
    ) -> (r: SixelResult<()>)
        requires
            old(self).wf(),
        ensures
            final(self).wf(),
            final(self).save_count <= old(self).save_count,
            width < 1 || height < 1 ==> r == Err::<(), SixelError>(SixelError::BadInput),
            r is Err ==> *final(self) == *old(self),
            r is Err ==> final(pixels)@ == old(pixels)@,
            r is Err ==> *final(dither) == *old(dither),
            width >= 1 && height >= 1 && old(dither).quality_mode == Quality::HighColor ==> r == match Self::highcolor_rejection(
                old(pixels)@,
                old(dither).pixelformat,
                old(dither).palette@.len() as int,
                old(self).save_count as int,
                width as int,
                height as int,
            ) {
                Some(e) => Err::<(), SixelError>(e),
                None => Ok::<(), SixelError>(()),
            },
            width >= 1 && height >= 1 && old(dither).quality_mode == Quality::HighColor ==> (r is Ok ==> exists|n: nat|
                {
                    &&& #[trigger] final(self).highcolor_encoded(
                        old(self),
                        Self::highcolor_source(
                            old(pixels)@,
                            old(dither).pixelformat,
                            width as int,
                            height as int,
                        ),
                        width as int,
                        height as int,
                        old(dither),
                        final(dither),
                        n,
                    )
                    &&& old(dither).pixelformat == PixelFormat::RGB888 ==> final(pixels)@
                        == highcolor_scanned(
                        old(self),
                        old(pixels)@,
                        width as int,
                        height as int,
                        old(dither),
                        n,
                    )
                }),
            width >= 1 && height >= 1 && old(dither).quality_mode == Quality::HighColor ==> (old(dither).pixelformat != PixelFormat::RGB888 ==> final(pixels)@ == old(pixels)@),
            width >= 1 && height >= 1 && old(dither).quality_mode != Quality::HighColor
                ==> final(pixels)@ == old(pixels)@,
            width >= 1 && height >= 1 && old(dither).quality_mode != Quality::HighColor ==> (
            match Self::palette_indices(
                old(pixels)@,
                applied,
                old(dither).pixelformat,
                width as int,
                height as int,
            ) {
                Err(e) => r == Err::<(), SixelError>(e),
                Ok(indices) => {
                    &&& r == match body_error(
                        indices.len() as int,
                        old(dither).palette@.len() as int,
                        old(self).save_count as int,
                        width as int,
                        height as int,
                        old(dither).ncolors as int,
                        old(dither).keycolor as int,
                        old(dither).bodyonly,
                    ) {
                        Some(e) => Err::<(), SixelError>(e),
                        None => Ok::<(), SixelError>(()),
                    }
                    &&& r is Ok ==> final(self).finished(
                        old(self),
                        old(self).dither_bytes(indices, width as int, height as int, old(dither)),
                    )
                    &&& r is Ok ==> *final(dither) == (DitherConf {
                        pixelformat: Self::palette_format(old(dither).pixelformat),
                        ..*old(dither)
                    })
                },
            }),
    {
        if width < 1 {
            return Err(SixelError::BadInput);
        }
        if height < 1 {
            return Err(SixelError::BadInput);
        }
        match dither.quality_mode {
            Quality::Auto | Quality::High | Quality::Low | Quality::Full => {
                let format: PixelFormat = dither.pixelformat;
                match indexed_pixels(pixels.as_slice(), width, height, dither) {
                    Err(e) => Err(e),
                    Ok(Some(indices)) => {
                        let r = self.encode_dither(indices.as_slice(), width, height, dither);
                        if r.is_err() {
                            dither.pixelformat = format;
                        }
                        r
                    },
                    Ok(None) => match applied {
                        Some(indices) => self.encode_dither(indices, width, height, dither),
                        None => Err(SixelError::NotImplemented),
                    },
                }
            },
            Quality::HighColor => { self.encode_highcolor(pixels, width, height, dither) },
        }
    }

    /// Tells whether `encode` needs the indices that the palette applier
    /// returns for the image: the quality mode is not `HighColor`, and the
    /// image is one of colors.
    ///
    /// A width or a height below 1 is bad input.
    pub fn needs_applier(width: i32, height: i32, dither: &DitherConf) -> (r: SixelResult<bool>)
        ensures
            r == if width < 1 || height < 1 {
                Err::<bool, SixelError>(SixelError::BadInput)
            } else {
                Ok::<bool, SixelError>(
                    dither.quality_mode != Quality::HighColor && spec_preparation(
                        dither.pixelformat,
                    ) == Preparation::ApplyPalette,
                )
            },
    {
        if width < 1 || height < 1 {
            return Err(SixelError::BadInput);
        }
        match dither.quality_mode {
            Quality::HighColor => Ok(false),
            _ => Ok(matches!(preparation(dither.pixelformat), Preparation::ApplyPalette)),
        }
    }

    /// `self` and `dither` are what `n` passes of the high-color encoder over
    /// the image `pixels0` leave of `pre` and `dither0`, the passes have
    /// scanned the whole image, and the stream is finished.
    pub open spec fn highcolor_encoded(
        &self,
        pre: &sixel_output,
        pixels0: Seq<u8>,
        width: int,
        height: int,
        dither0: &DitherConf,
        dither: &DitherConf,
        n: nat,
    ) -> bool {
        let f = Frame { width, height, method: dither0.method_for_diffuse };
        let o = pre.body_options(width, 0, ASSIGNABLE as int, 255, dither0.bodyonly, true);
        let run = highcolor_run(
            initial_canvas(pixels0, dither0.palette@, f),
            f,
            pre.pen(),
            o,
            n,
        );
        &&& run.2 >= height
        &&& self.finished(
            pre,
            header_bytes(width, height, pre.skip_dcs_envelope, pre.has_8bit_control) + run.0,
        )
        &&& self.pen() == run.3
        &&& dither.palette@ == run.1.palette
        &&& dither.palette@.len() == padded_palette(dither0.palette@).len()
        &&& *dither == (DitherConf { palette: dither.palette, ..*dither0 })
    }
}

/// The image after `n` passes of the high-color encoder.
pub open spec fn highcolor_scanned(
    pre: &sixel_output,
    pixels0: Seq<u8>,
    width: int,
    height: int,
    dither0: &DitherConf,
    n: nat,
) -> Seq<u8> {
    let f = Frame { width, height, method: dither0.method_for_diffuse };
    let o = pre.body_options(width, 0, ASSIGNABLE as int, 255, dither0.bodyonly, true);
    highcolor_run(initial_canvas(pixels0, dither0.palette@, f), f, pre.pen(), o, n).1.pixels
}

/// The palette with room for the color of every slot that can be assigned:
/// a shorter one is extended with zero bytes.
pub open spec fn padded_palette(palette: Seq<u8>) -> Seq<u8> {
    if palette.len() >= 3 * ASSIGNABLE {
        palette
    } else {
        palette + Seq::new((3 * ASSIGNABLE - palette.len()) as nat, |i: int| 0u8)
    }
}

/// Extends a palette with zero bytes until it has room for the color of
/// every slot that can be assigned.
pub fn pad_palette(palette: &mut Vec<u8>)
    ensures
        final(palette)@ == padded_palette(old(palette)@),
        final(palette)@.len() >= 3 * ASSIGNABLE,
        final(palette)@.len() >= old(palette)@.len(),
{
    while palette.len() < 3 * ASSIGNABLE
        invariant
            old(palette)@.len() < 3 * ASSIGNABLE ==> {
                &&& palette@.len() <= 3 * ASSIGNABLE
                &&& palette@ == old(palette)@ + Seq::new(
                    (palette@.len() - old(palette)@.len()) as nat,
                    |i: int| 0u8,
                )
            },
            old(palette)@.len() >= 3 * ASSIGNABLE ==> palette@ == old(palette)@,
            palette@.len() >= old(palette)@.len(),
        decreases 3 * ASSIGNABLE - palette@.len(),
    {
        let ghost before = palette@;
        palette.push(0u8);
        assert(palette@ =~= old(palette)@ + Seq::new(
            (palette@.len() - old(palette)@.len()) as nat,
            |i: int| 0u8,
        ));
    }
    assert(old(palette)@.len() < 3 * ASSIGNABLE ==> palette@ =~= padded_palette(old(palette)@));
}

/// The canvas with which the high-color encoder starts: the image, the
/// palette with room for every slot, no palette index, no mark, no slot in
/// use.
pub open spec fn initial_canvas(pixels: Seq<u8>, palette: Seq<u8>, f: Frame) -> Canvas {
    Canvas {
        pixels,
        paletted: Seq::new((f.height * f.width) as nat, |i: int| 0u8),
        marks: no_marks((BAND_ROWS * f.width) as nat),
        slots: Slots::initial(),
        palette: padded_palette(palette),
    }
}

/// The first `n` passes of the high-color encoder, or as many as it takes to
/// scan the whole image if these are fewer.
///
/// Each pass scans from the row at which the pass before it stopped, and
/// writes the body of the rows that it scanned: the palette indices of the
/// pass over 255 slots, with slot 255, the unresolved pixel, as key color.
/// From the second pass on slots are recycled.
///
/// The result holds the bytes of the bodies, the canvas, the row at which the
/// next pass starts, and the writer's pen.
pub open spec fn highcolor_run(c0: Canvas, f: Frame, pen0: Pen, o: BodyOptions, n: nat) -> (
    Seq<u8>,
    Canvas,
    int,
    Pen,
)
    decreases n,
{
    if n == 0 {
        (Seq::<u8>::empty(), c0, 0, pen0)
    } else {
        let before = highcolor_run(c0, f, pen0, o, (n - 1) as nat);
        if before.2 >= f.height {
            before
        } else {
            let scanned = pass(before.1, f, before.2);
            let po = BodyOptions { height: scanned.1, ..o };
            let pen = before.3;
            (
                before.0 + body_bytes(
                    scanned.0.paletted,
                    scanned.0.palette,
                    pen.save_pixel,
                    pen.save_count,
                    po,
                ),
                Canvas { slots: Slots { recycling: true, ..scanned.0.slots }, ..scanned.0 },
                scanned.2,
                bands(scanned.0.paletted, 0, body_pen(pen.save_pixel, pen.save_count), po).1,
            )
        }
    }
}

/// The error with which the high-color encoder rejects its input, if any.
///
/// An empty palette is a bad argument. Dimensions below 1 are bad input.
/// Products and sums above `i32::MAX` are an integer overflow. Then fewer
/// than three bytes a pixel are bad input. A palette that is not empty is
/// never too short: the encoder extends it.
pub open spec fn highcolor_error(
    pixels_len: int,
    palette_len: int,
    save_count: int,
    width: int,
    height: int,
) -> Option<SixelError> {
    if palette_len == 0 {
        Some(SixelError::BadArgument)
    } else if width < 1 || height < 1 {
        Some(SixelError::BadInput)
    } else if height * width > i32::MAX || ASSIGNABLE * width > i32::MAX || save_count + width
        > i32::MAX {
        Some(SixelError::BadIntegerOverflow)
    } else if pixels_len < 3 * (height * width) {
        Some(SixelError::BadInput)
    } else {
        None
    }
}

/// Checks the input of the high-color encoder.
pub fn check_highcolor(
    pixels_len: usize,
    palette_len: usize,
    save_count: i32,
    width: i32,
    height: i32,
) -> (e: Option<SixelError>)
    ensures
        e == highcolor_error(
            pixels_len as int,
            palette_len as int,
            save_count as int,
            width as int,
            height as int,
        ),
{
    if palette_len == 0 {
        return Some(SixelError::BadArgument);
    }
    if width < 1 || height < 1 {
        return Some(SixelError::BadInput);
    }
    proof {
        lemma_product_bound(height as int, width as int, i32::MAX as int, i32::MAX as int);
        lemma_product_bound(ASSIGNABLE as int, width as int, 255, i32::MAX as int);
    }
    let area: i64 = (height as i64) * (width as i64);
    let cells: i64 = (ASSIGNABLE as i64) * (width as i64);
    if area > i32::MAX as i64 || cells > i32::MAX as i64 || save_count > i32::MAX - width {
        return Some(SixelError::BadIntegerOverflow);
    }
    if (pixels_len as u64) < 3 * (area as u64) {
        return Some(SixelError::BadInput);
    }
    None
}

} // verus!
