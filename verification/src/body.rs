//! The band encoder: the body of the stream.

use vstd::prelude::*;
use vstd::slice::{slice_subrange, slice_to_vec};
use crate::arith::{lemma_cell_in_grid, lemma_product_bound};
use crate::band::{
    drawn, band_map, band_runs, find_runs, full_pattern, lemma_sweep_leaves, lines, node_map,
    run_in_band, sweep, working_map, BandOptions, Pen, Run, BAND_ROWS,
};
use crate::enums::{EncodePolicy, PaletteType};
use crate::error::{SixelError, SixelResult};
use crate::output::{sixel_output, SixelNode};
use crate::protocol::{hls_definition, rgb_definition, selects};

verus! {

/// What the body depends on besides the pixels and the palette.
pub struct BodyOptions {
    /// The image's width.
    pub width: int,
    /// The image's height.
    pub height: int,
    /// The number of palette slots.
    pub ncolors: int,
    /// The key color, or -1.
    pub keycolor: int,
    /// Whether the palette section is left out.
    pub bodyonly: bool,
    /// Whether the body is one pass of the high-color encoder.
    pub highcolor: bool,
    /// Whether the repeat count is limited to 255.
    pub limit: bool,
    /// Whether the encode policy favors size.
    pub size_policy: bool,
    /// Whether the palette is defined in HLS.
    pub hls: bool,
}

impl BodyOptions {
    /// The part of the options that the band encoder reads.
    pub open spec fn band(self) -> BandOptions {
        BandOptions {
            width: self.width,
            ncolors: self.ncolors,
            keycolor: self.keycolor,
            limit: self.limit,
        }
    }
}

/// The pixel in row `y` and column `x`.
pub open spec fn pixel_at(pixels: Seq<u8>, width: int, y: int, x: int) -> u8 {
    pixels[y * width + x]
}

/// The rows of the band that starts at row `y0`: six, or what is left of
/// the image.
pub open spec fn band_height(height: int, y0: int) -> int {
    if height - y0 < BAND_ROWS {
        height - y0
    } else {
        BAND_ROWS as int
    }
}

/// Whether the first line of the band that starts at row `y0` is filled.
///
/// The policy must favor size. In a high-color pass the band's first pixel
/// must be no palette slot; else every pixel of the band's last row must be
/// drawn.
pub open spec fn fillable(pixels: Seq<u8>, y0: int, o: BodyOptions) -> bool {
    o.size_policy && if o.highcolor {
        pixel_at(pixels, o.width, y0, 0) >= o.ncolors
    } else {
        forall|x: int|
            0 <= x < o.width ==> drawn(
                #[trigger] pixel_at(pixels, o.width, y0 + band_height(o.height, y0) - 1, x) as int,
                o.ncolors,
                o.keycolor,
            )
    }
}

/// The band that starts at row `y0`: `-` in front of it unless it is the
/// first of the image, then its lines. The result holds the bytes and the pen
/// after the band.
pub open spec fn band_bytes(pixels: Seq<u8>, y0: int, pen: Pen, o: BodyOptions) -> (Seq<u8>, Pen) {
    let rows = band_height(o.height, y0);
    let map = working_map(pixels, o.width, y0, rows, o.ncolors, o.keycolor);
    let band = lines(
        band_runs(map, o.width, o.ncolors),
        true,
        pen,
        map,
        rows,
        fillable(pixels, y0, o),
        o.band(),
    );
    (
        (if y0 == 0 {
            Seq::<u8>::empty()
        } else {
            seq![45u8]
        }) + band.0,
        band.1,
    )
}

/// The bands from row `y0` on, band after band. The result holds the bytes
/// and the pen after the last band.
pub open spec fn bands(pixels: Seq<u8>, y0: int, pen: Pen, o: BodyOptions) -> (Seq<u8>, Pen)
    decreases o.height - y0,
{
    if y0 < 0 || y0 >= o.height {
        (Seq::<u8>::empty(), pen)
    } else {
        let band = band_bytes(pixels, y0, pen, o);
        let below = if y0 + BAND_ROWS < o.height {
            bands(pixels, y0 + BAND_ROWS, band.1, o)
        } else {
            (Seq::<u8>::empty(), band.1)
        };
        (band.0 + below.0, below.1)
    }
}

/// The definitions of the first `n` palette slots, but for the key color.
pub open spec fn palette_section(palette: Seq<u8>, n: int, keycolor: int, hls: bool) -> Seq<u8>
    decreases n,
{
    if n <= 0 {
        Seq::<u8>::empty()
    } else {
        palette_section(palette, n - 1, keycolor, hls) + if n - 1 == keycolor {
            Seq::<u8>::empty()
        } else if hls {
            hls_definition(palette, n - 1)
        } else {
            rgb_definition(palette, n - 1)
        }
    }
}

/// Whether the body starts with the palette section.
pub open spec fn defines_palette(o: BodyOptions) -> bool {
    !o.bodyonly && selects(o.ncolors, o.keycolor)
}

/// The pen with which the bands start: no palette slot is active.
pub open spec fn body_pen(save_pixel: u8, save_count: int) -> Pen {
    Pen { active: -1, save_pixel, save_count }
}

/// The body: the palette section, the bands, and a carriage return after a
/// high-color pass.
pub open spec fn body_bytes(
    pixels: Seq<u8>,
    palette: Seq<u8>,
    save_pixel: u8,
    save_count: int,
    o: BodyOptions,
) -> Seq<u8> {
    (if defines_palette(o) {
        palette_section(palette, o.ncolors, o.keycolor, o.hls)
    } else {
        Seq::<u8>::empty()
    }) + bands(pixels, 0, body_pen(save_pixel, save_count), o).0 + if o.highcolor {
        seq![36u8]
    } else {
        Seq::<u8>::empty()
    }
}

/// The error with which the body encoder rejects its input, if any.
///
/// An empty palette is a bad argument. Dimensions below 1, and a number of
/// slots below 0 or above 256, are bad input. Products and sums above `i32::MAX` are an integer
/// overflow. Then too few pixels, or too few palette bytes for the slots to
/// define, are bad input.
pub open spec fn body_error(
    pixels_len: int,
    palette_len: int,
    save_count: int,
    width: int,
    height: int,
    ncolors: int,
    keycolor: int,
    bodyonly: bool,
) -> Option<SixelError> {
    if palette_len == 0 {
        Some(SixelError::BadArgument)
    } else if width < 1 || height < 1 || ncolors < 0 || ncolors > 256 {
        Some(SixelError::BadInput)
    } else if height * width > i32::MAX || ncolors * width > i32::MAX || save_count + width
        > i32::MAX {
        Some(SixelError::BadIntegerOverflow)
    } else if pixels_len < height * width || (!bodyonly && selects(ncolors, keycolor)
        && palette_len < 3 * ncolors) {
        Some(SixelError::BadInput)
    } else {
        None
    }
}

/// Checks the input of the body encoder.
pub fn check_body(
    pixels_len: usize,
    palette_len: usize,
    save_count: i32,
    width: i32,
    height: i32,
    ncolors: i32,
    keycolor: i32,
    bodyonly: bool,
) -> (e: Option<SixelError>)
    ensures
        e == body_error(
            pixels_len as int,
            palette_len as int,
            save_count as int,
            width as int,
            height as int,
            ncolors as int,
            keycolor as int,
            bodyonly,
        ),
{
    if palette_len == 0 {
        return Some(SixelError::BadArgument);
    }
    if width < 1 || height < 1 || ncolors < 0 || ncolors > 256 {
        return Some(SixelError::BadInput);
    }
    proof {
        lemma_product_bound(height as int, width as int, i32::MAX as int, i32::MAX as int);
        lemma_product_bound(ncolors as int, width as int, 256, i32::MAX as int);
    }
    let area: i64 = (height as i64) * (width as i64);
    let cells: i64 = (ncolors as i64) * (width as i64);
    if area > i32::MAX as i64 || cells > i32::MAX as i64 || save_count > i32::MAX - width {
        return Some(SixelError::BadIntegerOverflow);
    }
    let defines: bool = !bodyonly && (ncolors != 2 || keycolor == -1);
    if pixels_len < area as usize || (defines && palette_len < 3 * (ncolors as usize)) {
        return Some(SixelError::BadInput);
    }
    None
}

impl sixel_output {
    /// The options that the band encoder has from the writer and its caller.
    pub open spec fn band_options(&self, width: int, ncolors: int, keycolor: int) -> BandOptions {
        BandOptions { width, ncolors, keycolor, limit: self.has_gri_arg_limit }
    }

    /// Nothing was written.
    proof fn lemma_streamed_nothing(&self)
        requires
            self.wf(),
        ensures
            self.streamed(self, Seq::<u8>::empty()),
    {
        assert(self.buffer@ + Seq::<u8>::empty() =~= self.buffer@);
    }

    /// Writes one line of a band: every run of the queue that starts at the
    /// cursor or right of it. Returns the runs that stay in the queue.
    pub fn put_line(
        &mut self,
        runs: &Vec<Run>,
        map: &Vec<u8>,
        width: usize,
        rows: usize,
        fill: bool,
        ncolors: i32,
        keycolor: i32,
    ) -> (left: Vec<Run>)
        requires
            old(self).wf(),
            1 <= width <= i32::MAX,
            1 <= rows <= BAND_ROWS,
            0 <= ncolors <= 256,
            map@.len() == ncolors * width,
            forall|k: int|
                0 <= k < runs@.len() ==> run_in_band(
                    #[trigger] runs@[k],
                    width as int,
                    ncolors as int,
                ),
            old(self).save_count + width <= i32::MAX,
        ensures
            final(self).wf(),
            final(self).streamed(
                old(self),
                sweep(
                    runs@,
                    0,
                    old(self).pen(),
                    map@,
                    rows as int,
                    fill,
                    old(self).band_options(width as int, ncolors as int, keycolor as int),
                ).0,
            ),
            left@ == sweep(
                runs@,
                0,
                old(self).pen(),
                map@,
                rows as int,
                fill,
                old(self).band_options(width as int, ncolors as int, keycolor as int),
            ).1,
            final(self).pen() == sweep(
                runs@,
                0,
                old(self).pen(),
                map@,
                rows as int,
                fill,
                old(self).band_options(width as int, ncolors as int, keycolor as int),
            ).2,
            final(self).save_count <= old(self).save_count,
            forall|k: int|
                0 <= k < left@.len() ==> run_in_band(
                    #[trigger] left@[k],
                    width as int,
                    ncolors as int,
                ),
    {
        let ghost o = self.band_options(width as int, ncolors as int, keycolor as int);
        let ghost whole = sweep(runs@, 0, self.pen(), map@, rows as int, fill, o);
        let ghost mut emitted: Seq<u8> = Seq::<u8>::empty();
        let mut left: Vec<Run> = Vec::new();
        let mut x: i32 = 0;
        let mut i: usize = 0;
        let full: u8 = {
            assert((1u8 << (rows as u8)) >= 1) by (bit_vector)
                requires
                    rows as u8 <= 6,
            ;
            (1u8 << (rows as u8)) - 1
        };
        proof {
            self.lemma_streamed_nothing();
            assert(runs@.skip(0) =~= runs@);
            assert(map@.len() == map.len());
        }
        while i < runs.len()
            invariant
                i <= runs@.len(),
                map@.len() <= usize::MAX,
                0 <= x <= width <= i32::MAX,
                1 <= rows <= BAND_ROWS,
                0 <= ncolors <= 256,
                map@.len() == ncolors * width,
                full == full_pattern(rows as int),
                self.wf(),
                self.streamed(old(self), emitted),
                o == old(self).band_options(width as int, ncolors as int, keycolor as int),
                self.save_count + width <= i32::MAX,
                self.save_count <= old(self).save_count,
                forall|k: int|
                    0 <= k < runs@.len() ==> run_in_band(
                        #[trigger] runs@[k],
                        width as int,
                        ncolors as int,
                    ),
                forall|k: int|
                    0 <= k < left@.len() ==> run_in_band(
                        #[trigger] left@[k],
                        width as int,
                        ncolors as int,
                    ),
                emitted + sweep(runs@.skip(i as int), x as int, self.pen(), map@, rows as int, fill, o).0
                    == whole.0,
                left@ + sweep(runs@.skip(i as int), x as int, self.pen(), map@, rows as int, fill, o).1
                    == whole.1,
                sweep(runs@.skip(i as int), x as int, self.pen(), map@, rows as int, fill, o).2
                    == whole.2,
            decreases runs@.len() - i,
        {
            let r: Run = runs[i];
            let ghost queue = runs@.skip(i as int);
            let ghost here = sweep(queue, x as int, self.pen(), map@, rows as int, fill, o);
            proof {
                assert(queue[0] == r);
                assert(queue.drop_first() =~= runs@.skip(i as int + 1));
                assert(run_in_band(runs@[i as int], width as int, ncolors as int));
            }
            if r.sx >= x {
                let masks: Vec<u8> = if fill {
                    vec![full; width]
                } else {
                    proof {
                        assert(r.pal * width + width <= ncolors * width) by (nonlinear_arith)
                            requires
                                0 <= r.pal < ncolors,
                                0 <= width,
                        ;
                        assert(0 <= r.pal * width) by (nonlinear_arith)
                            requires
                                0 <= r.pal,
                                0 <= width,
                        ;
                    }
                    let base: usize = (r.pal as usize) * width;
                    slice_to_vec(slice_subrange(map.as_slice(), base, base + width))
                };
                assert(masks@ =~= node_map(map@, rows as int, r.pal as int, fill, o));
                let node = SixelNode { pal: r.pal, sx: r.sx, mx: r.mx, map: masks };
                let ghost mid = *self;
                let ghost pen = self.pen();
                let ghost x0 = x as int;
                let _ = self.put_node(&mut x, node, ncolors, keycolor);
                proof {
                    let bytes = crate::protocol::node_bytes(
                        pen.active,
                        pen.save_pixel,
                        pen.save_count,
                        o.limit,
                        x0,
                        r.pal as int,
                        r.sx as int,
                        r.mx as int,
                        node_map(map@, rows as int, r.pal as int, fill, o),
                        o.ncolors,
                        o.keycolor,
                    );
                    self.lemma_streamed_twice(&mid, old(self), emitted, bytes);
                    let after = sweep(
                        runs@.skip(i as int + 1),
                        x as int,
                        self.pen(),
                        map@,
                        rows as int,
                        fill,
                        o,
                    );
                    assert(here.0 == bytes + after.0);
                    assert(emitted + bytes + after.0 =~= emitted + (bytes + after.0));
                    emitted = emitted + bytes;
                }
            } else {
                let ghost kept = left@;
                left.push(r);
                proof {
                    let after = sweep(
                        runs@.skip(i as int + 1),
                        x as int,
                        self.pen(),
                        map@,
                        rows as int,
                        fill,
                        o,
                    );
                    assert(here.1 == seq![r] + after.1);
                    assert(kept.push(r) + after.1 =~= kept + (seq![r] + after.1));
                }
            }
            i = i + 1;
        }
        left
    }

    /// Writes the lines of one band.
    pub fn put_band(
        &mut self,
        runs: Vec<Run>,
        map: &Vec<u8>,
        width: usize,
        rows: usize,
        fill: bool,
        ncolors: i32,
        keycolor: i32,
    )
        requires
            old(self).wf(),
            1 <= width <= i32::MAX,
            1 <= rows <= BAND_ROWS,
            0 <= ncolors <= 256,
            map@.len() == ncolors * width,
            forall|k: int|
                0 <= k < runs@.len() ==> run_in_band(
                    #[trigger] runs@[k],
                    width as int,
                    ncolors as int,
                ),
            old(self).save_count + width <= i32::MAX,
        ensures
            final(self).wf(),
            final(self).streamed(
                old(self),
                lines(
                    runs@,
                    true,
                    old(self).pen(),
                    map@,
                    rows as int,
                    fill,
                    old(self).band_options(width as int, ncolors as int, keycolor as int),
                ).0,
            ),
            final(self).pen() == lines(
                runs@,
                true,
                old(self).pen(),
                map@,
                rows as int,
                fill,
                old(self).band_options(width as int, ncolors as int, keycolor as int),
            ).1,
            final(self).save_count <= old(self).save_count,
    {
        let ghost o = self.band_options(width as int, ncolors as int, keycolor as int);
        let ghost whole = lines(runs@, true, self.pen(), map@, rows as int, fill, o);
        let ghost mut emitted: Seq<u8> = Seq::<u8>::empty();
        let mut queue: Vec<Run> = runs;
        let mut first: bool = true;
        proof {
            self.lemma_streamed_nothing();
        }
        while queue.len() > 0
            invariant
                1 <= width <= i32::MAX,
                1 <= rows <= BAND_ROWS,
                0 <= ncolors <= 256,
                map@.len() == ncolors * width,
                self.wf(),
                self.streamed(old(self), emitted),
                o == old(self).band_options(width as int, ncolors as int, keycolor as int),
                self.save_count + width <= i32::MAX,
                self.save_count <= old(self).save_count,
                forall|k: int|
                    0 <= k < queue@.len() ==> run_in_band(
                        #[trigger] queue@[k],
                        width as int,
                        ncolors as int,
                    ),
                emitted + lines(queue@, first, self.pen(), map@, rows as int, fill, o).0 == whole.0,
                lines(queue@, first, self.pen(), map@, rows as int, fill, o).1 == whole.1,
            decreases queue@.len(),
        {
            let ghost pen = self.pen();
            let ghost line = sweep(queue@, 0, pen, map@, rows as int, first && fill, o);
            let ghost cr = if first {
                Seq::<u8>::empty()
            } else {
                seq![36u8]
            };
            proof {
                assert(run_in_band(queue@[0], width as int, ncolors as int));
                lemma_sweep_leaves(queue@, 0, pen, map@, rows as int, first && fill, o);
            }
            let ghost before = *self;
            if !first {
                let mut piece: Vec<u8> = Vec::new();
                piece.push(36u8);
                assert(piece@ =~= cr);
                self.write_bytes(piece.as_slice());
            } else {
                proof {
                    self.lemma_streamed_nothing();
                }
            }
            let ghost mid = *self;
            let left = self.put_line(&queue, map, width, rows, first && fill, ncolors, keycolor);
            proof {
                mid.lemma_streamed_twice(&before, old(self), emitted, cr);
                self.lemma_streamed_twice(&mid, old(self), emitted + cr, line.0);
                let after = lines(left@, false, self.pen(), map@, rows as int, fill, o);
                assert(emitted + cr + line.0 + after.0 =~= emitted + (cr + line.0 + after.0));
                emitted = emitted + cr + line.0;
            }
            queue = left;
            first = false;
        }
    }

    /// Writes the body of an image of palette indices: the definitions of
    /// the `ncolors` palette slots unless `bodyonly` is set or the slots are
    /// two with a key color, then the image band by band, and a carriage
    /// return after a pass of the high-color encoder (`palstate` is given).
    ///
    /// Nothing is written where the input is rejected.
    pub fn encode_body(
        &mut self,
        pixels: &[u8],
        width: i32,
        height: i32,
        palette: &[u8],
        ncolors: usize,
        keycolor: i32,
        bodyonly: bool,
        palstate: Option<&[i32]>,
    ) -> (r: SixelResult<()>)
        requires
            old(self).wf(),
        ensures
            final(self).wf(),
            r == match body_error(
                pixels@.len() as int,
                palette@.len() as int,
                old(self).save_count as int,
                width as int,
                height as int,
                ncolors as int,
                keycolor as int,
                bodyonly,
            ) {
                Some(e) => Err::<(), SixelError>(e),
                None => Ok::<(), SixelError>(()),
            },
            r is Err ==> *final(self) == *old(self),
            final(self).save_count <= old(self).save_count,
            r is Ok ==> {
                let o = old(self).body_options(
                    width as int,
                    height as int,
                    ncolors as int,
                    keycolor as int,
                    bodyonly,
                    palstate is Some,
                );
                &&& final(self).streamed(
                    old(self),
                    body_bytes(
                        pixels@,
                        palette@,
                        old(self).save_pixel,
                        old(self).save_count as int,
                        o,
                    ),
                )
                &&& final(self).pen() == bands(
                    pixels@,
                    0,
                    body_pen(old(self).save_pixel, old(self).save_count as int),
                    o,
                ).1
            },
    {
        let ghost o = self.body_options(
            width as int,
            height as int,
            ncolors as int,
            keycolor as int,
            bodyonly,
            palstate is Some,
        );
        let highcolor: bool = palstate.is_some();
        let defines: bool = !bodyonly && (ncolors != 2 || keycolor == -1);
        if ncolors > 256 {
            if palette.len() == 0 {
                return Err(SixelError::BadArgument);
            }
            return Err(SixelError::BadInput);
        }
        match check_body(
            pixels.len(),
            palette.len(),
            self.save_count,
            width,
            height,
            ncolors as i32,
            keycolor,
            bodyonly,
        ) {
            Some(e) => {
                return Err(e);
            },
            None => {},
        }
        proof {
            lemma_product_bound(height as int, width as int, i32::MAX as int, i32::MAX as int);
        }
        let w: usize = width as usize;
        let h: usize = height as usize;
        let slots: i32 = ncolors as i32;
        let hls: bool = matches!(self.palette_type, PaletteType::HLS);
        self.active_palette = -1;
        let ghost start = *self;
        let ghost section = if defines {
            palette_section(palette@, ncolors as int, keycolor as int, hls)
        } else {
            Seq::<u8>::empty()
        };
        proof {
            self.lemma_streamed_nothing();
        }
        if defines {
            let mut n: i32 = 0;
            while n < slots
                invariant
                    0 <= n <= slots,
                    slots == ncolors,
                    ncolors <= 256,
                    3 * ncolors <= palette@.len(),
                    hls == (self.palette_type == PaletteType::HLS),
                    self.wf(),
                    self.same_run(&start),
                    self.streamed(old(self), palette_section(palette@, n as int, keycolor as int, hls)),
                decreases slots - n,
            {
                let ghost mid = *self;
                if hls {
                    let _ = self.output_hls_palette_definition(palette, n, keycolor);
                } else {
                    let _ = self.output_rgb_palette_definition(palette, n, keycolor);
                }
                proof {
                    let one = if n == keycolor {
                        Seq::<u8>::empty()
                    } else if hls {
                        hls_definition(palette@, n as int)
                    } else {
                        rgb_definition(palette@, n as int)
                    };
                    self.lemma_streamed_twice(
                        &mid,
                        old(self),
                        palette_section(palette@, n as int, keycolor as int, hls),
                        one,
                    );
                }
                n = n + 1;
            }
        }
        let ghost pen0 = body_pen(old(self).save_pixel, old(self).save_count as int);
        let ghost whole = bands(pixels@, 0, pen0, o);
        let ghost mut emitted: Seq<u8> = Seq::<u8>::empty();
        assert(section + emitted =~= section);
        let mut y0: usize = 0;
        while y0 < h
            invariant
                1 <= w <= i32::MAX,
                1 <= h <= i32::MAX,
                w == width,
                h == height,
                slots == ncolors,
                ncolors <= 256,
                h * w <= i32::MAX,
                h * w <= pixels@.len(),
                ncolors * w <= i32::MAX,
                highcolor == (palstate is Some),
                o == self.body_options(
                    width as int,
                    height as int,
                    ncolors as int,
                    keycolor as int,
                    bodyonly,
                    highcolor,
                ),
                o == old(self).body_options(
                    width as int,
                    height as int,
                    ncolors as int,
                    keycolor as int,
                    bodyonly,
                    palstate is Some,
                ),
                self.wf(),
                self.save_count + w <= i32::MAX,
                self.save_count <= old(self).save_count,
                self.streamed(old(self), section + emitted),
                emitted + bands(pixels@, y0 as int, self.pen(), o).0 == whole.0,
                bands(pixels@, y0 as int, self.pen(), o).1 == whole.1,
            decreases h - y0,
        {
            let ghost mid = *self;
            let ghost band = band_bytes(pixels@, y0 as int, self.pen(), o);
            self.encode_band(pixels, w, h, y0, ncolors, keycolor, bodyonly, highcolor);
            proof {
                self.lemma_streamed_twice(&mid, old(self), section + emitted, band.0);
                assert(section + emitted + band.0 =~= section + (emitted + band.0));
                if y0 + BAND_ROWS < h {
                    let below = bands(pixels@, y0 as int + BAND_ROWS, self.pen(), o);
                    assert(emitted + band.0 + below.0 =~= emitted + (band.0 + below.0));
                } else {
                    assert(emitted + band.0 =~= emitted + (band.0 + Seq::<u8>::empty()));
                }
                emitted = emitted + band.0;
            }
            if h - y0 <= BAND_ROWS {
                y0 = h;
            } else {
                y0 = y0 + BAND_ROWS;
            }
        }
        if highcolor {
            let ghost mid = *self;
            let mut piece: Vec<u8> = Vec::new();
            piece.push(36u8);
            self.write_bytes(piece.as_slice());
            proof {
                self.lemma_streamed_twice(&mid, old(self), section + emitted, seq![36u8]);
            }
        } else {
            assert(section + emitted + Seq::<u8>::empty() =~= section + emitted);
        }
        Ok(())
    }

    /// Writes the band that starts at row `y0`.
    fn encode_band(
        &mut self,
        pixels: &[u8],
        w: usize,
        h: usize,
        y0: usize,
        ncolors: usize,
        keycolor: i32,
        bodyonly: bool,
        highcolor: bool,
    )
        requires
            old(self).wf(),
            1 <= w <= i32::MAX,
            y0 < h <= i32::MAX,
            ncolors <= 256,
            h * w <= i32::MAX,
            h * w <= pixels@.len(),
            ncolors * w <= i32::MAX,
            old(self).save_count + w <= i32::MAX,
        ensures
            final(self).wf(),
            final(self).save_count <= old(self).save_count,
            final(self).streamed(
                old(self),
                band_bytes(
                    pixels@,
                    y0 as int,
                    old(self).pen(),
                    old(self).body_options(
                        w as int,
                        h as int,
                        ncolors as int,
                        keycolor as int,
                        bodyonly,
                        highcolor,
                    ),
                ).0,
            ),
            final(self).pen() == band_bytes(
                pixels@,
                y0 as int,
                old(self).pen(),
                old(self).body_options(
                    w as int,
                    h as int,
                    ncolors as int,
                    keycolor as int,
                    bodyonly,
                    highcolor,
                ),
            ).1,
    {
        let ghost o = self.body_options(
            w as int,
            h as int,
            ncolors as int,
            keycolor as int,
            bodyonly,
            highcolor,
        );
        let rows: usize = if h - y0 < BAND_ROWS {
            h - y0
        } else {
            BAND_ROWS
        };
        proof {
            assert((y0 + rows) * w <= h * w) by (nonlinear_arith)
                requires
                    y0 + rows <= h,
                    0 <= w,
            ;
        }
        let map: Vec<u8> = band_map(pixels, w, y0, rows, ncolors, keycolor);
        let runs: Vec<Run> = find_runs(&map, w, ncolors);
        let size_policy: bool = matches!(self.encode_policy, EncodePolicy::Size);
        let fill: bool = size_policy && self.band_fillable(
            pixels,
            w,
            h,
            y0,
            rows,
            ncolors,
            keycolor,
            highcolor,
        );
        assert(fill == fillable(pixels@, y0 as int, o));
        let ghost pen = self.pen();
        let ghost dash = if y0 == 0 {
            Seq::<u8>::empty()
        } else {
            seq![45u8]
        };
        if y0 != 0 {
            let mut piece: Vec<u8> = Vec::new();
            piece.push(45u8);
            assert(piece@ =~= dash);
            self.write_bytes(piece.as_slice());
        } else {
            proof {
                self.lemma_streamed_nothing();
            }
        }
        let ghost mid = *self;
        let ghost band = lines(runs@, true, pen, map@, rows as int, fill, o.band());
        self.put_band(runs, &map, w, rows, fill, ncolors as i32, keycolor);
        proof {
            self.lemma_streamed_twice(&mid, old(self), dash, band.0);
        }
    }

    /// Tells whether the first line of a band is filled, the policy apart.
    fn band_fillable(
        &self,
        pixels: &[u8],
        width: usize,
        height: usize,
        y0: usize,
        rows: usize,
        ncolors: usize,
        keycolor: i32,
        highcolor: bool,
    ) -> (fill: bool)
        requires
            1 <= width,
            y0 < height,
            rows == band_height(height as int, y0 as int),
            height * width <= pixels@.len(),
            height * width <= i32::MAX,
        ensures
            fill == if highcolor {
                pixel_at(pixels@, width as int, y0 as int, 0) >= ncolors
            } else {
                forall|x: int|
                    0 <= x < width ==> drawn(
                        #[trigger] pixel_at(pixels@, width as int, y0 + rows - 1, x) as int,
                        ncolors as int,
                        keycolor as int,
                    )
            },
    {
        if highcolor {
            proof {
                lemma_cell_in_grid(width as int, height as int, y0 as int, 0);
            }
            (pixels[y0 * width] as usize) >= ncolors
        } else {
            let last: usize = y0 + rows - 1;
            proof {
                lemma_cell_in_grid(width as int, height as int, last as int, 0);
            }
            let line: usize = last * width;
            let mut x: usize = 0;
            while x < width
                invariant
                    !highcolor,
                    x <= width,
                    last < height,
                    last == y0 + rows - 1,
                    line == last * width,
                    height * width <= pixels@.len(),
                    height * width <= i32::MAX,
                    forall|k: int|
                        0 <= k < x ==> drawn(
                            #[trigger] pixel_at(pixels@, width as int, last as int, k) as int,
                            ncolors as int,
                            keycolor as int,
                        ),
                decreases width - x,
            {
                proof {
                    lemma_cell_in_grid(
                        width as int,
                        height as int,
                        last as int,
                        x as int,
                    );
                }
                let pix: u8 = pixels[line + x];
                if !((pix as usize) < ncolors && (pix as i32) != keycolor) {
                    assert(!drawn(
                        pixel_at(pixels@, width as int, y0 + rows - 1, x as int) as int,
                        ncolors as int,
                        keycolor as int,
                    ));
                    return false;
                }
                x = x + 1;
            }
            true
        }
    }

    /// The options of a body, from the writer and the encoder's arguments.
    pub open spec fn body_options(
        &self,
        width: int,
        height: int,
        ncolors: int,
        keycolor: int,
        bodyonly: bool,
        highcolor: bool,
    ) -> BodyOptions {
        BodyOptions {
            width,
            height,
            ncolors,
            keycolor,
            bodyonly,
            highcolor,
            limit: self.has_gri_arg_limit,
            size_policy: self.encode_policy == EncodePolicy::Size,
            hls: self.palette_type == PaletteType::HLS,
        }
    }
}

} // verus!
