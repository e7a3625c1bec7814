//! The protocol writer's emission functions.

use vstd::prelude::*;
use vstd::utf8::encode_scalar;
use vstd::string::StringSliceAdditionalSpecFns;
use crate::decimal::{decimal, push_decimal};
use crate::error::{SixelError, SixelResult};
use crate::output::{sixel_node, sixel_output};
use crate::protocol::{
    active_after, header_bytes, hls_definition, hue, introducer, lightness, node_bytes,
    node_chars, quotient, rgb_definition, saturation, select_bytes, terminator,
};
use crate::runs::{repeated, run_bytes, run_stream, sixel_char};
use crate::stream::{
    dcs_end_7bit, dcs_start_7bit, lemma_settled_append, lemma_settled_short, packet, settled,
    split_size, wrapped, SIXEL_OUTPUT_PACKET_SIZE,
};

verus! {

/// Appends the UTF-8 encoding of `value` to `out`.
pub fn push_char(out: &mut Vec<u8>, value: char)
    ensures
        final(out)@ == old(out)@ + encode_scalar(value as u32),
{
    let v: u32 = value as u32;
    let ghost start = out@;
    if v <= 0x7F {
        out.push((v & 0x7F) as u8);
        assert(out@ =~= start + encode_scalar(v));
    } else if v <= 0x7FF {
        out.push(0xC0 | (((v >> 6) & 0x1F) as u8));
        out.push(0x80 | ((v & 0x3F) as u8));
        assert(out@ =~= start + encode_scalar(v));
    } else if v <= 0xFFFF {
        out.push(0xE0 | (((v >> 12) & 0x0F) as u8));
        out.push(0x80 | (((v >> 6) & 0x3F) as u8));
        out.push(0x80 | ((v & 0x3F) as u8));
        proof {
            vstd::utf8::char_is_scalar(value);
        }
        assert(out@ =~= start + encode_scalar(v));
    } else {
        out.push(0xF0 | (((v >> 18) & 0x7) as u8));
        out.push(0x80 | (((v >> 12) & 0x3F) as u8));
        out.push(0x80 | (((v >> 6) & 0x3F) as u8));
        out.push(0x80 | ((v & 0x3F) as u8));
        proof {
            vstd::utf8::char_is_scalar(value);
        }
        assert(out@ =~= start + encode_scalar(v));
    }
}

impl sixel_output {
    /// Hands the first `nwrite` bytes of the buffer to the sink in pieces of
    /// `split_size()` bytes, each between `ESC P` and `ESC \`.
    fn penetrate(&mut self, nwrite: usize)
        requires
            nwrite <= old(self).buffer@.len(),
        ensures
            final(self).sink@ == old(self).sink@ + wrapped(old(self).buffer@.take(nwrite as int)),
            final(self).buffer@ == old(self).buffer@,
            final(self).same_options(old(self)),
            final(self).same_run(old(self)),
    {
        let splitsize: usize = 252;
        let mut pos: usize = 0;
        let ghost data = self.buffer@.take(nwrite as int);
        assert(data.skip(0) =~= data);
        while pos < nwrite
            invariant
                pos <= nwrite <= self.buffer@.len(),
                splitsize == split_size(),
                data == self.buffer@.take(nwrite as int),
                self.buffer@ == old(self).buffer@,
                self.same_options(old(self)),
                self.same_run(old(self)),
                self.sink@ + wrapped(data.skip(pos as int)) == old(self).sink@ + wrapped(data),
            decreases nwrite - pos,
        {
            let end: usize = if nwrite - pos < splitsize {
                nwrite
            } else {
                pos + splitsize
            };
            let ghost before = self.sink@;
            let ghost rest = data.skip(pos as int);
            self.sink.push(0x1B);
            self.sink.push(0x50);
            let mut i: usize = pos;
            while i < end
                invariant
                    pos <= i <= end <= nwrite <= self.buffer@.len(),
                    self.buffer@ == old(self).buffer@,
                    self.same_options(old(self)),
                    self.same_run(old(self)),
                    self.sink@ == before + dcs_start_7bit() + self.buffer@.subrange(
                        pos as int,
                        i as int,
                    ),
                decreases end - i,
            {
                let b: u8 = self.buffer[i];
                self.sink.push(b);
                i = i + 1;
                assert(self.buffer@.subrange(pos as int, i as int) =~= self.buffer@.subrange(
                    pos as int,
                    i as int - 1,
                ).push(b));
            }
            self.sink.push(0x1B);
            self.sink.push(0x5C);
            proof {
                let piece = self.buffer@.subrange(pos as int, end as int);
                assert(self.sink@ =~= before + (dcs_start_7bit() + piece + dcs_end_7bit()));
                if rest.len() <= split_size() {
                    assert(piece =~= rest);
                    assert(data.skip(end as int).len() == 0);
                    assert(wrapped(data.skip(end as int)) =~= Seq::<u8>::empty());
                    assert(wrapped(rest) =~= dcs_start_7bit() + piece + dcs_end_7bit());
                } else {
                    assert(piece =~= rest.take(split_size()));
                    assert(data.skip(end as int) =~= rest.skip(split_size()));
                }
                assert(self.sink@ + wrapped(data.skip(end as int)) =~= before + wrapped(rest));
            }
            pos = end;
        }
        assert(wrapped(data.skip(pos as int)) =~= Seq::<u8>::empty());
        assert(self.sink@ =~= old(self).sink@ + wrapped(data));
    }

    /// Flushes one packet if the buffer holds one.
    fn advance(&mut self)
        requires
            old(self).buffer@.len() < 2 * SIXEL_OUTPUT_PACKET_SIZE,
        ensures
            final(self).streamed(old(self), Seq::<u8>::empty()),
            final(self).same_run(old(self)),
            final(self).buffer@.len() < SIXEL_OUTPUT_PACKET_SIZE,
    {
        if self.buffer.len() >= SIXEL_OUTPUT_PACKET_SIZE {
            let ghost whole = self.buffer@;
            let ghost sink0 = self.sink@;
            if self.penetrate_multiplexer {
                self.penetrate(SIXEL_OUTPUT_PACKET_SIZE);
                let rest = self.buffer.split_off(SIXEL_OUTPUT_PACKET_SIZE);
                self.buffer = rest;
            } else {
                let rest = self.buffer.split_off(SIXEL_OUTPUT_PACKET_SIZE);
                self.sink.append(&mut self.buffer);
                self.buffer = rest;
            }
            proof {
                let p = SIXEL_OUTPUT_PACKET_SIZE as int;
                assert(whole.subrange(0, p) =~= whole.take(p));
                assert(whole.subrange(p, whole.len() as int) =~= whole.skip(p));
                assert(whole + Seq::<u8>::empty() =~= whole);
                assert(settled(
                    sink0 + packet(whole.take(p), self.penetrate_multiplexer),
                    whole.skip(p),
                    self.penetrate_multiplexer,
                ) == (self.sink@, self.buffer@));
            }
        } else {
            assert(self.buffer@ + Seq::<u8>::empty() =~= self.buffer@);
        }
    }

    /// Writes `bytes`.
    pub fn write_bytes(&mut self, bytes: &[u8])
        requires
            old(self).wf(),
        ensures
            final(self).wf(),
            final(self).streamed(old(self), bytes@),
            final(self).same_run(old(self)),
    {
        let mut i: usize = 0;
        assert(self.buffer@ + bytes@.take(0) =~= self.buffer@);
        while i < bytes.len()
            invariant
                i <= bytes@.len(),
                self.wf(),
                self.streamed(old(self), bytes@.take(i as int)),
                self.same_run(old(self)),
            decreases bytes@.len() - i,
        {
            let ghost mid = *self;
            let b: u8 = bytes[i];
            self.buffer.push(b);
            self.advance();
            proof {
                lemma_settled_append(
                    old(self).sink@,
                    old(self).buffer@ + bytes@.take(i as int),
                    seq![b],
                    old(self).penetrate_multiplexer,
                );
                assert(mid.buffer@.push(b) + Seq::<u8>::empty() =~= mid.buffer@ + seq![b]);
                assert(old(self).buffer@ + bytes@.take(i as int) + seq![b] =~= old(self).buffer@
                    + bytes@.take(i as int + 1));
            }
            i = i + 1;
        }
        assert(bytes@.take(bytes@.len() as int) =~= bytes@);
    }

    /// Writes one character, in UTF-8.
    pub fn putc(&mut self, value: char)
        requires
            old(self).wf(),
        ensures
            final(self).wf(),
            final(self).streamed(old(self), encode_scalar(value as u32)),
            final(self).same_run(old(self)),
    {
        let mut piece: Vec<u8> = Vec::new();
        push_char(&mut piece, value);
        assert(piece@ =~= encode_scalar(value as u32));
        self.write_bytes(piece.as_slice());
    }

    /// Writes a string, in UTF-8.
    pub fn puts(&mut self, value: &str)
        requires
            old(self).wf(),
        ensures
            final(self).wf(),
            final(self).streamed(old(self), value.spec_bytes()),
            final(self).same_run(old(self)),
    {
        self.write_bytes(value.as_bytes());
    }

    /// Writes the decimal numeral of `i`.
    pub fn puti(&mut self, i: i32)
        requires
            old(self).wf(),
        ensures
            final(self).wf(),
            final(self).streamed(old(self), decimal(i as int)),
            final(self).same_run(old(self)),
    {
        let mut piece: Vec<u8> = Vec::new();
        push_decimal(&mut piece, i as i64);
        assert(piece@ =~= decimal(i as int));
        self.write_bytes(piece.as_slice());
    }

    /// Writes the decimal numeral of `b`.
    pub fn putb(&mut self, b: u8)
        requires
            old(self).wf(),
        ensures
            final(self).wf(),
            final(self).streamed(old(self), decimal(b as int)),
            final(self).same_run(old(self)),
    {
        let mut piece: Vec<u8> = Vec::new();
        push_decimal(&mut piece, b as i64);
        assert(piece@ =~= decimal(b as int));
        self.write_bytes(piece.as_slice());
    }

    /// Writes the pending run and forgets it.
    pub fn put_flash(&mut self) -> (r: SixelResult<()>)
        requires
            old(self).wf(),
        ensures
            r is Ok,
            final(self).wf(),
            final(self).streamed(
                old(self),
                run_bytes(old(self).save_pixel, old(self).save_count as int, old(self).has_gri_arg_limit),
            ),
            final(self).save_pixel == 0,
            final(self).save_count == 0,
            final(self).active_palette == old(self).active_palette,
    {
        let ch: u8 = self.save_pixel;
        let limit: bool = self.has_gri_arg_limit;
        let ghost total: int = self.save_count as int;
        let mut piece: Vec<u8> = Vec::new();
        if limit {
            while self.save_count > 255
                invariant
                    self.wf(),
                    self.same_options(old(self)),
                    self.sink@ == old(self).sink@,
                    self.buffer@ == old(self).buffer@,
                    self.active_palette == old(self).active_palette,
                    self.save_pixel == ch,
                    limit,
                    piece@ + run_bytes(ch, self.save_count as int, limit) == run_bytes(
                        ch,
                        total,
                        limit,
                    ),
                decreases self.save_count,
            {
                let ghost before = piece@;
                piece.push(33u8);
                piece.push(50u8);
                piece.push(53u8);
                piece.push(53u8);
                piece.push(ch);
                proof {
                    assert(piece@ =~= before + seq![33u8, 50u8, 53u8, 53u8, ch]);
                    assert(piece@ + run_bytes(ch, self.save_count as int - 255, limit) =~= before
                        + run_bytes(ch, self.save_count as int, limit));
                }
                self.save_count = self.save_count - 255;
            }
        }
        if self.save_count > 3 {
            let ghost before = piece@;
            piece.push(33u8);
            push_decimal(&mut piece, self.save_count as i64);
            piece.push(ch);
            assert(piece@ =~= before + (seq![33u8] + decimal(self.save_count as int) + seq![ch]));
        } else {
            let ghost before = piece@;
            let mut k: i32 = 0;
            while k < self.save_count
                invariant
                    0 <= k,
                    self.save_count <= 3,
                    k <= self.save_count || self.save_count < 0,
                    piece@ == before + repeated(ch, k as int),
                decreases self.save_count - k,
            {
                piece.push(ch);
                k = k + 1;
                assert(piece@ =~= before + repeated(ch, k as int));
            }
            assert(piece@ =~= before + run_bytes(ch, self.save_count as int, limit));
        }
        assert(piece@ == run_bytes(ch, total, limit));
        self.save_pixel = 0;
        self.save_count = 0;
        self.write_bytes(piece.as_slice());
        Ok(())
    }

    /// Adds one six-bit row pattern to the pending run, or writes the
    /// pending run and starts a new one with it.
    pub fn put_pixel(&mut self, pix: u8) -> (r: SixelResult<()>)
        requires
            old(self).wf(),
            old(self).save_count < i32::MAX,
        ensures
            r is Ok,
            final(self).wf(),
            final(self).active_palette == old(self).active_palette,
            final(self).save_pixel == sixel_char(pix),
            sixel_char(pix) == old(self).save_pixel ==> {
                &&& final(self).streamed(old(self), Seq::<u8>::empty())
                &&& final(self).save_count == old(self).save_count + 1
            },
            sixel_char(pix) != old(self).save_pixel ==> {
                &&& final(self).streamed(
                    old(self),
                    run_bytes(
                        old(self).save_pixel,
                        old(self).save_count as int,
                        old(self).has_gri_arg_limit,
                    ),
                )
                &&& final(self).save_count == 1
            },
    {
        let ch: u8 = if pix > 63 {
            63
        } else {
            pix + 63
        };
        if ch == self.save_pixel {
            self.save_count = self.save_count + 1;
            proof {
                lemma_settled_short(self.sink@, self.buffer@, self.penetrate_multiplexer);
                assert(self.buffer@ + Seq::<u8>::empty() =~= self.buffer@);
            }
        } else {
            let _ = self.put_flash();
            self.save_pixel = ch;
            self.save_count = 1;
        }
        Ok(())
    }

    /// Writes a node with the cursor at column `*x`, and leaves the cursor
    /// at the node's end.
    pub fn put_node(&mut self, x: &mut i32, np: sixel_node, ncolors: i32, keycolor: i32) -> (r:
        SixelResult<()>)
        requires
            old(self).wf(),
            np.wf(),
            0 <= *old(x),
            *old(x) < np.mx ==> old(self).save_count + (np.mx - *old(x)) <= i32::MAX,
        ensures
            r is Ok,
            final(self).wf(),
            *final(x) == if *old(x) < np.mx {
                np.mx
            } else {
                *old(x)
            },
            final(self).streamed(
                old(self),
                node_bytes(
                    old(self).active_palette as int,
                    old(self).save_pixel,
                    old(self).save_count as int,
                    old(self).has_gri_arg_limit,
                    *old(x) as int,
                    np.pal as int,
                    np.sx as int,
                    np.mx as int,
                    np.map@,
                    ncolors as int,
                    keycolor as int,
                ),
            ),
            final(self).save_pixel == 0,
            final(self).save_count == 0,
            final(self).active_palette == active_after(
                old(self).active_palette as int,
                np.pal as int,
                ncolors as int,
                keycolor as int,
            ),
    {
        let ghost select = select_bytes(
            self.active_palette as int,
            np.pal as int,
            ncolors as int,
            keycolor as int,
        );
        let ghost limit = self.has_gri_arg_limit;
        let ghost x0 = *x as int;
        let ghost chars = node_chars(x0, np.sx as int, np.mx as int, np.map@);
        let ghost all = run_stream(self.save_pixel, self.save_count as int, chars, limit);
        if ncolors != 2 || keycolor == -1 {
            if self.active_palette != np.pal {
                let mut piece: Vec<u8> = Vec::new();
                piece.push(35u8);
                push_decimal(&mut piece, np.pal as i64);
                assert(piece@ =~= select);
                self.write_bytes(piece.as_slice());
                self.active_palette = np.pal;
            } else {
                proof {
                    lemma_settled_short(self.sink@, self.buffer@, self.penetrate_multiplexer);
                    assert(self.buffer@ + select =~= self.buffer@);
                }
            }
        } else {
            proof {
                lemma_settled_short(self.sink@, self.buffer@, self.penetrate_multiplexer);
                assert(self.buffer@ + select =~= self.buffer@);
            }
        }
        let ghost mut emitted: Seq<u8> = Seq::<u8>::empty();
        proof {
            assert(select + emitted =~= select);
            assert(chars.skip(0) =~= chars);
        }
        while *x < np.mx
            invariant
                np.wf(),
                x0 == *old(x),
                0 <= x0 <= *x,
                x0 < np.mx ==> *x <= np.mx,
                x0 >= np.mx ==> *x == x0,
                chars == node_chars(x0, np.sx as int, np.mx as int, np.map@),
                self.wf(),
                limit == old(self).has_gri_arg_limit,
                self.streamed(old(self), select + emitted),
                *x < np.mx ==> self.save_count + (np.mx - *x) <= i32::MAX,
                self.active_palette == active_after(
                    old(self).active_palette as int,
                    np.pal as int,
                    ncolors as int,
                    keycolor as int,
                ),
                emitted + run_stream(
                    self.save_pixel,
                    self.save_count as int,
                    chars.skip(*x - x0),
                    limit,
                ) == all,
            decreases np.mx - *x,
        {
            let v: u8 = if *x < np.sx {
                0
            } else {
                np.map[*x as usize]
            };
            let ghost mid = *self;
            let ghost here = chars.skip(*x - x0);
            let ghost rest = chars.skip(*x - x0 + 1);
            let _ = self.put_pixel(v);
            proof {
                assert(here.drop_first() =~= rest);
                assert(here[0] == sixel_char(v));
                if sixel_char(v) == mid.save_pixel {
                    self.lemma_streamed_twice(&mid, old(self), select + emitted, Seq::<u8>::empty());
                    assert(select + emitted + Seq::<u8>::empty() =~= select + emitted);
                } else {
                    let flushed = run_bytes(mid.save_pixel, mid.save_count as int, limit);
                    self.lemma_streamed_twice(&mid, old(self), select + emitted, flushed);
                    assert(select + emitted + flushed =~= select + (emitted + flushed));
                    assert(emitted + flushed + run_stream(sixel_char(v), 1, rest, limit) =~= emitted
                        + (flushed + run_stream(sixel_char(v), 1, rest, limit)));
                    emitted = emitted + flushed;
                }
            }
            *x = *x + 1;
        }
        assert(chars.skip(*x - x0).len() == 0);
        let ghost mid = *self;
        let _ = self.put_flash();
        proof {
            let flushed = run_bytes(mid.save_pixel, mid.save_count as int, limit);
            self.lemma_streamed_twice(&mid, old(self), select + emitted, flushed);
            assert(select + emitted + flushed =~= select + all);
        }
        Ok(())
    }

    /// Writes the header: the DCS introducer unless the envelope is skipped,
    /// `q`, and the raster attributes with `width` and `height`.
    pub fn encode_header(&mut self, width: i32, height: i32) -> (r: SixelResult<()>)
        requires
            old(self).wf(),
        ensures
            r is Ok,
            final(self).wf(),
            final(self).same_run(old(self)),
            final(self).streamed(
                old(self),
                header_bytes(
                    width as int,
                    height as int,
                    old(self).skip_dcs_envelope,
                    old(self).has_8bit_control,
                ),
            ),
    {
        let mut piece: Vec<u8> = Vec::new();
        if !self.skip_dcs_envelope {
            if self.has_8bit_control {
                piece.push(0xC8u8);
                piece.push(0xA0u8);
            } else {
                piece.push(0x1Bu8);
                piece.push(0x50u8);
            }
        }
        assert(piece@ =~= introducer(self.skip_dcs_envelope, self.has_8bit_control));
        piece.push(113u8);
        piece.push(34u8);
        piece.push(49u8);
        piece.push(59u8);
        piece.push(49u8);
        piece.push(59u8);
        push_decimal(&mut piece, width as i64);
        piece.push(59u8);
        push_decimal(&mut piece, height as i64);
        assert(piece@ =~= header_bytes(
            width as int,
            height as int,
            self.skip_dcs_envelope,
            self.has_8bit_control,
        ));
        self.write_bytes(piece.as_slice());
        Ok(())
    }

    /// Writes the RGB definition of palette slot `n`, unless `n` is the key
    /// color. A slot that `palette` does not hold is bad input.
    pub fn output_rgb_palette_definition(&mut self, palette: &[u8], n: i32, keycolor: i32) -> (r:
        SixelResult<()>)
        requires
            old(self).wf(),
        ensures
            final(self).wf(),
            final(self).same_run(old(self)),
            r is Err <==> n != keycolor && !(0 <= n && n * 3 + 3 <= palette@.len()),
            r is Err ==> r == Err::<(), SixelError>(SixelError::BadInput) && *final(self) == *old(
                self,
            ),
            r is Ok ==> final(self).streamed(
                old(self),
                if n == keycolor {
                    Seq::<u8>::empty()
                } else {
                    rgb_definition(palette@, n as int)
                },
            ),
    {
        if n != keycolor {
            if n < 0 || (n as usize) >= palette.len() / 3 {
                return Err(SixelError::BadInput);
            }
            let i: usize = (n as usize) * 3;
            let mut piece: Vec<u8> = Vec::new();
            piece.push(35u8);
            push_decimal(&mut piece, n as i64);
            piece.push(59u8);
            piece.push(50u8);
            piece.push(59u8);
            push_decimal(&mut piece, ((palette[i] as i64) * 100 + 127) / 255);
            piece.push(59u8);
            push_decimal(&mut piece, ((palette[i + 1] as i64) * 100 + 127) / 255);
            piece.push(59u8);
            push_decimal(&mut piece, ((palette[i + 2] as i64) * 100 + 127) / 255);
            assert(piece@ =~= rgb_definition(palette@, n as int));
            self.write_bytes(piece.as_slice());
        } else {
            proof {
                lemma_settled_short(self.sink@, self.buffer@, self.penetrate_multiplexer);
                assert(self.buffer@ + Seq::<u8>::empty() =~= self.buffer@);
            }
        }
        Ok(())
    }

    /// Writes the HLS definition of palette slot `n`, unless `n` is the key
    /// color. A slot that `palette` does not hold is bad input.
    pub fn output_hls_palette_definition(&mut self, palette: &[u8], n: i32, keycolor: i32) -> (r:
        SixelResult<()>)
        requires
            old(self).wf(),
        ensures
            final(self).wf(),
            final(self).same_run(old(self)),
            r is Err <==> n != keycolor && !(0 <= n && n * 3 + 3 <= palette@.len()),
            r is Err ==> r == Err::<(), SixelError>(SixelError::BadInput) && *final(self) == *old(
                self,
            ),
            r is Ok ==> final(self).streamed(
                old(self),
                if n == keycolor {
                    Seq::<u8>::empty()
                } else {
                    hls_definition(palette@, n as int)
                },
            ),
    {
        if n != keycolor {
            if n < 0 || (n as usize) >= palette.len() / 3 {
                return Err(SixelError::BadInput);
            }
            let i: usize = (n as usize) * 3;
            let (h, l, s) = hls_of(palette[i], palette[i + 1], palette[i + 2]);
            let mut piece: Vec<u8> = Vec::new();
            piece.push(35u8);
            push_decimal(&mut piece, n as i64);
            piece.push(59u8);
            piece.push(49u8);
            piece.push(59u8);
            push_decimal(&mut piece, h as i64);
            piece.push(59u8);
            push_decimal(&mut piece, l as i64);
            piece.push(59u8);
            push_decimal(&mut piece, s as i64);
            assert(piece@ =~= hls_definition(palette@, n as int));
            self.write_bytes(piece.as_slice());
        } else {
            proof {
                lemma_settled_short(self.sink@, self.buffer@, self.penetrate_multiplexer);
                assert(self.buffer@ + Seq::<u8>::empty() =~= self.buffer@);
            }
        }
        Ok(())
    }

    /// Writes the string terminator, unless the envelope is skipped or every
    /// packet has its own, and hands what is left in the buffer to the sink.
    pub fn encode_footer(&mut self) -> (r: SixelResult<()>)
        requires
            old(self).wf(),
        ensures
            r is Ok,
            final(self).wf(),
            final(self).same_options(old(self)),
            final(self).same_run(old(self)),
            final(self).buffer@ == Seq::<u8>::empty(),
            final(self).sink@ == footer_sink(
                old(self).sink@,
                old(self).buffer@,
                old(self).skip_dcs_envelope,
                old(self).penetrate_multiplexer,
                old(self).has_8bit_control,
            ),
    {
        let mut piece: Vec<u8> = Vec::new();
        if !self.skip_dcs_envelope && !self.penetrate_multiplexer {
            if self.has_8bit_control {
                piece.push(0xC8u8);
                piece.push(0xB4u8);
            } else {
                piece.push(0x1Bu8);
                piece.push(0x5Cu8);
            }
        }
        assert(piece@ =~= terminator(
            self.skip_dcs_envelope,
            self.penetrate_multiplexer,
            self.has_8bit_control,
        ));
        self.write_bytes(piece.as_slice());
        if self.buffer.len() > 0 {
            let ghost rest = self.buffer@;
            if self.penetrate_multiplexer {
                let n: usize = self.buffer.len();
                self.penetrate(n);
                self.sink.push(0x1Bu8);
                self.sink.push(0x5Cu8);
                self.buffer.clear();
                assert(rest.take(rest.len() as int) =~= rest);
            } else {
                self.sink.append(&mut self.buffer);
            }
        }
        Ok(())
    }
}

/// Hue, lightness and saturation of a color.
pub fn hls_of(r: u8, g: u8, b: u8) -> (hls: (i32, i32, i32))
    ensures
        hls.0 == hue(r as int, g as int, b as int),
        hls.1 == lightness(r as int, g as int, b as int),
        hls.2 == saturation(r as int, g as int, b as int),
{
    let r: i32 = r as i32;
    let g: i32 = g as i32;
    let b: i32 = b as i32;
    let rg: i32 = if r >= g {
        r
    } else {
        g
    };
    let max: i32 = if rg >= b {
        rg
    } else {
        b
    };
    let rg_min: i32 = if r <= g {
        r
    } else {
        g
    };
    let min: i32 = if rg_min <= b {
        rg_min
    } else {
        b
    };
    let l: i32 = ((max + min) * 100 + 255) / 510;
    let mut h: i32 = 0;
    let mut s: i32 = 0;
    if max != min {
        if l < 50 {
            s = ((max - min) * 100) / (max + min);
        } else {
            s = ((max - min) * 100) / ((255 - max) + (255 - min));
        }
        let span: i32 = max - min;
        if r == max {
            h = 120 + signed_quotient((g - b) * 60, span);
        } else if g == max {
            h = 240 + signed_quotient((b - r) * 60, span);
        } else if r < g {
            h = 360 + signed_quotient((r - g) * 60, span);
        } else {
            h = signed_quotient((r - g) * 60, span);
        }
    }
    (h, l, s)
}

/// The quotient of `a` by a positive `b`, rounded toward zero.
pub fn signed_quotient(a: i32, b: i32) -> (q: i32)
    requires
        b > 0,
        a > i32::MIN,
    ensures
        q == quotient(a as int, b as int),
{
    if a >= 0 {
        a / b
    } else {
        let m: i32 = (-a) / b;
        -m
    }
}

/// The sink after the footer: the terminator goes through the buffer, and
/// what the buffer then holds goes to the sink, in penetration mode in
/// envelopes and followed by `ESC \`.
pub open spec fn footer_sink(
    sink: Seq<u8>,
    buffer: Seq<u8>,
    skip_envelope: bool,
    penetrate: bool,
    eight_bit: bool,
) -> Seq<u8> {
    let (sent, rest) = settled(
        sink,
        buffer + terminator(skip_envelope, penetrate, eight_bit),
        penetrate,
    );
    if rest.len() == 0 {
        sent
    } else if penetrate {
        sent + wrapped(rest) + dcs_end_7bit()
    } else {
        sent + rest
    }
}

} // verus!
