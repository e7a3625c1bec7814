//! The writer's state and its options.

use vstd::prelude::*;
use crate::band::Pen;
use crate::enums::{EncodePolicy, PaletteType};
use crate::stream::{settled, SIXEL_OUTPUT_PACKET_SIZE};

verus! {

/// One run of one palette color within one band.
///
/// `map` holds, for each column of the band, the rows of the band in which
/// the color stands: bit `r` for row `r`.
#[derive(Debug, Default, PartialEq, Eq, Hash)]
pub struct SixelNode {
    /// Index of the color in the palette.
    pub pal: i32,
    /// Start column of the run, inclusive.
    pub sx: i32,
    /// End column of the run, exclusive.
    pub mx: i32,
    /// The color's row masks, one per column of the band.
    pub map: Vec<u8>,
}

/// The protocol writer: a bounded buffer in front of a byte sink, the
/// terminal's compatibility flags, the palette index that the terminal was
/// last told to select, and the pending run of the repeat primitive.
#[derive(Debug, PartialEq, Eq, Hash)]
pub struct SixelOutput {
    /// `false` for 7-bit control sequences, `true` for 8-bit ones.
    pub has_8bit_control: bool,
    /// `false` if the terminal supports sixel scrolling, `true` if not.
    pub has_sixel_scrolling: bool,
    /// `true` if the argument of the repeat introducer is limited to 255.
    pub has_gri_arg_limit: bool,
    /// `true` if the terminal has the sixel display mode glitch.
    pub has_sdm_glitch: bool,
    /// `true` to leave out the DCS envelope.
    pub skip_dcs_envelope: bool,
    /// Color space of the palette definitions.
    pub palette_type: PaletteType,
    /// The bytes handed to the sink so far, in order.
    pub sink: Vec<u8>,
    /// The character of the pending run.
    pub save_pixel: u8,
    /// The length of the pending run.
    pub save_count: i32,
    /// The palette index selected last, or -1.
    pub active_palette: i32,
    /// `true` to wrap every flushed packet for a terminal multiplexer.
    pub penetrate_multiplexer: bool,
    /// Policy for encoding decisions.
    pub encode_policy: EncodePolicy,
    /// The bytes not yet handed to the sink.
    pub buffer: Vec<u8>,
}

impl SixelNode {
    /// The node's invariant: the run lies within the columns that `map` holds.
    pub open spec fn wf(&self) -> bool {
        0 <= self.sx <= self.mx <= self.map@.len()
    }
}

impl Default for SixelOutput {
    /// A writer with every flag cleared, nothing written and nothing
    /// pending.
    fn default() -> (out: Self)
        ensures
            out.wf(),
            out.sink@ == Seq::<u8>::empty(),
            out.buffer@ == Seq::<u8>::empty(),
            !out.has_8bit_control,
            !out.has_sdm_glitch,
            !out.has_gri_arg_limit,
            !out.skip_dcs_envelope,
            !out.has_sixel_scrolling,
            !out.penetrate_multiplexer,
            out.palette_type == PaletteType::Auto,
            out.encode_policy == EncodePolicy::Auto,
            out.save_pixel == 0,
            out.save_count == 0,
            out.active_palette == 0,
    {
        SixelOutput {
            has_8bit_control: false,
            has_sdm_glitch: false,
            has_gri_arg_limit: false,
            skip_dcs_envelope: false,
            palette_type: PaletteType::Auto,
            sink: Vec::new(),
            save_pixel: 0,
            save_count: 0,
            active_palette: 0,
            penetrate_multiplexer: false,
            encode_policy: EncodePolicy::Auto,
            has_sixel_scrolling: false,
            buffer: Vec::new(),
        }
    }
}

impl SixelOutput {
    /// The writer's invariant: the buffer holds less than a packet, and the
    /// pending run has a length and a 7-bit character.
    pub open spec fn wf(&self) -> bool {
        &&& self.buffer@.len() < SIXEL_OUTPUT_PACKET_SIZE
        &&& self.save_count >= 0
        &&& self.save_pixel <= 0x7F
    }

    /// `self` has the options of `pre`.
    pub open spec fn same_options(&self, pre: &SixelOutput) -> bool {
        &&& self.has_8bit_control == pre.has_8bit_control
        &&& self.has_sixel_scrolling == pre.has_sixel_scrolling
        &&& self.has_gri_arg_limit == pre.has_gri_arg_limit
        &&& self.has_sdm_glitch == pre.has_sdm_glitch
        &&& self.skip_dcs_envelope == pre.skip_dcs_envelope
        &&& self.palette_type == pre.palette_type
        &&& self.penetrate_multiplexer == pre.penetrate_multiplexer
        &&& self.encode_policy == pre.encode_policy
    }

    /// `self` is `pre` after `bytes` were written: the options are those of
    /// `pre`, and sink and buffer are those of `pre` with `bytes` appended to
    /// the buffer and every full packet flushed.
    pub open spec fn streamed(&self, pre: &SixelOutput, bytes: Seq<u8>) -> bool {
        &&& self.same_options(pre)
        &&& (self.sink@, self.buffer@) == settled(
            pre.sink@,
            pre.buffer@ + bytes,
            pre.penetrate_multiplexer,
        )
    }

    /// `self` has the pending run and the selected palette index of `pre`.
    pub open spec fn same_run(&self, pre: &SixelOutput) -> bool {
        &&& self.save_pixel == pre.save_pixel
        &&& self.save_count == pre.save_count
        &&& self.active_palette == pre.active_palette
    }

    /// The writer's pen.
    pub open spec fn pen(&self) -> Pen {
        Pen {
            active: self.active_palette as int,
            save_pixel: self.save_pixel,
            save_count: self.save_count as int,
        }
    }

    /// Writing `first` and then `second` is writing `first + second`.
    pub proof fn lemma_streamed_twice(
        &self,
        mid: &SixelOutput,
        pre: &SixelOutput,
        first: Seq<u8>,
        second: Seq<u8>,
    )
        requires
            mid.streamed(pre, first),
            self.streamed(mid, second),
        ensures
            self.streamed(pre, first + second),
    {
        crate::stream::lemma_settled_append(
            pre.sink@,
            pre.buffer@ + first,
            second,
            pre.penetrate_multiplexer,
        );
        assert(pre.buffer@ + first + second =~= pre.buffer@ + (first + second));
    }

    /// Creates a writer with an empty sink and buffer: 7-bit controls, the
    /// repeat argument limited to 255, no pending run, no palette selected.
    pub fn new() -> (out: Self)
        ensures
            out.wf(),
            out.sink@ == Seq::<u8>::empty(),
            out.buffer@ == Seq::<u8>::empty(),
            !out.has_8bit_control,
            !out.has_sdm_glitch,
            out.has_gri_arg_limit,
            !out.skip_dcs_envelope,
            !out.has_sixel_scrolling,
            !out.penetrate_multiplexer,
            out.palette_type == PaletteType::Auto,
            out.encode_policy == EncodePolicy::Auto,
            out.save_pixel == 0,
            out.save_count == 0,
            out.active_palette == -1,
    {
        SixelOutput {
            has_8bit_control: false,
            has_sdm_glitch: false,
            has_gri_arg_limit: true,
            skip_dcs_envelope: false,
            palette_type: PaletteType::Auto,
            sink: Vec::new(),
            save_pixel: 0,
            save_count: 0,
            active_palette: -1,
            penetrate_multiplexer: false,
            encode_policy: EncodePolicy::Auto,
            has_sixel_scrolling: false,
            buffer: Vec::new(),
        }
    }

    /// Tells whether the writer uses 8-bit control sequences.
    pub fn get_8bit_availability(&self) -> (availability: bool)
        ensures
            availability == self.has_8bit_control,
    {
        self.has_8bit_control
    }

    /// Sets whether the writer uses 8-bit control sequences.
    pub fn set_8bit_availability(&mut self, availability: bool)
        ensures
            *final(self) == (SixelOutput { has_8bit_control: availability, ..*old(self) }),
    {
        self.has_8bit_control = availability;
    }

    /// Sets whether the argument of the repeat introducer is limited to 255.
    pub fn set_gri_arg_limit(&mut self, value: bool)
        ensures
            *final(self) == (SixelOutput { has_gri_arg_limit: value, ..*old(self) }),
    {
        self.has_gri_arg_limit = value;
    }

    /// Sets whether every flushed packet is wrapped for a terminal
    /// multiplexer.
    pub fn set_penetrate_multiplexer(&mut self, penetrate: bool)
        ensures
            *final(self) == (SixelOutput { penetrate_multiplexer: penetrate, ..*old(self) }),
    {
        self.penetrate_multiplexer = penetrate;
    }

    /// Sets whether the DCS envelope is left out.
    pub fn set_skip_dcs_envelope(&mut self, skip: bool)
        ensures
            *final(self) == (SixelOutput { skip_dcs_envelope: skip, ..*old(self) }),
    {
        self.skip_dcs_envelope = skip;
    }

    /// Sets the palette type.
    pub fn set_palette_type(&mut self, palettetype: PaletteType)
        ensures
            *final(self) == (SixelOutput { palette_type: palettetype, ..*old(self) }),
    {
        self.palette_type = palettetype;
    }

    /// Sets the encoding policy.
    pub fn set_encode_policy(&mut self, encode_policy: EncodePolicy)
        ensures
            *final(self) == (SixelOutput { encode_policy, ..*old(self) }),
    {
        self.encode_policy = encode_policy;
    }
}

/// The writer, under the name that the encoder's functions use.
#[allow(non_camel_case_types)]
pub type sixel_output = SixelOutput;

/// The node, under the name that the encoder's functions use.
#[allow(non_camel_case_types)]
pub type sixel_node = SixelNode;

} // verus!
