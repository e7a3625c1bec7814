//! The byte stream that the writer produces, as a mathematical model.
//!
//! The writer collects bytes in a buffer. As soon as the buffer holds a full
//! packet, the packet moves to the sink. In multiplexer penetration mode each
//! packet reaches the sink in pieces, each piece in a DCS envelope of its own.

use vstd::prelude::*;

verus! {

/// The number of buffered bytes that make a packet.
pub const SIXEL_OUTPUT_PACKET_SIZE: usize = 16_384;

/// The size of one enveloped piece in multiplexer penetration mode.
pub const SCREEN_PACKET_SIZE: usize = 256;

/// The 7-bit DCS introducer: `ESC P`.
pub open spec fn dcs_start_7bit() -> Seq<u8> {
    seq![0x1Bu8, 0x50u8]
}

/// The 7-bit string terminator: `ESC \`.
pub open spec fn dcs_end_7bit() -> Seq<u8> {
    seq![0x1Bu8, 0x5Cu8]
}

/// The 8-bit DCS introducer: the code point U+0220 in UTF-8.
pub open spec fn dcs_start_8bit() -> Seq<u8> {
    seq![0xC8u8, 0xA0u8]
}

/// The 8-bit string terminator: the code point U+0234 in UTF-8.
pub open spec fn dcs_end_8bit() -> Seq<u8> {
    seq![0xC8u8, 0xB4u8]
}

/// The payload bytes of one enveloped piece: a screen packet less the
/// introducer and the terminator.
pub open spec fn split_size() -> int {
    SCREEN_PACKET_SIZE - dcs_start_7bit().len() - dcs_end_7bit().len()
}

/// `data` cut into pieces of `split_size()` bytes (the last one may be
/// shorter), each between a 7-bit DCS introducer and a terminator.
pub open spec fn wrapped(data: Seq<u8>) -> Seq<u8>
    decreases data.len(),
{
    if data.len() == 0 {
        Seq::<u8>::empty()
    } else if data.len() <= split_size() {
        dcs_start_7bit() + data + dcs_end_7bit()
    } else {
        dcs_start_7bit() + data.take(split_size()) + dcs_end_7bit() + wrapped(
            data.skip(split_size()),
        )
    }
}

/// What the sink receives for one flushed run of bytes.
pub open spec fn packet(data: Seq<u8>, penetrate: bool) -> Seq<u8> {
    if penetrate {
        wrapped(data)
    } else {
        data
    }
}

/// The sink and the buffer once every full packet has left the buffer.
pub open spec fn settled(sink: Seq<u8>, buffer: Seq<u8>, penetrate: bool) -> (Seq<u8>, Seq<u8>)
    decreases buffer.len(),
{
    if buffer.len() >= SIXEL_OUTPUT_PACKET_SIZE {
        settled(
            sink + packet(buffer.take(SIXEL_OUTPUT_PACKET_SIZE as int), penetrate),
            buffer.skip(SIXEL_OUTPUT_PACKET_SIZE as int),
            penetrate,
        )
    } else {
        (sink, buffer)
    }
}

/// Writing `first` and then `second` settles as writing both at once.
pub proof fn lemma_settled_append(
    sink: Seq<u8>,
    buffer: Seq<u8>,
    more: Seq<u8>,
    penetrate: bool,
)
    ensures
        settled(
            settled(sink, buffer, penetrate).0,
            settled(sink, buffer, penetrate).1 + more,
            penetrate,
        ) == settled(sink, buffer + more, penetrate),
    decreases buffer.len(),
{
    let p = SIXEL_OUTPUT_PACKET_SIZE as int;
    if buffer.len() >= p {
        assert((buffer + more).take(p) =~= buffer.take(p));
        assert((buffer + more).skip(p) =~= buffer.skip(p) + more);
        lemma_settled_append(
            sink + packet(buffer.take(p), penetrate),
            buffer.skip(p),
            more,
            penetrate,
        );
    }
}

/// What is left in the buffer after settling is less than a packet.
pub proof fn lemma_settled_short(sink: Seq<u8>, buffer: Seq<u8>, penetrate: bool)
    ensures
        settled(sink, buffer, penetrate).1.len() < SIXEL_OUTPUT_PACKET_SIZE,
    decreases buffer.len(),
{
    let p = SIXEL_OUTPUT_PACKET_SIZE as int;
    if buffer.len() >= p {
        lemma_settled_short(sink + packet(buffer.take(p), penetrate), buffer.skip(p), penetrate);
    }
}

/// Without penetration, settling moves bytes from the buffer to the sink and
/// changes none: sink and buffer together read as before.
pub proof fn lemma_settled_plain(sink: Seq<u8>, buffer: Seq<u8>)
    ensures
        settled(sink, buffer, false).0 + settled(sink, buffer, false).1 == sink + buffer,
    decreases buffer.len(),
{
    let p = SIXEL_OUTPUT_PACKET_SIZE as int;
    if buffer.len() >= p {
        lemma_settled_plain(sink + buffer.take(p), buffer.skip(p));
        assert(sink + buffer.take(p) + buffer.skip(p) =~= sink + buffer);
    }
}

} // verus!
