//! Run-length coding of sixel characters, as a mathematical model.

use vstd::prelude::*;
use crate::decimal::decimal;

verus! {

/// The character that stands for a six-bit row pattern: the pattern plus
/// `'?'`. A value above 63 is no pattern and reads as the empty one.
pub open spec fn sixel_char(pix: u8) -> u8 {
    if pix > 63 {
        63u8
    } else {
        (pix + 63) as u8
    }
}

/// `count` copies of `ch`.
pub open spec fn repeated(ch: u8, count: int) -> Seq<u8> {
    Seq::new(if count < 0 { 0 } else { count as nat }, |i: int| ch)
}

/// The bytes of a run of `count` characters `ch`.
///
/// A run of up to three is written out. A longer one is one repeat token
/// `!<count><ch>`. With `limit`, a repeat count stays at 255 or below: tokens
/// `!255<ch>` come first, for as long as more than 255 are left.
pub open spec fn run_bytes(ch: u8, count: int, limit: bool) -> Seq<u8>
    decreases count,
{
    if count <= 0 {
        Seq::<u8>::empty()
    } else if limit && count > 255 {
        seq![33u8, 50u8, 53u8, 53u8, ch] + run_bytes(ch, count - 255, limit)
    } else if count > 3 {
        seq![33u8] + decimal(count) + seq![ch]
    } else {
        repeated(ch, count)
    }
}

/// The bytes of a pending run of `count` characters `ch` followed by the
/// characters `chars`: equal neighbors form one run.
pub open spec fn run_stream(ch: u8, count: int, chars: Seq<u8>, limit: bool) -> Seq<u8>
    decreases chars.len(),
{
    if chars.len() == 0 {
        run_bytes(ch, count, limit)
    } else if chars[0] == ch {
        run_stream(ch, count + 1, chars.drop_first(), limit)
    } else {
        run_bytes(ch, count, limit) + run_stream(chars[0], 1, chars.drop_first(), limit)
    }
}

/// A run of four or more identical characters is one repeat token whose
/// count is the length of the run, unless the count is limited and the run
/// is longer than 255.
pub proof fn lemma_run_is_one_token(ch: u8, count: int, limit: bool)
    requires
        count >= 4,
        !limit || count <= 255,
    ensures
        run_bytes(ch, count, limit) == seq![33u8] + decimal(count) + seq![ch],
{
}

/// With the count limited, a run longer than 255 starts with the token
/// `!255<ch>`, and the rest of the run follows.
pub proof fn lemma_run_splits_at_limit(ch: u8, count: int)
    requires
        count > 255,
    ensures
        run_bytes(ch, count, true) == seq![33u8, 50u8, 53u8, 53u8, ch] + run_bytes(
            ch,
            count - 255,
            true,
        ),
{
}

/// A run of characters of a whole run of equal characters is the run of
/// their number.
pub proof fn lemma_run_stream_of_equal(ch: u8, count: int, more: int, limit: bool)
    requires
        0 <= count,
        0 <= more,
    ensures
        run_stream(ch, count, repeated(ch, more), limit) == run_bytes(ch, count + more, limit),
    decreases more,
{
    let chars = repeated(ch, more);
    if more > 0 {
        assert(chars.drop_first() =~= repeated(ch, more - 1));
        lemma_run_stream_of_equal(ch, count + 1, more - 1, limit);
    }
}

} // verus!
