//! Decoding of one frame: a header byte, then fourteen bytes that each carry
//! two residual nibbles, high half first.

use vstd::prelude::*;
use crate::error::DecodeError;
use crate::header::{decode_frame_header, parse_header, HeaderModel, FRAME_SIZE};
use crate::sample::{advance, decode_sample, reconstruct, Context};

verus! {

/// Samples that one frame decodes to.
pub const SAMPLES_PER_FRAME: usize = 28;

/// Whether the frame's header byte names a predictor of the table.
pub open spec fn frame_header_valid(frame: Seq<u8>) -> bool {
    parse_header(frame[0]) is Some
}

/// The header that the frame's first byte stands for.
pub open spec fn frame_header(frame: Seq<u8>) -> HeaderModel {
    parse_header(frame[0])->Some_0
}

/// The `k`-th residual nibble of a frame, for `k` in 0..28: nibbles `2j` and
/// `2j + 1` are the high and the low half of byte `1 + j`.
pub open spec fn residual_nibble(frame: Seq<u8>, k: int) -> int {
    let byte = frame[1 + k / 2] as int;
    if k % 2 == 0 {
        byte / 16
    } else {
        byte % 16
    }
}

/// The history after the first `count` samples of a frame have been emitted,
/// starting from `context`. Each sample is rebuilt from the history that the
/// samples before it left.
pub open spec fn frame_state(context: Context, frame: Seq<u8>, count: nat) -> Context
    decreases count,
{
    if count == 0 {
        context
    } else {
        let before = frame_state(context, frame, (count - 1) as nat);
        advance(
            before,
            reconstruct(before, residual_nibble(frame, count - 1), frame_header(frame)) as i16,
        )
    }
}

/// The twenty-eight samples of a frame, in the order of its nibbles: sample
/// `k` is the newest history sample once `k + 1` samples have been emitted.
pub open spec fn frame_samples(context: Context, frame: Seq<u8>) -> Seq<i16> {
    Seq::new(
        SAMPLES_PER_FRAME as nat,
        |k: int| frame_state(context, frame, (k + 1) as nat).sample_history_1,
    )
}

/// The history that a whole frame leaves behind.
pub open spec fn frame_end(context: Context, frame: Seq<u8>) -> Context {
    frame_state(context, frame, SAMPLES_PER_FRAME as nat)
}

/// A frame leaves its last sample as the newest history sample and the one
/// before it as the older.
pub proof fn lemma_frame_end_holds_last_samples(context: Context, frame: Seq<u8>)
    ensures
        frame_end(context, frame).sample_history_1 == frame_samples(context, frame)[
            SAMPLES_PER_FRAME - 1],
        frame_end(context, frame).sample_history_2 == frame_samples(context, frame)[
            SAMPLES_PER_FRAME - 2],
{
    reveal_with_fuel(frame_state, 2);
}

/// Decodes one frame: appends its twenty-eight samples to `sink`, in nibble
/// order, and leaves the last two of them in `context`.
///
/// A frame shorter than [`FRAME_SIZE`] is rejected as truncated, and one whose
/// header names no predictor as invalid; in both cases nothing is appended and
/// the history stays as it was. Bytes past the fifteenth are not read.
pub fn decode_frame(context: &mut Context, frame: &[u8], sink: &mut Vec<i16>) -> (result: Result<
    (),
    DecodeError,
>)
    ensures
        result is Ok <==> frame@.len() >= FRAME_SIZE && frame_header_valid(frame@),
        result == Err::<(), DecodeError>(DecodeError::TruncatedInput) <==> frame@.len()
            < FRAME_SIZE,
        result == Err::<(), DecodeError>(DecodeError::InvalidPredictorIndex) <==> frame@.len()
            >= FRAME_SIZE && !frame_header_valid(frame@),
        result is Ok ==> final(sink)@ == old(sink)@ + frame_samples(*old(context), frame@)
            && *final(context) == frame_end(*old(context), frame@),
        result is Ok ==> final(context).sample_history_1 == final(sink)@[final(sink)@.len() - 1]
            && final(context).sample_history_2 == final(sink)@[final(sink)@.len() - 2],
        result is Err ==> final(sink)@ == old(sink)@ && *final(context) == *old(context),
{
    let header = match decode_frame_header(frame) {
        Ok(header) => header,
        Err(error) => {
            return Err(error);
        },
    };
    let ghost start = *context;
    let ghost before = sink@;
    let mut i: usize = 1;
    while i < FRAME_SIZE
        invariant
            1 <= i <= FRAME_SIZE,
            frame@.len() >= FRAME_SIZE,
            header@ == frame_header(frame@),
            *context == frame_state(start, frame@, (2 * (i - 1)) as nat),
            sink@.len() == before.len() + 2 * (i - 1),
            sink@.subrange(0, before.len() as int) == before,
            forall|k: int|
                0 <= k < 2 * (i - 1) ==> sink@[before.len() + k] == (#[trigger] frame_state(
                    start,
                    frame@,
                    (k + 1) as nat,
                )).sample_history_1,
        decreases FRAME_SIZE - i,
    {
        let byte: u8 = frame[i];
        let high: u8 = byte >> 4;
        let low: u8 = byte & 0x0F;
        assert(high == byte / 16 && low == byte % 16) by (bit_vector)
            requires
                high == byte >> 4,
                low == byte & 0x0F,
        ;
        let ghost emitted: int = 2 * (i - 1);
        assert(residual_nibble(frame@, emitted) == high);
        assert(residual_nibble(frame@, emitted + 1) == low);

        let first: i16 = decode_sample(context, high, &header);
        context.sample_history_2 = context.sample_history_1;
        context.sample_history_1 = first;
        sink.push(first);
        assert(*context == frame_state(start, frame@, (emitted + 1) as nat));

        let second: i16 = decode_sample(context, low, &header);
        context.sample_history_2 = context.sample_history_1;
        context.sample_history_1 = second;
        sink.push(second);
        assert(*context == frame_state(start, frame@, (emitted + 2) as nat));

        i += 1;
    }
    assert(sink@ =~= before + frame_samples(start, frame@));
    proof {
        lemma_frame_end_holds_last_samples(start, frame@);
    }
    Ok(())
}

} // verus!
