//! Laws that relate the decoder's functions to each other.

use vstd::prelude::*;
use crate::error::DecodeError;
use crate::frame::{
    frame_end, frame_header, frame_header_valid, frame_samples, frame_state, residual_nibble,
    SAMPLES_PER_FRAME,
};
use crate::header::FRAME_SIZE;
use crate::sample::{lemma_reconstruct_silence, zero_context, Context};
use crate::stream::{
    decoded_samples, decoded_state, first_invalid_frame, frame_at, frame_count, header_valid_at,
    stream_outcome, stream_samples, stream_state, valid_stream,
};

verus! {

/// At most one frame is the first with an invalid header.
pub proof fn lemma_first_invalid_frame_unique(input: Seq<u8>, a: int, b: int)
    requires
        first_invalid_frame(input, a),
        first_invalid_frame(input, b),
    ensures
        a == b,
{
    if a < b {
        assert(header_valid_at(input, a));
    }
    if b < a {
        assert(header_valid_at(input, b));
    }
}

/// Decoding is deterministic: two calls of the stream decoder that start from
/// the same history, input and sink contents give the same result and leave
/// the same history and the same sink contents.
pub proof fn lemma_decoding_is_deterministic(
    start: Context,
    input: Seq<u8>,
    before: Seq<i16>,
    result_1: Result<(), DecodeError>,
    end_1: Context,
    after_1: Seq<i16>,
    result_2: Result<(), DecodeError>,
    end_2: Context,
    after_2: Seq<i16>,
)
    requires
        stream_outcome(start, input, before, result_1, end_1, after_1),
        stream_outcome(start, input, before, result_2, end_2, after_2),
    ensures
        result_1 == result_2,
        end_1 == end_2,
        after_1 == after_2,
{
    if result_1 is Ok || result_2 is Ok {
        assert(valid_stream(input));
        if !(result_1 is Ok) || !(result_2 is Ok) {
            let result = if result_1 is Ok { result_2 } else { result_1 };
            assert(result == Err::<(), DecodeError>(DecodeError::InvalidPredictorIndex));
            let end = if result_1 is Ok { end_2 } else { end_1 };
            let after = if result_1 is Ok { after_2 } else { after_1 };
            let stop = choose|index: int|
                {
                    &&& #[trigger] first_invalid_frame(input, index)
                    &&& after == before + stream_samples(start, input, index as nat)
                    &&& end == stream_state(start, input, index as nat)
                };
            assert(header_valid_at(input, stop));
        }
        assert(result_1->Ok_0 == result_2->Ok_0);
    } else if input.len() % (FRAME_SIZE as nat) == 0 {
        let stop_1 = choose|index: int|
            {
                &&& #[trigger] first_invalid_frame(input, index)
                &&& after_1 == before + stream_samples(start, input, index as nat)
                &&& end_1 == stream_state(start, input, index as nat)
            };
        let stop_2 = choose|index: int|
            {
                &&& #[trigger] first_invalid_frame(input, index)
                &&& after_2 == before + stream_samples(start, input, index as nat)
                &&& end_2 == stream_state(start, input, index as nat)
            };
        lemma_first_invalid_frame_unique(input, stop_1, stop_2);
    }
}

/// Whether every residual byte of a frame is zero.
pub open spec fn residuals_all_zero(frame: Seq<u8>) -> bool {
    forall|offset: int| 1 <= offset < FRAME_SIZE ==> frame[offset] == 0
}

/// Twenty-eight samples of silence.
pub open spec fn silence() -> Seq<i16> {
    Seq::new(SAMPLES_PER_FRAME as nat, |k: int| 0i16)
}

proof fn lemma_silent_state(frame: Seq<u8>, count: nat)
    requires
        frame.len() >= FRAME_SIZE,
        frame_header_valid(frame),
        residuals_all_zero(frame),
        count <= SAMPLES_PER_FRAME,
    ensures
        frame_state(zero_context(), frame, count) == zero_context(),
    decreases count,
{
    if count > 0 {
        lemma_silent_state(frame, (count - 1) as nat);
        let nibble = residual_nibble(frame, count - 1);
        assert(frame[1 + (count - 1) / 2] == 0);
        assert(nibble == 0);
        lemma_reconstruct_silence(frame_header(frame));
    }
}

/// A frame whose residual bytes are all zero decodes, from zero history and
/// whatever valid header it has, to twenty-eight zero samples, and leaves the
/// history at zero.
pub proof fn lemma_silent_frame_decodes_to_silence(frame: Seq<u8>)
    requires
        frame.len() >= FRAME_SIZE,
        frame_header_valid(frame),
        residuals_all_zero(frame),
    ensures
        frame_samples(zero_context(), frame) == silence(),
        frame_end(zero_context(), frame) == zero_context(),
{
    assert forall|k: int| 0 <= k < SAMPLES_PER_FRAME implies #[trigger] frame_samples(
        zero_context(),
        frame,
    )[k] == 0i16 by {
        lemma_silent_state(frame, (k + 1) as nat);
    }
    lemma_silent_state(frame, SAMPLES_PER_FRAME as nat);
    assert(frame_samples(zero_context(), frame) =~= silence());
}

/// A stream of exactly one frame decodes as that frame does.
pub proof fn lemma_single_frame_stream(context: Context, frame: Seq<u8>)
    requires
        frame.len() == FRAME_SIZE,
    ensures
        valid_stream(frame) <==> frame_header_valid(frame),
        decoded_samples(context, frame) == frame_samples(context, frame),
        decoded_state(context, frame) == frame_end(context, frame),
{
    reveal_with_fuel(stream_state, 2);
    reveal_with_fuel(stream_samples, 2);
    assert(frame_at(frame, 0) =~= frame);
    assert(frame_count(frame) == 1);
    assert(header_valid_at(frame, 0) <==> frame_header_valid(frame));
    assert(decoded_samples(context, frame) =~= frame_samples(context, frame));
}

/// A frame that lies within the first of two joined inputs is a frame of the
/// first input.
proof fn lemma_frame_of_first(first: Seq<u8>, second: Seq<u8>, index: int)
    requires
        0 <= index < frame_count(first),
    ensures
        frame_at(first + second, index) == frame_at(first, index),
{
    assert(frame_at(first + second, index) =~= frame_at(first, index));
}

/// Behind a first input of whole frames, the frames of the second input
/// follow at their own offsets.
proof fn lemma_frame_of_second(first: Seq<u8>, second: Seq<u8>, index: int)
    requires
        first.len() % (FRAME_SIZE as nat) == 0,
        0 <= index < frame_count(second),
    ensures
        frame_at(first + second, frame_count(first) + index) == frame_at(second, index),
{
    assert(frame_at(first + second, frame_count(first) + index) =~= frame_at(second, index));
}

/// The frames of the first of two joined inputs decode as they do alone.
proof fn lemma_decode_first(context: Context, first: Seq<u8>, second: Seq<u8>, frames: nat)
    requires
        frames <= frame_count(first),
    ensures
        stream_state(context, first + second, frames) == stream_state(context, first, frames),
        stream_samples(context, first + second, frames) == stream_samples(context, first, frames),
    decreases frames,
{
    if frames > 0 {
        lemma_decode_first(context, first, second, (frames - 1) as nat);
        lemma_frame_of_first(first, second, frames - 1);
    }
}

/// The frames of the second of two joined inputs decode as they do alone,
/// from the history that the first input left.
proof fn lemma_decode_second(context: Context, first: Seq<u8>, second: Seq<u8>, frames: nat)
    requires
        first.len() % (FRAME_SIZE as nat) == 0,
        frames <= frame_count(second),
    ensures
        stream_state(context, first + second, frame_count(first) + frames) == stream_state(
            decoded_state(context, first),
            second,
            frames,
        ),
        stream_samples(context, first + second, frame_count(first) + frames) == decoded_samples(
            context,
            first,
        ) + stream_samples(decoded_state(context, first), second, frames),
    decreases frames,
{
    if frames == 0 {
        lemma_decode_first(context, first, second, frame_count(first));
        assert(stream_samples(context, first + second, frame_count(first)) =~= decoded_samples(
            context,
            first,
        ) + stream_samples(decoded_state(context, first), second, 0));
    } else {
        lemma_decode_second(context, first, second, (frames - 1) as nat);
        lemma_frame_of_second(first, second, frames - 1);
        let middle = decoded_state(context, first);
        let joined = first + second;
        let count = frame_count(first) + frames;
        assert(stream_samples(context, joined, count) =~= decoded_samples(context, first)
            + stream_samples(middle, second, frames));
    }
}

/// Decoding may be cut at any frame boundary: two valid inputs joined are a
/// valid input, and decoding it gives the samples of the first, followed by
/// the samples of the second decoded from the history that the first left,
/// and ends in the history that the second then leaves.
pub proof fn lemma_decoding_concatenation(context: Context, first: Seq<u8>, second: Seq<u8>)
    requires
        valid_stream(first),
        valid_stream(second),
    ensures
        valid_stream(first + second),
        decoded_samples(context, first + second) == decoded_samples(context, first)
            + decoded_samples(decoded_state(context, first), second),
        decoded_state(context, first + second) == decoded_state(
            decoded_state(context, first),
            second,
        ),
{
    let joined = first + second;
    assert(frame_count(joined) == frame_count(first) + frame_count(second));
    assert(joined.len() % (FRAME_SIZE as nat) == 0);
    assert forall|index: int| 0 <= index < frame_count(joined) implies #[trigger] header_valid_at(
        joined,
        index,
    ) by {
        if index < frame_count(first) {
            lemma_frame_of_first(first, second, index);
            assert(header_valid_at(first, index));
        } else {
            lemma_frame_of_second(first, second, index - frame_count(first));
            assert(header_valid_at(second, index - frame_count(first)));
        }
    }
    lemma_decode_second(context, first, second, frame_count(second));
}

} // verus!
