//! Decoding of a whole byte stream: consecutive frames, with the history
//! carried from each frame into the next.

use vstd::prelude::*;
use vstd::slice::slice_subrange;
use crate::error::DecodeError;
use crate::frame::{decode_frame, frame_end, frame_header_valid, frame_samples, SAMPLES_PER_FRAME};
use crate::header::FRAME_SIZE;
use crate::sample::Context;

verus! {

/// The number of whole frames in the input.
pub open spec fn frame_count(input: Seq<u8>) -> nat {
    input.len() / (FRAME_SIZE as nat)
}

/// The `index`-th frame of the input: fifteen bytes from offset `15 * index`.
pub open spec fn frame_at(input: Seq<u8>, index: int) -> Seq<u8> {
    input.subrange(index * FRAME_SIZE, index * FRAME_SIZE + FRAME_SIZE)
}

/// The history after the first `frames` frames of the input have been
/// decoded, starting from `context`.
pub open spec fn stream_state(context: Context, input: Seq<u8>, frames: nat) -> Context
    decreases frames,
{
    if frames == 0 {
        context
    } else {
        frame_end(stream_state(context, input, (frames - 1) as nat), frame_at(input, frames - 1))
    }
}

/// The samples of the first `frames` frames of the input, in stream order.
/// Each frame is decoded from the history that the frames before it left.
pub open spec fn stream_samples(context: Context, input: Seq<u8>, frames: nat) -> Seq<i16>
    decreases frames,
{
    if frames == 0 {
        Seq::empty()
    } else {
        stream_samples(context, input, (frames - 1) as nat) + frame_samples(
            stream_state(context, input, (frames - 1) as nat),
            frame_at(input, frames - 1),
        )
    }
}

/// Whether the `index`-th frame's header names a predictor of the table.
pub open spec fn header_valid_at(input: Seq<u8>, index: int) -> bool {
    frame_header_valid(frame_at(input, index))
}

/// Whether each of the first `frames` frames has a valid header.
pub open spec fn headers_valid(input: Seq<u8>, frames: int) -> bool {
    forall|index: int| 0 <= index < frames ==> #[trigger] header_valid_at(input, index)
}

/// A valid stream consists of whole frames, each with a valid header.
pub open spec fn valid_stream(input: Seq<u8>) -> bool {
    &&& input.len() % (FRAME_SIZE as nat) == 0
    &&& headers_valid(input, frame_count(input) as int)
}

/// Whether `index` is the first frame of the input with an invalid header.
pub open spec fn first_invalid_frame(input: Seq<u8>, index: int) -> bool {
    &&& 0 <= index < frame_count(input)
    &&& headers_valid(input, index)
    &&& !header_valid_at(input, index)
}

/// All the samples of a valid stream.
pub open spec fn decoded_samples(context: Context, input: Seq<u8>) -> Seq<i16> {
    stream_samples(context, input, frame_count(input))
}

/// The history that a valid stream leaves behind.
pub open spec fn decoded_state(context: Context, input: Seq<u8>) -> Context {
    stream_state(context, input, frame_count(input))
}

/// What one call of [`decode_stream`] does: the result it gives, and the
/// history `end` and sink contents `after` that it leaves, for the history
/// `start`, the input and the sink contents `before` that it was given.
pub open spec fn stream_outcome(
    start: Context,
    input: Seq<u8>,
    before: Seq<i16>,
    result: Result<(), DecodeError>,
    end: Context,
    after: Seq<i16>,
) -> bool {
    match result {
        Ok(_) => {
            &&& valid_stream(input)
            &&& after == before + decoded_samples(start, input)
            &&& end == decoded_state(start, input)
        },
        Err(DecodeError::TruncatedInput) => {
            &&& input.len() % (FRAME_SIZE as nat) != 0
            &&& after == before
            &&& end == start
        },
        Err(DecodeError::InvalidPredictorIndex) => {
            &&& input.len() % (FRAME_SIZE as nat) == 0
            &&& exists|index: int|
                {
                    &&& #[trigger] first_invalid_frame(input, index)
                    &&& after == before + stream_samples(start, input, index as nat)
                    &&& end == stream_state(start, input, index as nat)
                }
        },
    }
}

/// Each frame contributes twenty-eight samples.
pub proof fn lemma_stream_samples_len(context: Context, input: Seq<u8>, frames: nat)
    ensures
        stream_samples(context, input, frames).len() == frames * SAMPLES_PER_FRAME,
    decreases frames,
{
    if frames > 0 {
        lemma_stream_samples_len(context, input, (frames - 1) as nat);
    }
}

/// Decodes a stream of frames: appends the samples of every frame to `sink`,
/// in stream order, and carries the history in `context` across the frames.
///
/// An input whose length is not a multiple of [`FRAME_SIZE`] is rejected as
/// truncated before anything is decoded. Otherwise decoding stops at the
/// first frame whose header names no predictor: the samples of the frames
/// before it stay in `sink`, and `context` holds the history they left.
pub fn decode_stream(context: &mut Context, input: &[u8], sink: &mut Vec<i16>) -> (result: Result<
    (),
    DecodeError,
>)
    ensures
        stream_outcome(*old(context), input@, old(sink)@, result, *final(context), final(sink)@),
        result is Ok <==> valid_stream(input@),
        result == Err::<(), DecodeError>(DecodeError::TruncatedInput) <==> input@.len() % (
        FRAME_SIZE as nat) != 0,
        result is Ok ==> final(sink)@.len() == old(sink)@.len() + (input@.len() / (
        FRAME_SIZE as nat)) * SAMPLES_PER_FRAME,
        result is Ok && input@.len() > 0 ==> final(context).sample_history_1 == final(sink)@[
            final(sink)@.len() - 1] && final(context).sample_history_2 == final(sink)@[
            final(sink)@.len() - 2],
{
    if input.len() % FRAME_SIZE != 0 {
        return Err(DecodeError::TruncatedInput);
    }
    let frames: usize = input.len() / FRAME_SIZE;
    let ghost start = *context;
    let ghost before = sink@;
    let mut index: usize = 0;
    while index < frames
        invariant
            start == *old(context),
            before == old(sink)@,
            index <= frames,
            frames == frame_count(input@),
            input@.len() == frames * 15,
            input@.len() <= usize::MAX,
            input@.len() % (FRAME_SIZE as nat) == 0,
            headers_valid(input@, index as int),
            *context == stream_state(start, input@, index as nat),
            sink@ == before + stream_samples(start, input@, index as nat),
            index > 0 ==> sink@.len() >= 2 && context.sample_history_1 == sink@[sink@.len() - 1]
                && context.sample_history_2 == sink@[sink@.len() - 2],
        decreases frames - index,
    {
        assert(FRAME_SIZE == 15);
        let offset: usize = index * FRAME_SIZE;
        let frame = slice_subrange(input, offset, offset + FRAME_SIZE);
        assert(frame@ == frame_at(input@, index as int));
        let ghost emitted = sink@;
        match decode_frame(context, frame, sink) {
            Ok(_) => {
                assert(header_valid_at(input@, index as int));
                assert(sink@ == before + stream_samples(start, input@, (index + 1) as nat)) by {
                    assert(sink@ == emitted + frame_samples(
                        stream_state(start, input@, index as nat),
                        frame_at(input@, index as int),
                    ));
                    assert(sink@ =~= before + stream_samples(start, input@, (index + 1) as nat));
                }
            },
            Err(error) => {
                assert(first_invalid_frame(input@, index as int));
                return Err(error);
            },
        }
        index += 1;
    }
    proof {
        lemma_stream_samples_len(start, input@, frames as nat);
    }
    Ok(())
}

} // verus!
