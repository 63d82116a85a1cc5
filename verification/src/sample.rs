//! Reconstruction of one sample from a residual nibble, a frame header and
//! the two previous samples.

use vstd::prelude::*;
use vstd::arithmetic::power2::{
    lemma2_to64, lemma_pow2_pos, lemma_pow2_strictly_increases, pow2,
};
use vstd::bits::lemma_u32_shl_is_mul;
use crate::header::{header_well_formed, predictor_row, FrameHeader, HeaderModel};

verus! {

/// The two most recently emitted samples of one stream, newest first.
#[derive(Clone, Copy, Debug, PartialEq, Eq, Structural)]
pub struct Context {
    pub sample_history_1: i16,
    pub sample_history_2: i16,
}

impl Context {
    /// The state of a stream before its first sample: both history samples
    /// are zero.
    pub fn new() -> (context: Context)
        ensures
            context == zero_context(),
    {
        Context { sample_history_1: 0, sample_history_2: 0 }
    }
}

/// The state in which every stream starts.
pub open spec fn zero_context() -> Context {
    Context { sample_history_1: 0, sample_history_2: 0 }
}

/// The state after `sample` has been emitted: it becomes the newest history
/// sample, and the former newest becomes the older one.
pub open spec fn advance(context: Context, sample: i16) -> Context {
    Context { sample_history_1: sample, sample_history_2: context.sample_history_1 }
}

/// A nibble's low four bits read as a two's-complement number in -8..=7.
pub open spec fn signed_nibble(nibble: int) -> int {
    let low = nibble % 16;
    if low < 8 {
        low
    } else {
        low - 16
    }
}

/// The residual's share of the sum: the signed nibble placed in the top four
/// bits of a 32-bit word and shifted down by `shift`, that is, scaled by
/// 2^(28 - shift).
pub open spec fn scaled_residual(nibble: int, shift: int) -> int {
    signed_nibble(nibble) * pow2((28 - shift) as nat)
}

/// The predictor's share of the sum: each tap times its history sample.
pub open spec fn prediction(context: Context, header: HeaderModel) -> int {
    header.coefficient_1 * context.sample_history_1 + header.coefficient_2
        * context.sample_history_2
}

/// The low sixteen bits of `value`, read as a two's-complement number.
pub open spec fn wrap_to_i16(value: int) -> int {
    (value + 32768) % 65536 - 32768
}

/// The sample that a residual nibble stands for: the scaled residual plus
/// the prediction, divided by 256 rounding down, wrapped to sixteen bits.
pub open spec fn reconstruct(context: Context, nibble: int, header: HeaderModel) -> int {
    wrap_to_i16((scaled_residual(nibble, header.shift) + prediction(context, header)) / 256)
}

/// With no residual and no history, every header reconstructs silence.
pub proof fn lemma_reconstruct_silence(header: HeaderModel)
    ensures
        reconstruct(zero_context(), 0, header) == 0,
{
    assert(signed_nibble(0) == 0);
    assert(scaled_residual(0, header.shift) == 0) by (nonlinear_arith)
        requires
            scaled_residual(0, header.shift) == 0 * pow2((28 - header.shift) as nat),
    ;
    assert(prediction(zero_context(), header) == 0) by (nonlinear_arith)
        requires
            prediction(zero_context(), header) == header.coefficient_1 * 0 + header.coefficient_2
                * 0,
    ;
}

/// Shifting a nibble into the sign bits of a 32-bit word and back down by
/// `shift` scales its signed value by 2^(28 - shift).
proof fn lemma_shifted_nibble(nibble: u8, shift: u8)
    requires
        8 <= shift <= 23,
    ensures
        ((nibble as i32) << 28) >> shift == scaled_residual(nibble as int, shift as int),
        -8 * 0x10_0000 <= scaled_residual(nibble as int, shift as int) <= 7 * 0x10_0000,
{
    let up: u32 = (28 - shift) as u32;
    let low: u8 = nibble % 16;
    let signed: int = if low < 8 {
        low as int
    } else {
        low as int - 16
    };
    assert(((nibble as i32) << 28) >> shift == (if nibble % 16 < 8 {
        (nibble % 16) as int
    } else {
        (nibble % 16) as int - 16
    }) * (1u32 << ((28 - shift) as u32))) by (bit_vector)
        requires
            8 <= shift <= 23,
    ;
    assert(1u32 << up == pow2(up as nat)) by {
        lemma2_to64();
        lemma_pow2_strictly_increases(up as nat, 32);
        lemma_u32_shl_is_mul(1u32, up);
    }
    assert(0 < pow2(up as nat) <= 0x10_0000) by {
        lemma2_to64();
        lemma_pow2_pos(up as nat);
        if up < 20 {
            lemma_pow2_strictly_increases(up as nat, 20);
        }
    }
    assert(signed == signed_nibble(nibble as int));
    assert(-8 * 0x10_0000 <= signed * pow2(up as nat) <= 7 * 0x10_0000) by (nonlinear_arith)
        requires
            -8 <= signed <= 7,
            0 < pow2(up as nat) <= 0x10_0000,
    ;
}

/// The products of a table row's taps with two samples stay far inside the
/// 32-bit range.
proof fn lemma_prediction_bounds(context: Context, header: HeaderModel)
    requires
        header_well_formed(header),
    ensures
        -460 * 32768 <= header.coefficient_1 * context.sample_history_1 <= 460 * 32768,
        -220 * 32768 <= header.coefficient_2 * context.sample_history_2 <= 220 * 32768,
{
    let index = choose|index: int| #[trigger]
        predictor_row(index) == Some((header.coefficient_1, header.coefficient_2));
    assert(predictor_row(index) == Some((header.coefficient_1, header.coefficient_2)));
    assert(-460 * 32768 <= header.coefficient_1 * context.sample_history_1 <= 460 * 32768)
        by (nonlinear_arith)
        requires
            0 <= header.coefficient_1 <= 460,
            -32768 <= context.sample_history_1 <= 32767,
    ;
    assert(-220 * 32768 <= header.coefficient_2 * context.sample_history_2 <= 220 * 32768)
        by (nonlinear_arith)
        requires
            -220 <= header.coefficient_2 <= 0,
            -32768 <= context.sample_history_2 <= 32767,
    ;
}

/// Rebuilds the sample that `nibble` stands for, from the frame's header and
/// the two samples before it. Only the low four bits of `nibble` count. The
/// history is left as it is: the caller advances it.
pub fn decode_sample(context: &Context, nibble: u8, header: &FrameHeader) -> (sample: i16)
    ensures
        sample == reconstruct(*context, nibble as int, header@),
{
    let shift: u8 = header.shift();
    let coefficient_1: i16 = header.coefficient_1();
    let coefficient_2: i16 = header.coefficient_2();
    proof {
        lemma_shifted_nibble(nibble, shift);
        lemma_prediction_bounds(*context, header@);
    }
    let sum: i32 = ((nibble as i32) << 28 >> shift)
        + (coefficient_1 as i32 * context.sample_history_1 as i32)
        + (coefficient_2 as i32 * context.sample_history_2 as i32);
    let scaled: i32 = sum >> 8;
    let sample: i16 = #[verifier::truncate] (scaled as i16);
    assert(scaled == sum / 256 && sample == wrap_to_i16(scaled as int)) by (bit_vector)
        requires
            scaled == sum >> 8,
            sample == scaled as i16,
    ;
    sample
}

} // verus!
