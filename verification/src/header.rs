//! The one-byte frame header: a predictor chosen from a fixed table, and a
//! scale for the residuals.

use vstd::prelude::*;
use crate::error::DecodeError;

verus! {

/// Bytes in one frame: the header byte and fourteen bytes of residuals.
pub const FRAME_SIZE: usize = 15;

/// The predictor taps, one row per table index.
pub const PREDICTOR_TABLE: [[i16; 2]; 4] = [[0, 0], [240, 0], [460, -208], [392, -220]];

/// What a frame header says, as plain numbers.
pub struct HeaderModel {
    pub coefficient_1: int,
    pub coefficient_2: int,
    pub shift: int,
}

/// The row of taps that a table index selects; only indices 0 to 3 have one.
pub open spec fn predictor_row(index: int) -> Option<(int, int)> {
    if index == 0 {
        Some((0int, 0int))
    } else if index == 1 {
        Some((240int, 0int))
    } else if index == 2 {
        Some((460int, -208int))
    } else if index == 3 {
        Some((392int, -220int))
    } else {
        None
    }
}

/// The header that a header byte stands for: the high half selects the
/// predictor row, the low half plus eight is the shift. A byte whose high
/// half is above 3 stands for no header.
pub open spec fn parse_header(byte: u8) -> Option<HeaderModel> {
    match predictor_row(byte as int / 16) {
        Some(row) => Some(
            HeaderModel { coefficient_1: row.0, coefficient_2: row.1, shift: byte as int % 16 + 8 },
        ),
        None => None,
    }
}

/// A header is well formed when its taps are a row of the table and its
/// shift lies in 8..=23.
pub open spec fn header_well_formed(header: HeaderModel) -> bool {
    &&& exists|index: int| #[trigger]
        predictor_row(index) == Some((header.coefficient_1, header.coefficient_2))
    &&& 8 <= header.shift <= 23
}

/// A parsed frame header. Every value of this type is well formed.
#[derive(Clone, Copy, Debug)]
pub struct FrameHeader {
    pub(crate) coefficient_1: i16,
    pub(crate) coefficient_2: i16,
    pub(crate) shift: u8,
}

impl View for FrameHeader {
    type V = HeaderModel;

    closed spec fn view(&self) -> HeaderModel {
        HeaderModel {
            coefficient_1: self.coefficient_1 as int,
            coefficient_2: self.coefficient_2 as int,
            shift: self.shift as int,
        }
    }
}

impl FrameHeader {
    #[verifier::type_invariant]
    closed spec fn well_formed(&self) -> bool {
        header_well_formed(self@)
    }

    /// The tap applied to the most recent sample.
    pub fn coefficient_1(&self) -> (tap: i16)
        ensures
            tap == self@.coefficient_1,
            header_well_formed(self@),
    {
        proof {
            use_type_invariant(self);
        }
        self.coefficient_1
    }

    /// The tap applied to the sample before the most recent one.
    pub fn coefficient_2(&self) -> (tap: i16)
        ensures
            tap == self@.coefficient_2,
            header_well_formed(self@),
    {
        proof {
            use_type_invariant(self);
        }
        self.coefficient_2
    }

    /// The scale of the residuals, in 8..=23.
    pub fn shift(&self) -> (shift: u8)
        ensures
            shift == self@.shift,
            header_well_formed(self@),
    {
        proof {
            use_type_invariant(self);
        }
        self.shift
    }
}

/// Parses the header of a frame from its first byte.
///
/// A frame shorter than [`FRAME_SIZE`] is rejected as truncated; otherwise a
/// header byte whose high half is above 3 is rejected as naming no predictor.
pub fn decode_frame_header(frame: &[u8]) -> (result: Result<FrameHeader, DecodeError>)
    ensures
        result is Ok <==> frame@.len() >= FRAME_SIZE && parse_header(frame@[0]) is Some,
        result == Err::<FrameHeader, DecodeError>(DecodeError::TruncatedInput) <==> frame@.len()
            < FRAME_SIZE,
        result == Err::<FrameHeader, DecodeError>(DecodeError::InvalidPredictorIndex)
            <==> frame@.len() >= FRAME_SIZE && parse_header(frame@[0]) is None,
        result matches Ok(header) ==> Some(header@) == parse_header(frame@[0])
            && header_well_formed(header@),
{
    if frame.len() < FRAME_SIZE {
        return Err(DecodeError::TruncatedInput);
    }
    let header_byte: u8 = frame[0];
    let index: u8 = header_byte >> 4;
    let low: u8 = header_byte & 0x0F;
    assert(index == header_byte / 16 && low == header_byte % 16) by (bit_vector)
        requires
            index == header_byte >> 4,
            low == header_byte & 0x0F,
    ;
    if index > 3 {
        return Err(DecodeError::InvalidPredictorIndex);
    }
    let coefficients = PREDICTOR_TABLE[index as usize];
    let header = FrameHeader {
        coefficient_1: coefficients[0],
        coefficient_2: coefficients[1],
        shift: low + 8,
    };
    Ok(header)
}

} // verus!
