//! Why a decode call gave up.

use vstd::prelude::*;

verus! {

/// The ways in which input is rejected.
#[derive(Clone, Copy, Debug, PartialEq, Eq, Structural)]
pub enum DecodeError {
    /// The input does not consist of whole fifteen-byte frames.
    TruncatedInput,
    /// A frame header names a predictor outside the four-row table.
    InvalidPredictorIndex,
}

} // verus!
