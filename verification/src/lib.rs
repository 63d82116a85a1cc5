//! Decoder for EA-XA ADPCM audio: fifteen-byte frames of four-bit residuals
//! become signed sixteen-bit PCM samples.
//!
//! The decoder has three layers. [`sample`] rebuilds one sample from a
//! residual, a frame header and the two previous samples. [`frame`] turns one
//! frame into twenty-eight samples. [`stream`] walks a whole byte stream frame
//! by frame, carrying the history along. [`pcm`] lays samples out as
//! little-endian bytes.

pub mod error;
pub mod frame;
pub mod header;
pub mod laws;
pub mod pcm;
pub mod sample;
pub mod stream;
