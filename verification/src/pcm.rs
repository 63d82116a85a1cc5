//! Samples as raw PCM: two bytes per sample, low byte first.

use vstd::prelude::*;

verus! {

/// The low eight bits of a sample.
pub open spec fn low_byte(sample: i16) -> u8 {
    (sample as int % 256) as u8
}

/// The high eight bits of a sample.
pub open spec fn high_byte(sample: i16) -> u8 {
    (sample as int / 256 % 256) as u8
}

/// The little-endian bytes of a run of samples: bytes `2k` and `2k + 1` are
/// the low and the high byte of sample `k`.
pub open spec fn le_bytes(samples: Seq<i16>) -> Seq<u8> {
    Seq::new(
        2 * samples.len(),
        |j: int|
            if j % 2 == 0 {
                low_byte(samples[j / 2])
            } else {
                high_byte(samples[j / 2])
            },
    )
}

/// Lays samples out as little-endian bytes, with no framing.
pub fn samples_to_le_bytes(samples: &[i16]) -> (bytes: Vec<u8>)
    ensures
        bytes@ == le_bytes(samples@),
{
    let mut bytes: Vec<u8> = Vec::new();
    let mut k: usize = 0;
    while k < samples.len()
        invariant
            k <= samples@.len(),
            bytes@.len() == 2 * k,
            forall|j: int| 0 <= j < 2 * k ==> bytes@[j] == #[trigger] le_bytes(samples@)[j],
        decreases samples@.len() - k,
    {
        let sample: i16 = samples[k];
        let low: u8 = #[verifier::truncate] ((sample & 0xFF) as u8);
        let high: u8 = #[verifier::truncate] ((sample >> 8) as u8);
        assert(low == low_byte(sample) && high == high_byte(sample)) by (bit_vector)
            requires
                low == (sample & 0xFF) as u8,
                high == (sample >> 8) as u8,
        ;
        bytes.push(low);
        bytes.push(high);
        k += 1;
    }
    assert(bytes@ =~= le_bytes(samples@));
    bytes
}

} // verus!
