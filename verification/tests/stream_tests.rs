use ea_xa_adpcm::error::DecodeError;
use ea_xa_adpcm::frame::decode_frame;
use ea_xa_adpcm::pcm::samples_to_le_bytes;
use ea_xa_adpcm::sample::Context;
use ea_xa_adpcm::stream::decode_stream;

const FIRST: [u8; 15] = [
    0x20, 0x12, 0x34, 0x56, 0x78, 0x9A, 0xBC, 0xDE, 0xF0, 0x0F, 0x1E, 0x2D, 0x3C, 0x4B, 0x5A,
];

const SECOND: [u8; 15] = [
    0x3A, 0x7F, 0x80, 0x11, 0xEE, 0x70, 0x07, 0x88, 0x99, 0x23, 0x45, 0x67, 0x89, 0xAB, 0xCD,
];

const FIRST_SAMPLES: [i16; 28] = [
    4096, 15552, -28631, 17837, 10257, 28513, 6036, 20447, 3164, 30032, 30913, 14761, -10882,
    25797, -14437, 18634, -20323, 9781, -27353, 247, 30860, -22574, 12187, 23855, -16190, -3418,
    27492, 27600,
];

const SECOND_AFTER_FIRST: [i16; 28] = [
    18664, 4856, -8636, -17397, -19214, -14467, -5649, 3774, 10661, 13081, 10868, 5428, -1061,
    -6322, -8797, -8066, -4784, -382, 3542, 5771, 5816, 3974, 1055, -1828, -3730, -4161, -3183,
    -1311,
];

fn decode(input: &[u8]) -> (Result<(), DecodeError>, Vec<i16>, Context) {
    let mut context = Context::new();
    let mut sink: Vec<i16> = Vec::new();
    let result = decode_stream(&mut context, input, &mut sink);
    (result, sink, context)
}

fn joined(parts: &[&[u8]]) -> Vec<u8> {
    let mut all = Vec::new();
    for part in parts {
        all.extend_from_slice(part);
    }
    all
}

#[test]
fn all_zero_frame() {
    let (result, samples, _) = decode(&[0u8; 15]);
    assert_eq!(result, Ok(()));
    assert_eq!(samples, vec![0i16; 28]);
    let bytes = samples_to_le_bytes(&samples);
    assert_eq!(bytes, vec![0u8; 56]);
}

#[test]
fn alternating_nibbles_8_and_0() {
    let mut input = [0x80u8; 15];
    input[0] = 0x00;
    let (result, samples, _) = decode(&input);
    assert_eq!(result, Ok(()));
    assert_eq!(samples.len(), 28);
    for pair in 0..14 {
        assert_eq!(samples[2 * pair], -32768);
        assert_eq!(samples[2 * pair + 1], 0);
    }
    let bytes = samples_to_le_bytes(&samples);
    let mut expected = Vec::new();
    for _ in 0..14 {
        expected.extend_from_slice(&[0x00, 0x80, 0x00, 0x00]);
    }
    assert_eq!(bytes, expected);
}

#[test]
fn invalid_predictor_index_at_frame_0() {
    let mut input = [0u8; 15];
    input[0] = 0x40;
    let (result, samples, context) = decode(&input);
    assert_eq!(result, Err(DecodeError::InvalidPredictorIndex));
    assert!(samples.is_empty());
    assert_eq!(context, Context::new());
}

#[test]
fn truncated_input_of_14_bytes() {
    let (result, samples, context) = decode(&[0u8; 14]);
    assert_eq!(result, Err(DecodeError::TruncatedInput));
    assert!(samples.is_empty());
    assert_eq!(context, Context::new());
}

#[test]
fn state_carries_across_frames() {
    let mut frame = [0x10u8; 15];
    frame[0] = 0x10;
    let input = joined(&[&frame, &frame]);
    let (result, samples, context) = decode(&input);
    assert_eq!(result, Ok(()));
    let expected: [i16; 56] = [
        4096, 3840, 7696, 7215, 10860, 10181, 13640, 12787, 16083, 15077, 18230, 17090, 20117,
        18859, 21776, 20415, 23235, 21782, 24516, 22983, 25642, 24039, 26632, 24967, 27502, 25783,
        28267, 26500, 28939, 27130, 29530, 27684, 30049, 28170, 30505, 28598, 30906, 28974, 31259,
        29305, 31569, 29595, 31841, 29850, 32080, 30075, 32291, 30272, 32476, 30446, 32639, 30599,
        -32754, -30707, -24692, -23149,
    ];
    assert_eq!(samples, expected.to_vec());
    // The first sample of the second frame is built on the last of the first:
    // ((1 << 28 >> 8) + 240 * 26500) >> 8 = 28939.
    let carried = samples[27] as i32;
    assert_eq!(carried, 26500);
    assert_eq!(samples[28] as i32, ((1 << 20) + 240 * carried) >> 8);
    assert_ne!(samples[28], samples[0]);
    assert_eq!(context, Context { sample_history_1: -23149, sample_history_2: -24692 });
}

#[test]
fn sign_extension_of_residual_f0() {
    let mut input = [0u8; 15];
    input[1] = 0xF0;
    let (result, samples, _) = decode(&input);
    assert_eq!(result, Ok(()));
    assert_eq!(samples[0], -4096);
    assert_eq!(samples[1], 0);
    let bytes = samples_to_le_bytes(&samples);
    assert_eq!(&bytes[..4], &[0x00, 0xF0, 0x00, 0x00]);
}

#[test]
fn empty_input_gives_no_output() {
    let (result, samples, context) = decode(&[]);
    assert_eq!(result, Ok(()));
    assert!(samples.is_empty());
    assert!(samples_to_le_bytes(&samples).is_empty());
    assert_eq!(context, Context::new());
}

#[test]
fn sample_count_is_28_per_frame() {
    for frames in 0usize..6 {
        let mut input = Vec::new();
        for index in 0..frames {
            input.extend_from_slice(if index % 2 == 0 { &FIRST } else { &SECOND });
        }
        let (result, samples, _) = decode(&input);
        assert_eq!(result, Ok(()));
        assert_eq!(samples.len(), (input.len() / 15) * 28);
        assert_eq!(samples_to_le_bytes(&samples).len(), frames * 56);
    }
}

#[test]
fn length_not_a_multiple_of_15_is_truncated() {
    for length in [1usize, 2, 7, 14, 16, 29, 31, 44, 46] {
        let mut context = Context { sample_history_1: 3, sample_history_2: 4 };
        let mut sink: Vec<i16> = vec![5];
        let input = vec![0u8; length];
        assert_eq!(
            decode_stream(&mut context, &input, &mut sink),
            Err(DecodeError::TruncatedInput)
        );
        assert_eq!(sink, vec![5]);
        assert_eq!(context, Context { sample_history_1: 3, sample_history_2: 4 });
    }
}

#[test]
fn truncation_is_found_before_any_frame_is_decoded() {
    let mut input = joined(&[&FIRST, &SECOND]);
    input.push(0x00);
    let (result, samples, context) = decode(&input);
    assert_eq!(result, Err(DecodeError::TruncatedInput));
    assert!(samples.is_empty());
    assert_eq!(context, Context::new());

    let mut invalid_and_short = vec![0x40u8; 15];
    invalid_and_short.extend_from_slice(&[0u8; 3]);
    let (result, samples, _) = decode(&invalid_and_short);
    assert_eq!(result, Err(DecodeError::TruncatedInput));
    assert!(samples.is_empty());
}

#[test]
fn output_before_an_invalid_frame_stays_in_the_sink() {
    let mut bad = SECOND;
    bad[0] = 0x9A;
    let input = joined(&[&FIRST, &bad, &FIRST]);
    let (result, samples, context) = decode(&input);
    assert_eq!(result, Err(DecodeError::InvalidPredictorIndex));
    assert_eq!(samples, FIRST_SAMPLES.to_vec());
    assert_eq!(context, Context { sample_history_1: 27600, sample_history_2: 27492 });
}

#[test]
fn decoding_stops_at_the_first_invalid_frame() {
    let mut bad = SECOND;
    bad[0] = 0x40;
    let mut worse = FIRST;
    worse[0] = 0xFF;
    let input = joined(&[&FIRST, &SECOND, &bad, &worse]);
    let (result, samples, context) = decode(&input);
    assert_eq!(result, Err(DecodeError::InvalidPredictorIndex));
    assert_eq!(samples.len(), 56);
    assert_eq!(&samples[..28], &FIRST_SAMPLES);
    assert_eq!(&samples[28..], &SECOND_AFTER_FIRST);
    assert_eq!(context, Context { sample_history_1: -1311, sample_history_2: -3183 });
}

#[test]
fn two_frames_in_stream_order() {
    let input = joined(&[&FIRST, &SECOND]);
    let (result, samples, context) = decode(&input);
    assert_eq!(result, Ok(()));
    assert_eq!(&samples[..28], &FIRST_SAMPLES);
    assert_eq!(&samples[28..], &SECOND_AFTER_FIRST);
    assert_eq!(context.sample_history_1, samples[55]);
    assert_eq!(context.sample_history_2, samples[54]);
}

#[test]
fn decoding_is_deterministic() {
    let input = joined(&[&FIRST, &SECOND, &FIRST, &SECOND]);
    let first_run = decode(&input);
    let second_run = decode(&input);
    assert_eq!(first_run, second_run);
    assert_eq!(samples_to_le_bytes(&first_run.1), samples_to_le_bytes(&second_run.1));

    let mut bad = input.clone();
    bad[30] = 0x70;
    assert_eq!(decode(&bad), decode(&bad));
}

#[test]
fn decoding_a_concatenation_equals_decoding_in_two_steps() {
    let head = joined(&[&FIRST, &SECOND]);
    let tail = joined(&[&SECOND, &FIRST, &FIRST]);
    let (result, whole, whole_end) = decode(&joined(&[&head, &tail]));
    assert_eq!(result, Ok(()));

    let mut context = Context::new();
    let mut sink: Vec<i16> = Vec::new();
    assert_eq!(decode_stream(&mut context, &head, &mut sink), Ok(()));
    assert_eq!(sink.len(), 56);
    assert_eq!(decode_stream(&mut context, &tail, &mut sink), Ok(()));
    assert_eq!(sink, whole);
    assert_eq!(context, whole_end);
}

#[test]
fn stream_of_one_frame_equals_frame_decode() {
    for frame in [FIRST, SECOND] {
        let (result, samples, end) = decode(&frame);
        assert_eq!(result, Ok(()));
        let mut context = Context::new();
        let mut sink: Vec<i16> = Vec::new();
        assert_eq!(decode_frame(&mut context, &frame, &mut sink), Ok(()));
        assert_eq!(sink, samples);
        assert_eq!(context, end);
    }
}

#[test]
fn stream_appends_behind_what_the_sink_holds() {
    let mut context = Context::new();
    let mut sink: Vec<i16> = vec![42, -42];
    assert_eq!(decode_stream(&mut context, &FIRST, &mut sink), Ok(()));
    assert_eq!(&sink[..2], &[42, -42]);
    assert_eq!(&sink[2..], &FIRST_SAMPLES);
}

#[test]
fn little_endian_bytes_of_samples() {
    let samples: [i16; 8] = [0, 1, -1, 32767, -32768, -4096, 0x1234, -2];
    let expected: [u8; 16] = [
        0x00, 0x00, 0x01, 0x00, 0xFF, 0xFF, 0xFF, 0x7F, 0x00, 0x80, 0x00, 0xF0, 0x34, 0x12, 0xFE,
        0xFF,
    ];
    assert_eq!(samples_to_le_bytes(&samples), expected.to_vec());
}

#[test]
fn little_endian_bytes_match_std_for_every_sample() {
    let mut samples = Vec::new();
    let mut expected = Vec::new();
    for value in i16::MIN..=i16::MAX {
        samples.push(value);
        expected.extend_from_slice(&value.to_le_bytes());
    }
    assert_eq!(samples_to_le_bytes(&samples), expected);
}
