use skywatch::mode_s::constants::HIT_THRESHOLD;
use skywatch::mode_s::format::{get_callsign, AdsBData};
use skywatch::mode_s::{
    proccess_samples, ADS_B_LENGTH, CA_LENGTH, DF_LENGTH, FRAME_STRIDE, ICAO_LENGTH,
    MESSAGE_LENGTH, PREAMBLE_LENGTH, PREAMBLE_PATTERN,
};

/// The sample levels of non-negative magnitudes.
fn levels(samples: Vec<f32>) -> Vec<u32> {
    samples.iter().map(|s| s.to_bits()).collect()
}

fn proccess(samples: Vec<f32>) -> Vec<AdsBData> {
    match proccess_samples(levels(samples)) {
        Ok(hits) => hits,
        Err(_) => panic!("frame detection never fails"),
    }
}

// Encode bits as pulse position samples (1 = [high, low], 0 = [low, low]).
fn to_samples_with(bits: &[u8], high: f32, low: f32) -> Vec<f32> {
    bits.iter()
        .flat_map(|&b| if b == 1 { vec![high, low] } else { vec![low, low] })
        .collect()
}

fn to_samples(bits: &[u8]) -> Vec<f32> {
    to_samples_with(bits, 1.0, 0.0)
}

fn preamble_with(high: f32, low: f32) -> Vec<f32> {
    PREAMBLE_PATTERN
        .iter()
        .map(|&p| if p { high } else { low })
        .collect()
}

#[test]
fn df_extracts_correctly() {
    let mut samples: Vec<f32> = Vec::new();
    // Populate pre-amble
    for sample in PREAMBLE_PATTERN {
        if sample {
            samples.push(1.0);
        } else {
            samples.push(0.0);
        }
    }
    // Populate DF
    samples.push(1.0); // 1
    samples.push(0.0);
    samples.push(0.0); // 0
    samples.push(0.0);
    samples.push(0.0); // 0
    samples.push(0.0);
    samples.push(0.0); // 0
    samples.push(0.0);
    samples.push(1.0); // 1
    samples.push(0.0);
    samples.push(0.0); // 0
    samples.push(0.0);
    samples.push(0.0); // 0
    samples.push(0.0);
    samples.push(1.0); // 1
    samples.push(0.0);
    // fill everything else with 0s
    for _ in 0..ADS_B_LENGTH - samples.iter().len() {
        samples.push(0.0);
    }
    assert_eq!(samples.iter().len(), ADS_B_LENGTH);
    let ads_b_results: Vec<AdsBData> = proccess(samples);

    assert_eq!(ads_b_results[0].downlink_format, 17);
}

#[test]
fn ca_extracts_correctly() {
    let mut samples: Vec<f32> = Vec::new();
    // Populate pre-amble
    for sample in PREAMBLE_PATTERN {
        if sample {
            samples.push(1.0);
        } else {
            samples.push(0.0);
        }
    }
    // fill everything else with 0s
    for _ in 0..ADS_B_LENGTH - samples.iter().len() {
        samples.push(0.0);
    }
    let ca_start = PREAMBLE_LENGTH + DF_LENGTH;
    let ca_end = ca_start + CA_LENGTH;
    for i in ca_start..ca_end {
        if i % 2 == 0 {
            samples[i] = 1.0;
        } else {
            samples[i] = 0.0;
        }
    }
    assert_eq!(samples.iter().len(), ADS_B_LENGTH);
    let ads_b_results: Vec<AdsBData> = proccess(samples);

    assert_eq!(ads_b_results[0].transponder_capability, 7);
}

#[test]
fn message_extracts_correctly() {
    let mut samples: Vec<f32> = Vec::new();
    // Populate pre-amble
    for sample in PREAMBLE_PATTERN {
        if sample {
            samples.push(1.0);
        } else {
            samples.push(0.0);
        }
    }
    // fill everything else with 0s
    for _ in 0..ADS_B_LENGTH - samples.iter().len() {
        samples.push(0.0);
    }
    let message_start = PREAMBLE_LENGTH + DF_LENGTH + CA_LENGTH + ICAO_LENGTH;
    let message_end = message_start + MESSAGE_LENGTH;
    for i in message_start..message_end {
        if i % 2 == 0 {
            samples[i] = 1.0;
        } else {
            samples[i] = 0.0;
        }
    }
    assert_eq!(message_end - message_start, MESSAGE_LENGTH);
    assert_eq!(samples.iter().len(), ADS_B_LENGTH);
    let ads_b_results: Vec<AdsBData> = proccess(samples);
    for ads_b_hit in ads_b_results {
        for (i, message_bit) in ads_b_hit.message.iter().enumerate() {
            assert_eq!(
                *message_bit,
                1,
                "Failed at index {}, bit {}",
                i,
                message_start + i
            );
        }
    }
}

#[test]
fn test_process_samples_known_frame() {
    // 8D4840D6202CC371C32CE0576098
    // DF=17 (10001), CA=5 (101), ICAO=4840D6, ME=202CC371C32CE0, PI=576098
    let df_bits = [1, 0, 0, 0, 1];
    let ca_bits = [1, 0, 1];
    let icao_bits = [
        0, 1, 0, 0, 1, 0, 0, 0, 0, 1, 0, 0, 0, 0, 0, 0, 1, 1, 0, 1, 0, 1, 1, 0,
    ];
    let me_bits = [
        0, 0, 1, 0, 0, // TC=4
        0, 0, 0, // CA=0
        0, 0, 1, 0, 1, 1, // K
        0, 0, 1, 1, 0, 0, // L
        0, 0, 1, 1, 0, 1, // M
        1, 1, 0, 0, 0, 1, // 1
        1, 1, 0, 0, 0, 0, // 0
        1, 1, 0, 0, 1, 0, // 2
        1, 1, 0, 0, 1, 1, // 3
        1, 0, 0, 0, 0, 0, // space
    ];
    let pi_bits = [
        0, 1, 0, 1, 0, 1, 1, 1, 0, 1, 1, 0, 0, 0, 0, 0, 1, 0, 0, 1, 1, 0, 0, 0,
    ];

    let preamble: Vec<f32> = vec![
        1.0, 0.0, 1.0, 0.0, 0.0, 0.0, 0.0, 1.0, 0.0, 1.0, 0.0, 0.0, 0.0, 0.0, 0.0, 0.0,
    ];

    let mut samples: Vec<f32> = Vec::new();
    samples.extend_from_slice(&preamble);
    samples.extend(to_samples(&df_bits));
    samples.extend(to_samples(&ca_bits));
    samples.extend(to_samples(&icao_bits));
    samples.extend(to_samples(&me_bits));
    samples.extend(to_samples(&pi_bits));

    let results = proccess(samples);
    assert_eq!(results.len(), 1, "should detect exactly one frame");

    let frame = &results[0];
    assert_eq!(frame.downlink_format, 17);
    assert_eq!(frame.transponder_capability, 5);

    // Verify ME bits directly
    let expected_me: [u8; 56] = [
        0, 0, 1, 0, 0, 0, 0, 0, 0, 0, 1, 0, 1, 1, 0, 0, 1, 1, 0, 0, 0, 0, 1, 1, 0, 1, 1, 1, 0,
        0, 0, 1, 1, 1, 0, 0, 0, 0, 1, 1, 0, 0, 1, 0, 1, 1, 0, 0, 1, 1, 1, 0, 0, 0, 0, 0,
    ];
    assert_eq!(frame.message, expected_me);
}

#[test]
fn test_process_samples_skw3780() {
    // Raw frame: 8da32fd5234cb5f3df8c20f5d4af
    // ME: 234cb5f3df8c20
    // Expected callsign: SKW3780
    let df_bits = [1, 0, 0, 0, 1];
    let ca_bits = [1, 0, 1];
    let icao_bits = [
        1, 0, 1, 0, 0, 0, 1, 1, 0, 0, 1, 0, 1, 1, 1, 1, 1, 1, 0, 1, 0, 1, 0, 1,
    ];
    let me_bits: [u8; 56] = [
        0, 0, 1, 0, 0, // TC=4
        0, 1, 1, // CA=3
        0, 1, 0, 0, 1, 1, // 19 = S
        0, 0, 1, 0, 1, 1, // 11 = K
        0, 1, 0, 1, 1, 1, // 23 = W
        1, 1, 0, 0, 1, 1, // 51 = 3
        1, 1, 0, 1, 1, 1, // 55 = 7
        1, 1, 1, 0, 0, 0, // 56 = 8
        1, 1, 0, 0, 0, 0, // 48 = 0
        1, 0, 0, 0, 0, 0, // 32 = space
    ];
    let pi_bits = [
        1, 1, 1, 1, 0, 1, 0, 1, 1, 1, 0, 1, 0, 1, 0, 0, 1, 0, 1, 0, 1, 1, 1, 1,
    ];

    let preamble: Vec<f32> = vec![
        1.0, 0.0, 1.0, 0.0, 0.0, 0.0, 0.0, 1.0, 0.0, 1.0, 0.0, 0.0, 0.0, 0.0, 0.0, 0.0,
    ];

    let mut samples: Vec<f32> = Vec::new();
    samples.extend_from_slice(&preamble);
    samples.extend(to_samples(&df_bits));
    samples.extend(to_samples(&ca_bits));
    samples.extend(to_samples(&icao_bits));
    samples.extend(to_samples(&me_bits));
    samples.extend(to_samples(&pi_bits));

    let results = proccess(samples);
    assert_eq!(results.len(), 1);

    let frame = &results[0];
    assert_eq!(frame.downlink_format, 17);
    assert_eq!(frame.transponder_capability, 5);
    assert_eq!(frame.message, me_bits);

    let callsign = get_callsign(frame);
    assert_eq!(callsign, "SKW3780 ");
}

fn frame_bits(df: u8, ca: u8, message: &[u8; 56]) -> Vec<u8> {
    let mut bits = Vec::new();
    for b in 0..5 {
        bits.push((df >> (4 - b)) & 1);
    }
    for b in 0..3 {
        bits.push((ca >> (2 - b)) & 1);
    }
    for b in 0..24 {
        bits.push((b % 3 == 0) as u8);
    }
    bits.extend_from_slice(message);
    for b in 0..24 {
        bits.push((b % 2) as u8);
    }
    bits
}

#[test]
fn transmitted_frame_is_read_back_at_other_levels() {
    let mut message = [0u8; 56];
    for (k, bit) in message.iter_mut().enumerate() {
        *bit = ((k * 7 + 3) % 5 < 2) as u8;
    }
    let bits = frame_bits(11, 6, &message);
    let (high, low) = (0.9f32, 0.25f32);
    assert!(high.to_bits() > HIT_THRESHOLD && low.to_bits() <= HIT_THRESHOLD);
    let mut samples = preamble_with(high, low);
    samples.extend(to_samples_with(&bits, high, low));
    assert_eq!(samples.len(), FRAME_STRIDE);
    let results = proccess(samples);
    assert_eq!(results.len(), 1);
    assert_eq!(results[0].downlink_format, 11);
    assert_eq!(results[0].transponder_capability, 6);
    assert_eq!(results[0].message, message);
}

#[test]
fn too_few_samples_hold_no_frame() {
    assert!(proccess(Vec::new()).is_empty());
    let mut samples = preamble_with(1.0, 0.0);
    samples.resize(ADS_B_LENGTH - 1, 0.0);
    assert!(proccess(samples).is_empty());
    let mut samples = preamble_with(1.0, 0.0);
    samples.resize(ADS_B_LENGTH, 0.0);
    assert_eq!(proccess(samples).len(), 1);
}

#[test]
fn silence_and_noise_hold_no_frame() {
    assert!(proccess(vec![0.0; 1000]).is_empty());
    assert!(proccess(vec![1.0; 1000]).is_empty());
    // a preamble with one pulse missing
    let mut samples = preamble_with(1.0, 0.0);
    samples[7] = 0.0;
    samples.resize(FRAME_STRIDE, 0.0);
    assert!(proccess(samples).is_empty());
}

#[test]
fn frames_after_a_gap_and_back_to_back_are_all_found() {
    let message = [1u8; 56];
    let bits = frame_bits(17, 5, &message);
    let mut frame = preamble_with(1.0, 0.0);
    frame.extend(to_samples(&bits));
    let mut samples = vec![0.0; 37];
    samples.extend(frame.iter().copied());
    samples.extend(frame.iter().copied());
    samples.extend(vec![0.0; 5]);
    samples.extend(frame.iter().copied());
    let results = proccess(samples);
    assert_eq!(results.len(), 3);
    for hit in results {
        assert_eq!(hit.downlink_format, 17);
        assert_eq!(hit.transponder_capability, 5);
        assert_eq!(hit.message, message);
    }
}

#[test]
fn a_preamble_inside_a_frame_is_passed_over() {
    // A second preamble 100 samples after the first lies inside the first frame: the
    // search goes on after the whole first frame and does not find it.
    let mut samples = preamble_with(1.0, 0.0);
    samples.resize(100, 0.0);
    samples.extend(preamble_with(1.0, 0.0));
    samples.resize(100 + FRAME_STRIDE, 0.0);
    let results = proccess(samples.clone());
    assert_eq!(results.len(), 1);
    // Without the first preamble the second one is found.
    for s in samples.iter_mut().take(PREAMBLE_LENGTH) {
        *s = 0.0;
    }
    let results = proccess(samples);
    assert_eq!(results.len(), 1);
    assert_eq!(results[0].downlink_format, 0);
}

#[test]
fn not_a_number_samples_are_never_high_nor_greater() {
    // Preamble pulses written as not-a-numbers hold no preamble.
    let samples: Vec<f32> = preamble_with(f32::NAN, 0.0)
        .into_iter()
        .chain(std::iter::repeat(0.0).take(FRAME_STRIDE - PREAMBLE_LENGTH))
        .collect();
    assert!(proccess(samples).is_empty());
    // A not-a-number as the first sample of a bit, or as the second, reads as 0.
    let mut samples = preamble_with(1.0, 0.0);
    samples.resize(FRAME_STRIDE, 0.0);
    let message_start = PREAMBLE_LENGTH + DF_LENGTH + CA_LENGTH + ICAO_LENGTH;
    samples[message_start] = f32::NAN;
    samples[message_start + 2] = 1.0;
    samples[message_start + 3] = f32::NAN;
    samples[message_start + 4] = 1.0;
    samples[message_start + 5] = 0.5;
    let results = proccess(samples);
    assert_eq!(results.len(), 1);
    assert_eq!(results[0].message[0], 0);
    assert_eq!(results[0].message[1], 0);
    assert_eq!(results[0].message[2], 1);
}

#[test]
fn samples_compare_as_the_values_they_encode() {
    // Negative values and both zeros are low; -0.0 and 0.0 are equal.
    let samples: Vec<f32> = preamble_with(-1.0, 0.0)
        .into_iter()
        .chain(std::iter::repeat(0.0).take(FRAME_STRIDE - PREAMBLE_LENGTH))
        .collect();
    assert!(proccess(samples).is_empty());
    let mut samples = preamble_with(1.0, -0.0);
    samples.resize(FRAME_STRIDE, 0.0);
    let df_start = PREAMBLE_LENGTH;
    // 0.0 against -0.0, -0.0 against -1.0, -2.0 against -1.0, infinity against 1e30,
    // 0.75 against 0.5
    let pairs = [(0.0, -0.0), (-0.0, -1.0), (-2.0, -1.0), (f32::INFINITY, 1e30), (0.75, 0.5)];
    for (b, (first, second)) in pairs.iter().enumerate() {
        samples[df_start + 2 * b] = *first;
        samples[df_start + 2 * b + 1] = *second;
    }
    let results = proccess(samples);
    assert_eq!(results.len(), 1);
    assert_eq!(results[0].downlink_format, 0b01011);
    // A threshold-level pulse is not high.
    let samples: Vec<f32> = preamble_with(0.5, 0.0)
        .into_iter()
        .chain(std::iter::repeat(0.0).take(FRAME_STRIDE - PREAMBLE_LENGTH))
        .collect();
    assert!(proccess(samples).is_empty());
    let samples: Vec<f32> = preamble_with(0.5000001, f32::NEG_INFINITY)
        .into_iter()
        .chain(std::iter::repeat(0.0).take(FRAME_STRIDE - PREAMBLE_LENGTH))
        .collect();
    assert_eq!(proccess(samples).len(), 1);
}

#[test]
fn a_quiet_prefix_changes_nothing() {
    let message = [1u8; 56];
    let bits = frame_bits(17, 5, &message);
    let mut frame = preamble_with(1.0, 0.0);
    frame.extend(to_samples(&bits));
    let alone = proccess(frame.clone());
    let quiet = vec![f32::NAN, 0.0, -3.0, 0.5, -0.0, f32::NAN, 0.25];
    let mut samples = quiet.clone();
    samples.extend(frame.iter().copied());
    let after = proccess(samples);
    assert_eq!(alone.len(), after.len());
    for (a, b) in alone.iter().zip(after.iter()) {
        assert_eq!(a.downlink_format, b.downlink_format);
        assert_eq!(a.transponder_capability, b.transponder_capability);
        assert_eq!(a.message, b.message);
    }
    assert!(proccess(quiet).is_empty());
}
