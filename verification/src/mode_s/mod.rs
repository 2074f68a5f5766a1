//! Detection of Mode S frames in a stream of magnitude samples taken at
//! 2 000 000 samples per second, where each bit lasts two samples
//! (pulse position modulation: a bit is set when its first sample is the larger).
//!
//! A sample is given by the IEEE-754 bit pattern of its magnitude; samples are
//! compared as the floating-point values that the patterns encode (see `sample`).

pub mod constants;
pub mod format;
pub mod laws;
pub mod sample;

use vstd::prelude::*;
use crate::mode_s::constants::HIT_THRESHOLD;
use crate::mode_s::format::AdsBData;
use crate::mode_s::format::field_value;
use crate::mode_s::format::lemma_next_bit_fits;
use crate::mode_s::sample::greater;
use crate::mode_s::sample::sample_greater;

verus! {

/// Samples that one frame occupies after its preamble: 112 bits of two samples.
pub const ADS_B_LENGTH: usize = 112 * 2;
/// Samples of the downlink format field (5 bits).
pub const DF_LENGTH: usize = 5 * 2;
/// Samples of the transponder capability field (3 bits).
pub const CA_LENGTH: usize = 3 * 2;
/// Samples of the aircraft address field (24 bits), which is skipped.
pub const ICAO_LENGTH: usize = 24 * 2;
/// Samples of the preamble (8 bit periods).
pub const PREAMBLE_LENGTH: usize = 8 * 2;
/// Samples of the extended squitter message (56 bits).
pub const MESSAGE_LENGTH: usize = 56 * 2;
/// Samples of the type code (5 bits), the first field of the message.
pub const TC_LENGTH: usize = 5 * 2;
/// Samples of the parity field (24 bits), which is skipped.
pub const PARITY_LENGTH: usize = 24 * 2;
/// Samples from the start of a detected preamble to the next position searched.
pub const FRAME_STRIDE: usize = PREAMBLE_LENGTH + DF_LENGTH + CA_LENGTH + ICAO_LENGTH
    + MESSAGE_LENGTH + PARITY_LENGTH;

/// The expected shape of the preamble: for each of its samples, whether it is high.
pub const PREAMBLE_PATTERN: [bool; PREAMBLE_LENGTH] = [
    true, false, true, false, false, false, false, true, false, true, false, false, false, false,
    false, false,
];

/// The error type of frame detection.
#[derive(Debug)]
pub struct ModeSError;

impl ModeSError {
    /// The description of the error.
    pub fn to_string(&self) -> (text: String)
        ensures
            text@ == "ModeSError - Bad error, not descriptive"@,
    {
        String::from_str("ModeSError - Bad error, not descriptive")
    }
}

/// Whether the Mode S decoder is in working order.
pub fn mode_s_works() -> (works: bool)
    ensures
        works,
{
    true
}

/// Whether a sample is above the detection threshold (never a not-a-number).
pub open spec fn is_high(sample: u32) -> bool {
    sample_greater(sample, HIT_THRESHOLD)
}

/// Whether the samples from `start` on match the preamble pattern.
pub open spec fn preamble_at(samples: Seq<u32>, start: int) -> bool {
    forall|j: int|
        start <= j < start + PREAMBLE_LENGTH ==> is_high(#[trigger] samples[j])
            == PREAMBLE_PATTERN@[j - start]
}

/// The bit carried by the two samples at `pos` and `pos + 1`: set when the first is
/// greater than the second.
pub open spec fn pulse_bit(samples: Seq<u32>, pos: int) -> u8 {
    if sample_greater(samples[pos], samples[pos + 1]) {
        1
    } else {
        0
    }
}

/// The `n` bits carried by the sample pairs that start at `start`.
pub open spec fn pulse_bits(samples: Seq<u32>, start: int, n: nat) -> Seq<u8> {
    Seq::new(n, |j: int| pulse_bit(samples, start + 2 * j))
}

/// Whether `data` holds the frame whose preamble starts at `start`: its downlink
/// format, its capability and its message bits, read after the preamble, with the
/// aircraft address skipped.
pub open spec fn decodes_frame(data: AdsBData, samples: Seq<u32>, start: int) -> bool {
    &&& data.downlink_format == field_value(pulse_bits(samples, start + PREAMBLE_LENGTH, 5))
    &&& data.transponder_capability == field_value(
        pulse_bits(samples, start + PREAMBLE_LENGTH + DF_LENGTH, 3),
    )
    &&& data.message@ == pulse_bits(
        samples,
        start + PREAMBLE_LENGTH + DF_LENGTH + CA_LENGTH + ICAO_LENGTH,
        56,
    )
}

/// The positions, from `pos` on, at which frames are found: the search moves one
/// sample at a time, stops once fewer than `ADS_B_LENGTH` samples are left, and after
/// a preamble goes on `FRAME_STRIDE` samples later.
pub open spec fn frame_starts(samples: Seq<u32>, pos: int) -> Seq<int>
    decreases samples.len() + FRAME_STRIDE - pos,
{
    if pos < 0 || pos + ADS_B_LENGTH > samples.len() {
        Seq::empty()
    } else if preamble_at(samples, pos) {
        seq![pos] + frame_starts(samples, pos + FRAME_STRIDE)
    } else {
        frame_starts(samples, pos + 1)
    }
}

/// Whether the samples from `start` on match the preamble pattern.
fn check_preamble(samples: &Vec<u32>, start: usize) -> (detected: bool)
    requires
        start + PREAMBLE_LENGTH <= samples.len(),
    ensures
        detected == preamble_at(samples@, start as int),
{
    let mut i: usize = 0;
    while i < PREAMBLE_LENGTH
        invariant
            i <= PREAMBLE_LENGTH,
            start + PREAMBLE_LENGTH <= samples.len(),
            forall|j: int|
                start <= j < start + i ==> is_high(#[trigger] samples@[j])
                    == PREAMBLE_PATTERN@[j - start],
        decreases PREAMBLE_LENGTH - i,
    {
        if greater(samples[start + i], HIT_THRESHOLD) != PREAMBLE_PATTERN[i] {
            assert(is_high(samples@[start + i]) != PREAMBLE_PATTERN@[(start + i) - start]);
            return false;
        }
        i = i + 1;
    }
    true
}

/// The value of the `buffer_len / 2` bits carried by the sample pairs that start at
/// `start`, most significant first.
fn extract_u8(samples: &Vec<u32>, start: usize, buffer_len: usize) -> (value: u8)
    requires
        start + 2 * (buffer_len / 2) <= samples.len(),
        buffer_len / 2 <= 8,
    ensures
        value == field_value(pulse_bits(samples@, start as int, (buffer_len / 2) as nat)),
{
    let n = buffer_len / 2;
    let mut result: u8 = 0;
    let mut bit: usize = 0;
    while bit < n
        invariant
            n == buffer_len / 2,
            n <= 8,
            bit <= n,
            start + 2 * (buffer_len / 2) <= samples.len(),
            result == field_value(pulse_bits(samples@, start as int, bit as nat)),
        decreases n - bit,
    {
        let ghost prev = pulse_bits(samples@, start as int, bit as nat);
        let ghost next = pulse_bits(samples@, start as int, (bit + 1) as nat);
        proof {
            assert(next.drop_last() =~= prev);
            lemma_next_bit_fits(prev);
        }
        let first = samples[start + bit * 2];
        let second = samples[start + bit * 2 + 1];
        let b: u8 = if greater(first, second) { 1 } else { 0 };
        result = result * 2 + b;
        bit = bit + 1;
    }
    result
}

/// The bit of one sample pair, as `extract_u8` reads it.
proof fn lemma_single_pulse(samples: Seq<u32>, pos: int)
    ensures
        field_value(pulse_bits(samples, pos, 1)) == pulse_bit(samples, pos),
{
    let bits = pulse_bits(samples, pos, 1);
    assert(bits.drop_last() =~= Seq::<u8>::empty());
    assert(bits.last() == pulse_bit(samples, pos));
    assert(field_value(bits.drop_last()) == 0);
}

/// Finds every Mode S frame in the samples and decodes it.
///
/// The search starts at the first sample and stops once fewer than `ADS_B_LENGTH`
/// samples are left. Where the samples match the preamble a frame is decoded and
/// the search goes on `FRAME_STRIDE` samples later; elsewhere it moves one sample on.
/// The result is never an error, and a frame is found only where all sixteen preamble
/// samples have the preamble's shape.
pub fn proccess_samples(samples: Vec<u32>) -> (result: Result<Vec<AdsBData>, ModeSError>)
    ensures
        result is Ok,
        result matches Ok(hits) ==> {
            &&& hits.len() == frame_starts(samples@, 0).len()
            &&& forall|j: int|
                0 <= j < hits.len() ==> decodes_frame(
                    #[trigger] hits@[j],
                    samples@,
                    frame_starts(samples@, 0)[j],
                )
        },
        forall|j: int, k: int|
            #![trigger frame_starts(samples@, 0)[j], samples@[frame_starts(samples@, 0)[j] + k]]
            0 <= j < frame_starts(samples@, 0).len() && 0 <= k < 16 ==> (sample_greater(
                samples@[frame_starts(samples@, 0)[j] + k],
                HIT_THRESHOLD,
            ) <==> (k == 0 || k == 2 || k == 7 || k == 9)),
{
    proof {
        crate::mode_s::laws::law_frames_need_the_whole_preamble(samples@);
    }
    let mut ads_b_hits: Vec<AdsBData> = Vec::new();
    let samples_read = samples.len();
    let mut i: usize = 0;
    let ghost mut found: Seq<int> = Seq::empty();
    assert(frame_starts(samples@, 0) =~= found + frame_starts(samples@, 0));
    while i < samples_read && samples_read - i >= ADS_B_LENGTH
        invariant
            i <= samples_read,
            samples_read == samples.len(),
            frame_starts(samples@, 0) == found + frame_starts(samples@, i as int),
            ads_b_hits.len() == found.len(),
            forall|j: int|
                0 <= j < ads_b_hits.len() ==> decodes_frame(
                    #[trigger] ads_b_hits@[j],
                    samples@,
                    found[j],
                ),
        decreases samples_read - i,
    {
        if check_preamble(&samples, i) {
            let df_start = i + PREAMBLE_LENGTH;
            let ca_start = df_start + DF_LENGTH;
            let message_start = ca_start + CA_LENGTH + ICAO_LENGTH;
            let downlink_format = extract_u8(&samples, df_start, DF_LENGTH);
            let transponder_capability = extract_u8(&samples, ca_start, CA_LENGTH);
            let mut message = [0u8; 56];
            let mut j: usize = 0;
            while j < MESSAGE_LENGTH / 2
                invariant
                    j <= MESSAGE_LENGTH / 2,
                    message_start + MESSAGE_LENGTH <= samples.len(),
                    message@.len() == 56,
                    forall|k: int|
                        0 <= k < j ==> #[trigger] message@[k] == pulse_bit(
                            samples@,
                            message_start + 2 * k,
                        ),
                decreases MESSAGE_LENGTH / 2 - j,
            {
                let bit = extract_u8(&samples, message_start + j * 2, 2);
                proof {
                    lemma_single_pulse(samples@, message_start + 2 * j);
                }
                message[j] = bit;
                j = j + 1;
            }
            let ghost hit_start = i as int;
            assert(message@ =~= pulse_bits(samples@, message_start as int, 56));
            let hit = AdsBData { downlink_format, transponder_capability, message };
            assert(decodes_frame(hit, samples@, hit_start));
            ads_b_hits.push(hit);
            proof {
                assert(found.push(hit_start) + frame_starts(samples@, hit_start + FRAME_STRIDE)
                    =~= found + (seq![hit_start] + frame_starts(samples@, hit_start + FRAME_STRIDE)));
                found = found.push(hit_start);
            }
            if samples_read - i >= FRAME_STRIDE {
                i = i + FRAME_STRIDE;
            } else {
                i = samples_read;
                assert(frame_starts(samples@, hit_start + FRAME_STRIDE) =~= Seq::<int>::empty());
            }
        } else {
            i = i + 1;
        }
    }
    assert(frame_starts(samples@, i as int) =~= Seq::<int>::empty());
    assert(found =~= found + frame_starts(samples@, i as int));
    Ok(ads_b_hits)
}

} // verus!
