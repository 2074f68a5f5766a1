//! What holds of frame detection on every input.

use vstd::prelude::*;
use crate::mode_s::is_high;
use crate::mode_s::sample::is_nan;
use crate::mode_s::sample::sample_greater;
use crate::mode_s::constants::HIT_THRESHOLD;
use crate::mode_s::format::field_value;
use crate::mode_s::format::AdsBData;
use crate::mode_s::format::callsign_char;
use crate::mode_s::format::callsign_of;
use crate::mode_s::format::is_reportable;
use crate::mode_s::decodes_frame;
use crate::mode_s::frame_starts;
use crate::mode_s::preamble_at;
use crate::mode_s::pulse_bit;
use crate::mode_s::pulse_bits;
use crate::mode_s::ADS_B_LENGTH;
use crate::mode_s::CA_LENGTH;
use crate::mode_s::DF_LENGTH;
use crate::mode_s::ICAO_LENGTH;
use crate::mode_s::FRAME_STRIDE;
use crate::mode_s::PREAMBLE_LENGTH;
use crate::mode_s::PREAMBLE_PATTERN;

verus! {

/// The samples of a preamble sent with the given high and low samples.
pub open spec fn preamble_samples(high: u32, low: u32) -> Seq<u32> {
    Seq::new(PREAMBLE_LENGTH as nat, |k: int| if PREAMBLE_PATTERN@[k] { high } else { low })
}

/// The samples of a bit sequence sent by pulse position: a set bit is a high sample
/// then a low one, a clear bit two low samples.
pub open spec fn bit_samples(bits: Seq<u8>, high: u32, low: u32) -> Seq<u32> {
    Seq::new(2 * bits.len(), |k: int| if k % 2 == 0 && bits[k / 2] == 1 { high } else { low })
}

/// The samples of a whole transmission: the preamble, then the bits.
pub open spec fn transmission(bits: Seq<u8>, high: u32, low: u32) -> Seq<u32> {
    preamble_samples(high, low) + bit_samples(bits, high, low)
}

/// Whether every entry of a bit sequence is `0` or `1`.
pub open spec fn all_bits(bits: Seq<u8>) -> bool {
    forall|j: int| 0 <= j < bits.len() ==> #[trigger] bits[j] == 0 || bits[j] == 1
}

/// A transmitted frame is read back: when a frame of 112 bits is sent by pulse
/// position after its preamble, with a high sample above the detection threshold and
/// a low sample that is a number not above it, exactly one frame is found, at the first sample, and its
/// downlink format, capability and message are the ones that were sent (bits 0 to 4,
/// bits 5 to 7 and bits 32 to 87).
pub proof fn law_transmitted_frame_is_decoded(bits: Seq<u8>, high: u32, low: u32)
    requires
        bits.len() == 112,
        all_bits(bits),
        is_high(high),
        !is_high(low),
        !is_nan(low),
    ensures
        frame_starts(transmission(bits, high, low), 0) == seq![0int],
        pulse_bits(transmission(bits, high, low), PREAMBLE_LENGTH as int, 112) == bits,
        field_value(pulse_bits(transmission(bits, high, low), PREAMBLE_LENGTH as int, 5))
            == field_value(bits.subrange(0, 5)),
        field_value(pulse_bits(transmission(bits, high, low), PREAMBLE_LENGTH + DF_LENGTH, 3))
            == field_value(bits.subrange(5, 8)),
        pulse_bits(transmission(bits, high, low), PREAMBLE_LENGTH + DF_LENGTH + CA_LENGTH + ICAO_LENGTH,
            56,
        ) == bits.subrange(
            32,
            88,
        ),
{
    let s = transmission(bits, high, low);
    assert(s.len() == 240);
    assert forall|j: int| 0 <= j < 112 implies #[trigger] pulse_bit(s, 16 + 2 * j) == bits[j] by {
        assert(s[16 + 2 * j] == bit_samples(bits, high, low)[2 * j]);
        assert(s[16 + 2 * j + 1] == bit_samples(bits, high, low)[2 * j + 1]);
        assert((2 * j) % 2 == 0 && (2 * j) / 2 == j);
        assert((2 * j + 1) % 2 == 1);
    }
    assert(pulse_bits(s, 16, 112) =~= bits);
    assert(pulse_bits(s, 16, 5) =~= bits.subrange(0, 5));
    assert(pulse_bits(s, 26, 3) =~= bits.subrange(5, 8));
    assert(pulse_bits(s, 80, 56) =~= bits.subrange(32, 88));
    assert(preamble_at(s, 0)) by {
        assert forall|j: int| 0 <= j < 16 implies #[trigger] s[j] == preamble_samples(
            high,
            low,
        )[j] by {}
    }
    assert(frame_starts(s, 240) =~= Seq::<int>::empty());
    assert(frame_starts(s, 0) =~= seq![0int]);
}

/// Every position found from `pos` on holds a preamble with a whole frame after it,
/// and each one lies at least `FRAME_STRIDE` samples after the one before.
pub proof fn law_found_frames_are_preambles(samples: Seq<u32>, pos: int)
    requires
        pos >= 0,
    ensures
        forall|j: int|
            0 <= j < frame_starts(samples, pos).len() ==> {
                let p = #[trigger] frame_starts(samples, pos)[j];
                &&& pos <= p
                &&& p + ADS_B_LENGTH <= samples.len()
                &&& preamble_at(samples, p)
            },
        forall|i: int, j: int|
            0 <= i < j < frame_starts(samples, pos).len() ==> #[trigger] frame_starts(
                samples,
                pos,
            )[i] + FRAME_STRIDE <= #[trigger] frame_starts(samples, pos)[j],
    decreases samples.len() + FRAME_STRIDE - pos,
{
    let all = frame_starts(samples, pos);
    if pos + ADS_B_LENGTH > samples.len() {
        assert(all =~= Seq::<int>::empty());
    } else if preamble_at(samples, pos) {
        law_found_frames_are_preambles(samples, pos + FRAME_STRIDE);
        let rest = frame_starts(samples, pos + FRAME_STRIDE);
        assert(all =~= seq![pos] + rest);
        assert forall|j: int| 0 < j < all.len() implies all[j] == rest[j - 1] by {}
        assert forall|j: int| 0 <= j < all.len() implies {
            let p = #[trigger] all[j];
            &&& pos <= p
            &&& p + ADS_B_LENGTH <= samples.len()
            &&& preamble_at(samples, p)
        } by {
            if j > 0 {
                assert(all[j] == rest[j - 1]);
            }
        }
        assert forall|i: int, j: int| 0 <= i < j < all.len() implies #[trigger] all[i]
            + FRAME_STRIDE <= #[trigger] all[j] by {
            assert(all[j] == rest[j - 1]);
            if i > 0 {
                assert(all[i] == rest[i - 1]);
            } else {
                assert(rest[j - 1] >= pos + FRAME_STRIDE);
            }
        }
    } else {
        law_found_frames_are_preambles(samples, pos + 1);
        assert(all == frame_starts(samples, pos + 1));
    }
}

/// A frame is found only where all sixteen preamble samples have the preamble's
/// shape: each found position is followed by samples above the detection threshold
/// at offsets 0, 2, 7 and 9, and at none of the other twelve offsets up to 15.
pub proof fn law_frames_need_the_whole_preamble(samples: Seq<u32>)
    ensures
        forall|j: int, k: int|
            #![trigger frame_starts(samples, 0)[j], samples[frame_starts(samples, 0)[j] + k]]
            0 <= j < frame_starts(samples, 0).len() && 0 <= k < 16 ==> (sample_greater(
                samples[frame_starts(samples, 0)[j] + k],
                HIT_THRESHOLD,
            ) <==> (k == 0 || k == 2 || k == 7 || k == 9)),
{
    law_found_frames_are_preambles(samples, 0);
    assert forall|j: int, k: int|
        #![trigger frame_starts(samples, 0)[j], samples[frame_starts(samples, 0)[j] + k]]
        0 <= j < frame_starts(samples, 0).len() && 0 <= k < 16 implies (sample_greater(
            samples[frame_starts(samples, 0)[j] + k],
            HIT_THRESHOLD,
        ) <==> (k == 0 || k == 2 || k == 7 || k == 9)) by {
        let p = frame_starts(samples, 0)[j];
        assert(preamble_at(samples, p));
        assert(is_high(samples[p + k]) == PREAMBLE_PATTERN@[(p + k) - p]);
        assert(PREAMBLE_PATTERN@[k] <==> (k == 0 || k == 2 || k == 7 || k == 9));
    }
}

/// Every preamble is covered: every position from `pos` on that holds a preamble
/// with a whole frame after it is found, or lies less than `FRAME_STRIDE` samples
/// after a position that is found.
pub proof fn law_every_preamble_is_covered(samples: Seq<u32>, pos: int, p: int)
    requires
        pos >= 0,
        pos <= p,
        p + ADS_B_LENGTH <= samples.len(),
        preamble_at(samples, p),
    ensures
        exists|j: int|
            0 <= j < frame_starts(samples, pos).len() && #[trigger] frame_starts(samples, pos)[j]
                <= p < frame_starts(samples, pos)[j] + FRAME_STRIDE,
    decreases samples.len() + FRAME_STRIDE - pos,
{
    let all = frame_starts(samples, pos);
    if preamble_at(samples, pos) {
        let rest = frame_starts(samples, pos + FRAME_STRIDE);
        assert(all =~= seq![pos] + rest);
        if p < pos + FRAME_STRIDE {
            assert(all[0] == pos);
        } else {
            law_every_preamble_is_covered(samples, pos + FRAME_STRIDE, p);
            let j = choose|j: int|
                0 <= j < rest.len() && #[trigger] rest[j] <= p < rest[j] + FRAME_STRIDE;
            assert(all[j + 1] == rest[j]);
        }
    } else {
        assert(p != pos);
        law_every_preamble_is_covered(samples, pos + 1, p);
    }
}

/// Whether no sample is high.
pub open spec fn is_quiet(samples: Seq<u32>) -> bool {
    forall|j: int| 0 <= j < samples.len() ==> !is_high(#[trigger] samples[j])
}

/// After a prefix, the search from a position of the rest finds what it finds in the
/// rest alone, shifted by the prefix's length.
proof fn lemma_search_after_prefix(prefix: Seq<u32>, samples: Seq<u32>, pos: int)
    requires
        pos >= 0,
    ensures
        frame_starts(prefix + samples, prefix.len() + pos) == frame_starts(
            samples,
            pos,
        ).map_values(|p: int| p + prefix.len()),
    decreases samples.len() + FRAME_STRIDE - pos,
{
    let all = prefix + samples;
    let shift = prefix.len() as int;
    let here = frame_starts(samples, pos);
    let there = frame_starts(all, shift + pos);
    if pos + ADS_B_LENGTH > samples.len() {
        assert(there =~= here.map_values(|p: int| p + shift));
    } else {
        assert forall|j: int| shift + pos <= j < shift + pos + PREAMBLE_LENGTH implies #[trigger] all[j]
            == samples[j - shift] by {}
        if preamble_at(samples, pos) {
            assert forall|j: int| shift + pos <= j < shift + pos + PREAMBLE_LENGTH implies is_high(
                #[trigger] all[j],
            ) == PREAMBLE_PATTERN@[j - (shift + pos)] by {
                assert(all[j] == samples[j - shift]);
            }
            assert(preamble_at(all, shift + pos));
            lemma_search_after_prefix(prefix, samples, pos + FRAME_STRIDE);
            assert(there =~= seq![shift + pos] + frame_starts(all, shift + pos + FRAME_STRIDE));
            assert(here =~= seq![pos] + frame_starts(samples, pos + FRAME_STRIDE));
            assert(there =~= here.map_values(|p: int| p + shift));
        } else {
            let j = choose|j: int|
                pos <= j < pos + PREAMBLE_LENGTH && is_high(#[trigger] samples[j])
                    != PREAMBLE_PATTERN@[j - pos];
            assert(all[j + shift] == samples[j]);
            assert(!preamble_at(all, shift + pos));
            lemma_search_after_prefix(prefix, samples, pos + 1);
            assert(there == frame_starts(all, shift + pos + 1));
        }
    }
}

/// Within a quiet prefix no preamble starts, so the search reaches the end of the
/// prefix as it is.
proof fn lemma_quiet_prefix_is_passed(prefix: Seq<u32>, samples: Seq<u32>, i: int)
    requires
        is_quiet(prefix),
        0 <= i <= prefix.len(),
    ensures
        frame_starts(prefix + samples, i) == frame_starts(prefix + samples, prefix.len() as int),
    decreases prefix.len() - i,
{
    let all = prefix + samples;
    if i < prefix.len() {
        if i + ADS_B_LENGTH > all.len() {
            assert(frame_starts(all, i) =~= Seq::<int>::empty());
            assert(frame_starts(all, prefix.len() as int) =~= Seq::<int>::empty());
        } else {
            assert(all[i] == prefix[i]);
            assert(!is_high(prefix[i]));
            assert(PREAMBLE_PATTERN@[i - i]);
            assert(!preamble_at(all, i));
            lemma_quiet_prefix_is_passed(prefix, samples, i + 1);
        }
    }
}

/// A quiet prefix changes nothing: in front of samples, any run of samples that are
/// not high (zeros, negative values, not-a-numbers) shifts the frames found by its
/// length, and each of them is decoded as it is without the prefix.
pub proof fn law_quiet_prefix_changes_nothing(prefix: Seq<u32>, samples: Seq<u32>)
    requires
        is_quiet(prefix),
    ensures
        frame_starts(prefix + samples, 0) == frame_starts(samples, 0).map_values(
            |p: int| p + prefix.len(),
        ),
        forall|data: AdsBData, p: int|
            #![trigger decodes_frame(data, samples, p)]
            0 <= p && p + ADS_B_LENGTH <= samples.len() ==> (decodes_frame(
                data,
                prefix + samples,
                p + prefix.len(),
            ) == decodes_frame(data, samples, p)),
{
    let all = prefix + samples;
    let shift = prefix.len() as int;
    lemma_quiet_prefix_is_passed(prefix, samples, 0);
    lemma_search_after_prefix(prefix, samples, 0);
    assert forall|data: AdsBData, p: int|
        #![trigger decodes_frame(data, samples, p)]
        0 <= p && p + ADS_B_LENGTH <= samples.len() implies (decodes_frame(
            data,
            all,
            p + shift,
        ) == decodes_frame(data, samples, p)) by {
        assert(pulse_bits(all, p + shift + PREAMBLE_LENGTH, 5) =~= pulse_bits(
            samples,
            p + PREAMBLE_LENGTH,
            5,
        ));
        assert(pulse_bits(all, p + shift + PREAMBLE_LENGTH + DF_LENGTH, 3) =~= pulse_bits(
            samples,
            p + PREAMBLE_LENGTH + DF_LENGTH,
            3,
        ));
        assert(pulse_bits(
            all,
            p + shift + PREAMBLE_LENGTH + DF_LENGTH + CA_LENGTH + ICAO_LENGTH,
            56,
        ) =~= pulse_bits(samples, p + PREAMBLE_LENGTH + DF_LENGTH + CA_LENGTH + ICAO_LENGTH, 56));
    }
}

/// Whether a character can be sent in an aircraft identification: a capital letter,
/// a space or a digit.
pub open spec fn is_callsign_char(c: char) -> bool {
    ('A' <= c && c <= 'Z') || c == ' ' || ('0' <= c && c <= '9')
}

/// The six-bit code that sends a character: a letter's place in the alphabet (`A` is
/// 1), and the character's own code for a space or a digit.
pub open spec fn six_bit_code(c: char) -> u8 {
    if 'A' <= c && c <= 'Z' {
        (c as int - 64) as u8
    } else {
        c as u8
    }
}

/// Bit `j` of a six-bit code, counted from the most significant one.
pub open spec fn code_bit(code: u8, j: int) -> u8 {
    (code >> ((5 - j) as u8)) & 1
}

/// Whether a message carries the eight characters of a callsign: the six bits of the
/// code of character `k` are message bits `8 + 6 * k` to `13 + 6 * k`, most
/// significant first.
pub open spec fn carries_callsign(message: Seq<u8>, callsign: Seq<char>) -> bool {
    &&& message.len() == 56
    &&& callsign.len() == 8
    &&& forall|k: int, j: int|
        0 <= k < 8 && 0 <= j < 6 ==> #[trigger] message[8 + 6 * k + j] == code_bit(
            six_bit_code(#[trigger] callsign[k]),
            j,
        )
}

/// Six bits read back as the code that they were taken from.
proof fn lemma_six_bits_value(bits: Seq<u8>, code: u8)
    requires
        bits.len() == 6,
        code < 64,
        forall|j: int| 0 <= j < 6 ==> #[trigger] bits[j] == code_bit(code, j),
    ensures
        field_value(bits) == code,
{
    let b0 = code_bit(code, 0);
    let b1 = code_bit(code, 1);
    let b2 = code_bit(code, 2);
    let b3 = code_bit(code, 3);
    let b4 = code_bit(code, 4);
    let b5 = code_bit(code, 5);
    assert(b0 == (code >> 5u8) & 1 && b1 == (code >> 4u8) & 1 && b2 == (code >> 3u8) & 1
        && b3 == (code >> 2u8) & 1 && b4 == (code >> 1u8) & 1 && b5 == (code >> 0u8) & 1);
    assert(b0 <= 1 && b1 <= 1 && b2 <= 1 && b3 <= 1 && b4 <= 1 && b5 <= 1 && code == 32 * b0
        + 16 * b1 + 8 * b2 + 4 * b3 + 2 * b4 + b5) by (bit_vector)
        requires
            code < 64,
            b0 == (code >> 5u8) & 1,
            b1 == (code >> 4u8) & 1,
            b2 == (code >> 3u8) & 1,
            b3 == (code >> 2u8) & 1,
            b4 == (code >> 1u8) & 1,
            b5 == (code >> 0u8) & 1,
    ;
    assert(bits[0] == b0 && bits[1] == b1 && bits[2] == b2 && bits[3] == b3 && bits[4] == b4
        && bits[5] == b5);
    assert(bits.subrange(0, 5).drop_last() =~= bits.subrange(0, 4));
    assert(bits.subrange(0, 4).drop_last() =~= bits.subrange(0, 3));
    assert(bits.subrange(0, 3).drop_last() =~= bits.subrange(0, 2));
    assert(bits.subrange(0, 2).drop_last() =~= bits.subrange(0, 1));
    assert(bits.subrange(0, 1).drop_last() =~= Seq::<u8>::empty());
    assert(bits.drop_last() =~= bits.subrange(0, 5));
    assert(field_value(Seq::<u8>::empty()) == 0);
    assert(field_value(bits.subrange(0, 1)) == b0);
    assert(field_value(bits.subrange(0, 2)) == 2 * b0 + b1);
    assert(field_value(bits.subrange(0, 3)) == 4 * b0 + 2 * b1 + b2);
    assert(field_value(bits.subrange(0, 4)) == 8 * b0 + 4 * b1 + 2 * b2 + b3);
    assert(field_value(bits.subrange(0, 5)) == 16 * b0 + 8 * b1 + 4 * b2 + 2 * b3 + b4);
}

/// The character set gives back the character that a code was taken from.
proof fn lemma_charset_inverts_code(c: char)
    requires
        is_callsign_char(c),
    ensures
        six_bit_code(c) < 64,
        callsign_char(six_bit_code(c) as nat) == c,
{
    reveal_strlit("#ABCDEFGHIJKLMNOPQRSTUVWXYZ##### ###############0123456789######");
}

/// A callsign is read back: when a message carries the codes of eight characters
/// that can be sent (capital letters, spaces, digits), its callsign is those eight
/// characters.
pub proof fn law_callsign_is_read_back(message: Seq<u8>, callsign: Seq<char>)
    requires
        carries_callsign(message, callsign),
        forall|k: int| 0 <= k < 8 ==> is_callsign_char(#[trigger] callsign[k]),
    ensures
        callsign_of(message) == callsign,
{
    assert forall|k: int| 0 <= k < 8 implies #[trigger] callsign_of(message)[k] == callsign[k] by {
        let bits = message.subrange(8 + 6 * k, 14 + 6 * k);
        let code = six_bit_code(callsign[k]);
        lemma_charset_inverts_code(callsign[k]);
        assert forall|j: int| 0 <= j < 6 implies #[trigger] bits[j] == code_bit(code, j) by {
            assert(bits[j] == message[8 + 6 * k + j]);
        }
        lemma_six_bits_value(bits, code);
    }
    assert(callsign_of(message) =~= callsign);
}

/// A frame is reported exactly when it is an extended squitter (downlink format 17)
/// of type code 1 to 4 and none of the eight characters of its callsign, the first
/// one included, is the filler `#`.
pub proof fn law_reported_callsigns_have_no_filler(data: AdsBData)
    ensures
        is_reportable(data) <==> {
            &&& data.downlink_format == 17
            &&& 1 <= field_value(data.message@.subrange(0, 5)) <= 4
            &&& forall|k: int| 0 <= k < 8 ==> #[trigger] callsign_of(data.message@)[k] != '#'
        },
        forall|k: int|
            0 <= k < 8 && #[trigger] callsign_of(data.message@)[k] == '#' ==> !is_reportable(data),
{
}

} // verus!
