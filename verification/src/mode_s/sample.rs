//! Samples are given by the IEEE-754 single-precision bit patterns of their
//! magnitudes (`f32::to_bits`). This module compares two samples as the floating-point
//! values that the patterns encode: a pattern is a sign bit and 31 magnitude bits, the
//! magnitude bits order the absolute values, the two zeros are equal, and a
//! not-a-number is neither greater nor smaller than anything.

use vstd::prelude::*;

verus! {

/// The sign bit of a pattern.
pub const SIGN_BIT: u32 = 0x8000_0000;

/// The pattern of positive infinity: every magnitude pattern above it is a
/// not-a-number.
pub const INFINITY_BITS: u32 = 0x7F80_0000;

/// The pattern without its sign bit.
pub open spec fn magnitude_bits(bits: u32) -> int {
    if bits >= SIGN_BIT {
        bits - SIGN_BIT
    } else {
        bits as int
    }
}

/// Whether a pattern encodes a not-a-number.
pub open spec fn is_nan(bits: u32) -> bool {
    magnitude_bits(bits) > INFINITY_BITS
}

/// An integer that orders the values that patterns encode: the magnitude pattern,
/// negated for a negative value (so both zeros have the key `0`).
pub open spec fn sample_key(bits: u32) -> int {
    if bits >= SIGN_BIT {
        -magnitude_bits(bits)
    } else {
        magnitude_bits(bits)
    }
}

/// Whether the value that `a` encodes is greater than the one that `b` encodes:
/// never when either is a not-a-number.
pub open spec fn sample_greater(a: u32, b: u32) -> bool {
    !is_nan(a) && !is_nan(b) && sample_key(a) > sample_key(b)
}

/// The order key of a pattern.
fn key(bits: u32) -> (k: i64)
    ensures
        k == sample_key(bits),
{
    if bits >= SIGN_BIT {
        -((bits - SIGN_BIT) as i64)
    } else {
        bits as i64
    }
}

/// Whether a pattern encodes a not-a-number.
fn nan(bits: u32) -> (r: bool)
    ensures
        r == is_nan(bits),
{
    let magnitude = if bits >= SIGN_BIT { bits - SIGN_BIT } else { bits };
    magnitude > INFINITY_BITS
}

/// Whether the value that `a` encodes is greater than the one that `b` encodes.
pub fn greater(a: u32, b: u32) -> (r: bool)
    ensures
        r == sample_greater(a, b),
{
    if nan(a) || nan(b) {
        false
    } else {
        key(a) > key(b)
    }
}

} // verus!
