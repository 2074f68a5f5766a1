use vstd::prelude::*;

verus! {

/// Detection threshold of a preamble pulse, as a sample: the IEEE-754 bit
/// pattern of the magnitude `0.5`. A sample is high when the value it encodes is
/// greater than this one.
pub const HIT_THRESHOLD: u32 = 0x3F00_0000;

} // verus!
