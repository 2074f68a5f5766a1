//! Decoding of 1090 MHz Mode S / ADS-B frames from receiver magnitude samples,
//! and the plain types that describe a software-defined radio.

pub mod mode_s;
pub mod sdr;
