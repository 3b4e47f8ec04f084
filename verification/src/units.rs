//! The fixed-point units that the library counts in.

use vstd::prelude::*;

verus! {

/// Micro-hertz in one hertz: a frequency `f` stands for `f / HERTZ` Hz.
pub const HERTZ: u64 = 1_000_000;

/// The glide ratio that stands for 1: a ratio `r` stands for `r / RATIO_ONE`.
pub const RATIO_ONE: u64 = 1_000_000;

/// The sample rate, in Hz, of an oscillator made by `Default`.
pub const DEFAULT_SAMPLE_RATE: i64 = 44_100;

} // verus!
