//! Sound samples in the 16-bit forms that an output device takes.
//!
//! An amplitude is a whole number of `1 / AMPLITUDE_ONE`: `AMPLITUDE_ONE`
//! stands for 1, its negative for -1. Amplitudes beyond that range count as
//! the nearer end of it.

use vstd::arithmetic::div_mod::lemma_div_is_ordered;
use vstd::prelude::*;

verus! {

/// The amplitude that stands for 1.
pub const AMPLITUDE_ONE: i32 = 1_073_741_824;

/// The amplitude within the range from -1 to 1 that is nearest to `a`.
pub open spec fn limited(a: int) -> int {
    if a < -AMPLITUDE_ONE {
        -AMPLITUDE_ONE
    } else if a > AMPLITUDE_ONE {
        AMPLITUDE_ONE as int
    } else {
        a
    }
}

/// The unsigned 16-bit sample of an amplitude: half of it plus a half, as a
/// share of the largest sample, rounded down.
pub open spec fn unsigned_of(a: int) -> int {
    (limited(a) + AMPLITUDE_ONE) * u16::MAX / (2 * AMPLITUDE_ONE)
}

/// The signed 16-bit sample of an amplitude: its share of the largest
/// sample, rounded towards zero.
pub open spec fn signed_of(a: int) -> int {
    if limited(a) >= 0 {
        limited(a) * i16::MAX / (AMPLITUDE_ONE as int)
    } else {
        -((-limited(a)) * i16::MAX / (AMPLITUDE_ONE as int))
    }
}

/// Both 16-bit forms stay within their range, hit its ends exactly at -1
/// and 1, and never fall as the amplitude rises.
pub proof fn lemma_encoding_is_faithful(a: int, b: int)
    requires
        a <= b,
    ensures
        0 <= unsigned_of(a) <= unsigned_of(b) <= u16::MAX,
        -i16::MAX <= signed_of(a) <= signed_of(b) <= i16::MAX,
        a <= -AMPLITUDE_ONE ==> unsigned_of(a) == 0 && signed_of(a) == -i16::MAX,
        b >= AMPLITUDE_ONE ==> unsigned_of(b) == u16::MAX && signed_of(b) == i16::MAX,
        signed_of(0) == 0,
        signed_of(-a) == -signed_of(a),
{
    let one = AMPLITUDE_ONE as int;
    let (x, y) = (limited(a), limited(b));
    lemma_div_is_ordered(0, (x + one) * u16::MAX, 2 * one);
    lemma_div_is_ordered((x + one) * u16::MAX, (y + one) * u16::MAX, 2 * one);
    lemma_div_is_ordered((y + one) * u16::MAX, (2 * one) * u16::MAX, 2 * one);
    if x >= 0 {
        lemma_div_is_ordered(0, x * i16::MAX, one);
        lemma_div_is_ordered(x * i16::MAX, y * i16::MAX, one);
        lemma_div_is_ordered(y * i16::MAX, one * i16::MAX, one);
    } else {
        lemma_div_is_ordered(0, (-x) * i16::MAX, one);
        lemma_div_is_ordered((-x) * i16::MAX, one * i16::MAX, one);
        if y >= 0 {
            lemma_div_is_ordered(0, y * i16::MAX, one);
            lemma_div_is_ordered(y * i16::MAX, one * i16::MAX, one);
        } else {
            lemma_div_is_ordered(0, (-y) * i16::MAX, one);
            lemma_div_is_ordered((-y) * i16::MAX, (-x) * i16::MAX, one);
        }
    }
}

/// The amplitude within range that is nearest to `amplitude`.
pub fn limit(amplitude: i32) -> (a: i32)
    ensures
        a == limited(amplitude as int),
{
    if amplitude < -AMPLITUDE_ONE {
        -AMPLITUDE_ONE
    } else if amplitude > AMPLITUDE_ONE {
        AMPLITUDE_ONE
    } else {
        amplitude
    }
}

/// The unsigned 16-bit sample of an amplitude.
pub fn to_u16(amplitude: i32) -> (sample: u16)
    ensures
        sample == unsigned_of(amplitude as int),
{
    let lifted: i64 = limit(amplitude) as i64 + AMPLITUDE_ONE as i64;
    ((lifted * 65_535) / (2 * AMPLITUDE_ONE as i64)) as u16
}

/// The signed 16-bit sample of an amplitude.
pub fn to_i16(amplitude: i32) -> (sample: i16)
    ensures
        sample == signed_of(amplitude as int),
{
    let a: i64 = limit(amplitude) as i64;
    if a >= 0 {
        ((a * 32_767) / (AMPLITUDE_ONE as i64)) as i16
    } else {
        (-(((-a) * 32_767) / (AMPLITUDE_ONE as i64))) as i16
    }
}

} // verus!
