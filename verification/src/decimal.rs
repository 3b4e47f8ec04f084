//! Frequencies written as decimal numbers of hertz.
//!
//! A frequency is written as digits, with at most one point among them and
//! at least one digit in all: `440`, `261.63`, `.5`. It is read to the
//! micro-hertz; digits past the sixth decimal place are dropped. Nothing
//! else is a frequency: a sign, an exponent, a blank, or a word such as
//! `inf` makes the text unreadable.

use vstd::prelude::*;
use vstd::string::is_ascii_spec_bytes;
use crate::units::HERTZ;

verus! {

/// `c` is one of the ten digits.
pub open spec fn is_digit(c: char) -> bool {
    '0' <= c <= '9'
}

/// The number that the digit `c` stands for.
pub open spec fn digit_of(c: char) -> int {
    c as int - '0' as int
}

/// Every character of `s` is a digit.
pub open spec fn all_digits(s: Seq<char>) -> bool {
    forall|i: int| 0 <= i < s.len() ==> is_digit(#[trigger] s[i])
}

/// The number that a string of digits stands for; zero for the empty one.
pub open spec fn digits_value(s: Seq<char>) -> int
    decreases s.len(),
{
    if s.len() == 0 {
        0
    } else {
        digits_value(s.drop_last()) * 10 + digit_of(s.last())
    }
}

/// Ten to the power `n`.
pub open spec fn pow10(n: nat) -> int
    decreases n,
{
    if n == 0 {
        1
    } else {
        10 * pow10((n - 1) as nat)
    }
}

/// Where the first point of `s` stands; the length of `s` if it has none.
pub open spec fn dot_index(s: Seq<char>) -> int
    decreases s.len(),
{
    if s.len() == 0 || s[0] == '.' {
        0
    } else {
        1 + dot_index(s.drop_first())
    }
}

/// The digits before the first point.
pub open spec fn whole_part(s: Seq<char>) -> Seq<char> {
    s.take(dot_index(s))
}

/// The characters after the first point; none where there is no point.
pub open spec fn fraction_part(s: Seq<char>) -> Seq<char> {
    if dot_index(s) < s.len() {
        s.skip(dot_index(s) + 1)
    } else {
        Seq::empty()
    }
}

/// The millionths that a string of decimal places stands for: its first six
/// digits, with zeros for those that are missing.
pub open spec fn micros(fraction: Seq<char>) -> int {
    if fraction.len() >= 6 {
        digits_value(fraction.take(6))
    } else {
        digits_value(fraction) * pow10((6 - fraction.len()) as nat)
    }
}

/// The micro-hertz that `text` stands for as a decimal number of hertz, if
/// it is one.
pub open spec fn decimal_micros(text: Seq<char>) -> Option<int> {
    let whole = whole_part(text);
    let fraction = fraction_part(text);
    if all_digits(whole) && all_digits(fraction) && whole.len() + fraction.len() > 0 {
        Some(digits_value(whole) * HERTZ + micros(fraction))
    } else {
        None
    }
}

/// The frequency that `text` stands for: its value in micro-hertz where it
/// is a decimal number and the value fits.
pub open spec fn frequency_of_text(text: Seq<char>) -> Option<u64> {
    match decimal_micros(text) {
        Some(value) => if value <= u64::MAX {
            Some(value as u64)
        } else {
            None
        },
        None => None,
    }
}

/// `bytes` spells `s`: one byte for each character, of the same code.
spec fn spells(bytes: Seq<u8>, s: Seq<char>) -> bool {
    &&& bytes.len() == s.len()
    &&& forall|k: int| 0 <= k < s.len() ==> #[trigger] bytes[k] as int == s[k] as int
}

/// A point at `k` with none before it is the first point; so is the end of
/// a string without a point.
proof fn lemma_dot_index(s: Seq<char>, k: int)
    requires
        0 <= k <= s.len(),
        forall|j: int| 0 <= j < k ==> #[trigger] s[j] != '.',
    ensures
        k <= dot_index(s) <= s.len(),
        k == s.len() || s[k] == '.' ==> dot_index(s) == k,
    decreases s.len(),
{
    if s.len() > 0 && s[0] != '.' {
        let rest = s.drop_first();
        assert forall|j: int| 0 <= j < k - 1 implies #[trigger] rest[j] != '.' by {
            assert(rest[j] == s[j + 1]);
        }
        lemma_dot_index(rest, if k > 0 {
            k - 1
        } else {
            0
        });
    }
}

/// One more digit multiplies the value by ten and adds the digit.
proof fn lemma_digits_step(s: Seq<char>, k: int)
    requires
        0 <= k < s.len(),
    ensures
        digits_value(s.take(k + 1)) == digits_value(s.take(k)) * 10 + digit_of(s[k]),
{
    assert(s.take(k + 1).drop_last() == s.take(k));
}

/// The first `k + 1` characters are digits where the first `k` are and the
/// one at `k` is.
proof fn lemma_digits_more(s: Seq<char>, k: int)
    requires
        0 <= k < s.len(),
        all_digits(s.take(k)),
        is_digit(s[k]),
    ensures
        all_digits(s.take(k + 1)),
{
    assert forall|j: int| 0 <= j < k + 1 implies is_digit(#[trigger] s.take(k + 1)[j]) by {
        if j < k {
            assert(s.take(k)[j] == s[j]);
        }
    }
}

/// The value of a string of digits is not negative, and no less than that
/// of any of its beginnings.
proof fn lemma_digits_grow(s: Seq<char>, i: int, j: int)
    requires
        0 <= i <= j <= s.len(),
        all_digits(s.take(j)),
    ensures
        0 <= digits_value(s.take(i)) <= digits_value(s.take(j)),
    decreases j,
{
    if j > 0 {
        assert(s.take(j)[j - 1] == s[j - 1]);
        assert forall|k: int| 0 <= k < j - 1 implies is_digit(#[trigger] s.take(j - 1)[k]) by {
            assert(s.take(j)[k] == s[k]);
        }
        lemma_digits_grow(s, if i == j {
            0
        } else {
            i
        }, j - 1);
        lemma_digits_step(s, j - 1);
    }
}

/// The first seven powers of ten.
proof fn lemma_pow10_small()
    ensures
        pow10(0) == 1,
        pow10(1) == 10,
        pow10(2) == 100,
        pow10(3) == 1_000,
        pow10(4) == 10_000,
        pow10(5) == 100_000,
        pow10(6) == 1_000_000,
{
    reveal_with_fuel(pow10, 7);
}

/// Text with a character that is no digit, and is not the first point
/// either, is no frequency.
proof fn lemma_stray(s: Seq<char>, i: int)
    requires
        0 <= i < s.len(),
        !is_digit(s[i]),
        s[i] != '.' || dot_index(s) < i,
    ensures
        frequency_of_text(s) is None,
{
    let dot = dot_index(s);
    lemma_dot_index(s, 0);
    if i < dot {
        assert(whole_part(s)[i] == s[i]);
    } else if i == dot {
        lemma_first_dot_is_dot(s);
    } else {
        assert(fraction_part(s)[i - dot - 1] == s[i]);
    }
}

/// Where the first point is said to stand, there is a point.
proof fn lemma_first_dot_is_dot(s: Seq<char>)
    ensures
        0 <= dot_index(s) <= s.len(),
        dot_index(s) < s.len() ==> s[dot_index(s)] == '.',
    decreases s.len(),
{
    if s.len() > 0 && s[0] != '.' {
        lemma_first_dot_is_dot(s.drop_first());
        if dot_index(s) < s.len() {
            assert(s.drop_first()[dot_index(s) - 1] == s[dot_index(s)]);
        }
    }
}

/// The millionths of a string of digits are not negative.
proof fn lemma_micros_bounds(fraction: Seq<char>)
    requires
        all_digits(fraction),
    ensures
        0 <= micros(fraction),
{
    lemma_pow10_small();
    if fraction.len() >= 6 {
        let f = fraction.take(6);
        assert forall|k: int| 0 <= k < 6 implies is_digit(#[trigger] f[k]) by {
            assert(f[k] == fraction[k]);
        }
        assert(f.take(6) =~= f);
        lemma_digits_grow(f, 0, 6);
    } else {
        assert(fraction.take(fraction.len() as int) =~= fraction);
        lemma_digits_grow(fraction, 0, fraction.len() as int);
        let p = pow10((6 - fraction.len()) as nat);
        assert(digits_value(fraction) * p >= 0) by (nonlinear_arith)
            requires
                digits_value(fraction) >= 0,
                p > 0,
        ;
    }
}

/// Text that begins with `k` digits which stand for more than fits is no
/// frequency.
proof fn lemma_too_big(s: Seq<char>, k: int)
    requires
        0 <= k <= s.len(),
        forall|j: int| 0 <= j < k ==> #[trigger] s[j] != '.',
        digits_value(s.take(k)) > u64::MAX,
    ensures
        frequency_of_text(s) is None,
{
    lemma_dot_index(s, k);
    let dot = dot_index(s);
    if decimal_micros(s) is Some {
        let whole = whole_part(s);
        assert(whole.take(k) =~= s.take(k));
        assert(whole.take(dot) =~= whole);
        lemma_digits_grow(whole, k, dot);
        lemma_micros_bounds(fraction_part(s));
        assert(digits_value(whole) * HERTZ >= digits_value(whole)) by (nonlinear_arith)
            requires
                digits_value(whole) >= 0,
        ;
    }
}

/// Reads the digits before the first point: their value, and where they
/// end. Nothing comes back where the text is no frequency for a reason that
/// shows before the first point.
fn read_whole(bytes: &[u8], Ghost(s): Ghost<Seq<char>>) -> (r: Option<(u64, usize)>)
    requires
        spells(bytes@, s),
    ensures
        match r {
            Some((whole, dot)) => {
                &&& dot == dot_index(s)
                &&& dot <= s.len()
                &&& all_digits(whole_part(s))
                &&& whole == digits_value(whole_part(s))
            },
            None => frequency_of_text(s) is None,
        },
{
    let mut i: usize = 0;
    let mut whole: u64 = 0;
    while i < bytes.len() && bytes[i] != 46
        invariant
            spells(bytes@, s),
            i <= bytes.len(),
            forall|k: int| 0 <= k < i ==> #[trigger] s[k] != '.',
            all_digits(s.take(i as int)),
            whole == digits_value(s.take(i as int)),
        decreases bytes.len() - i,
    {
        let byte = bytes[i];
        assert(bytes@[i as int] as int == s[i as int] as int);
        if byte < 48 || byte > 57 {
            proof {
                lemma_stray(s, i as int);
            }
            return None;
        }
        let digit: u64 = (byte - 48) as u64;
        proof {
            lemma_digits_step(s, i as int);
            lemma_digits_more(s, i as int);
        }
        if whole > (u64::MAX - digit) / 10 {
            proof {
                lemma_too_big(s, i + 1);
            }
            return None;
        }
        whole = whole * 10 + digit;
        i = i + 1;
    }
    proof {
        if i < bytes.len() {
            assert(bytes@[i as int] as int == s[i as int] as int);
        }
        lemma_dot_index(s, i as int);
    }
    Some((whole, i))
}

/// Reads the decimal places behind the point at `dot`: their millionths,
/// and how many places there are. Nothing comes back where one of them is
/// no digit.
fn read_places(bytes: &[u8], Ghost(s): Ghost<Seq<char>>, dot: usize) -> (r: Option<(u64, usize)>)
    requires
        spells(bytes@, s),
        dot == dot_index(s),
        dot <= s.len(),
    ensures
        match r {
            Some((millionths, places)) => {
                &&& all_digits(fraction_part(s))
                &&& millionths == micros(fraction_part(s))
                &&& places == fraction_part(s).len()
            },
            None => !all_digits(fraction_part(s)),
        },
{
    let ghost f = fraction_part(s);
    let n = bytes.len();
    let mut value: u64 = 0;
    let mut taken: usize = 0;
    let mut places: usize = 0;
    if dot < n {
        assert(f.take(0) =~= Seq::<char>::empty());
        while places < n - dot - 1
            invariant
                spells(bytes@, s),
                n == bytes.len(),
                dot < n,
                f == fraction_part(s),
                f == s.skip(dot + 1),
                places <= n - dot - 1,
                all_digits(f.take(places as int)),
                taken == if places < 6 {
                    places
                } else {
                    6
                },
                value == digits_value(f.take(taken as int)),
                0 <= value < pow10(taken as nat),
            decreases n - places,
        {
            let byte = bytes[dot + 1 + places];
            assert(bytes@[dot + 1 + places] as int == s[dot + 1 + places] as int);
            assert(f[places as int] == s[dot + 1 + places]);
            if byte < 48 || byte > 57 {
                return None;
            }
            proof {
                lemma_digits_more(f, places as int);
                lemma_pow10_small();
            }
            if taken < 6 {
                proof {
                    lemma_digits_step(f, taken as int);
                }
                value = value * 10 + (byte - 48) as u64;
                taken = taken + 1;
            }
            places = places + 1;
        }
        assert(f.take(places as int) =~= f);
    }
    proof {
        lemma_pow10_small();
        assert(f.len() < 6 ==> f.take(taken as int) =~= f);
        assert(f.len() == 0 ==> f.take(0) =~= f);
    }
    let ghost digits = digits_value(f.take(taken as int));
    assert(value == digits);
    assert(pow10((taken - taken) as nat) == 1);
    let mut scale: usize = taken;
    while scale < 6
        invariant
            taken <= scale <= 6,
            value == digits * pow10((scale - taken) as nat),
            0 <= value < pow10(scale as nat),
        decreases 6 - scale,
    {
        proof {
            lemma_pow10_small();
            assert(pow10((scale + 1 - taken) as nat) == 10 * pow10((scale - taken) as nat));
            assert(digits * (10 * pow10((scale - taken) as nat)) == (digits * pow10(
                (scale - taken) as nat,
            )) * 10) by (nonlinear_arith);
        }
        value = value * 10;
        scale = scale + 1;
    }
    Some((value, places))
}

/// Reads a frequency written as a decimal number of hertz, to the
/// micro-hertz. Nothing comes back for text that is no such number, or
/// whose value does not fit.
pub fn parse_frequency(text: &str) -> (frequency: Option<u64>)
    ensures
        frequency == frequency_of_text(text@),
{
    let ghost s = text@;
    if !text.is_ascii() {
        proof {
            let i = choose|i: int| 0 <= i < s.len() && !('\0' <= #[trigger] s[i] <= '\u{7f}');
            lemma_first_dot_is_dot(s);
            lemma_stray(s, i);
        }
        return None;
    }
    let bytes = text.as_bytes();
    proof {
        is_ascii_spec_bytes(text);
        assert forall|k: int| 0 <= k < s.len() implies #[trigger] bytes@[k] as int == s[k] as int by {
            assert('\0' <= s[k] <= '\u{7f}');
        }
    }
    let (whole, dot) = match read_whole(bytes, Ghost(s)) {
        Some(read) => read,
        None => {
            return None;
        },
    };
    let (millionths, places) = match read_places(bytes, Ghost(s), dot) {
        Some(read) => read,
        None => {
            return None;
        },
    };
    if dot == 0 && places == 0 {
        return None;
    }
    let total: u128 = (whole as u128) * (HERTZ as u128) + (millionths as u128);
    if total > u64::MAX as u128 {
        None
    } else {
        Some(total as u64)
    }
}

} // verus!
