//! Durations, and reading one from the decimal text that the probe prints.
//!
//! A duration is held in whole nanoseconds. The text is a plain decimal
//! numeral of seconds: digits, optionally a point and more digits, with at
//! least one digit in all. No sign, no exponent. Digits past the ninth after
//! the point are dropped, never rounded up.

use crate::decimal::{
    all_digits, billionths, digit_value, digits_value, is_digit, lemma_billionths_floor,
    lemma_digits_value_prefix, lemma_pow10_nine, pow10,
};
use vstd::prelude::*;
use vstd::string::*;

verus! {

/// Nanoseconds in a second.
pub const NANOS_PER_SECOND: u64 = 1_000_000_000;

/// The byte of the decimal point.
const ASCII_POINT: u8 = 0x2e;

/// The byte of the digit `0`.
const ASCII_ZERO: u8 = 0x30;

/// The byte of the digit `9`.
const ASCII_NINE: u8 = 0x39;

/// A length of time in whole nanoseconds.
#[derive(Clone, Copy, Debug, PartialEq, Eq, Structural)]
pub struct Duration {
    pub nanos: u64,
}

impl View for Duration {
    type V = nat;

    open spec fn view(&self) -> nat {
        self.nanos as nat
    }
}

/// Why a text is no duration.
#[derive(Clone, Copy, Debug, PartialEq, Eq, Structural)]
pub enum ParseError {
    /// The text is not a decimal numeral.
    Malformed,
    /// The numeral is worth more nanoseconds than a `Duration` holds.
    OutOfRange,
}

/// Where the first decimal point of `text` stands; its length where it has none.
pub open spec fn point_at(text: Seq<char>) -> int
    decreases text.len(),
{
    if text.len() == 0 || text[0] == '.' {
        0
    } else {
        1 + point_at(text.drop_first())
    }
}

/// What stands before the first decimal point.
pub open spec fn whole_part(text: Seq<char>) -> Seq<char> {
    text.take(point_at(text))
}

/// What stands after the first decimal point.
pub open spec fn frac_part(text: Seq<char>) -> Seq<char> {
    if point_at(text) < text.len() {
        text.skip(point_at(text) + 1)
    } else {
        Seq::empty()
    }
}

/// The text is a decimal numeral: digits around at most one point, and at
/// least one digit.
pub open spec fn is_decimal(text: Seq<char>) -> bool {
    &&& all_digits(whole_part(text))
    &&& all_digits(frac_part(text))
    &&& whole_part(text).len() + frac_part(text).len() > 0
}

/// What a decimal numeral of seconds is worth in nanoseconds, rounded down.
pub open spec fn decimal_nanos(text: Seq<char>) -> nat {
    digits_value(whole_part(text) + frac_part(text)) * pow10(9) / pow10(frac_part(text).len())
}

/// What reading `text` as a duration gives: its worth in nanoseconds, or why
/// it has none.
pub open spec fn parsed(text: Seq<char>) -> Result<nat, ParseError> {
    if !is_decimal(text) {
        Err(ParseError::Malformed)
    } else if decimal_nanos(text) > u64::MAX {
        Err(ParseError::OutOfRange)
    } else {
        Ok(decimal_nanos(text))
    }
}

/// `bytes` spells `chars`, one byte for each character.
spec fn spells(bytes: Seq<u8>, chars: Seq<char>) -> bool {
    &&& bytes.len() == chars.len()
    &&& forall|i: int| 0 <= i < bytes.len() ==> (#[trigger] bytes[i]) as char == chars[i]
}

/// The first point stands at `p` when nothing before `p` is a point and `p`
/// is a point or the end.
proof fn lemma_point_at(text: Seq<char>, p: int)
    requires
        0 <= p <= text.len(),
        forall|j: int| 0 <= j < p ==> text[j] != '.',
        p < text.len() ==> text[p] == '.',
    ensures
        point_at(text) == p,
    decreases p,
{
    if p > 0 {
        let rest = text.drop_first();
        assert forall|j: int| 0 <= j < p - 1 implies rest[j] != '.' by {
            assert(rest[j] == text[j + 1]);
        }
        lemma_point_at(rest, p - 1);
    }
}

/// Every power of ten up to the ninth is at most a billion.
proof fn lemma_pow10_small(e: nat)
    requires
        e <= 9,
    ensures
        0 < pow10(e) <= 1_000_000_000,
        pow10(e + 1) == 10 * pow10(e),
{
    reveal_with_fuel(pow10, 11);
}

/// A text that holds anything but digits and one point is no decimal numeral.
proof fn lemma_not_decimal(text: Seq<char>, i: int)
    requires
        0 <= i < text.len(),
        i != point_at(text),
        !is_digit(text[i]),
    ensures
        !is_decimal(text),
{
    let p = point_at(text);
    lemma_point_at_bounds(text);
    if i < p {
        assert(whole_part(text)[i] == text[i]);
    } else {
        assert(frac_part(text)[i - p - 1] == text[i]);
    }
}

/// The first point stands within the text or at its end.
proof fn lemma_point_at_bounds(text: Seq<char>)
    ensures
        0 <= point_at(text) <= text.len(),
        point_at(text) < text.len() ==> text[point_at(text)] == '.',
    decreases text.len(),
{
    if text.len() > 0 && text[0] != '.' {
        lemma_point_at_bounds(text.drop_first());
    }
}

/// Reads a decimal numeral of seconds as a duration.
///
/// Succeeds exactly on the decimal numerals that are worth at most
/// `u64::MAX` nanoseconds, and tells the two kinds of failure apart.
pub fn parse_duration(text: &str) -> (r: Result<Duration, ParseError>)
    ensures
        match r {
            Ok(d) => parsed(text@) == Ok::<nat, ParseError>(d@),
            Err(e) => parsed(text@) == Err::<nat, ParseError>(e),
        },
{
    broadcast use is_ascii_spec_bytes;

    let ghost chars = text@;
    if !text.is_ascii() {
        proof {
            let i = choose|i: int| 0 <= i < chars.len() && !('\0' <= #[trigger] chars[i] <= '\u{7f}');
            lemma_point_at_bounds(chars);
            lemma_not_decimal(chars, i);
        }
        return Err(ParseError::Malformed);
    }
    let bytes = text.as_bytes();
    let n = bytes.len();
    assert(spells(bytes@, chars)) by {
        assert forall|i: int| 0 <= i < n implies (#[trigger] bytes@[i]) as char == chars[i] by {
            assert('\0' <= chars[i] <= '\u{7f}');
            assert(bytes@[i] == chars[i] as u8);
        }
    }

    // Where the point stands.
    let mut p: usize = 0;
    while p < n && bytes[p] != ASCII_POINT
        invariant
            p <= n,
            n == chars.len(),
            n == bytes@.len(),
            spells(bytes@, chars),
            forall|j: int| 0 <= j < p ==> chars[j] != '.',
        decreases n - p,
    {
        p += 1;
    }
    proof {
        lemma_point_at(chars, p as int);
    }
    let ghost whole = whole_part(chars);
    let ghost frac = frac_part(chars);
    let frac_len: usize = if p < n {
        n - p - 1
    } else {
        0
    };
    assert(whole.len() == p && frac.len() == frac_len);
    if p + frac_len == 0 {
        return Err(ParseError::Malformed);
    }
    // All else has to be digits.
    let mut i: usize = 0;
    while i < n
        invariant
            i <= n,
            p <= n,
            n == chars.len(),
            n == bytes@.len(),
            chars == text@,
            point_at(chars) == p,
            spells(bytes@, chars),
            forall|j: int| 0 <= j < i && j != p ==> is_digit(chars[j]),
        decreases n - i,
    {
        if i != p && !(ASCII_ZERO <= bytes[i] && bytes[i] <= ASCII_NINE) {
            proof {
                lemma_not_decimal(chars, i as int);
            }
            return Err(ParseError::Malformed);
        }
        i += 1;
    }
    assert(all_digits(whole));
    assert(all_digits(frac)) by {
        assert forall|j: int| 0 <= j < frac.len() implies is_digit(#[trigger] frac[j]) by {
            assert(frac[j] == chars[p + 1 + j]);
        }
    }
    assert(is_decimal(chars));
    proof {
        lemma_billionths_floor(whole, frac);
        lemma_pow10_nine();
    }

    // The whole seconds.
    let mut seconds: u64 = 0;
    let mut i: usize = 0;
    while i < p
        invariant
            i <= p <= n,
            n == bytes@.len(),
            n == chars.len(),
            whole == chars.take(p as int),
            whole.len() == p,
            chars == text@,
            is_decimal(chars),
            all_digits(whole),
            spells(bytes@, chars),
            seconds == digits_value(whole.take(i as int)),
            decimal_nanos(chars) == digits_value(whole) * 1_000_000_000 + billionths(frac),
        decreases p - i,
    {
        proof {
            assert(whole[i as int] == chars[i as int]);
            assert(is_digit(whole[i as int]));
        }
        let digit: u64 = (bytes[i] - ASCII_ZERO) as u64;
        proof {
            assert(whole.take(i + 1).drop_last() =~= whole.take(i as int));
            assert(digit == digit_value(whole[i as int]));
            assert(digits_value(whole.take(i + 1)) == seconds * 10 + digit);
            lemma_digits_value_prefix(whole, i + 1);
        }
        let next = match seconds.checked_mul(10) {
            Some(tens) => tens.checked_add(digit),
            None => None,
        };
        match next {
            Some(value) => {
                seconds = value;
            },
            None => {
                return Err(ParseError::OutOfRange);
            },
        }
        i += 1;
    }
    assert(whole.take(p as int) =~= whole);

    // The first nine digits after the point, in billionths of a second.
    let mut fraction: u64 = 0;
    let mut j: usize = 0;
    while j < 9
        invariant
            j <= 9,
            p <= n,
            n == bytes@.len(),
            frac.len() == frac_len,
            frac_len > 0 ==> p + 1 + frac_len == n,
            frac == frac_part(chars),
            point_at(chars) == p,
            n == chars.len(),
            all_digits(frac),
            spells(bytes@, chars),
            j <= frac_len ==> fraction == digits_value(frac.take(j as int)),
            j > frac_len ==> fraction == digits_value(frac) * pow10((j - frac_len) as nat),
            fraction < pow10(j as nat),
        decreases 9 - j,
    {
        proof {
            lemma_pow10_small(j as nat);
        }
        if j < frac_len {
            proof {
                assert(frac[j as int] == chars[p + 1 + j]);
                assert(is_digit(frac[j as int]));
            }
            let digit: u64 = (bytes[p + 1 + j] - ASCII_ZERO) as u64;
            proof {
                assert(frac.take(j + 1).drop_last() =~= frac.take(j as int));
                assert(digit == digit_value(frac[j as int]));
            }
            fraction = fraction * 10 + digit;
        } else {
            proof {
                if j == frac_len {
                    assert(frac.take(j as int) =~= frac);
                    assert(pow10(0) == 1);
                    assert(pow10(1) == 10) by {
                        reveal_with_fuel(pow10, 2);
                    }
                } else {
                    let k = (j - frac_len) as nat;
                    lemma_pow10_small(k);
                    let v = digits_value(frac);
                    let step = pow10(k);
                    assert((v * step) * 10 == v * (10 * step)) by (nonlinear_arith);
                }
            }
            fraction = fraction * 10;
        }
        j += 1;
    }
    assert(fraction == billionths(frac)) by {
        if frac_len == 9 {
            assert(frac.take(9) =~= frac);
            assert(pow10(0) == 1);
            assert(digits_value(frac) * 1 == digits_value(frac));
        }
    }

    let total = match seconds.checked_mul(NANOS_PER_SECOND) {
        Some(nanos) => nanos.checked_add(fraction),
        None => None,
    };
    match total {
        Some(nanos) => Ok(Duration { nanos }),
        None => Err(ParseError::OutOfRange),
    }
}

} // verus!
