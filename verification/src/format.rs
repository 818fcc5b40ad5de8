//! The display of a total: hours, minutes and seconds in words.

use crate::decimal::{all_digits, digit_char, digit_value, digits_value, is_digit};
use vstd::prelude::*;
use vstd::string::*;

verus! {

/// Seconds in a minute.
pub const SECONDS_PER_MINUTE: u128 = 60;

/// Seconds in an hour.
pub const SECONDS_PER_HOUR: u128 = 3600;

/// The decimal numeral of `n`, without leading zeros.
pub open spec fn numeral(n: nat) -> Seq<char>
    decreases n,
{
    if n < 10 {
        seq![digit_char(n)]
    } else {
        numeral(n / 10).push(digit_char(n % 10))
    }
}

/// The numeral of `n`, with a zero before it where it has one digit only.
pub open spec fn two_digits(n: nat) -> Seq<char> {
    if n < 10 {
        seq!['0'] + numeral(n)
    } else {
        numeral(n)
    }
}

/// A count of seconds in words: whole hours, then the whole minutes that are
/// left, then the seconds that are left, each in two digits at least.
pub open spec fn watch_time_text(seconds: nat) -> Seq<char> {
    two_digits(seconds / 3600) + " Hours, "@ + two_digits(seconds % 3600 / 60) + " Minutes, "@
        + two_digits(seconds % 60) + " Seconds"@
}

/// The numeral of `n`, and nothing at all where `n` is 0.
spec fn leading(n: nat) -> Seq<char> {
    if n == 0 {
        Seq::empty()
    } else {
        numeral(n)
    }
}

/// A numeral is the numeral of its tens, then its last digit.
proof fn lemma_numeral_step(n: nat)
    ensures
        numeral(n) == leading(n / 10).push(digit_char(n % 10)),
{
    if n < 10 {
        assert(n / 10 == 0);
        assert(n % 10 == n);
        assert(seq![digit_char(n)] =~= Seq::<char>::empty().push(digit_char(n)));
    }
}

/// A numeral holds digits only, and is worth the number it was written for.
pub proof fn lemma_numeral_value(n: nat)
    ensures
        all_digits(numeral(n)),
        digits_value(numeral(n)) == n,
        numeral(n).len() > 0,
    decreases n,
{
    let s = numeral(n);
    if n < 10 {
        assert(s.drop_last() =~= Seq::<char>::empty());
        assert(digits_value(s.drop_last()) == 0);
        assert(is_digit(digit_char(n)));
        assert(digit_value(digit_char(n)) == n);
    } else {
        lemma_numeral_value(n / 10);
        assert(s.drop_last() =~= numeral(n / 10));
        assert(s.last() == digit_char(n % 10));
        assert(is_digit(digit_char(n % 10)));
        assert(digit_value(digit_char(n % 10)) == n % 10);
        assert forall|i: int| 0 <= i < s.len() implies is_digit(#[trigger] s[i]) by {
            if i < s.len() - 1 {
                assert(s[i] == numeral(n / 10)[i]);
            }
        }
    }
}

/// The text of one digit.
fn digit_text(d: u8) -> (s: &'static str)
    requires
        d < 10,
    ensures
        s@ == seq![digit_char(d as nat)],
{
    proof {
        reveal_strlit("0");
        reveal_strlit("1");
        reveal_strlit("2");
        reveal_strlit("3");
        reveal_strlit("4");
        reveal_strlit("5");
        reveal_strlit("6");
        reveal_strlit("7");
        reveal_strlit("8");
        reveal_strlit("9");
    }
    let s = if d == 0 {
        "0"
    } else if d == 1 {
        "1"
    } else if d == 2 {
        "2"
    } else if d == 3 {
        "3"
    } else if d == 4 {
        "4"
    } else if d == 5 {
        "5"
    } else if d == 6 {
        "6"
    } else if d == 7 {
        "7"
    } else if d == 8 {
        "8"
    } else {
        "9"
    };
    assert(s@ =~= seq![digit_char(d as nat)]);
    s
}

/// Writes the decimal numeral of `n` at the end of `out`.
pub fn push_numeral(out: &mut String, n: u128)
    ensures
        final(out)@ == old(out)@ + numeral(n as nat),
{
    let mut digits: Vec<u8> = Vec::new();
    let mut rest: u128 = n / 10;
    digits.push((n % 10) as u8);
    let ghost mut low: Seq<char> = seq![digit_char((n % 10) as nat)];
    proof {
        lemma_numeral_step(n as nat);
        assert(numeral(n as nat) =~= leading(rest as nat) + low);
    }
    while rest > 0
        invariant
            numeral(n as nat) == leading(rest as nat) + low,
            low.len() == digits.len(),
            digits.len() > 0,
            forall|j: int| 0 <= j < digits.len() ==> digits@[j] < 10,
            forall|j: int|
                0 <= j < low.len() ==> low[j] == digit_char(
                    #[trigger] digits@[digits.len() - 1 - j] as nat,
                ),
        decreases rest,
    {
        let d: u8 = (rest % 10) as u8;
        proof {
            lemma_numeral_step(rest as nat);
            let grown = seq![digit_char(d as nat)] + low;
            assert(leading(rest as nat) + low =~= leading((rest / 10) as nat) + grown);
            assert forall|j: int| 0 <= j < grown.len() implies grown[j] == digit_char(
                #[trigger] digits@.push(d)[digits.len() - j] as nat,
            ) by {
                if j > 0 {
                    assert(grown[j] == low[j - 1]);
                    assert(digits@.push(d)[digits.len() - j] == digits@[digits.len() - 1 - (j
                        - 1)]);
                }
            }
            low = grown;
        }
        digits.push(d);
        rest = rest / 10;
    }
    assert(numeral(n as nat) =~= low);
    let mut i: usize = digits.len();
    while i > 0
        invariant
            i <= digits.len(),
            low.len() == digits.len(),
            forall|j: int| 0 <= j < digits.len() ==> digits@[j] < 10,
            forall|j: int|
                0 <= j < low.len() ==> low[j] == digit_char(
                    #[trigger] digits@[digits.len() - 1 - j] as nat,
                ),
            out@ == old(out)@ + low.take(digits.len() - i),
        decreases i,
    {
        i -= 1;
        let ghost before = out@;
        out.append(digit_text(digits[i]));
        proof {
            let k = digits.len() - 1 - i;
            assert(low[k] == digit_char(digits@[digits.len() - 1 - k] as nat));
            assert(low.take(k + 1) =~= low.take(k).push(low[k]));
            assert(out@ =~= old(out)@ + low.take(k + 1));
        }
    }
    assert(low.take(digits.len() as int) =~= low);
}

/// Writes `n` at the end of `out` in two digits at least.
pub fn push_two_digits(out: &mut String, n: u128)
    ensures
        final(out)@ == old(out)@ + two_digits(n as nat),
{
    if n < 10 {
        proof {
            reveal_strlit("0");
        }
        out.append("0");
    }
    let ghost before = out@;
    push_numeral(out, n);
    assert(out@ =~= old(out)@ + two_digits(n as nat)) by {
        if n < 10 {
            assert(before =~= old(out)@ + seq!['0']);
        }
    }
}

/// A count of whole seconds in words: `HH Hours, MM Minutes, SS Seconds`.
pub fn fmt_seconds(seconds: u128) -> (text: String)
    ensures
        text@ == watch_time_text(seconds as nat),
{
    let hours = seconds / SECONDS_PER_HOUR;
    let minutes = seconds % SECONDS_PER_HOUR / SECONDS_PER_MINUTE;
    let left = seconds % SECONDS_PER_MINUTE;
    let mut text = String::new();
    push_two_digits(&mut text, hours);
    text.append(" Hours, ");
    push_two_digits(&mut text, minutes);
    text.append(" Minutes, ");
    push_two_digits(&mut text, left);
    text.append(" Seconds");
    assert(text@ =~= watch_time_text(seconds as nat));
    text
}

} // verus!
