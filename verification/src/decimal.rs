//! Decimal numerals: what a run of digits is worth, and what a numeral with a
//! decimal point is worth in billionths.

use vstd::prelude::*;

verus! {

/// Ten to the power `e`.
pub open spec fn pow10(e: nat) -> nat
    decreases e,
{
    if e == 0 {
        1
    } else {
        10 * pow10((e - 1) as nat)
    }
}

/// A decimal digit, `0` to `9`.
pub open spec fn is_digit(c: char) -> bool {
    '0' <= c && c <= '9'
}

/// What a digit is worth.
pub open spec fn digit_value(c: char) -> nat {
    (c as int - '0' as int) as nat
}

/// The character of a digit's worth: the inverse of `digit_value`.
pub open spec fn digit_char(d: nat) -> char {
    (d + '0' as nat) as char
}

/// Every character of `s` is a digit.
pub open spec fn all_digits(s: Seq<char>) -> bool {
    forall|i: int| 0 <= i < s.len() ==> is_digit(#[trigger] s[i])
}

/// What a run of digits is worth, the first digit counting most.
pub open spec fn digits_value(s: Seq<char>) -> nat
    decreases s.len(),
{
    if s.len() == 0 {
        0
    } else {
        digits_value(s.drop_last()) * 10 + digit_value(s.last())
    }
}

/// The digits after the point, read as billionths: the first nine count, and
/// what follows them is dropped.
pub open spec fn billionths(frac: Seq<char>) -> nat {
    if frac.len() <= 9 {
        digits_value(frac) * pow10((9 - frac.len()) as nat)
    } else {
        digits_value(frac.take(9))
    }
}

pub proof fn lemma_pow10_adds(a: nat, b: nat)
    ensures
        pow10(a + b) == pow10(a) * pow10(b),
        pow10(a) > 0,
    decreases a,
{
    if a == 0 {
        assert(pow10(a) == 1);
        assert(1 * pow10(b) == pow10(b));
    } else {
        let pa = pow10((a - 1) as nat);
        let pb = pow10(b);
        lemma_pow10_adds((a - 1) as nat, b);
        assert(pow10(a) == 10 * pa);
        assert(pow10(a + b) == 10 * pow10((a + b - 1) as nat));
        assert(10 * (pa * pb) == (10 * pa) * pb) by (nonlinear_arith);
    }
}

pub proof fn lemma_pow10_nine()
    ensures
        pow10(9) == 1_000_000_000,
{
    reveal_with_fuel(pow10, 10);
}

/// The worth of two runs of digits set one after the other.
pub proof fn lemma_digits_value_concat(a: Seq<char>, b: Seq<char>)
    ensures
        digits_value(a + b) == digits_value(a) * pow10(b.len()) + digits_value(b),
    decreases b.len(),
{
    let x = digits_value(a);
    if b.len() == 0 {
        assert(a + b =~= a);
        assert(pow10(0) == 1);
        assert(x * 1 == x);
    } else {
        lemma_digits_value_concat(a, b.drop_last());
        assert((a + b).drop_last() =~= a + b.drop_last());
        assert((a + b).last() == b.last());
        let p = pow10((b.len() - 1) as nat);
        let y = digits_value(b.drop_last());
        assert(pow10(b.len()) == 10 * p);
        assert(digits_value(a + b) == (x * p + y) * 10 + digit_value(b.last()));
        assert(digits_value(b) == y * 10 + digit_value(b.last()));
        assert((x * p + y) * 10 == x * (10 * p) + y * 10) by (nonlinear_arith);
    }
}

/// A run of `n` digits is worth less than ten to the `n`.
pub proof fn lemma_digits_value_bound(s: Seq<char>)
    requires
        all_digits(s),
    ensures
        digits_value(s) < pow10(s.len()),
    decreases s.len(),
{
    if s.len() > 0 {
        lemma_digits_value_bound(s.drop_last());
        assert(is_digit(s.last()));
    }
}

/// A run of digits is worth at least as much as any run it begins with.
pub proof fn lemma_digits_value_prefix(s: Seq<char>, n: int)
    requires
        0 <= n <= s.len(),
    ensures
        digits_value(s.take(n)) <= digits_value(s),
{
    let rest = s.skip(n);
    assert(s =~= s.take(n) + rest);
    lemma_digits_value_concat(s.take(n), rest);
    lemma_pow10_adds(rest.len(), 0);
    let x = digits_value(s.take(n));
    let p = pow10(rest.len());
    assert(x <= x * p) by (nonlinear_arith)
        requires
            p > 0,
            x >= 0,
    ;
}

/// The numeral `whole.frac` is worth, in billionths and rounded down, the
/// whole part's billions and the first nine digits after the point.
pub proof fn lemma_billionths_floor(whole: Seq<char>, frac: Seq<char>)
    requires
        all_digits(frac),
    ensures
        digits_value(whole + frac) * pow10(9) / pow10(frac.len()) == digits_value(whole) * pow10(9)
            + billionths(frac),
{
    let w = digits_value(whole) as int;
    let f = digits_value(frac) as int;
    let m = frac.len();
    let scale = pow10(m) as int;
    let billion = pow10(9) as int;
    let v = digits_value(whole + frac) as int;
    lemma_digits_value_concat(whole, frac);
    lemma_pow10_adds(m, 0);
    if m <= 9 {
        let k = (9 - m) as nat;
        let step = pow10(k) as int;
        lemma_pow10_adds(k, m);
        assert(k + m == 9);
        let q = w * billion + f * step;
        assert(v * billion == q * scale + 0) by (nonlinear_arith)
            requires
                v == w * scale + f,
                billion == step * scale,
                q == w * billion + f * step,
        ;
        vstd::arithmetic::div_mod::lemma_fundamental_div_mod_converse(v * billion, scale, q, 0);
    } else {
        let k = (m - 9) as nat;
        let step = pow10(k) as int;
        let head = frac.take(9);
        let tail = frac.skip(9);
        assert(frac =~= head + tail);
        lemma_digits_value_concat(head, tail);
        assert(all_digits(tail)) by {
            assert forall|i: int| 0 <= i < tail.len() implies is_digit(#[trigger] tail[i]) by {
                assert(tail[i] == frac[i + 9]);
            }
        }
        lemma_digits_value_bound(tail);
        lemma_pow10_adds(9, k);
        assert(9 + k == m);
        let f1 = digits_value(head) as int;
        let f2 = digits_value(tail) as int;
        let q = w * billion + f1;
        let r = f2 * billion;
        assert(v * billion == q * scale + r) by (nonlinear_arith)
            requires
                v == w * scale + f,
                f == f1 * step + f2,
                scale == billion * step,
                q == w * billion + f1,
                r == f2 * billion,
        ;
        assert(0 <= r < scale) by (nonlinear_arith)
            requires
                0 <= f2 < step,
                billion > 0,
                scale == billion * step,
                r == f2 * billion,
        ;
        vstd::arithmetic::div_mod::lemma_fundamental_div_mod_converse(v * billion, scale, q, r);
    }
}

} // verus!
