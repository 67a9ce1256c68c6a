//! The texts that read as numbers: whole numbers of 32 bits with a sign, in
//! base ten or sixteen, and decimal fractions.

use crate::utils::{decimal_digit, is_decimal_digit};
use vstd::prelude::*;

verus! {

/// The largest value a text may have to fit into 32 bits with a sign.
pub open spec fn largest(negative: bool) -> int {
    if negative {
        0x8000_0000
    } else {
        0x7fff_ffff
    }
}

/// `c` is a plus or a minus sign.
pub open spec fn is_sign(c: char) -> bool {
    c == '+' || c == '-'
}

/// The value of the digit `c` in base `radix`, or -1 where `c` is no digit
/// of that base.
pub open spec fn digit_value(c: char, radix: int) -> int {
    let value = if '0' <= c <= '9' {
        c as int - '0' as int
    } else if 'a' <= c <= 'z' {
        c as int - 'a' as int + 10
    } else if 'A' <= c <= 'Z' {
        c as int - 'A' as int + 10
    } else {
        -1
    };
    if value < radix {
        value
    } else {
        -1
    }
}

/// The value in base `radix` of the first `n` digits of `s`.
pub open spec fn digits_value(s: Seq<char>, radix: int, n: int) -> int
    decreases n,
{
    if n <= 0 {
        0
    } else {
        digits_value(s, radix, n - 1) * radix + digit_value(s[n - 1], radix)
    }
}

/// Every scalar of `s` is a digit of base `radix`.
pub open spec fn all_digits_of(s: Seq<char>, radix: int) -> bool {
    forall|i: int| 0 <= i < s.len() ==> digit_value(#[trigger] s[i], radix) >= 0
}

/// `s` without its sign, if it starts with one.
pub open spec fn unsigned_part(s: Seq<char>) -> Seq<char> {
    if s.len() > 0 && is_sign(s[0]) {
        s.subrange(1, s.len() as int)
    } else {
        s
    }
}

/// `s` reads as a whole number of 32 bits in base `radix`: an optional
/// sign, then one digit or more, with a value that fits.
pub open spec fn is_integer_text(s: Seq<char>, radix: int) -> bool {
    let digits = unsigned_part(s);
    &&& digits.len() > 0
    &&& all_digits_of(digits, radix)
    &&& digits_value(digits, radix, digits.len() as int) <= largest(s[0] == '-')
}

fn digit(c: char, radix: u32) -> (value: Option<u32>)
    requires
        radix == 10 || radix == 16,
    ensures
        value matches Some(v) ==> v == digit_value(c, radix as int) && v < radix,
        value is None ==> digit_value(c, radix as int) == -1,
{
    let v: u32 = if '0' <= c && c <= '9' {
        c as u32 - '0' as u32
    } else if 'a' <= c && c <= 'z' {
        c as u32 - 'a' as u32 + 10
    } else if 'A' <= c && c <= 'Z' {
        c as u32 - 'A' as u32 + 10
    } else {
        return None;
    };
    if v < radix {
        Some(v)
    } else {
        None
    }
}

/// The value of digits never falls when a digit is added.
pub proof fn lemma_digits_value_grows(s: Seq<char>, radix: int, n: int)
    requires
        radix >= 1,
        0 <= n <= s.len(),
        all_digits_of(s, radix),
    ensures
        digits_value(s, radix, n) >= 0,
        n > 0 ==> digits_value(s, radix, n) >= digits_value(s, radix, n - 1),
    decreases n,
{
    if n > 0 {
        lemma_digits_value_grows(s, radix, n - 1);
        let v = digits_value(s, radix, n - 1);
        assert(v * radix >= v) by (nonlinear_arith)
            requires
                v >= 0,
                radix >= 1,
        ;
        assert(digit_value(s[n - 1], radix) >= 0);
    }
}

/// Whether the scalars of `s` read as a whole number of 32 bits in base
/// `radix`.
pub fn reads_as_integer(s: &Vec<char>, radix: u32) -> (b: bool)
    requires
        radix == 10 || radix == 16,
    ensures
        b == is_integer_text(s@, radix as int),
{
    let n = s.len();
    let signed = n > 0 && (s[0] == '+' || s[0] == '-');
    let negative = n > 0 && s[0] == '-';
    let start: usize = if signed {
        1
    } else {
        0
    };
    if start == n {
        return false;
    }
    let ghost digits = unsigned_part(s@);
    let limit: u64 = if negative {
        0x8000_0000
    } else {
        0x7fff_ffff
    };
    assert(digits =~= s@.subrange(start as int, n as int));
    let mut value: u64 = 0;
    let mut i: usize = start;
    while i < n
        invariant
            n == s@.len(),
            start <= i <= n,
            radix == 10 || radix == 16,
            digits == s@.subrange(start as int, n as int),
            digits == unsigned_part(s@),
            limit == largest(s@[0] == '-'),
            forall|j: int| 0 <= j < i - start ==> digit_value(#[trigger] digits[j], radix as int) >= 0,
            value == digits_value(digits, radix as int, i - start),
            value <= limit,
        decreases n - i,
    {
        assert(digits[i - start] == s@[i as int]);
        match digit(s[i], radix) {
            None => {
                assert(digit_value(digits[i - start], radix as int) == -1);
                return false;
            },
            Some(v) => {
                assert(value * radix <= 0x8000_0000 * 16) by (nonlinear_arith)
                    requires
                        value <= 0x8000_0000,
                        radix <= 16,
                ;
                let next: u64 = value * (radix as u64) + (v as u64);
                if next > limit {
                    proof {
                        lemma_value_stays_large(digits, radix as int, i - start + 1);
                    }
                    return false;
                }
                value = next;
            },
        }
        i += 1;
    }
    true
}

/// Once the value of the first digits is past a bound, so is the value of
/// all digits.
pub proof fn lemma_value_stays_large(s: Seq<char>, radix: int, n: int)
    requires
        radix >= 1,
        0 <= n <= s.len(),
    ensures
        all_digits_of(s, radix) ==> digits_value(s, radix, s.len() as int) >= digits_value(
            s,
            radix,
            n,
        ),
    decreases s.len() - n,
{
    if all_digits_of(s, radix) && n < s.len() {
        lemma_value_stays_large(s, radix, n + 1);
        lemma_digits_value_grows(s, radix, n + 1);
    }
}

/// Where the run of decimal digits ends that starts at `i`.
pub open spec fn digits_end(s: Seq<char>, i: int) -> int
    decreases s.len() - i,
{
    if 0 <= i < s.len() && is_decimal_digit(s[i]) {
        digits_end(s, i + 1)
    } else {
        i
    }
}

/// From `at` on, `s` is at its end or holds an exponent: `e` or `E`, an
/// optional sign, and one digit or more up to the end.
pub open spec fn exponent_or_end(s: Seq<char>, at: int) -> bool {
    ||| at == s.len()
    ||| {
        let digits = if at + 1 < s.len() && is_sign(s[at + 1]) {
            at + 2
        } else {
            at + 1
        };
        &&& at < s.len()
        &&& (s[at] == 'e' || s[at] == 'E')
        &&& digits_end(s, digits) > digits
        &&& digits_end(s, digits) == s.len()
    }
}

/// `s` reads as a decimal fraction: an optional sign, digits, a point,
/// digits, and an optional exponent, with a digit before or after the point.
pub open spec fn is_fraction_text(s: Seq<char>) -> bool {
    let start = if s.len() > 0 && is_sign(s[0]) {
        1int
    } else {
        0int
    };
    let point = digits_end(s, start);
    let after = digits_end(s, point + 1);
    &&& point < s.len()
    &&& s[point] == '.'
    &&& (point - start) + (after - (point + 1)) >= 1
    &&& exponent_or_end(s, after)
}

fn skip_digits(s: &Vec<char>, from: usize) -> (end: usize)
    requires
        from <= s@.len(),
    ensures
        end == digits_end(s@, from as int),
        from <= end <= s@.len(),
{
    let mut i: usize = from;
    while i < s.len() && decimal_digit(s[i])
        invariant
            from <= i <= s@.len(),
            digits_end(s@, from as int) == digits_end(s@, i as int),
        decreases s@.len() - i,
    {
        i += 1;
    }
    i
}

/// Whether the scalars of `s` read as a decimal fraction.
pub fn reads_as_fraction(s: &Vec<char>) -> (b: bool)
    ensures
        b == is_fraction_text(s@),
{
    let n = s.len();
    let start: usize = if n > 0 && (s[0] == '+' || s[0] == '-') {
        1
    } else {
        0
    };
    let point = skip_digits(s, start);
    if point >= n || s[point] != '.' {
        return false;
    }
    let after = skip_digits(s, point + 1);
    if (point - start) + (after - (point + 1)) < 1 {
        return false;
    }
    if after == n {
        return true;
    }
    if s[after] != 'e' && s[after] != 'E' {
        return false;
    }
    let digits = if after + 1 < n && (s[after + 1] == '+' || s[after + 1] == '-') {
        after + 2
    } else {
        after + 1
    };
    let end = skip_digits(s, digits);
    end > digits && end == n
}

} // verus!
