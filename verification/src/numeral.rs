//! Unsigned numbers as text: reading them in any radix, writing them in decimal or padded hex.
use vstd::prelude::*;
use vstd::arithmetic::power::pow;

verus! {

/// The value of a digit, if `c` is a digit of the radix. Letters of either case follow `9`.
pub open spec fn digit_value(c: char, radix: int) -> Option<int> {
    let n = c as int;
    let d = if '0' <= c && c <= '9' {
        n - '0' as int
    } else if 'a' <= c && c <= 'z' {
        n - 'a' as int + 10
    } else if 'A' <= c && c <= 'Z' {
        n - 'A' as int + 10
    } else {
        -1
    };
    if 0 <= d < radix {
        Some(d)
    } else {
        None
    }
}

/// `s` is one digit or more, and nothing else.
pub open spec fn is_numeral(s: Seq<char>, radix: int) -> bool {
    s.len() > 0 && forall|i: int| 0 <= i < s.len() ==> digit_value(#[trigger] s[i], radix) is Some
}

/// The number that a row of digits denotes.
pub open spec fn numeral_value(s: Seq<char>, radix: int) -> int
    decreases s.len(),
{
    if s.len() == 0 {
        0
    } else {
        numeral_value(s.drop_last(), radix) * radix + digit_value(s.last(), radix)->0
    }
}

/// `s` without the plus sign that may lead it.
pub open spec fn without_plus(s: Seq<char>) -> Seq<char> {
    if s.len() > 0 && s[0] == '+' {
        s.drop_first()
    } else {
        s
    }
}

/// The number that `s` denotes: an optional plus sign, then digits. There is none when the form
/// is another or the number exceeds `max`.
pub open spec fn parsed(s: Seq<char>, radix: int, max: int) -> Option<int> {
    let digits = without_plus(s);
    if is_numeral(digits, radix) && numeral_value(digits, radix) <= max {
        Some(numeral_value(digits, radix))
    } else {
        None
    }
}

/// A longer row of digits denotes a number at least as large.
proof fn lemma_value_grows(s: Seq<char>, i: int, radix: int)
    requires
        0 <= i <= s.len(),
        radix >= 2,
        is_numeral(s, radix),
    ensures
        0 <= numeral_value(s.take(i), radix) <= numeral_value(s, radix),
    decreases s.len() - i, s.len(),
{
    lemma_value_nonnegative(s, i, radix);
    if i < s.len() {
        lemma_value_grows(s, i + 1, radix);
        assert(s.take(i + 1).drop_last() == s.take(i));
        let v = numeral_value(s.take(i), radix);
        assert(v <= v * radix) by (nonlinear_arith)
            requires
                v >= 0,
                radix >= 2,
        ;
    } else {
        assert(s.take(i) == s);
    }
}

proof fn lemma_value_nonnegative(s: Seq<char>, i: int, radix: int)
    requires
        0 <= i <= s.len(),
        radix >= 2,
        is_numeral(s, radix),
    ensures
        0 <= numeral_value(s.take(i), radix),
    decreases i,
{
    if i > 0 {
        lemma_value_nonnegative(s, i - 1, radix);
        assert(s.take(i).drop_last() == s.take(i - 1));
        assert(s.take(i).last() == s[i - 1]);
        let v = numeral_value(s.take(i - 1), radix);
        assert(0 <= v * radix) by (nonlinear_arith)
            requires
                v >= 0,
                radix >= 2,
        ;
    }
}

/// Reads one digit.
fn read_digit(c: char, radix: u64) -> (d: Option<u64>)
    requires
        2 <= radix <= 36,
    ensures
        match d {
            Some(x) => digit_value(c, radix as int) == Some(x as int),
            None => digit_value(c, radix as int) is None,
        },
{
    let n: u32 = c as u32;
    let d: u64 = if '0' <= c && c <= '9' {
        (n - 48) as u64
    } else if 'a' <= c && c <= 'z' {
        (n - 97 + 10) as u64
    } else if 'A' <= c && c <= 'Z' {
        (n - 65 + 10) as u64
    } else {
        return None;
    };
    if d < radix {
        Some(d)
    } else {
        None
    }
}

/// Reads an unsigned number that must not exceed `max`.
pub fn parse_unsigned(s: &Vec<char>, radix: u64, max: u64) -> (n: Option<u64>)
    requires
        2 <= radix <= 36,
    ensures
        match n {
            Some(x) => parsed(s@, radix as int, max as int) == Some(x as int),
            None => parsed(s@, radix as int, max as int) is None,
        },
{
    let start: usize = if s.len() > 0 && s[0] == '+' {
        1
    } else {
        0
    };
    let ghost digits = without_plus(s@);
    assert(digits == s@.skip(start as int));
    if start == s.len() {
        return None;
    }
    let mut i: usize = start;
    let mut value: u64 = 0;
    while i < s.len()
        invariant
            start <= i <= s.len(),
            2 <= radix <= 36,
            digits == without_plus(s@),
            digits == s@.skip(start as int),
            forall|j: int|
                0 <= j < i - start ==> digit_value(#[trigger] digits[j], radix as int) is Some,
            value == numeral_value(digits.take(i - start), radix as int),
            value <= max,
        decreases s.len() - i,
    {
        let c: char = s[i];
        assert(digits[i - start] == c);
        let d: u64 = match read_digit(c, radix) {
            Some(d) => d,
            None => {
                return None;
            },
        };
        let ghost k = i - start;
        assert(digits.take(k + 1).drop_last() == digits.take(k));
        assert(0 <= value * radix <= u64::MAX * 36) by (nonlinear_arith)
            requires
                0 <= value <= u64::MAX,
                0 <= radix <= 36,
        ;
        let wider: u128 = (value as u128) * (radix as u128) + (d as u128);
        assert(wider == numeral_value(digits.take(k + 1), radix as int));
        if wider > max as u128 {
            proof {
                if is_numeral(digits, radix as int) {
                    lemma_value_grows(digits, k + 1, radix as int);
                }
            }
            return None;
        }
        value = wider as u64;
        i = i + 1;
    }
    assert(digits.take(digits.len() as int) == digits);
    Some(value)
}

/// The lower-case digit of a value below sixteen.
pub open spec fn digit_of(d: int) -> char {
    if d < 10 {
        (d + '0' as int) as char
    } else {
        (d - 10 + 'a' as int) as char
    }
}

/// The last `width` hex digits of `v`, with leading zeros.
pub open spec fn padded_hex(v: int, width: nat) -> Seq<char>
    decreases width,
{
    if width == 0 {
        Seq::empty()
    } else {
        padded_hex(v / 16, (width - 1) as nat).push(digit_of(v % 16))
    }
}

/// The decimal digits of `v`, without leading zeros.
pub open spec fn decimal(v: nat) -> Seq<char>
    decreases v,
{
    if v < 10 {
        seq![digit_of(v as int)]
    } else {
        decimal(v / 10).push(digit_of((v % 10) as int))
    }
}

/// Writes one digit.
fn write_digit(d: u64) -> (c: char)
    requires
        d < 16,
    ensures
        c == digit_of(d as int),
{
    if d < 10 {
        (48 + d as u8) as char
    } else {
        (97 + (d as u8 - 10)) as char
    }
}

/// Writes the last `width` hex digits of `v`.
pub fn write_hex(v: u64, width: usize) -> (out: Vec<char>)
    ensures
        out@ == padded_hex(v as int, width as nat),
    decreases width,
{
    if width == 0 {
        Vec::new()
    } else {
        let mut out: Vec<char> = write_hex(v / 16, width - 1);
        out.push(write_digit(v % 16));
        out
    }
}

/// Writes `v` in decimal.
pub fn write_decimal(v: u64) -> (out: Vec<char>)
    ensures
        out@ == decimal(v as nat),
    decreases v,
{
    if v < 10 {
        let mut out: Vec<char> = Vec::new();
        out.push(write_digit(v));
        assert(out@ == seq![digit_of(v as int)]);
        out
    } else {
        let mut out: Vec<char> = write_decimal(v / 10);
        out.push(write_digit(v % 10));
        out
    }
}

/// What `write_hex` writes reads back as the same number, whenever it fits the width.
pub proof fn lemma_hex_round_trip(v: int, width: nat, max: int)
    requires
        0 <= v < pow(16, width),
        v <= max,
        width > 0,
    ensures
        parsed(padded_hex(v, width), 16, max) == Some(v),
        padded_hex(v, width).len() == width,
        forall|i: int|
            0 <= i < width ==> digit_value(#[trigger] padded_hex(v, width)[i], 16) is Some,
{
    lemma_hex_value(v, width);
    assert(digit_value(padded_hex(v, width)[0], 16) is Some);
}

proof fn lemma_hex_value(v: int, width: nat)
    requires
        0 <= v < pow(16, width),
    ensures
        numeral_value(padded_hex(v, width), 16) == v,
        padded_hex(v, width).len() == width,
        forall|i: int|
            0 <= i < width ==> digit_value(#[trigger] padded_hex(v, width)[i], 16) is Some,
    decreases width,
{
    reveal(pow);
    if width > 0 {
        assert(v / 16 < pow(16, (width - 1) as nat));
        lemma_hex_value(v / 16, (width - 1) as nat);
        let s = padded_hex(v, width);
        assert(s.drop_last() == padded_hex(v / 16, (width - 1) as nat));
        assert forall|i: int| 0 <= i < width implies digit_value(#[trigger] s[i], 16) is Some by {
            if i < width - 1 {
                assert(s[i] == padded_hex(v / 16, (width - 1) as nat)[i]);
            }
        }
    }
}

/// What `write_decimal` writes reads back as the same number.
pub proof fn lemma_decimal_round_trip(v: nat, max: int)
    requires
        v <= max,
    ensures
        parsed(decimal(v), 10, max) == Some(v as int),
        decimal(v).len() > 0,
        forall|i: int|
            0 <= i < decimal(v).len() ==> digit_value(#[trigger] decimal(v)[i], 10) is Some,
{
    lemma_decimal_value(v);
    assert(digit_value(decimal(v)[0], 10) is Some);
}

proof fn lemma_decimal_value(v: nat)
    ensures
        numeral_value(decimal(v), 10) == v,
        decimal(v).len() > 0,
        forall|i: int|
            0 <= i < decimal(v).len() ==> digit_value(#[trigger] decimal(v)[i], 10) is Some,
    decreases v,
{
    let s = decimal(v);
    if v < 10 {
        assert(s.drop_last() == Seq::<char>::empty());
        assert(numeral_value(s.drop_last(), 10) == 0);
    } else {
        lemma_decimal_value(v / 10);
        assert(s.drop_last() == decimal(v / 10));
        assert forall|i: int| 0 <= i < s.len() implies digit_value(#[trigger] s[i], 10) is Some by {
            if i < s.len() - 1 {
                assert(s[i] == decimal(v / 10)[i]);
            }
        }
    }
}

} // verus!
