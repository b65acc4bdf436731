//! What holds of splitting, trimming, reading and writing text, whatever the text.
use vstd::prelude::*;
use vstd::arithmetic::power::pow;
use crate::numeral::{
    decimal, digit_of, digit_value, is_numeral, numeral_value, padded_hex, parsed, without_plus,
};
use crate::text::{
    begins_with, contents, is_space, pieces, text_lines, trimmed, without_return, words,
};

verus! {

/// A separator parts a text: its pieces are those of what precedes it, then those of what follows.
pub proof fn a_separator_parts_the_pieces(s: Seq<char>, separator: char, t: Seq<char>)
    ensures
        pieces(s.push(separator) + t, separator) == pieces(s, separator) + pieces(t, separator),
    decreases t.len(),
{
    let whole = s.push(separator) + t;
    crate::text::lemma_pieces_nonempty(t, separator);
    if t.len() == 0 {
        assert(whole.drop_last() =~= s);
        assert(whole.last() == separator);
        assert(pieces(s, separator).push(Seq::empty()) =~= pieces(s, separator) + pieces(
            t,
            separator,
        ));
    } else {
        let shorter = t.drop_last();
        assert(whole.drop_last() =~= s.push(separator) + shorter);
        assert(whole.last() == t.last());
        a_separator_parts_the_pieces(s, separator, shorter);
        crate::text::lemma_pieces_nonempty(shorter, separator);
        assert(pieces(whole, separator) =~= pieces(s, separator) + pieces(t, separator));
    }
}

/// A text without separators is its only piece.
pub proof fn a_text_without_separators_is_one_piece(s: Seq<char>, separator: char)
    requires
        forall|i: int| 0 <= i < s.len() ==> #[trigger] s[i] != separator,
    ensures
        pieces(s, separator) == seq![s],
    decreases s.len(),
{
    if s.len() > 0 {
        let before = s.drop_last();
        assert forall|i: int| 0 <= i < before.len() implies #[trigger] before[i] != separator by {
            assert(before[i] == s[i]);
        }
        a_text_without_separators_is_one_piece(before, separator);
        assert(before.push(s.last()) =~= s);
        assert(s.last() == s[s.len() - 1]);
    } else {
        assert(s =~= Seq::empty());
    }
    assert(pieces(s, separator) =~= seq![s]);
}

/// A line feed ends a line, along with one carriage return before it; a last line without a line
/// feed is kept as it is, unless it is empty.
pub proof fn lines_end_at_line_feeds(line: Seq<char>, rest: Seq<char>)
    requires
        forall|i: int| 0 <= i < line.len() ==> #[trigger] line[i] != '\n',
    ensures
        text_lines(line.push('\n') + rest) == seq![
            if line.len() > 0 && line.last() == '\r' {
                line.drop_last()
            } else {
                line
            },
        ] + text_lines(rest),
        text_lines(line) == if line.len() == 0 {
            Seq::empty()
        } else {
            seq![line]
        },
{
    a_separator_parts_the_pieces(line, '\n', rest);
    a_text_without_separators_is_one_piece(line, '\n');
    crate::text::lemma_pieces_nonempty(rest, '\n');
    let all = pieces(line.push('\n') + rest, '\n');
    let others = pieces(rest, '\n');
    assert(all =~= seq![line] + others);
    let chomp = |line: Seq<char>| without_return(line);
    assert(all.drop_last().map_values(chomp) =~= seq![without_return(line)]
        + others.drop_last().map_values(chomp));
    assert(text_lines(line.push('\n') + rest) =~= seq![without_return(line)] + text_lines(rest));
    assert(text_lines(line) =~= if line.len() == 0 {
        Seq::empty()
    } else {
        seq![line]
    });
}

/// White space parts a text: its words are those of what precedes it, then those of what follows.
pub proof fn white_space_parts_the_words(s: Seq<char>, space: char, t: Seq<char>)
    requires
        is_space(space),
    ensures
        words(s.push(space) + t) == words(s) + words(t),
    decreases t.len(),
{
    let whole = s.push(space) + t;
    if t.len() == 0 {
        assert(whole.drop_last() =~= s);
        assert(whole.last() == space);
        assert(words(s) + words(t) =~= words(s));
    } else {
        let shorter = t.drop_last();
        assert(whole.drop_last() =~= s.push(space) + shorter);
        assert(whole.last() == t.last());
        white_space_parts_the_words(s, space, shorter);
        if t.len() > 1 {
            assert(whole[whole.len() - 2] == t[t.len() - 2]);
            if !is_space(t[t.len() - 2]) {
                assert(shorter.last() == t[t.len() - 2]);
                assert(words(shorter).len() > 0);
            }
        } else {
            assert(whole[whole.len() - 2] == space);
            assert(shorter.len() == 0);
        }
        assert(words(whole) =~= words(s) + words(t));
    }
}

/// A text without white space is its only word, and an empty text has none.
pub proof fn a_text_without_white_space_is_one_word(s: Seq<char>)
    requires
        forall|i: int| 0 <= i < s.len() ==> !is_space(#[trigger] s[i]),
    ensures
        words(s) == if s.len() == 0 {
            Seq::empty()
        } else {
            seq![s]
        },
    decreases s.len(),
{
    if s.len() > 0 {
        let before = s.drop_last();
        assert forall|i: int| 0 <= i < before.len() implies !is_space(#[trigger] before[i]) by {
            assert(before[i] == s[i]);
        }
        a_text_without_white_space_is_one_word(before);
        assert(s.last() == s[s.len() - 1]);
        if s.len() > 1 {
            assert(!is_space(s[s.len() - 2]));
            assert(before.push(s.last()) =~= s);
        } else {
            assert(seq![s.last()] =~= s);
        }
        assert(words(s) =~= seq![s]);
    }
}

/// All of `s` before `lo` and from `hi` on is white space, and what lies between has none at its
/// ends.
pub open spec fn is_core(s: Seq<char>, lo: int, hi: int) -> bool {
    &&& 0 <= lo <= hi <= s.len()
    &&& forall|i: int| 0 <= i < lo ==> is_space(#[trigger] s[i])
    &&& forall|i: int| hi <= i < s.len() ==> is_space(#[trigger] s[i])
    &&& lo < hi ==> !is_space(s[lo]) && !is_space(s[hi - 1])
}

/// Trimming drops white space alone, from the two ends alone, and as much of it as there is.
pub proof fn trimming_drops_the_outer_white_space(s: Seq<char>)
    ensures
        exists|lo: int, hi: int| #[trigger] is_core(s, lo, hi) && trimmed(s) == s.subrange(lo, hi),
    decreases s.len(),
{
    if s.len() > 0 && is_space(s[0]) {
        let t = s.drop_first();
        trimming_drops_the_outer_white_space(t);
        let (lo, hi) = choose|lo: int, hi: int|
            #[trigger] is_core(t, lo, hi) && trimmed(t) == t.subrange(lo, hi);
        assert(t.subrange(lo, hi) =~= s.subrange(lo + 1, hi + 1));
        assert(is_core(s, lo + 1, hi + 1)) by {
            assert forall|i: int| 0 <= i < lo + 1 implies is_space(#[trigger] s[i]) by {
                if i > 0 {
                    assert(t[i - 1] == s[i]);
                }
            }
            assert forall|i: int| hi + 1 <= i < s.len() implies is_space(#[trigger] s[i]) by {
                assert(t[i - 1] == s[i]);
            }
        }
    } else if s.len() > 0 && is_space(s.last()) {
        let t = s.drop_last();
        trimming_drops_the_outer_white_space(t);
        let (lo, hi) = choose|lo: int, hi: int|
            #[trigger] is_core(t, lo, hi) && trimmed(t) == t.subrange(lo, hi);
        assert(t.subrange(lo, hi) =~= s.subrange(lo, hi));
        assert(is_core(s, lo, hi)) by {
            assert forall|i: int| 0 <= i < lo implies is_space(#[trigger] s[i]) by {
                assert(t[i] == s[i]);
            }
            assert forall|i: int| hi <= i < s.len() implies is_space(#[trigger] s[i]) by {
                if i < t.len() {
                    assert(t[i] == s[i]);
                }
            }
        }
    } else {
        assert(s.subrange(0, s.len() as int) =~= s);
        assert(is_core(s, 0, s.len() as int));
    }
}

/// A list of character lists is its members, in their order.
pub proof fn contents_are_taken_one_by_one(list: Seq<Vec<char>>)
    ensures
        contents(list).len() == list.len(),
        forall|i: int| 0 <= i < list.len() ==> #[trigger] contents(list)[i] == list[i]@,
{
}

/// A text begins with a prefix exactly if it is the prefix followed by something.
pub proof fn a_prefix_comes_first(prefix: Seq<char>, rest: Seq<char>, s: Seq<char>)
    ensures
        begins_with(prefix + rest, prefix),
        begins_with(s, prefix) ==> s == prefix + s.skip(prefix.len() as int),
{
    assert((prefix + rest).take(prefix.len() as int) =~= prefix);
    if begins_with(s, prefix) {
        assert(s =~= s.take(prefix.len() as int) + s.skip(prefix.len() as int));
    }
}

/// `c` is the digit `d`: digits from ten on are letters of either case.
pub open spec fn denotes(c: char, d: int) -> bool {
    ||| 0 <= d < 10 && c as int == 48 + d
    ||| 10 <= d < 36 && (c as int == 87 + d || c as int == 55 + d)
}

/// The number that a row of digits denotes: each digit weighs a power of the radix, the first one
/// the most.
pub open spec fn place_value(digits: Seq<int>, radix: int) -> int
    decreases digits.len(),
{
    if digits.len() == 0 {
        0
    } else {
        digits[0] * pow(radix, (digits.len() - 1) as nat) + place_value(digits.drop_first(), radix)
    }
}

/// One more digit at the end multiplies the number by the radix and adds the digit.
proof fn lemma_place_value_push(digits: Seq<int>, d: int, radix: int)
    ensures
        place_value(digits.push(d), radix) == place_value(digits, radix) * radix + d,
    decreases digits.len(),
{
    let longer = digits.push(d);
    reveal(pow);
    if digits.len() == 0 {
        assert(longer.drop_first() =~= Seq::<int>::empty());
        assert(place_value(longer.drop_first(), radix) == 0);
        assert(pow(radix, 0) == 1);
        assert(d * 1 == d && 0 * radix == 0) by (nonlinear_arith);
    } else {
        let rest = digits.drop_first();
        assert(longer.drop_first() =~= rest.push(d));
        lemma_place_value_push(rest, d, radix);
        let p = pow(radix, (digits.len() - 1) as nat);
        assert(pow(radix, digits.len()) == radix * p);
        let first = digits[0];
        let v = place_value(rest, radix);
        assert(first * (radix * p) + (v * radix + d) == (first * p + v) * radix + d)
            by (nonlinear_arith);
    }
}

/// A digit of a radix is a character that denotes a number below the radix.
pub proof fn digits_denote_their_value(c: char, radix: int, d: int)
    requires
        2 <= radix <= 36,
    ensures
        digit_value(c, radix) == Some(d) <==> 0 <= d < radix && denotes(c, d),
{
}

/// `s` is the row of `digits` in the radix.
pub open spec fn spells(s: Seq<char>, digits: Seq<int>, radix: int) -> bool {
    &&& s.len() == digits.len()
    &&& forall|i: int|
        0 <= i < s.len() ==> 0 <= #[trigger] digits[i] < radix && denotes(s[i], digits[i])
}

proof fn lemma_numeral_value(s: Seq<char>, digits: Seq<int>, radix: int)
    requires
        2 <= radix <= 36,
        spells(s, digits, radix),
    ensures
        numeral_value(s, radix) == place_value(digits, radix),
        forall|i: int| 0 <= i < s.len() ==> digit_value(#[trigger] s[i], radix) is Some,
    decreases s.len(),
{
    assert forall|i: int| 0 <= i < s.len() implies digit_value(#[trigger] s[i], radix)
        is Some by {
        digits_denote_their_value(s[i], radix, digits[i]);
    }
    if s.len() > 0 {
        let n = s.len() - 1;
        assert(denotes(s[n], digits[n]));
        digits_denote_their_value(s[n], radix, digits[n]);
        assert(spells(s.drop_last(), digits.drop_last(), radix)) by {
            assert forall|i: int| 0 <= i < n implies 0 <= #[trigger] digits.drop_last()[i] < radix
                && denotes(s.drop_last()[i], digits.drop_last()[i]) by {
                assert(digits.drop_last()[i] == digits[i]);
                assert(s.drop_last()[i] == s[i]);
            }
        }
        lemma_numeral_value(s.drop_last(), digits.drop_last(), radix);
        lemma_place_value_push(digits.drop_last(), digits[n], radix);
        assert(digits.drop_last().push(digits[n]) =~= digits);
    }
}

/// A row of digits, with or without a plus sign, reads as its place value, unless that is too
/// large.
pub proof fn numerals_read_as_their_place_value(
    s: Seq<char>,
    digits: Seq<int>,
    radix: int,
    max: int,
)
    requires
        2 <= radix <= 36,
        s.len() > 0,
        spells(s, digits, radix),
    ensures
        parsed(s, radix, max) == (if place_value(digits, radix) <= max {
            Some(place_value(digits, radix))
        } else {
            None
        }),
        parsed(seq!['+'] + s, radix, max) == parsed(s, radix, max),
{
    lemma_numeral_value(s, digits, radix);
    assert(denotes(s[0], digits[0]));
    assert(without_plus(s) == s);
    assert((seq!['+'] + s).drop_first() =~= s);
}

/// A text that is empty or a lone plus sign, or that has anything but digits after an optional
/// plus sign, reads as no number.
pub proof fn other_texts_are_no_numerals(s: Seq<char>, i: int, radix: int, max: int)
    requires
        2 <= radix <= 36,
    ensures
        s.len() == 0 ==> parsed(s, radix, max) is None,
        s == seq!['+'] ==> parsed(s, radix, max) is None,
        0 <= i < s.len() && !(i == 0 && s[0] == '+') && (forall|d: int|
            0 <= d < radix ==> !#[trigger] denotes(s[i], d)) ==> parsed(s, radix, max) is None,
{
    if 0 <= i < s.len() && !(i == 0 && s[0] == '+') && (forall|d: int|
        0 <= d < radix ==> !#[trigger] denotes(s[i], d)) {
        let digits = without_plus(s);
        if is_numeral(digits, radix) {
            let k = if s[0] == '+' {
                i - 1
            } else {
                i
            };
            assert(digits[k] == s[i]);
            let d = digit_value(digits[k], radix)->0;
            digits_denote_their_value(s[i], radix, d);
        }
    }
    if s == seq!['+'] {
        assert(without_plus(s) =~= Seq::<char>::empty());
    }
}

/// The value of a decimal or lower-case hex digit.
pub open spec fn written_digit(c: char) -> int {
    if c as int <= 57 {
        c as int - 48
    } else {
        c as int - 87
    }
}

/// The digits of a written number.
pub open spec fn written_digits(s: Seq<char>) -> Seq<int> {
    s.map_values(|c: char| written_digit(c))
}

/// A number is written in decimal with the digits zero to nine, none of them a leading zero, and
/// their place value is the number.
pub proof fn decimals_have_their_place_value(v: nat)
    ensures
        place_value(written_digits(decimal(v)), 10) == v,
        forall|i: int| 0 <= i < decimal(v).len() ==> 48 <= #[trigger] decimal(v)[i] as int <= 57,
        decimal(v).len() > 0,
        decimal(v).len() > 1 ==> decimal(v)[0] != '0',
    decreases v,
{
    let s = decimal(v);
    if v < 10 {
        assert(written_digits(s) =~= Seq::<int>::empty().push(v as int));
        lemma_place_value_push(Seq::empty(), v as int, 10);
    } else {
        let head = decimal(v / 10);
        decimals_have_their_place_value(v / 10);
        assert(written_digits(s) =~= written_digits(head).push((v % 10) as int));
        lemma_place_value_push(written_digits(head), (v % 10) as int, 10);
        assert forall|i: int| 0 <= i < s.len() implies 48 <= #[trigger] s[i] as int <= 57 by {
            if i < head.len() {
                assert(s[i] == head[i]);
            }
        }
        assert(s[0] == head[0]);
        if head.len() == 1 {
            assert(head[0] != '0') by {
                if v / 10 >= 10 {
                    decimals_have_their_place_value(v / 10 / 10);
                } else {
                    assert(head[0] == digit_of((v / 10) as int));
                }
            }
        }
    }
}

/// A number is written in hex with as many lower-case digits as asked for, and their place value
/// is the number modulo what so many digits can hold.
pub proof fn padded_hex_has_its_place_value(v: int, width: nat)
    requires
        v >= 0,
    ensures
        padded_hex(v, width).len() == width,
        place_value(written_digits(padded_hex(v, width)), 16) == v % pow(16, width),
        forall|i: int|
            0 <= i < width ==> {
                ||| 48 <= #[trigger] padded_hex(v, width)[i] as int <= 57
                ||| 97 <= padded_hex(v, width)[i] as int <= 102
            },
    decreases width,
{
    reveal(pow);
    let s = padded_hex(v, width);
    if width > 0 {
        let shorter = (width - 1) as nat;
        let head = padded_hex(v / 16, shorter);
        padded_hex_has_its_place_value(v / 16, shorter);
        assert(written_digits(s) =~= written_digits(head).push(v % 16));
        lemma_place_value_push(written_digits(head), v % 16, 16);
        vstd::arithmetic::power::lemma_pow_positive(16, shorter);
        vstd::arithmetic::div_mod::lemma_mod_breakdown(v, 16, pow(16, shorter));
        assert forall|i: int| 0 <= i < width implies {
            ||| 48 <= #[trigger] s[i] as int <= 57
            ||| 97 <= s[i] as int <= 102
        } by {
            if i < head.len() {
                assert(s[i] == head[i]);
            }
        }
    } else {
        assert(pow(16, 0) == 1);
    }
}

} // verus!
