//! Writing a case the way a trace file does, so that a search finds the line in the file.
use vstd::prelude::*;
use vstd::arithmetic::power::pow;
use crate::layout::Kind;
use crate::numeral::{
    decimal, digit_value, lemma_decimal_round_trip, lemma_hex_round_trip, padded_hex,
    write_decimal, write_hex,
};
use crate::text::{begins_with, is_space, string_of, words};
use crate::trace::{
    after_line, field_value, row_of, row_values, Trace, TraceError, TraceView,
};

verus! {

/// How a trace writes a value: a count in decimal, raw bits in hex padded to their width.
pub open spec fn field_text(kind: Kind, v: u64) -> Seq<char> {
    match kind {
        Kind::Sat => decimal(v as nat),
        Kind::Q16 | Kind::Mask => padded_hex(v as int % 0x1_0000_0000, 8),
        Kind::Q32 | Kind::Q48 => padded_hex(v as int, 16),
    }
}

/// How a trace writes the first `n` values of a case: one space between fields.
pub open spec fn case_text(kinds: Seq<Kind>, row: Seq<u64>, n: nat) -> Seq<char>
    decreases n,
{
    if n == 0 {
        Seq::empty()
    } else if n == 1 {
        field_text(kinds[0], row[0])
    } else {
        case_text(kinds, row, (n - 1) as nat).push(' ') + field_text(kinds[n - 1], row[n - 1])
    }
}

/// Writes one value.
fn write_field(kind: Kind, v: u64) -> (text: Vec<char>)
    ensures
        text@ == field_text(kind, v),
{
    match kind {
        Kind::Sat => write_decimal(v),
        Kind::Q16 | Kind::Mask => write_hex(v % 0x1_0000_0000, 8),
        Kind::Q32 | Kind::Q48 => write_hex(v, 16),
    }
}

/// How many of the columns of a trace a row of `n` values fills.
pub open spec fn filled(trace: TraceView, n: nat) -> nat {
    if n < trace.kinds().len() {
        n
    } else {
        trace.kinds().len()
    }
}

impl Trace {
    /// Writes a case the way the trace file does. Columns without a value, and values without a
    /// column, are left out.
    pub fn format_case(&self, row: &[u64]) -> (text: String)
        ensures
            text@ == case_text(self@.kinds(), row@, filled(self@, row@.len())),
    {
        let ghost kinds = self@.kinds();
        let mut text: Vec<char> = Vec::new();
        let mut i: usize = 0;
        while i < row.len() && (i < self.inputs.len() || i - self.inputs.len()
            < self.outputs.len())
            invariant
                kinds == self@.kinds(),
                i <= filled(self@, row@.len()),
                text@ == case_text(kinds, row@, i as nat),
            decreases row@.len() - i,
        {
            let kind: Kind = if i < self.inputs.len() {
                self.inputs[i]
            } else {
                self.outputs[i - self.inputs.len()]
            };
            assert(kind == kinds[i as int]);
            let mut field: Vec<char> = write_field(kind, row[i]);
            if i > 0 {
                text.push(' ');
            } else {
                assert(text@ + field@ =~= field@);
            }
            text.append(&mut field);
            i = i + 1;
        }
        string_of(&text)
    }
}

/// A text without white space.
pub open spec fn solid(s: Seq<char>) -> bool {
    s.len() > 0 && forall|i: int| 0 <= i < s.len() ==> !is_space(#[trigger] s[i])
}

/// A solid text after white space, or at the beginning, is one more word.
proof fn lemma_one_more_word(s: Seq<char>, w: Seq<char>)
    requires
        solid(w),
        s.len() == 0 || is_space(s.last()),
    ensures
        words(s + w) == words(s).push(w),
    decreases w.len(),
{
    let whole = s + w;
    assert(whole.drop_last() == s + w.drop_last());
    assert(whole.last() == w.last());
    if w.len() == 1 {
        assert(w.drop_last() == Seq::<char>::empty());
        assert(s + w.drop_last() == s);
        assert(w =~= seq![w.last()]);
        if s.len() > 0 {
            assert(whole[whole.len() - 2] == s.last());
        }
    } else {
        assert(solid(w.drop_last())) by {
            assert forall|i: int| 0 <= i < w.len() - 1 implies !is_space(
                #[trigger] w.drop_last()[i],
            ) by {
                assert(w.drop_last()[i] == w[i]);
            }
        }
        lemma_one_more_word(s, w.drop_last());
        assert(whole[whole.len() - 2] == w[w.len() - 2]);
        assert(w.drop_last().push(w.last()) =~= w);
        assert(words(s).push(w.drop_last()).drop_last() =~= words(s));
    }
}

/// A value of a type: values of one word have no bits above it.
pub open spec fn fits(kind: Kind, v: u64) -> bool {
    (kind is Q16 || kind is Mask) ==> v < 0x1_0000_0000
}

/// A field holds digits alone, and reads back as the value that it was written from.
proof fn lemma_field(kind: Kind, v: u64)
    requires
        fits(kind, v),
    ensures
        solid(field_text(kind, v)),
        field_text(kind, v)[0] != '#',
        field_value(kind, field_text(kind, v)) == Some(v as int),
{
    let text = field_text(kind, v);
    assert(pow(16, 8) == 0x1_0000_0000) by {
        reveal_with_fuel(pow, 9);
    }
    assert(pow(16, 16) == 0x1_0000_0000_0000_0000) by {
        reveal_with_fuel(pow, 17);
    }
    match kind {
        Kind::Sat => {
            lemma_decimal_round_trip(v as nat, u64::MAX as int);
            assert forall|i: int| 0 <= i < text.len() implies !is_space(#[trigger] text[i]) by {
                assert(digit_value(text[i], 10) is Some);
            }
            assert(digit_value(text[0], 10) is Some);
        },
        Kind::Q16 | Kind::Mask => {
            lemma_hex_round_trip(v as int, 8, u64::MAX as int);
            assert forall|i: int| 0 <= i < text.len() implies !is_space(#[trigger] text[i]) by {
                assert(digit_value(text[i], 16) is Some);
            }
            assert(digit_value(text[0], 16) is Some);
        },
        Kind::Q32 | Kind::Q48 => {
            lemma_hex_round_trip(v as int, 16, u64::MAX as int);
            assert forall|i: int| 0 <= i < text.len() implies !is_space(#[trigger] text[i]) by {
                assert(digit_value(text[i], 16) is Some);
            }
            assert(digit_value(text[0], 16) is Some);
        },
    }
}

/// The words of a written case are its fields.
proof fn lemma_case_words(kinds: Seq<Kind>, row: Seq<u64>, n: nat)
    requires
        n <= kinds.len(),
        n <= row.len(),
        forall|i: int| 0 <= i < n ==> fits(kinds[i], #[trigger] row[i]),
    ensures
        words(case_text(kinds, row, n)) == Seq::new(n, |i: int| field_text(kinds[i], row[i])),
        n > 0 ==> case_text(kinds, row, n).len() > 0 && case_text(kinds, row, n)[0] != '#',
    decreases n,
{
    if n > 0 {
        let field = field_text(kinds[n - 1], row[n - 1]);
        assert(fits(kinds[n - 1], row[n - 1]));
        lemma_field(kinds[n - 1], row[n - 1]);
        lemma_case_words(kinds, row, (n - 1) as nat);
        let before = case_text(kinds, row, (n - 1) as nat);
        if n == 1 {
            assert(Seq::<char>::empty() + field =~= field);
            lemma_one_more_word(Seq::empty(), field);
        } else {
            let spaced = before.push(' ');
            assert(spaced.drop_last() == before);
            assert(words(spaced) == words(before));
            lemma_one_more_word(spaced, field);
            assert(case_text(kinds, row, n)[0] == before[0]);
        }
    }
    assert(words(case_text(kinds, row, n)) =~= Seq::new(
        n,
        |i: int| field_text(kinds[i], row[i]),
    ));
}

/// The fields of a written case hold the values that it was written from.
proof fn lemma_case_values(fields: Seq<Seq<char>>, kinds: Seq<Kind>, row: Seq<u64>, n: nat)
    requires
        n <= kinds.len(),
        n <= row.len(),
        n <= fields.len(),
        forall|i: int| 0 <= i < n ==> fits(kinds[i], #[trigger] row[i]),
        forall|i: int| 0 <= i < n ==> #[trigger] fields[i] == field_text(kinds[i], row[i]),
    ensures
        row_values(fields, kinds, n) == Ok::<Seq<u64>, int>(row.take(n as int)),
    decreases n,
{
    if n > 0 {
        lemma_case_values(fields, kinds, row, (n - 1) as nat);
        assert(fits(kinds[n - 1], row[n - 1]));
        lemma_field(kinds[n - 1], row[n - 1]);
        assert(fields[n - 1] == field_text(kinds[n - 1], row[n - 1]));
        assert(row.take(n as int) =~= row.take(n - 1).push(row[n - 1]));
    } else {
        assert(row.take(0) =~= Seq::<u64>::empty());
    }
}

/// A case that is written out and read again under the same columns is the same case: reading
/// the line adds exactly this case to the trace.
pub proof fn written_case_reads_back(trace: TraceView, row: Seq<u64>, n: nat)
    requires
        row.len() == trace.kinds().len(),
        row.len() > 0,
        forall|i: int| 0 <= i < row.len() ==> fits(trace.kinds()[i], #[trigger] row[i]),
    ensures
        after_line(trace, case_text(trace.kinds(), row, row.len()), n) == Ok::<
            TraceView,
            TraceError,
        >(TraceView { rows: trace.rows.push(row), ..trace }),
{
    let kinds = trace.kinds();
    let line = case_text(kinds, row, row.len());
    lemma_case_words(kinds, row, row.len());
    let fields = words(line);
    assert forall|i: int| 0 <= i < row.len() implies #[trigger] fields[i] == field_text(
        kinds[i],
        row[i],
    ) by {}
    lemma_case_values(fields, kinds, row, row.len());
    assert(row.take(row.len() as int) =~= row);
    assert(row_of(line, kinds, n) == Ok::<Seq<u64>, TraceError>(row));
    reveal_strlit("# in ");
    reveal_strlit("# out ");
    assert(!begins_with(line, "# in "@)) by {
        if begins_with(line, "# in "@) {
            assert(line.take("# in "@.len() as int)[0] == "# in "@[0]);
        }
    }
    assert(!begins_with(line, "# out "@)) by {
        if begins_with(line, "# out "@) {
            assert(line.take("# out "@.len() as int)[0] == "# out "@[0]);
        }
    }
}

} // verus!
