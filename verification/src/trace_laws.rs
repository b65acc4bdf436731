//! What holds of reading and writing traces, whatever their text.
use vstd::prelude::*;
use vstd::arithmetic::power::pow;
use crate::layout::{lemma_kind_names_are_distinct, Kind};
use crate::render::{case_text, field_text, filled};
use crate::text::{begins_with, pieces, text_lines, without_return, words};
use crate::text_laws::{
    a_prefix_comes_first, a_separator_parts_the_pieces, a_text_without_separators_is_one_piece,
    decimals_have_their_place_value, denotes, numerals_read_as_their_place_value,
    other_texts_are_no_numerals, padded_hex_has_its_place_value, place_value, spells,
    written_digits,
};
use crate::trace::{
    after_line, after_lines, field_value, kind_named, kinds_named, names, row_values,
    trace_of, TraceError, TraceView,
};

verus! {

/// Every column but a count is raw bits in hex: a field reads as the sum of its digits, each
/// weighed by a power of sixteen. A count weighs its digits by powers of ten. A number that does
/// not fit 64 bits is none, and a leading plus sign changes nothing.
pub proof fn values_are_hex_and_counts_are_decimal(kind: Kind, field: Seq<char>, digits: Seq<int>)
    requires
        field.len() > 0,
    ensures
        !(kind is Sat) && spells(field, digits, 16) ==> field_value(kind, field) == (
        if place_value(digits, 16) < 0x1_0000_0000_0000_0000 {
            Some(place_value(digits, 16))
        } else {
            None
        }),
        kind is Sat && spells(field, digits, 10) ==> field_value(kind, field) == (if place_value(
            digits,
            10,
        ) < 0x1_0000_0000_0000_0000 {
            Some(place_value(digits, 10))
        } else {
            None
        }),
        field[0] != '+' ==> field_value(kind, seq!['+'] + field) == field_value(kind, field),
{
    if spells(field, digits, 16) {
        numerals_read_as_their_place_value(field, digits, 16, u64::MAX as int);
    }
    if spells(field, digits, 10) {
        numerals_read_as_their_place_value(field, digits, 10, u64::MAX as int);
    }
    assert((seq!['+'] + field).drop_first() =~= field);
}

/// A field with a character that is no digit of its radix holds no value.
pub proof fn fields_hold_digits_alone(kind: Kind, field: Seq<char>, i: int)
    requires
        0 <= i < field.len(),
        !(i == 0 && field[0] == '+'),
        forall|d: int|
            0 <= d < (if kind is Sat {
                10int
            } else {
                16
            }) ==> !#[trigger] denotes(field[i], d),
    ensures
        field_value(kind, field) is None,
{
    if kind is Sat {
        other_texts_are_no_numerals(field, i, 10, u64::MAX as int);
    } else {
        other_texts_are_no_numerals(field, i, 16, u64::MAX as int);
    }
}

proof fn lemma_kind_of_its_name(kind: Kind)
    ensures
        kind_named(kind.spec_name()) == Some(kind),
{
    let name = kind.spec_name();
    assert(names(name, kind));
    let chosen = choose|kind: Kind| names(name, kind);
    lemma_kind_names_are_distinct(kind, chosen);
}

proof fn lemma_kinds_of_their_names(fields: Seq<Seq<char>>, kinds: Seq<Kind>, n: int)
    requires
        0 <= n <= fields.len(),
        n <= kinds.len(),
        forall|i: int| 0 <= i < n ==> #[trigger] fields[i] == kinds[i].spec_name(),
    ensures
        kinds_named(fields.take(n)) == Ok::<Seq<Kind>, int>(kinds.take(n)),
    decreases n,
{
    if n > 0 {
        lemma_kinds_of_their_names(fields, kinds, n - 1);
        assert(fields.take(n).drop_last() =~= fields.take(n - 1));
        assert(fields.take(n).last() == fields[n - 1]);
        lemma_kind_of_its_name(kinds[n - 1]);
        assert(kinds.take(n - 1).push(kinds[n - 1]) =~= kinds.take(n));
    } else {
        assert(kinds.take(0) =~= Seq::<Kind>::empty());
    }
}

proof fn lemma_unknown_name_stays(fields: Seq<Seq<char>>, n: int, m: int, at: int)
    requires
        0 <= n <= m <= fields.len(),
        kinds_named(fields.take(n)) == Err::<Seq<Kind>, int>(at),
    ensures
        kinds_named(fields.take(m)) == Err::<Seq<Kind>, int>(at),
    decreases m,
{
    if n < m {
        lemma_unknown_name_stays(fields, n, m - 1, at);
        assert(fields.take(m).drop_last() =~= fields.take(m - 1));
    }
}

/// Neither header is the other, and both are comments to anything else.
proof fn lemma_headers_differ(header: Seq<char>)
    ensures
        begins_with("# in "@ + header, "# in "@),
        begins_with("# out "@ + header, "# out "@),
        !begins_with("# out "@ + header, "# in "@),
        ("# in "@ + header).skip("# in "@.len() as int) == header,
        ("# out "@ + header).skip("# out "@.len() as int) == header,
{
    reveal_strlit("# in ");
    reveal_strlit("# out ");
    a_prefix_comes_first("# in "@, header, header);
    a_prefix_comes_first("# out "@, header, header);
    let line = "# out "@ + header;
    if begins_with(line, "# in "@) {
        assert(line.take("# in "@.len() as int)[2] == 'o');
        assert("# in "@[2] == 'i');
    }
    assert(("# in "@ + header).skip("# in "@.len() as int) =~= header);
    assert(line.skip("# out "@.len() as int) =~= header);
}

/// A header whose words are the names of types sets the inputs or the outputs to these types, in
/// their order, and leaves the rest of the trace alone.
pub proof fn headers_name_the_columns(
    trace: TraceView,
    header: Seq<char>,
    kinds: Seq<Kind>,
    n: nat,
)
    requires
        words(header).len() == kinds.len(),
        forall|i: int| 0 <= i < kinds.len() ==> #[trigger] words(header)[i] == kinds[i].spec_name(),
    ensures
        after_line(trace, "# in "@ + header, n) == Ok::<TraceView, TraceError>(
            TraceView { inputs: kinds, outputs: trace.outputs, rows: trace.rows },
        ),
        after_line(trace, "# out "@ + header, n) == Ok::<TraceView, TraceError>(
            TraceView { inputs: trace.inputs, outputs: kinds, rows: trace.rows },
        ),
{
    lemma_headers_differ(header);
    let fields = words(header);
    lemma_kinds_of_their_names(fields, kinds, kinds.len() as int);
    assert(fields.take(kinds.len() as int) =~= fields);
    assert(kinds.take(kinds.len() as int) =~= kinds);
}

/// A header with a word that is the name of no type is an error, which gives the line and the
/// first such word.
pub proof fn headers_with_an_unknown_name_are_errors(
    trace: TraceView,
    header: Seq<char>,
    kinds: Seq<Kind>,
    n: nat,
)
    requires
        kinds.len() < words(header).len(),
        forall|i: int| 0 <= i < kinds.len() ==> #[trigger] words(header)[i] == kinds[i].spec_name(),
        forall|kind: Kind| words(header)[kinds.len() as int] != #[trigger] kind.spec_name(),
    ensures
        ({
            let error = Err::<TraceView, TraceError>(
                TraceError::UnknownColumn { line: n as usize, field: kinds.len() as usize },
            );
            &&& after_line(trace, "# in "@ + header, n) == error
            &&& after_line(trace, "# out "@ + header, n) == error
        }),
{
    lemma_headers_differ(header);
    let fields = words(header);
    let at = kinds.len() as int;
    lemma_kinds_of_their_names(fields, kinds, at);
    assert(fields.take(at + 1).drop_last() =~= fields.take(at));
    assert(fields.take(at + 1).last() == fields[at]);
    assert forall|kind: Kind| !names(fields[at], kind) by {
        assert(fields[at] != kind.spec_name());
    }
    assert(kinds_named(fields.take(at + 1)) == Err::<Seq<Kind>, int>(at));
    lemma_unknown_name_stays(fields, at + 1, fields.len() as int, at);
    assert(fields.take(fields.len() as int) =~= fields);
}

/// An empty line, and a line that starts with a number sign without being a header, changes
/// nothing.
pub proof fn comments_change_nothing(trace: TraceView, line: Seq<char>, n: nat)
    requires
        line.len() == 0 || line[0] == '#',
        forall|header: Seq<char>| line != #[trigger] ("# in "@ + header),
        forall|header: Seq<char>| line != #[trigger] ("# out "@ + header),
    ensures
        after_line(trace, line, n) == Ok::<TraceView, TraceError>(trace),
{
    a_prefix_comes_first("# in "@, line, line);
    a_prefix_comes_first("# out "@, line, line);
    assert(line != "# in "@ + line.skip("# in "@.len() as int));
    assert(line != "# out "@ + line.skip("# out "@.len() as int));
}

/// The radix of a column.
pub open spec fn radix_of(kind: Kind) -> int {
    if kind is Sat {
        10
    } else {
        16
    }
}

/// The first `n` fields are rows of digits in the radix of their column, and the numbers that they
/// denote fit 64 bits.
pub open spec fn are_good(
    fields: Seq<Seq<char>>,
    kinds: Seq<Kind>,
    digits: Seq<Seq<int>>,
    n: int,
) -> bool {
    &&& 0 <= n <= fields.len()
    &&& n <= kinds.len()
    &&& n <= digits.len()
    &&& forall|i: int|
        0 <= i < n ==> {
            &&& (#[trigger] fields[i]).len() > 0
            &&& spells(fields[i], digits[i], radix_of(kinds[i]))
            &&& 0 <= place_value(digits[i], radix_of(kinds[i])) < 0x1_0000_0000_0000_0000
        }
}

proof fn lemma_good_fields(
    fields: Seq<Seq<char>>,
    kinds: Seq<Kind>,
    digits: Seq<Seq<int>>,
    n: nat,
)
    requires
        are_good(fields, kinds, digits, n as int),
    ensures
        row_values(fields, kinds, n) is Ok,
        row_values(fields, kinds, n)->Ok_0.len() == n,
        forall|i: int|
            0 <= i < n ==> #[trigger] row_values(fields, kinds, n)->Ok_0[i] == place_value(
                digits[i],
                radix_of(kinds[i]),
            ),
    decreases n,
{
    if n > 0 {
        let m = (n - 1) as nat;
        lemma_good_fields(fields, kinds, digits, m);
        assert(fields[n - 1].len() > 0);
        values_are_hex_and_counts_are_decimal(kinds[n - 1], fields[n - 1], digits[n - 1]);
        let value = place_value(digits[n - 1], radix_of(kinds[n - 1]));
        assert(field_value(kinds[n - 1], fields[n - 1]) == Some(value));
        let row = row_values(fields, kinds, n)->Ok_0;
        assert forall|i: int| 0 <= i < n implies #[trigger] row[i] == place_value(
            digits[i],
            radix_of(kinds[i]),
        ) by {
            if i < m {
                assert(row[i] == row_values(fields, kinds, m)->Ok_0[i]);
            }
        }
    }
}

proof fn lemma_no_header(line: Seq<char>)
    requires
        line.len() > 0,
        line[0] != '#',
    ensures
        !begins_with(line, "# in "@),
        !begins_with(line, "# out "@),
{
    reveal_strlit("# in ");
    reveal_strlit("# out ");
    if begins_with(line, "# in "@) {
        assert(line.take("# in "@.len() as int)[0] == "# in "@[0]);
    }
    if begins_with(line, "# out "@) {
        assert(line.take("# out "@.len() as int)[0] == "# out "@[0]);
    }
}

/// A line with a number for every column adds one case: the number of each column is the place
/// value of its digits, hex for raw bits and decimal for counts. Further fields are ignored. The
/// columns and the earlier cases stay.
pub proof fn a_line_of_numbers_is_a_case(
    trace: TraceView,
    line: Seq<char>,
    digits: Seq<Seq<int>>,
    n: nat,
)
    requires
        line.len() > 0,
        line[0] != '#',
        are_good(words(line), trace.kinds(), digits, trace.kinds().len() as int),
    ensures
        after_line(trace, line, n) is Ok,
        ({
            let after = after_line(trace, line, n)->Ok_0;
            let kinds = trace.inputs + trace.outputs;
            &&& after.inputs == trace.inputs
            &&& after.outputs == trace.outputs
            &&& after.rows.len() == trace.rows.len() + 1
            &&& after.rows.drop_last() == trace.rows
            &&& after.rows.last().len() == kinds.len()
            &&& forall|i: int|
                0 <= i < kinds.len() ==> #[trigger] after.rows.last()[i] == place_value(
                    digits[i],
                    radix_of(kinds[i]),
                )
        }),
{
    lemma_no_header(line);
    lemma_good_fields(words(line), trace.kinds(), digits, trace.kinds().len());
    let after = after_line(trace, line, n)->Ok_0;
    assert(after.rows.drop_last() =~= trace.rows);
}

/// A line of good numbers that ends before the last column is an error, which gives the line.
pub proof fn a_line_that_ends_early_is_an_error(
    trace: TraceView,
    line: Seq<char>,
    digits: Seq<Seq<int>>,
    n: nat,
)
    requires
        line.len() > 0,
        line[0] != '#',
        words(line).len() < trace.kinds().len(),
        are_good(words(line), trace.kinds(), digits, words(line).len() as int),
    ensures
        after_line(trace, line, n) == Err::<TraceView, TraceError>(
            TraceError::FieldCount { line: n as usize },
        ),
{
    lemma_no_header(line);
    lemma_good_fields(words(line), trace.kinds(), digits, words(line).len());
}

proof fn lemma_bad_field(fields: Seq<Seq<char>>, kinds: Seq<Kind>, at: nat, n: nat)
    requires
        at < n,
        row_values(fields, kinds, at) is Ok,
        field_value(kinds[at as int], fields[at as int]) is None,
    ensures
        row_values(fields, kinds, n) == Err::<Seq<u64>, int>(at as int),
    decreases n,
{
    if at < n - 1 {
        lemma_bad_field(fields, kinds, at, (n - 1) as nat);
    }
}

/// A line whose first bad field is `at` is an error, which gives the line and the field and tells
/// a bad count from bad bits.
pub proof fn a_line_with_a_bad_field_is_an_error(
    trace: TraceView,
    line: Seq<char>,
    digits: Seq<Seq<int>>,
    at: int,
    n: nat,
)
    requires
        line.len() > 0,
        line[0] != '#',
        0 <= at < words(line).len(),
        at < trace.kinds().len(),
        are_good(words(line), trace.kinds(), digits, at),
        field_value(trace.kinds()[at], words(line)[at]) is None,
    ensures
        after_line(trace, line, n) == Err::<TraceView, TraceError>(
            if trace.kinds()[at] is Sat {
                TraceError::BadSat { line: n as usize, field: at as usize }
            } else {
                TraceError::BadHex { line: n as usize, field: at as usize }
            },
        ),
{
    lemma_no_header(line);
    let fields = words(line);
    let kinds = trace.kinds();
    lemma_good_fields(fields, kinds, digits, at as nat);
    let shared = if fields.len() < kinds.len() {
        fields.len()
    } else {
        kinds.len()
    };
    lemma_bad_field(fields, kinds, at as nat, shared);
}

/// One more line comes last.
proof fn lemma_one_more_line(text: Seq<char>, line: Seq<char>)
    requires
        text.len() == 0 || text.last() == '\n',
        line.len() > 0,
        forall|i: int| 0 <= i < line.len() ==> #[trigger] line[i] != '\n',
    ensures
        text_lines(text + line) == text_lines(text).push(line),
{
    a_text_without_separators_is_one_piece(line, '\n');
    if text.len() == 0 {
        assert(text + line =~= line);
        assert(text_lines(line) =~= text_lines(text).push(line));
    } else {
        let before = text.drop_last();
        assert(before.push('\n') + line =~= text + line);
        assert(before.push('\n') + Seq::<char>::empty() =~= text);
        a_separator_parts_the_pieces(before, '\n', line);
        a_separator_parts_the_pieces(before, '\n', Seq::empty());
        a_text_without_separators_is_one_piece(Seq::empty(), '\n');
        let chomp = |line: Seq<char>| without_return(line);
        let ended = pieces(before, '\n').map_values(chomp);
        assert(pieces(text + line, '\n').drop_last() =~= pieces(before, '\n'));
        assert(pieces(text, '\n').drop_last() =~= pieces(before, '\n'));
        assert(text_lines(text) =~= ended);
        assert(text_lines(text + line) =~= ended.push(line));
    }
}

proof fn lemma_later_lines_do_not_matter(p: Seq<Seq<char>>, q: Seq<Seq<char>>, n: nat)
    requires
        n <= p.len(),
        n <= q.len(),
        forall|i: int| 0 <= i < n ==> #[trigger] p[i] == q[i],
    ensures
        after_lines(p, n) == after_lines(q, n),
    decreases n,
{
    if n > 0 {
        lemma_later_lines_do_not_matter(p, q, (n - 1) as nat);
        assert(p[n - 1] == q[n - 1]);
    }
}

/// What the lines of a text make of the empty trace.
pub open spec fn read_lines(text: Seq<char>) -> Result<TraceView, TraceError> {
    after_lines(text_lines(text), text_lines(text).len())
}

/// A text is read line by line: a further line works on what the text before it made, under the
/// number of lines before it, and an error before it stays. The empty text makes the empty trace.
pub proof fn a_text_is_read_line_by_line(text: Seq<char>, line: Seq<char>)
    requires
        text.len() == 0 || text.last() == '\n',
        line.len() > 0,
        forall|i: int| 0 <= i < line.len() ==> #[trigger] line[i] != '\n',
    ensures
        read_lines(text + line) == match read_lines(text) {
            Ok(trace) => after_line(trace, line, text_lines(text).len()),
            Err(error) => Err(error),
        },
        text.len() == 0 ==> {
            &&& read_lines(text) is Ok
            &&& read_lines(text)->Ok_0.inputs.len() == 0
            &&& read_lines(text)->Ok_0.outputs.len() == 0
            &&& read_lines(text)->Ok_0.rows.len() == 0
        },
{
    lemma_one_more_line(text, line);
    let before = text_lines(text);
    let all = text_lines(text + line);
    lemma_later_lines_do_not_matter(before, all, before.len());
    if text.len() == 0 {
        a_text_without_separators_is_one_piece(text, '\n');
        assert(text_lines(text) =~= Seq::<Seq<char>>::empty());
    }
}

/// A text holds the trace that its lines make, if that has a case; a text without a case is an
/// error.
pub proof fn a_trace_has_a_case(text: Seq<char>)
    ensures
        trace_of(text) == match read_lines(text) {
            Ok(trace) => if trace.rows.len() > 0 {
                Ok::<TraceView, TraceError>(trace)
            } else {
                Err(TraceError::NoCases)
            },
            Err(error) => Err(error),
        },
{
}

proof fn lemma_powers_of_sixteen()
    ensures
        pow(16, 8) == 0x1_0000_0000,
        pow(16, 16) == 0x1_0000_0000_0000_0000,
{
    assert(pow(16, 8) == 0x1_0000_0000) by {
        reveal_with_fuel(pow, 9);
    }
    assert(pow(16, 16) == 0x1_0000_0000_0000_0000) by {
        reveal_with_fuel(pow, 17);
    }
}

/// A count is written in decimal without leading zeros. Raw bits are written as lower-case hex
/// digits: eight for the low word of a value of one word, sixteen for a value of two.
pub proof fn fields_are_written_by_place_value(kind: Kind, v: u64)
    ensures
        ({
            let text = field_text(kind, v);
            &&& kind is Sat ==> {
                &&& place_value(written_digits(text), 10) == v
                &&& forall|i: int| 0 <= i < text.len() ==> 48 <= #[trigger] text[i] as int <= 57
                &&& text.len() > 1 ==> text[0] != '0'
            }
            &&& kind is Q16 || kind is Mask ==> {
                &&& text.len() == 8
                &&& place_value(written_digits(text), 16) == v as int % 0x1_0000_0000
            }
            &&& kind is Q32 || kind is Q48 ==> {
                &&& text.len() == 16
                &&& place_value(written_digits(text), 16) == v
            }
            &&& !(kind is Sat) ==> forall|i: int|
                0 <= i < text.len() ==> {
                    ||| 48 <= #[trigger] text[i] as int <= 57
                    ||| 97 <= text[i] as int <= 102
                }
            &&& text.len() > 0
        }),
{
    lemma_powers_of_sixteen();
    match kind {
        Kind::Sat => {
            decimals_have_their_place_value(v as nat);
        },
        Kind::Q16 | Kind::Mask => {
            padded_hex_has_its_place_value(v as int % 0x1_0000_0000, 8);
        },
        Kind::Q32 | Kind::Q48 => {
            padded_hex_has_its_place_value(v as int, 16);
        },
    }
}

/// A written case is its fields, in the order of the columns, with one space between any two: cut
/// at the spaces, it falls into exactly these fields.
pub proof fn cases_are_written_field_by_field(kinds: Seq<Kind>, row: Seq<u64>, n: nat)
    requires
        0 < n <= kinds.len(),
        n <= row.len(),
    ensures
        pieces(case_text(kinds, row, n), ' ') == Seq::new(
            n,
            |i: int| field_text(kinds[i], row[i]),
        ),
    decreases n,
{
    let field = field_text(kinds[n - 1], row[n - 1]);
    fields_are_written_by_place_value(kinds[n - 1], row[n - 1]);
    assert forall|i: int| 0 <= i < field.len() implies #[trigger] field[i] != ' ' by {
        assert(48 <= field[i] as int);
    }
    a_text_without_separators_is_one_piece(field, ' ');
    if n > 1 {
        let before = case_text(kinds, row, (n - 1) as nat);
        cases_are_written_field_by_field(kinds, row, (n - 1) as nat);
        a_separator_parts_the_pieces(before, ' ', field);
    }
    assert(pieces(case_text(kinds, row, n), ' ') =~= Seq::new(
        n,
        |i: int| field_text(kinds[i], row[i]),
    ));
}

/// A case is written as far as it has both columns and values.
pub proof fn cases_are_written_as_far_as_they_go(trace: TraceView, kinds: Seq<Kind>, row: Seq<u64>)
    ensures
        filled(trace, row.len()) <= row.len(),
        filled(trace, row.len()) <= trace.inputs.len() + trace.outputs.len(),
        filled(trace, row.len()) == row.len() || filled(trace, row.len()) == trace.inputs.len()
            + trace.outputs.len(),
        case_text(kinds, row, 0).len() == 0,
        trace.kinds().len() == trace.inputs.len() + trace.outputs.len(),
        forall|i: int|
            0 <= i < trace.inputs.len() ==> #[trigger] trace.kinds()[i] == trace.inputs[i],
        forall|i: int|
            0 <= i < trace.outputs.len() ==> trace.kinds()[trace.inputs.len() + i]
                == #[trigger] trace.outputs[i],
{
}

} // verus!
