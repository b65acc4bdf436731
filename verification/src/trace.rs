//! Trace files: recorded cases of an entry point, one per line, as raw bits.
//!
//! A header line `# in` or `# out` names the types of the columns; every other line that starts
//! with `#`, and every empty line, is skipped. The remaining lines hold one case each.
use vstd::prelude::*;
use crate::layout::Kind;
use crate::numeral::{parse_unsigned, parsed};
use crate::text::{
    begins_with, chars_of, contents, lines, split_whitespace, strip_prefix, text_lines, words,
};

verus! {

/// The cases of a trace file and the types of their columns.
#[derive(Debug)]
pub struct Trace {
    pub inputs: Vec<Kind>,
    pub outputs: Vec<Kind>,
    pub rows: Vec<Vec<u64>>,
}

/// A trace as mathematical sequences.
#[verifier::ext_equal]
pub struct TraceView {
    pub inputs: Seq<Kind>,
    pub outputs: Seq<Kind>,
    pub rows: Seq<Seq<u64>>,
}

impl View for Trace {
    type V = TraceView;

    open spec fn view(&self) -> TraceView {
        TraceView {
            inputs: self.inputs@,
            outputs: self.outputs@,
            rows: self.rows@.map_values(|row: Vec<u64>| row@),
        }
    }
}

impl TraceView {
    /// The types of all columns: the inputs, then the outputs.
    pub open spec fn kinds(self) -> Seq<Kind> {
        self.inputs + self.outputs
    }
}

/// Why a text is not a trace. Lines and fields are counted from zero.
#[derive(Clone, Copy, Debug, PartialEq, Eq, Structural)]
pub enum TraceError {
    /// A header names a type that does not exist.
    UnknownColumn { line: usize, field: usize },
    /// A saturation count is no decimal number of 64 bits.
    BadSat { line: usize, field: usize },
    /// A value is no hex number of 64 bits.
    BadHex { line: usize, field: usize },
    /// A case has fewer fields than there are columns.
    FieldCount { line: usize },
    /// The text has no case.
    NoCases,
}

/// `name` is the name of `kind`.
pub open spec fn names(name: Seq<char>, kind: Kind) -> bool {
    name == kind.spec_name()
}

/// The type that `name` denotes.
pub open spec fn kind_named(name: Seq<char>) -> Option<Kind> {
    if exists|kind: Kind| names(name, kind) {
        Some(choose|kind: Kind| names(name, kind))
    } else {
        None
    }
}

/// The types that the fields of a header name, or the position of the first field that names
/// none.
pub open spec fn kinds_named(fields: Seq<Seq<char>>) -> Result<Seq<Kind>, int>
    decreases fields.len(),
{
    if fields.len() == 0 {
        Ok(Seq::empty())
    } else {
        match kinds_named(fields.drop_last()) {
            Err(field) => Err(field),
            Ok(kinds) => match kind_named(fields.last()) {
                Some(kind) => Ok(kinds.push(kind)),
                None => Err(fields.len() - 1),
            },
        }
    }
}

/// The value that a field holds: a count is decimal, every other column is raw bits in hex.
pub open spec fn field_value(kind: Kind, field: Seq<char>) -> Option<int> {
    if kind is Sat {
        parsed(field, 10, u64::MAX as int)
    } else {
        parsed(field, 16, u64::MAX as int)
    }
}

/// The first `n` values of a case, or the position of the first field that holds none.
pub open spec fn row_values(
    fields: Seq<Seq<char>>,
    kinds: Seq<Kind>,
    n: nat,
) -> Result<Seq<u64>, int>
    decreases n,
{
    if n == 0 {
        Ok(Seq::empty())
    } else {
        match row_values(fields, kinds, (n - 1) as nat) {
            Err(field) => Err(field),
            Ok(row) => match field_value(kinds[n - 1], fields[n - 1]) {
                Some(value) => Ok(row.push(value as u64)),
                None => Err(n - 1),
            },
        }
    }
}

/// The case that line `n` holds. Fields beyond the last column are ignored.
pub open spec fn row_of(
    line: Seq<char>,
    kinds: Seq<Kind>,
    n: nat,
) -> Result<Seq<u64>, TraceError> {
    let fields = words(line);
    let shared = if fields.len() < kinds.len() {
        fields.len()
    } else {
        kinds.len()
    };
    match row_values(fields, kinds, shared) {
        Err(field) => if kinds[field] is Sat {
            Err(TraceError::BadSat { line: n as usize, field: field as usize })
        } else {
            Err(TraceError::BadHex { line: n as usize, field: field as usize })
        },
        Ok(row) => if shared < kinds.len() {
            Err(TraceError::FieldCount { line: n as usize })
        } else {
            Ok(row)
        },
    }
}

/// The types that the header on line `n` names.
pub open spec fn header_kinds(text: Seq<char>, n: nat) -> Result<Seq<Kind>, TraceError> {
    match kinds_named(words(text)) {
        Ok(kinds) => Ok(kinds),
        Err(field) => Err(
            TraceError::UnknownColumn { line: n as usize, field: field as usize },
        ),
    }
}

/// What line `n` makes of the trace that was read so far.
pub open spec fn after_line(
    trace: TraceView,
    line: Seq<char>,
    n: nat,
) -> Result<TraceView, TraceError> {
    if begins_with(line, "# in "@) {
        match header_kinds(line.skip("# in "@.len() as int), n) {
            Ok(kinds) => Ok(TraceView { inputs: kinds, ..trace }),
            Err(error) => Err(error),
        }
    } else if begins_with(line, "# out "@) {
        match header_kinds(line.skip("# out "@.len() as int), n) {
            Ok(kinds) => Ok(TraceView { outputs: kinds, ..trace }),
            Err(error) => Err(error),
        }
    } else if line.len() == 0 || line[0] == '#' {
        Ok(trace)
    } else {
        match row_of(line, trace.kinds(), n) {
            Ok(row) => Ok(TraceView { rows: trace.rows.push(row), ..trace }),
            Err(error) => Err(error),
        }
    }
}

/// The trace without columns and cases.
pub open spec fn empty_trace() -> TraceView {
    TraceView { inputs: Seq::empty(), outputs: Seq::empty(), rows: Seq::empty() }
}

/// The trace that the first `n` lines make, or the first error among them.
pub open spec fn after_lines(lines: Seq<Seq<char>>, n: nat) -> Result<TraceView, TraceError>
    decreases n,
{
    if n == 0 {
        Ok(empty_trace())
    } else {
        match after_lines(lines, (n - 1) as nat) {
            Ok(trace) => after_line(trace, lines[n - 1], (n - 1) as nat),
            Err(error) => Err(error),
        }
    }
}

/// The trace that a text holds.
pub open spec fn trace_of(text: Seq<char>) -> Result<TraceView, TraceError> {
    let all = text_lines(text);
    match after_lines(all, all.len()) {
        Ok(trace) => if trace.rows.len() == 0 {
            Err(TraceError::NoCases)
        } else {
            Ok(trace)
        },
        Err(error) => Err(error),
    }
}

/// Names determine types.
proof fn lemma_kind_named(name: Seq<char>, kind: Kind)
    requires
        names(name, kind),
    ensures
        kind_named(name) == Some(kind),
{
    let chosen = choose|kind: Kind| names(name, kind);
    crate::layout::lemma_kind_names_are_distinct(kind, chosen);
}

/// Reads the types that the fields of a header name.
fn read_kinds(fields: &Vec<Vec<char>>) -> (kinds: Result<Vec<Kind>, usize>)
    ensures
        match kinds {
            Ok(kinds) => kinds_named(contents(fields@)) == Ok::<Seq<Kind>, int>(kinds@),
            Err(field) => kinds_named(contents(fields@)) == Err::<Seq<Kind>, int>(field as int),
        },
{
    let ghost all = contents(fields@);
    let mut kinds: Vec<Kind> = Vec::new();
    let mut i: usize = 0;
    while i < fields.len()
        invariant
            i <= fields.len(),
            all == contents(fields@),
            kinds_named(all.take(i as int)) == Ok::<Seq<Kind>, int>(kinds@),
        decreases fields.len() - i,
    {
        proof {
            assert(all.take(i + 1).drop_last() == all.take(i as int));
            assert(all.take(i + 1).last() == fields@[i as int]@);
        }
        match Kind::parse(&fields[i]) {
            Some(kind) => {
                proof {
                    assert(names(fields@[i as int]@, kind));
                    lemma_kind_named(fields@[i as int]@, kind);
                }
                kinds.push(kind);
            },
            None => {
                proof {
                    assert forall|kind: Kind| !names(fields@[i as int]@, kind) by {
                        assert(fields@[i as int]@ != kind.spec_name());
                    }
                    assert(kinds_named(all.take(i + 1)) == Err::<Seq<Kind>, int>(i as int));
                    lemma_bad_kind_stays(all, i + 1);
                }
                return Err(i);
            },
        }
        i = i + 1;
    }
    assert(all.take(all.len() as int) == all);
    Ok(kinds)
}

/// The first field that names no type is the same for every longer header.
proof fn lemma_bad_kind_stays(all: Seq<Seq<char>>, i: int)
    requires
        0 <= i <= all.len(),
        kinds_named(all.take(i)) is Err,
    ensures
        kinds_named(all) == kinds_named(all.take(i)),
    decreases all.len() - i,
{
    if i < all.len() {
        assert(all.take(i + 1).drop_last() == all.take(i));
        lemma_bad_kind_stays(all, i + 1);
    } else {
        assert(all.take(i) == all);
    }
}

/// Reads the value of one field.
fn read_field(kind: Kind, field: &Vec<char>) -> (value: Option<u64>)
    ensures
        match value {
            Some(x) => field_value(kind, field@) == Some(x as int),
            None => field_value(kind, field@) is None,
        },
{
    match kind {
        Kind::Sat => parse_unsigned(field, 10, u64::MAX),
        _ => parse_unsigned(field, 16, u64::MAX),
    }
}

/// The first bad field is the same however far the row is read.
proof fn lemma_bad_field_stays(fields: Seq<Seq<char>>, kinds: Seq<Kind>, i: nat, n: nat)
    requires
        i <= n,
        row_values(fields, kinds, i) is Err,
    ensures
        row_values(fields, kinds, n) == row_values(fields, kinds, i),
    decreases n - i,
{
    if i < n {
        lemma_bad_field_stays(fields, kinds, i, (n - 1) as nat);
    }
}

/// The type of column `i`.
fn kind_at(inputs: &Vec<Kind>, outputs: &Vec<Kind>, i: usize) -> (kind: Kind)
    requires
        i < inputs@.len() + outputs@.len(),
    ensures
        kind == (inputs@ + outputs@)[i as int],
{
    if i < inputs.len() {
        inputs[i]
    } else {
        outputs[i - inputs.len()]
    }
}

/// Reads the case on line `n`.
fn read_row(
    line: &Vec<char>,
    inputs: &Vec<Kind>,
    outputs: &Vec<Kind>,
    n: usize,
) -> (row: Result<Vec<u64>, TraceError>)
    ensures
        match row {
            Ok(row) => row_of(line@, inputs@ + outputs@, n as nat) == Ok::<Seq<u64>, TraceError>(
                row@,
            ),
            Err(error) => row_of(line@, inputs@ + outputs@, n as nat) == Err::<
                Seq<u64>,
                TraceError,
            >(error),
        },
{
    let fields: Vec<Vec<char>> = split_whitespace(line);
    let ghost all = contents(fields@);
    let ghost kinds = inputs@ + outputs@;
    let ghost shared: nat = if all.len() < kinds.len() {
        all.len()
    } else {
        kinds.len()
    };
    let mut row: Vec<u64> = Vec::new();
    let mut i: usize = 0;
    while i < fields.len() && (i < inputs.len() || i - inputs.len() < outputs.len())
        invariant
            all == contents(fields@),
            kinds == inputs@ + outputs@,
            all == words(line@),
            shared == if all.len() < kinds.len() {
                all.len()
            } else {
                kinds.len()
            },
            i <= shared,
            row_values(all, kinds, i as nat) == Ok::<Seq<u64>, int>(row@),
        decreases shared - i,
    {
        let kind: Kind = kind_at(inputs, outputs, i);
        assert(all[i as int] == fields@[i as int]@);
        match read_field(kind, &fields[i]) {
            Some(value) => {
                row.push(value);
            },
            None => {
                proof {
                    assert(row_values(all, kinds, (i + 1) as nat) == Err::<Seq<u64>, int>(
                        i as int,
                    ));
                    lemma_bad_field_stays(all, kinds, (i + 1) as nat, shared);
                }
                return match kind {
                    Kind::Sat => Err(TraceError::BadSat { line: n, field: i }),
                    _ => Err(TraceError::BadHex { line: n, field: i }),
                };
            },
        }
        i = i + 1;
    }
    assert(i == shared);
    if i < inputs.len() || i - inputs.len() < outputs.len() {
        return Err(TraceError::FieldCount { line: n });
    }
    Ok(row)
}

/// Reads the header on line `n`.
fn read_header(text: &Vec<char>, n: usize) -> (kinds: Result<Vec<Kind>, TraceError>)
    ensures
        match kinds {
            Ok(kinds) => header_kinds(text@, n as nat) == Ok::<Seq<Kind>, TraceError>(kinds@),
            Err(error) => header_kinds(text@, n as nat) == Err::<Seq<Kind>, TraceError>(error),
        },
{
    let fields: Vec<Vec<char>> = split_whitespace(text);
    match read_kinds(&fields) {
        Ok(kinds) => Ok(kinds),
        Err(field) => Err(TraceError::UnknownColumn { line: n, field }),
    }
}

/// The first error is the same however many lines follow.
proof fn lemma_error_stays(lines: Seq<Seq<char>>, i: nat, n: nat)
    requires
        i <= n,
        after_lines(lines, i) is Err,
    ensures
        after_lines(lines, n) == after_lines(lines, i),
    decreases n - i,
{
    if i < n {
        lemma_error_stays(lines, i, (n - 1) as nat);
    }
}

/// Reads the trace that a text holds.
pub fn read_trace(text: &str) -> (trace: Result<Trace, TraceError>)
    ensures
        match trace {
            Ok(trace) => trace_of(text@) == Ok::<TraceView, TraceError>(trace@),
            Err(error) => trace_of(text@) == Err::<TraceView, TraceError>(error),
        },
{
    let all: Vec<Vec<char>> = lines(&chars_of(text));
    let ghost content = contents(all@);
    let mut trace: Trace = Trace { inputs: Vec::new(), outputs: Vec::new(), rows: Vec::new() };
    assert(trace@ =~= empty_trace());
    let mut i: usize = 0;
    while i < all.len()
        invariant
            i <= all.len(),
            content == contents(all@),
            content == text_lines(text@),
            after_lines(content, i as nat) == Ok::<TraceView, TraceError>(trace@),
        decreases all.len() - i,
    {
        let line: &Vec<char> = &all[i];
        let ghost before = trace@;
        assert(content[i as int] == line@);
        assert(after_lines(content, (i + 1) as nat) == after_line(before, line@, i as nat));
        let outcome: Result<(), TraceError> = read_line(&mut trace, line, i);
        match outcome {
            Ok(_) => {},
            Err(error) => {
                proof {
                    lemma_error_stays(content, (i + 1) as nat, content.len());
                }
                return Err(error);
            },
        }
        i = i + 1;
    }
    if trace.rows.len() == 0 {
        return Err(TraceError::NoCases);
    }
    Ok(trace)
}

/// Reads line `n` into the trace.
fn read_line(trace: &mut Trace, line: &Vec<char>, n: usize) -> (outcome: Result<(), TraceError>)
    ensures
        match outcome {
            Ok(_) => after_line(old(trace)@, line@, n as nat) == Ok::<TraceView, TraceError>(
                final(trace)@,
            ),
            Err(error) => after_line(old(trace)@, line@, n as nat) == Err::<TraceView, TraceError>(
                error,
            ),
        },
{
    let ghost before = trace@;
    if let Some(header) = strip_prefix(line, "# in ") {
        match read_header(&header, n) {
            Ok(kinds) => {
                trace.inputs = kinds;
            },
            Err(error) => {
                return Err(error);
            },
        }
    } else if let Some(header) = strip_prefix(line, "# out ") {
        match read_header(&header, n) {
            Ok(kinds) => {
                trace.outputs = kinds;
            },
            Err(error) => {
                return Err(error);
            },
        }
    } else if line.len() == 0 || line[0] == '#' {
    } else {
        match read_row(line, &trace.inputs, &trace.outputs, n) {
            Ok(row) => {
                let ghost values = row@;
                trace.rows.push(row);
                assert(trace@.rows =~= before.rows.push(values));
            },
            Err(error) => {
                return Err(error);
            },
        }
    }
    Ok(())
}

proof fn lemma_row_len(fields: Seq<Seq<char>>, kinds: Seq<Kind>, n: nat)
    ensures
        row_values(fields, kinds, n) matches Ok(row) ==> row.len() == n,
    decreases n,
{
    if n > 0 {
        lemma_row_len(fields, kinds, (n - 1) as nat);
    }
}

/// A line changes a trace in one respect at most: it names the inputs, it names the outputs, or
/// it adds one case with a value for every column.
pub proof fn a_line_changes_one_thing(trace: TraceView, line: Seq<char>, n: nat)
    ensures
        after_line(trace, line, n) matches Ok(after) ==> {
            ||| after == trace
            ||| after.outputs == trace.outputs && after.rows == trace.rows
            ||| after.inputs == trace.inputs && after.rows == trace.rows
            ||| {
                &&& after.inputs == trace.inputs
                &&& after.outputs == trace.outputs
                &&& after.rows.len() == trace.rows.len() + 1
                &&& after.rows.drop_last() == trace.rows
                &&& after.rows.last().len() == trace.kinds().len()
            }
        },
{
    let fields = words(line);
    let kinds = trace.kinds();
    let shared = if fields.len() < kinds.len() {
        fields.len()
    } else {
        kinds.len()
    };
    lemma_row_len(fields, kinds, shared);
    if let Ok(after) = after_line(trace, line, n) {
        if after.rows.len() == trace.rows.len() + 1 {
            assert(after.rows.drop_last() =~= trace.rows);
        }
    }
}

} // verus!
