//! Replaying a trace: what goes into the buffers, what must come out, and which case is at fault.
use vstd::prelude::*;
use crate::bytes::{bytes_of, u32_bytes};
use crate::layout::{input_binding, input_slots, Kind, Module};
use crate::trace::{Trace, TraceView};

verus! {

/// The words of a value in a storage buffer, low word first.
pub open spec fn value_words_of(kind: Kind, v: u64) -> Seq<u32> {
    if kind.spec_words() == 1 {
        seq![(v % 0x1_0000_0000) as u32]
    } else if kind.spec_words() == 2 {
        seq![(v % 0x1_0000_0000) as u32, (v / 0x1_0000_0000) as u32]
    } else {
        Seq::empty()
    }
}

/// The words of a column of values, one value after the other.
pub open spec fn column_words(kind: Kind, values: Seq<u64>) -> Seq<u32>
    decreases values.len(),
{
    if values.len() == 0 {
        Seq::empty()
    } else {
        column_words(kind, values.drop_last()) + value_words_of(kind, values.last())
    }
}

/// Column `c` of a row of cases.
pub open spec fn column(rows: Seq<Vec<u64>>, c: int) -> Seq<u64> {
    rows.map_values(|row: Vec<u64>| row@[c])
}

/// Every case has more than `c` values.
pub open spec fn reaches(rows: Seq<Vec<u64>>, c: int) -> bool {
    forall|i: int| 0 <= i < rows.len() ==> (#[trigger] rows[i])@.len() > c
}

/// The types of the result columns: the outputs that are not saturation counts.
pub open spec fn result_kinds(outputs: Seq<Kind>) -> Seq<Kind>
    decreases outputs.len(),
{
    if outputs.len() == 0 {
        Seq::empty()
    } else {
        let before = result_kinds(outputs.drop_last());
        if outputs.last() is Sat {
            before
        } else {
            before.push(outputs.last())
        }
    }
}

/// A result column is not a saturation count.
pub proof fn results_are_not_counts(outputs: Seq<Kind>)
    ensures
        forall|i: int|
            0 <= i < result_kinds(outputs).len() ==> !(#[trigger] result_kinds(outputs)[i] is Sat),
    decreases outputs.len(),
{
    if outputs.len() > 0 {
        results_are_not_counts(outputs.drop_last());
    }
}

/// `kind` is the type of the one result column of a trace.
pub open spec fn yields(trace: TraceView, kind: Kind) -> bool {
    result_kinds(trace.outputs) == seq![kind]
}

/// The position of the first saturation count among the outputs.
pub open spec fn first_count(outputs: Seq<Kind>) -> Option<int>
    decreases outputs.len(),
{
    if outputs.len() == 0 {
        None
    } else {
        match first_count(outputs.drop_last()) {
            Some(at) => Some(at),
            None => if outputs.last() is Sat {
                Some(outputs.len() - 1)
            } else {
                None
            },
        }
    }
}

/// The column of the first saturation count of a trace.
pub open spec fn count_column(trace: TraceView) -> Option<int> {
    match first_count(trace.outputs) {
        Some(at) => Some(trace.inputs.len() + at),
        None => None,
    }
}

/// The first count is the same for every longer list of outputs.
proof fn lemma_first_count_stays(outputs: Seq<Kind>, i: int)
    requires
        0 <= i <= outputs.len(),
        first_count(outputs.take(i)) is Some,
    ensures
        first_count(outputs) == first_count(outputs.take(i)),
    decreases outputs.len() - i,
{
    if i < outputs.len() {
        assert(outputs.take(i + 1).drop_last() == outputs.take(i));
        lemma_first_count_stays(outputs, i + 1);
    } else {
        assert(outputs.take(i) == outputs);
    }
}

/// The first count is a count, it lies among the outputs, and no count comes before it.
pub proof fn first_count_comes_first(outputs: Seq<Kind>)
    ensures
        match first_count(outputs) {
            Some(at) => 0 <= at < outputs.len() && outputs[at] is Sat && forall|i: int|
                0 <= i < at ==> !(#[trigger] outputs[i] is Sat),
            None => forall|i: int| 0 <= i < outputs.len() ==> !(#[trigger] outputs[i] is Sat),
        },
    decreases outputs.len(),
{
    if outputs.len() > 0 {
        let before = outputs.drop_last();
        first_count_comes_first(before);
        assert forall|i: int| 0 <= i < before.len() implies before[i] == outputs[i] by {}
        match first_count(before) {
            Some(at) => {
                assert forall|i: int| 0 <= i < at implies !(#[trigger] outputs[i] is Sat) by {
                    assert(before[i] == outputs[i]);
                }
            },
            None => {
                assert forall|i: int| 0 <= i < before.len() implies !(
                #[trigger] outputs[i] is Sat) by {
                    assert(before[i] == outputs[i]);
                }
            },
        }
    }
}

impl Trace {
    /// The type of the result, if there is exactly one result column.
    pub fn output_kind(&self) -> (kind: Option<Kind>)
        ensures
            match kind {
                Some(kind) => yields(self@, kind) && !(kind is Sat),
                None => result_kinds(self@.outputs).len() != 1,
            },
    {
        let mut found: usize = 0;
        let mut kind: Kind = Kind::Sat;
        let mut i: usize = 0;
        while i < self.outputs.len()
            invariant
                i <= self.outputs.len(),
                found <= i,
                found == result_kinds(self.outputs@.take(i as int)).len(),
                found > 0 ==> kind == result_kinds(self.outputs@.take(i as int)).last(),
                found > 0 ==> !(kind is Sat),
            decreases self.outputs.len() - i,
        {
            assert(self.outputs@.take(i + 1).drop_last() == self.outputs@.take(i as int));
            match self.outputs[i] {
                Kind::Sat => {},
                other => {
                    found = found + 1;
                    kind = other;
                },
            }
            i = i + 1;
        }
        assert(self.outputs@.take(self.outputs@.len() as int) == self.outputs@);
        if found == 1 {
            assert(result_kinds(self@.outputs) =~= seq![kind]);
            Some(kind)
        } else {
            None
        }
    }

    /// How many words the result of a case has, if there is exactly one result column.
    pub fn output_words(&self) -> (n: Option<usize>)
        ensures
            match n {
                Some(n) => exists|kind: Kind| #[trigger] yields(self@, kind) && n
                    == kind.spec_words() && n > 0,
                None => result_kinds(self@.outputs).len() != 1,
            },
    {
        match self.output_kind() {
            Some(kind) => {
                assert(yields(self@, kind));
                Some(kind.words())
            },
            None => None,
        }
    }

    /// The column of the first saturation count, if there is one.
    pub fn sat_column(&self) -> (column: Option<usize>)
        requires
            self@.kinds().len() <= usize::MAX,
        ensures
            match column {
                Some(c) => count_column(self@) == Some(c as int),
                None => count_column(self@) is None,
            },
    {
        let mut i: usize = 0;
        assert(self.outputs@.take(0) =~= Seq::<Kind>::empty());
        while i < self.outputs.len()
            invariant
                i <= self.outputs.len(),
                self@.kinds().len() <= usize::MAX,
                first_count(self.outputs@.take(i as int)) is None,
            decreases self.outputs.len() - i,
        {
            assert(self.outputs@.take(i + 1).drop_last() == self.outputs@.take(i as int));
            match self.outputs[i] {
                Kind::Sat => {
                    proof {
                        lemma_first_count_stays(self.outputs@, i + 1);
                    }
                    return Some(self.inputs.len() + i);
                },
                _ => {},
            }
            i = i + 1;
        }
        assert(self.outputs@.take(self.outputs@.len() as int) == self.outputs@);
        None
    }
}

/// The words of a value in a storage buffer.
pub fn value_words(kind: Kind, v: u64) -> (words: Vec<u32>)
    requires
        !(kind is Sat),
    ensures
        words@ == value_words_of(kind, v),
{
    let mut words: Vec<u32> = Vec::new();
    words.push((v % 0x1_0000_0000) as u32);
    if kind.words() == 2 {
        words.push((v / 0x1_0000_0000) as u32);
    }
    assert(words@ =~= value_words_of(kind, v));
    words
}

/// The words of one column of a row of cases.
pub fn words_of_column(kind: Kind, rows: &[Vec<u64>], c: usize) -> (words: Vec<u32>)
    requires
        !(kind is Sat),
        reaches(rows@, c as int),
    ensures
        words@ == column_words(kind, column(rows@, c as int)),
{
    let ghost values = column(rows@, c as int);
    let mut words: Vec<u32> = Vec::new();
    let mut i: usize = 0;
    while i < rows.len()
        invariant
            i <= rows@.len(),
            !(kind is Sat),
            reaches(rows@, c as int),
            values == column(rows@, c as int),
            words@ =~= column_words(kind, values.take(i as int)),
        decreases rows@.len() - i,
    {
        assert(values.take(i + 1).drop_last() == values.take(i as int));
        let mut value: Vec<u32> = value_words(kind, rows[i][c]);
        words.append(&mut value);
        i = i + 1;
    }
    assert(values.take(values.len() as int) == values);
    words
}

/// The words that a dispatch over the cases must write.
///
/// The result of a case stands in the first column after the inputs.
pub fn expected_words(trace: &Trace, rows: &[Vec<u64>]) -> (words: Vec<u32>)
    requires
        result_kinds(trace@.outputs).len() == 1,
        reaches(rows@, trace@.inputs.len() as int),
    ensures
        words@ == column_words(
            result_kinds(trace@.outputs)[0],
            column(rows@, trace@.inputs.len() as int),
        ),
{
    match trace.output_kind() {
        Some(kind) => words_of_column(kind, rows, trace.inputs.len()),
        None => Vec::new(),
    }
}

/// The low words of the values, added up.
pub open spec fn sum_of_low_words(values: Seq<u64>) -> int
    decreases values.len(),
{
    if values.len() == 0 {
        0
    } else {
        sum_of_low_words(values.drop_last()) + values.last() as int % 0x1_0000_0000
    }
}

/// The sum of the low words grows with every value.
proof fn lemma_sum_grows(values: Seq<u64>, i: int)
    requires
        0 <= i <= values.len(),
    ensures
        0 <= sum_of_low_words(values.take(i)) <= sum_of_low_words(values),
    decreases values.len() - i, values.len(),
{
    lemma_sum_nonnegative(values.take(i));
    if i < values.len() {
        lemma_sum_grows(values, i + 1);
        assert(values.take(i + 1).drop_last() == values.take(i));
    } else {
        assert(values.take(i) == values);
    }
}

proof fn lemma_sum_nonnegative(values: Seq<u64>)
    ensures
        0 <= sum_of_low_words(values),
    decreases values.len(),
{
    if values.len() > 0 {
        lemma_sum_nonnegative(values.drop_last());
    }
}

/// How many saturations a dispatch over the cases must report: the sum of their counts, if it
/// fits the counter.
pub fn expected_saturations(trace: &Trace, rows: &[Vec<u64>]) -> (total: Option<u32>)
    requires
        trace@.kinds().len() <= usize::MAX,
        count_column(trace@) is Some,
        reaches(rows@, count_column(trace@)->0),
    ensures
        match total {
            Some(n) => n == sum_of_low_words(column(rows@, count_column(trace@)->0)),
            None => sum_of_low_words(column(rows@, count_column(trace@)->0)) > u32::MAX,
        },
{
    let c: usize = match trace.sat_column() {
        Some(c) => c,
        None => {
            return None;
        },
    };
    let ghost values = column(rows@, c as int);
    let mut total: u32 = 0;
    let mut i: usize = 0;
    while i < rows.len()
        invariant
            i <= rows@.len(),
            count_column(trace@) == Some(c as int),
            reaches(rows@, c as int),
            values == column(rows@, c as int),
            total == sum_of_low_words(values.take(i as int)),
        decreases rows@.len() - i,
    {
        let count: u32 = (rows[i][c] % 0x1_0000_0000) as u32;
        proof {
            assert(values.take(i + 1).drop_last() == values.take(i as int));
            lemma_sum_grows(values, i + 1);
        }
        match total.checked_add(count) {
            Some(sum) => {
                total = sum;
            },
            None => {
                return None;
            },
        }
        i = i + 1;
    }
    assert(values.take(values.len() as int) == values);
    Some(total)
}

/// How many of the types are `kind`.
pub open spec fn occurrences(kinds: Seq<Kind>, kind: Kind) -> nat
    decreases kinds.len(),
{
    if kinds.len() == 0 {
        0
    } else {
        occurrences(kinds.drop_last(), kind) + (if kinds.last() == kind {
            1nat
        } else {
            0nat
        })
    }
}

/// How many of the first `n` types are `kind`.
fn count_kind(kinds: &Vec<Kind>, n: usize, kind: Kind) -> (count: usize)
    requires
        n <= kinds@.len(),
    ensures
        count == occurrences(kinds@.take(n as int), kind),
{
    let mut count: usize = 0;
    let mut i: usize = 0;
    while i < n
        invariant
            i <= n <= kinds@.len(),
            count <= i,
            count == occurrences(kinds@.take(i as int), kind),
        decreases n - i,
    {
        assert(kinds@.take(i + 1).drop_last() == kinds@.take(i as int));
        if kinds[i] == kind {
            count = count + 1;
        }
        i = i + 1;
    }
    count
}

/// The binding of input column `c`: the n-th input of a type goes to the n-th slot of that type.
pub open spec fn column_slot(module: Module, inputs: Seq<Kind>, c: int) -> Option<u32> {
    let slots = input_slots(module, inputs[c]);
    let nth = occurrences(inputs.take(c), inputs[c]);
    if nth < slots.len() {
        Some(slots[nth as int])
    } else {
        None
    }
}

/// A buffer of a dispatch.
pub struct InputBuffer {
    pub binding: u32,
    pub bytes: Vec<u8>,
}

/// `buffer` is what a dispatch over the cases reads for input column `c`.
pub open spec fn is_input(
    buffer: InputBuffer,
    module: Module,
    inputs: Seq<Kind>,
    rows: Seq<Vec<u64>>,
    c: int,
) -> bool {
    &&& column_slot(module, inputs, c) == Some(buffer.binding)
    &&& buffer.bytes@ == bytes_of(column_words(inputs[c], column(rows, c)))
}

/// The input buffers of a dispatch over the cases, one per input column, or the first column for
/// which the module declares no binding.
pub fn input_buffers(
    trace: &Trace,
    module: Module,
    rows: &[Vec<u64>],
) -> (buffers: Result<Vec<InputBuffer>, usize>)
    requires
        reaches(rows@, trace@.inputs.len() - 1),
    ensures
        match buffers {
            Ok(buffers) => {
                &&& buffers@.len() == trace@.inputs.len()
                &&& forall|c: int|
                    0 <= c < buffers@.len() ==> is_input(
                        #[trigger] buffers@[c],
                        module,
                        trace@.inputs,
                        rows@,
                        c,
                    )
            },
            Err(bad) => {
                &&& bad < trace@.inputs.len()
                &&& column_slot(module, trace@.inputs, bad as int) is None
                &&& forall|c: int|
                    0 <= c < bad ==> #[trigger] column_slot(module, trace@.inputs, c) is Some
            },
        },
{
    let mut buffers: Vec<InputBuffer> = Vec::new();
    let mut c: usize = 0;
    while c < trace.inputs.len()
        invariant
            c <= trace.inputs.len(),
            reaches(rows@, trace@.inputs.len() - 1),
            buffers@.len() == c,
            forall|k: int|
                0 <= k < c ==> is_input(#[trigger] buffers@[k], module, trace@.inputs, rows@, k),
            forall|k: int| 0 <= k < c ==> #[trigger] column_slot(module, trace@.inputs, k) is Some,
        decreases trace.inputs.len() - c,
    {
        let kind: Kind = trace.inputs[c];
        let nth: usize = count_kind(&trace.inputs, c, kind);
        match input_binding(module, kind, nth) {
            Some(binding) => {
                assert(reaches(rows@, c as int));
                let words: Vec<u32> = words_of_column(kind, rows, c);
                let bytes: Vec<u8> = u32_bytes(words.as_slice());
                buffers.push(InputBuffer { binding, bytes });
            },
            None => {
                return Err(c);
            },
        }
        c = c + 1;
    }
    Ok(buffers)
}

/// `i` is the first position at which two rows of words differ.
pub open spec fn first_difference(got: Seq<u32>, want: Seq<u32>, i: int) -> bool {
    &&& 0 <= i < got.len()
    &&& i < want.len()
    &&& got[i] != want[i]
    &&& forall|j: int| 0 <= j < i ==> got[j] == want[j]
}

/// The shorter of two rows of words is the beginning of the longer one.
pub open spec fn agree_as_far_as_they_go(got: Seq<u32>, want: Seq<u32>) -> bool {
    forall|j: int| 0 <= j < got.len() && j < want.len() ==> got[j] == want[j]
}

/// The first position at which two rows of words differ.
pub fn first_mismatch(got: &[u32], want: &[u32]) -> (at: Option<usize>)
    ensures
        match at {
            Some(i) => first_difference(got@, want@, i as int),
            None => agree_as_far_as_they_go(got@, want@),
        },
{
    let mut i: usize = 0;
    while i < got.len() && i < want.len()
        invariant
            i <= got@.len(),
            i <= want@.len(),
            forall|j: int| 0 <= j < i ==> got@[j] == want@[j],
        decreases got@.len() - i,
    {
        if got[i] != want[i] {
            return Some(i);
        }
        i = i + 1;
    }
    None
}

/// How a dispatch compares with what was expected of it.
#[derive(Clone, Copy, Debug, PartialEq, Eq, Structural)]
pub enum Verdict {
    /// Every bit and both counters are as expected.
    Agrees,
    /// The words differ, first at this word of this case. Without a position one row of words is
    /// longer than the other.
    Diverged { word: Option<usize>, case: Option<usize> },
    /// The words agree, but the shader reported a fault.
    Fault,
    /// The words agree and nothing faulted, but the saturation count is another.
    Saturations { got: u32, want: u32 },
}

/// `verdict` is the outcome of comparing a dispatch with what was expected of it: the words come
/// first, then the faults, then the saturation count.
pub open spec fn is_verdict(
    verdict: Verdict,
    got: Seq<u32>,
    want: Seq<u32>,
    words_per_case: int,
    faults: u32,
    saturations: u32,
    want_saturations: u32,
) -> bool {
    match verdict {
        Verdict::Agrees => got == want && faults == 0 && saturations == want_saturations,
        Verdict::Diverged { word, case } => got != want && match (word, case) {
            (Some(w), Some(c)) => first_difference(got, want, w as int) && c == w as int
                / words_per_case,
            (None, None) => agree_as_far_as_they_go(got, want),
            _ => false,
        },
        Verdict::Fault => got == want && faults != 0,
        Verdict::Saturations { got: g, want: w } => got == want && faults == 0 && saturations
            != want_saturations && g == saturations && w == want_saturations,
    }
}

/// Compares a dispatch with what was expected of it.
pub fn judge(
    got: &[u32],
    want: &[u32],
    words_per_case: usize,
    sat: [u32; 2],
    want_saturations: u32,
) -> (verdict: Verdict)
    requires
        words_per_case > 0,
    ensures
        is_verdict(
            verdict,
            got@,
            want@,
            words_per_case as int,
            sat[1],
            sat[0],
            want_saturations,
        ),
        verdict is Agrees <==> got@ == want@ && sat[1] == 0 && sat[0] == want_saturations,
        verdict is Diverged <==> got@ != want@,
        verdict is Fault <==> got@ == want@ && sat[1] != 0,
        verdict is Saturations <==> got@ == want@ && sat[1] == 0 && sat[0] != want_saturations,
        verdict matches Verdict::Saturations { got: g, want: w } ==> g == sat[0] && w
            == want_saturations,
{
    match first_mismatch(got, want) {
        Some(word) => {
            return Verdict::Diverged { word: Some(word), case: Some(word / words_per_case) };
        },
        None => {},
    }
    if got.len() != want.len() {
        return Verdict::Diverged { word: None, case: None };
    }
    assert(got@ =~= want@);
    if sat[1] != 0 {
        return Verdict::Fault;
    }
    if sat[0] != want_saturations {
        return Verdict::Saturations { got: sat[0], want: want_saturations };
    }
    Verdict::Agrees
}

/// A dispatch writes as many words per case as the type of its result has.
pub proof fn results_have_a_fixed_width(kind: Kind, values: Seq<u64>)
    ensures
        column_words(kind, values).len() == values.len() * kind.spec_words(),
    decreases values.len(),
{
    if values.len() > 0 {
        results_have_a_fixed_width(kind, values.drop_last());
        assert((values.len() - 1) * kind.spec_words() + kind.spec_words() == values.len()
            * kind.spec_words()) by (nonlinear_arith);
    } else {
        assert(0 * kind.spec_words() == 0) by (nonlinear_arith);
    }
}

/// The expected words and the expected saturations of a whole are those of its parts, put
/// together.
pub proof fn expectations_are_additive(kind: Kind, first: Seq<u64>, second: Seq<u64>)
    ensures
        column_words(kind, first + second) == column_words(kind, first) + column_words(
            kind,
            second,
        ),
        sum_of_low_words(first + second) == sum_of_low_words(first) + sum_of_low_words(second),
    decreases second.len(),
{
    if second.len() == 0 {
        assert(first + second == first);
        assert(column_words(kind, first) + column_words(kind, second) =~= column_words(
            kind,
            first,
        ));
    } else {
        expectations_are_additive(kind, first, second.drop_last());
        assert((first + second).drop_last() == first + second.drop_last());
        assert(column_words(kind, first + second) =~= column_words(kind, first) + column_words(
            kind,
            second,
        ));
    }
}

} // verus!
