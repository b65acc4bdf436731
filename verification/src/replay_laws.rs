//! What holds of buffers, bindings, replays and runs, whatever goes into them.
use vstd::prelude::*;
use crate::batch::{word_of, Buffers48, Op16, Op48, Variant};
use crate::bytes::{bytes_of, bytes_round_trip, lemma_bytes_of_len, wide_words, words_in};
use crate::layout::{input_slots, output_slot, spec_shader_files, Kind, Module};
use crate::replay::{
    agree_as_far_as_they_go, column, column_slot, column_words, count_column,
    first_count_comes_first, first_difference, is_input, is_verdict, occurrences, result_kinds,
    sum_of_low_words, value_words_of, yields, InputBuffer, Verdict,
};
use crate::runs::{
    bytes32, case_of, destination, firsts, pairs_of, seconds, sources, total_faults,
    total_saturations, Case,
};
use crate::search::Search;
use crate::trace::TraceView;
use crate::wide::Wide;

verus! {

/// A buffer holds every word as four bytes, the lowest first, one word after the other.
pub proof fn buffers_are_little_endian(words: Seq<u32>)
    ensures
        bytes_of(words).len() == 4 * words.len(),
        forall|i: int|
            0 <= i < words.len() ==> #[trigger] words[i] == bytes_of(words)[4 * i] + bytes_of(
                words,
            )[4 * i + 1] * 0x100 + bytes_of(words)[4 * i + 2] * 0x1_0000 + bytes_of(words)[4 * i
                + 3] * 0x100_0000,
    decreases words.len(),
{
    lemma_bytes_of_len(words);
    if words.len() > 0 {
        let before = words.drop_last();
        buffers_are_little_endian(before);
        assert forall|i: int| 0 <= i < words.len() implies #[trigger] words[i] == bytes_of(
            words,
        )[4 * i] + bytes_of(words)[4 * i + 1] * 0x100 + bytes_of(words)[4 * i + 2] * 0x1_0000
            + bytes_of(words)[4 * i + 3] * 0x100_0000 by {
            if i < before.len() {
                assert(before[i] == words[i]);
            }
        }
    }
}

/// A buffer is read word by word, the lowest byte first; a rest of fewer than four bytes is
/// ignored.
pub proof fn buffers_are_read_little_endian(bytes: Seq<u8>)
    ensures
        4 * words_in(bytes).len() <= bytes.len() < 4 * words_in(bytes).len() + 4,
        forall|i: int|
            0 <= i < words_in(bytes).len() ==> #[trigger] words_in(bytes)[i] == bytes[4 * i]
                + bytes[4 * i + 1] * 0x100 + bytes[4 * i + 2] * 0x1_0000 + bytes[4 * i + 3]
                * 0x100_0000,
{
}

/// A row of 64-bit numbers is laid out with the low word of each before its high word.
pub proof fn wide_numbers_are_low_word_first(values: Seq<Wide>)
    ensures
        wide_words(values).len() == 2 * values.len(),
        forall|i: int|
            0 <= i < values.len() ==> wide_words(values)[2 * i] == (#[trigger] values[i]).lo
                && wide_words(values)[2 * i + 1] == values[i].hi,
    decreases values.len(),
{
    if values.len() > 0 {
        let before = values.drop_last();
        wide_numbers_are_low_word_first(before);
        assert forall|i: int| 0 <= i < values.len() implies wide_words(values)[2 * i] == (
        #[trigger] values[i]).lo && wide_words(values)[2 * i + 1] == values[i].hi by {
            if i < before.len() {
                assert(before[i] == values[i]);
            }
        }
    }
}

/// A buffer of signed numbers reads back as their two's complement words.
pub proof fn signed_buffers_hold_twos_complement(values: Seq<i32>)
    ensures
        words_in(bytes32(values)).len() == values.len(),
        forall|i: int|
            0 <= i < values.len() ==> words_in(bytes32(values))[i] == (if #[trigger] values[i] < 0 {
                values[i] + 0x1_0000_0000
            } else {
                values[i] as int
            }),
{
    let words = values.map_values(|v: i32| word_of(v));
    bytes_round_trip(words);
    assert forall|i: int| 0 <= i < values.len() implies words_in(bytes32(values))[i] == (
    if #[trigger] values[i] < 0 {
        values[i] + 0x1_0000_0000
    } else {
        values[i] as int
    }) by {
        assert(words[i] == word_of(values[i]));
    }
}

/// Inputs and results have bindings exactly where the module works on their type, and the first
/// input of a type is bound right before the second.
pub proof fn bindings_exist_for_the_types_of_a_module(module: Module, kind: Kind)
    ensures
        input_slots(module, kind).len() == match (module, kind) {
            (Module::Batch16, Kind::Q16) => 2nat,
            (Module::Batch48, Kind::Q16) => 2,
            (Module::Batch48, Kind::Q48) => 2,
            (Module::Batch48, Kind::Q32) => 1,
            _ => 0,
        },
        input_slots(module, kind).len() == 2 ==> input_slots(module, kind)[1] == input_slots(
            module,
            kind,
        )[0] + 1,
        output_slot(module, kind) is Some <==> {
            ||| kind is Q16
            ||| kind is Mask
            ||| module is Batch48 && (kind is Q48 || kind is Q32)
        },
        output_slot(module, Kind::Mask) == output_slot(module, Kind::Q16),
{
}

/// The source of a module starts with what all share, goes on with the arithmetic of its variant,
/// whatever the module, and ends with the entry points of the module, whatever the variant.
pub proof fn sources_are_put_together_by_part(p: Module, q: Module, v: Variant, w: Variant)
    ensures
        spec_shader_files(p, v).len() == 3,
        spec_shader_files(p, v)[0] == spec_shader_files(q, w)[0],
        spec_shader_files(p, v)[1] == spec_shader_files(q, v)[1],
        spec_shader_files(p, v)[2] == spec_shader_files(p, w)[2],
        v != w ==> spec_shader_files(p, v)[1] != spec_shader_files(p, w)[1],
        p != q ==> spec_shader_files(p, v)[2] != spec_shader_files(q, v)[2],
{
    reveal_strlit("fixed_portable.wgsl");
    reveal_strlit("fixed_int64.wgsl");
    reveal_strlit("batch16.wgsl");
    reveal_strlit("batch48.wgsl");
    assert("fixed_portable.wgsl"@.len() != "fixed_int64.wgsl"@.len());
    assert("batch16.wgsl"@[5] == '1' && "batch48.wgsl"@[5] == '4');
}

/// A value of one word is its low word; a value of two words is its low word, then the rest.
pub proof fn value_words_keep_the_bits(kind: Kind, v: u64)
    ensures
        ({
            let words = value_words_of(kind, v);
            &&& kind is Q16 || kind is Mask ==> words.len() == 1 && words[0] == v as int
                % 0x1_0000_0000
            &&& kind is Q32 || kind is Q48 ==> words.len() == 2 && words[0] + words[1]
                * 0x1_0000_0000 == v
            &&& kind is Sat ==> words.len() == 0
        }),
{
}

/// A column is laid out value by value, in the order of the cases.
pub proof fn columns_are_laid_out_value_by_value(kind: Kind, values: Seq<u64>)
    ensures
        kind is Q16 || kind is Mask ==> column_words(kind, values).len() == values.len()
            && forall|i: int|
            0 <= i < values.len() ==> column_words(kind, values)[i] == #[trigger] values[i] as int
                % 0x1_0000_0000,
        kind is Q32 || kind is Q48 ==> column_words(kind, values).len() == 2 * values.len()
            && forall|i: int|
            0 <= i < values.len() ==> column_words(kind, values)[2 * i] + column_words(
                kind,
                values,
            )[2 * i + 1] * 0x1_0000_0000 == #[trigger] values[i],
    decreases values.len(),
{
    if values.len() > 0 {
        let before = values.drop_last();
        columns_are_laid_out_value_by_value(kind, before);
        value_words_keep_the_bits(kind, values.last());
        let words = column_words(kind, values);
        if kind is Q16 || kind is Mask {
            assert forall|i: int| 0 <= i < values.len() implies words[i]
                == #[trigger] values[i] as int % 0x1_0000_0000 by {
                if i < before.len() {
                    assert(before[i] == values[i]);
                }
            }
        }
        if kind is Q32 || kind is Q48 {
            assert forall|i: int| 0 <= i < values.len() implies words[2 * i] + words[2 * i + 1]
                * 0x1_0000_0000 == #[trigger] values[i] by {
                if i < before.len() {
                    assert(before[i] == values[i]);
                }
            }
        }
    }
}

/// A column has the value of every case, in the order of the cases.
pub proof fn columns_hold_every_case(rows: Seq<Vec<u64>>, c: int)
    ensures
        column(rows, c).len() == rows.len(),
        forall|i: int| 0 <= i < rows.len() ==> #[trigger] column(rows, c)[i] == rows[i]@[c],
{
}

/// The result columns are the outputs without the counts, in their order.
pub proof fn results_are_the_outputs_without_counts(outputs: Seq<Kind>)
    ensures
        result_kinds(outputs) == outputs.filter(|kind: Kind| kind != Kind::Sat),
    decreases outputs.len(),
{
    reveal(Seq::filter);
    if outputs.len() > 0 {
        results_are_the_outputs_without_counts(outputs.drop_last());
    }
}

/// A trace yields a type exactly if it has one result column, and that is of this type.
pub proof fn a_trace_yields_its_only_result(trace: TraceView, kind: Kind)
    ensures
        yields(trace, kind) <==> {
            let results = trace.outputs.filter(|k: Kind| k != Kind::Sat);
            results.len() == 1 && results[0] == kind
        },
{
    results_are_the_outputs_without_counts(trace.outputs);
    let results = result_kinds(trace.outputs);
    if results.len() == 1 && results[0] == kind {
        assert(results =~= seq![kind]);
    }
}

/// The count column is a count among the outputs, and no count comes before it there. There is
/// none only if no output is a count.
pub proof fn the_count_column_is_the_first_count(trace: TraceView)
    ensures
        match count_column(trace) {
            Some(c) => {
                &&& trace.inputs.len() <= c < trace.inputs.len() + trace.outputs.len()
                &&& trace.outputs[c - trace.inputs.len()] is Sat
                &&& forall|i: int|
                    0 <= i < c - trace.inputs.len() ==> !(#[trigger] trace.outputs[i] is Sat)
            },
            None => forall|i: int|
                0 <= i < trace.outputs.len() ==> !(#[trigger] trace.outputs[i] is Sat),
        },
{
    first_count_comes_first(trace.outputs);
}

/// Expected saturations add up case by case: one more case adds the low word of its count.
pub proof fn expected_saturations_add_up(values: Seq<u64>, high: int, low: int)
    requires
        0 <= low < 0x1_0000_0000,
        0 <= high < 0x1_0000_0000,
    ensures
        sum_of_low_words(values.push((high * 0x1_0000_0000 + low) as u64)) == sum_of_low_words(
            values,
        ) + low,
        sum_of_low_words(Seq::empty()) == 0,
{
    assert(values.push((high * 0x1_0000_0000 + low) as u64).drop_last() =~= values);
}

proof fn lemma_occurrences(kinds: Seq<Kind>, kind: Kind)
    ensures
        occurrences(kinds, kind) == kinds.filter(|k: Kind| k == kind).len(),
    decreases kinds.len(),
{
    reveal(Seq::filter);
    if kinds.len() > 0 {
        lemma_occurrences(kinds.drop_last(), kind);
    }
}

/// An input column is bound by the number of earlier columns of its type: the n-th goes to the
/// n-th slot of the type, and a column beyond the last slot has no binding.
pub proof fn columns_are_bound_by_their_order(module: Module, inputs: Seq<Kind>, c: int)
    requires
        0 <= c < inputs.len(),
    ensures
        ({
            let kind = inputs[c];
            let earlier = inputs.take(c).filter(|k: Kind| k == kind).len() as int;
            let slots = input_slots(module, kind);
            &&& earlier < slots.len() ==> column_slot(module, inputs, c) == Some(slots[earlier])
            &&& earlier >= slots.len() ==> column_slot(module, inputs, c) is None
        }),
{
    lemma_occurrences(inputs.take(c), inputs[c]);
}

/// An input buffer is bound where its column belongs, and reads back as the values of the column.
pub proof fn input_buffers_hold_their_column(
    buffer: InputBuffer,
    module: Module,
    inputs: Seq<Kind>,
    rows: Seq<Vec<u64>>,
    c: int,
)
    requires
        is_input(buffer, module, inputs, rows, c),
    ensures
        column_slot(module, inputs, c) == Some(buffer.binding),
        words_in(buffer.bytes@) == column_words(inputs[c], column(rows, c)),
{
    bytes_round_trip(column_words(inputs[c], column(rows, c)));
}

/// Two rows of words differ first where they differ and agree before; rows that agree as far as
/// they go are equal exactly if they are of one length.
pub proof fn differences_are_found_at_the_first_place(got: Seq<u32>, want: Seq<u32>, i: int)
    ensures
        first_difference(got, want, i) <==> {
            &&& 0 <= i < got.len()
            &&& i < want.len()
            &&& got[i] != want[i]
            &&& got.take(i) == want.take(i)
        },
        agree_as_far_as_they_go(got, want) && got.len() == want.len() <==> got == want,
        agree_as_far_as_they_go(got, want) ==> !first_difference(got, want, i),
{
    if 0 <= i < got.len() && i < want.len() {
        if first_difference(got, want, i) {
            assert(got.take(i) =~= want.take(i));
        }
        if got.take(i) == want.take(i) {
            assert forall|j: int| 0 <= j < i implies got[j] == want[j] by {
                assert(got.take(i)[j] == want.take(i)[j]);
            }
        }
    }
    if agree_as_far_as_they_go(got, want) && got.len() == want.len() {
        assert(got =~= want);
    }
}

/// A verdict is settled by what a dispatch left behind: it agrees exactly if every word, the
/// faults and the saturations are as expected; it diverges exactly if a word is not; it faults
/// exactly if the words are right and something faulted; the saturations are at issue exactly if
/// all else is right and they are too few or too many.
pub proof fn verdicts_follow_what_a_dispatch_left(
    verdict: Verdict,
    got: Seq<u32>,
    want: Seq<u32>,
    words_per_case: int,
    faults: u32,
    saturations: u32,
    want_saturations: u32,
)
    requires
        words_per_case > 0,
        is_verdict(verdict, got, want, words_per_case, faults, saturations, want_saturations),
    ensures
        verdict is Agrees <==> got == want && faults == 0 && saturations == want_saturations,
        saturations < want_saturations || saturations > want_saturations ==> !(verdict is Agrees),
        verdict is Diverged <==> got != want,
        verdict is Fault <==> got == want && faults > 0,
        verdict is Saturations <==> got == want && faults == 0 && saturations != want_saturations,
        verdict matches Verdict::Saturations { got: g, want: w } ==> g == saturations && w
            == want_saturations,
        verdict matches Verdict::Diverged { word: Some(w), case: Some(c) } ==> {
            &&& w < got.len()
            &&& w < want.len()
            &&& got[w as int] != want[w as int]
            &&& got.take(w as int) == want.take(w as int)
            &&& c * words_per_case <= w < (c + 1) * words_per_case
        },
        verdict matches Verdict::Diverged { word, case } ==> {
            &&& word is Some <==> case is Some
            &&& word is None ==> got.len() != want.len()
        },
{
    if let Verdict::Diverged { word, case } = verdict {
        if let Some(w) = word {
            differences_are_found_at_the_first_place(got, want, w as int);
            vstd::arithmetic::div_mod::lemma_fundamental_div_mod(w as int, words_per_case);
            let c = w as int / words_per_case;
            assert(c * words_per_case <= w < (c + 1) * words_per_case) by (nonlinear_arith)
                requires
                    w as int == words_per_case * c + w as int % words_per_case,
                    0 <= w as int % words_per_case < words_per_case,
            ;
        } else {
            differences_are_found_at_the_first_place(got, want, 0);
        }
    }
}

/// A search starts with all cases, and is done at once only with a single one.
pub proof fn a_search_starts_with_all_cases(n: usize)
    requires
        n > 0,
    ensures
        Search::over(n).start == 0,
        Search::over(n).end == n,
        !Search::over(n).first_is_right,
        Search::over(n).done <==> n == 1,
{
}

/// The next part of a search is the first half, rounded down, then the other half.
pub proof fn a_search_dispatches_the_halves_in_turn(search: Search)
    requires
        search.wf(),
        !search.done,
    ensures
        ({
            let n = search.end - search.start;
            let lo = search.part_start();
            let hi = search.part_end();
            &&& !search.first_is_right ==> lo == search.start && 2 * (hi - lo) <= n < 2 * (hi - lo)
                + 2
            &&& search.first_is_right ==> hi == search.end && 2 * (lo - search.start) <= n < 2 * (lo
                - search.start) + 2
        }),
{
}

/// A part with a wrong total is searched in turn. A first half with a right total leaves the other
/// half; two halves with right totals end the search at its first case.
pub proof fn a_search_goes_into_the_wrong_half(search: Search)
    requires
        search.wf(),
        !search.done,
    ensures
        ({
            let wrong = search.after(true);
            let right = search.after(false);
            &&& wrong.start == search.part_start()
            &&& wrong.end == search.part_end()
            &&& !wrong.first_is_right
            &&& wrong.done <==> wrong.end == wrong.start + 1
            &&& right.start == search.start
            &&& right.end == search.end
            &&& right.first_is_right
            &&& right.done <==> search.first_is_right
        }),
{
}

/// A case carries its operands, the result of the entry point on them, and one saturation or fault
/// exactly if the entry point saturates or faults.
pub proof fn cases_carry_their_result(op: Op16, a: i32, b: i32)
    ensures
        ({
            let case = case_of(op, a, b);
            let lane = op.lane(a, b);
            &&& case.a == a
            &&& case.b == b
            &&& case.want == lane.raw
            &&& case.saturations <= 1
            &&& case.faults <= 1
            &&& case.saturations == 1 <==> lane.saturated
            &&& case.faults == 1 <==> lane.fault
        }),
{
}

/// The operands of a row of cases are those of its cases, and its telemetry adds up case by case.
pub proof fn rows_of_cases_add_up(cases: Seq<Case>, case: Case)
    ensures
        firsts(cases).len() == cases.len(),
        seconds(cases).len() == cases.len(),
        forall|i: int| 0 <= i < cases.len() ==> #[trigger] firsts(cases)[i] == cases[i].a,
        forall|i: int| 0 <= i < cases.len() ==> #[trigger] seconds(cases)[i] == cases[i].b,
        total_saturations(Seq::empty()) == 0,
        total_faults(Seq::empty()) == 0,
        total_saturations(cases.push(case)) == total_saturations(cases) + case.saturations,
        total_faults(cases.push(case)) == total_faults(cases) + case.faults,
{
    assert(cases.push(case).drop_last() =~= cases);
}

/// A run on 64-bit elements uses the bindings of the module: results go where results of their
/// type go, and each operand stands where inputs of its type stand, the first before the second.
/// The buffers read back as the words of the operands.
pub proof fn runs_use_the_bindings_of_the_module(buffers: Buffers48)
    ensures
        ({
            let m = Module::Batch48;
            let q48 = |i: int| input_slots(Module::Batch48, Kind::Q48)[i];
            let q16 = |i: int| input_slots(Module::Batch48, Kind::Q16)[i];
            let q32 = input_slots(Module::Batch48, Kind::Q32)[0];
            let a = wide_words(buffers.a@);
            let b = wide_words(buffers.b@);
            let a16 = buffers.a16@.map_values(|v: i32| word_of(v));
            let b16 = buffers.b16@.map_values(|v: i32| word_of(v));
            let a32 = wide_words(buffers.a32@);
            &&& output_slot(m, Kind::Q48) == Some(destination(Op48::Add))
            &&& output_slot(m, Kind::Q48) == Some(destination(Op48::Sub))
            &&& output_slot(m, Kind::Q48) == Some(destination(Op48::MulAdd))
            &&& output_slot(m, Kind::Q16) == Some(destination(Op48::To16From48))
            &&& output_slot(m, Kind::Q16) == Some(destination(Op48::To16From32))
            &&& output_slot(m, Kind::Q48) == Some(destination(Op48::To48From16))
            &&& output_slot(m, Kind::Q48) == Some(destination(Op48::To48From32))
            &&& output_slot(m, Kind::Q32) == Some(destination(Op48::To32From48))
            &&& reads(sources(Op48::Add, buffers), seq![(q48(0), a), (q48(1), b)])
            &&& reads(sources(Op48::Sub, buffers), seq![(q48(0), a), (q48(1), b)])
            &&& reads(
                sources(Op48::MulAdd, buffers),
                seq![(q48(0), a), (q16(0), a16), (q16(1), b16)],
            )
            &&& reads(sources(Op48::To16From48, buffers), seq![(q48(0), a)])
            &&& reads(sources(Op48::To32From48, buffers), seq![(q48(0), a)])
            &&& reads(sources(Op48::To48From16, buffers), seq![(q16(0), a16)])
            &&& reads(sources(Op48::To16From32, buffers), seq![(q32, a32)])
            &&& reads(sources(Op48::To48From32, buffers), seq![(q32, a32)])
        }),
{
    bytes_round_trip(wide_words(buffers.a@));
    bytes_round_trip(wide_words(buffers.b@));
    bytes_round_trip(wide_words(buffers.a32@));
    bytes_round_trip(buffers.a16@.map_values(|v: i32| word_of(v)));
    bytes_round_trip(buffers.b16@.map_values(|v: i32| word_of(v)));
}

/// The buffers have these bindings and read back as these words, in this order.
pub open spec fn reads(
    buffers: Seq<(u32, Seq<u8>)>,
    expected: Seq<(u32, Seq<u32>)>,
) -> bool {
    &&& buffers.len() == expected.len()
    &&& forall|i: int|
        0 <= i < buffers.len() ==> (#[trigger] buffers[i]).0 == expected[i].0 && words_in(
            buffers[i].1,
        ) == expected[i].1
}

/// Input buffers are compared by binding and bytes, in their order.
pub proof fn buffers_are_compared_by_binding_and_bytes(inputs: Seq<InputBuffer>)
    ensures
        pairs_of(inputs).len() == inputs.len(),
        forall|i: int|
            0 <= i < inputs.len() ==> (#[trigger] pairs_of(inputs)[i]).0 == inputs[i].binding
                && pairs_of(inputs)[i].1 == inputs[i].bytes@,
{
}

/// An entry point on 64-bit elements needs only the buffers that it reads, and needs no more of
/// them than the elements of the dispatch.
pub proof fn buffers_serve_by_their_length(op: Op48, buffers: Buffers48, n: int)
    ensures
        ({
            let a = n <= buffers.a@.len();
            let b = n <= buffers.b@.len();
            let a16 = n <= buffers.a16@.len();
            let b16 = n <= buffers.b16@.len();
            let a32 = n <= buffers.a32@.len();
            &&& op is Add || op is Sub ==> (op.serves(buffers, n) <==> a && b)
            &&& op is MulAdd ==> (op.serves(buffers, n) <==> a && a16 && b16)
            &&& op is To16From48 || op is To32From48 ==> (op.serves(buffers, n) <==> a)
            &&& op is To48From16 ==> (op.serves(buffers, n) <==> a16)
            &&& op is To16From32 || op is To48From32 ==> (op.serves(buffers, n) <==> a32)
        }),
{
}

} // verus!
