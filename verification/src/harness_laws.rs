//! What holds of adapters, surveys, samples and operands, whatever the machine offers.
use vstd::prelude::*;
use crate::batch::word_of;
use crate::bench::{
    describes, dst_of, factors16, first_operands16, input_data_of, inputs_of, module_of,
    operands48, plan_of, plans_of, second_operands16, Op, Slot,
};
use crate::bytes::{bytes_round_trip, wide_words, words_in};
use crate::gpu::{
    adapter_line, any_selected, default_entries, listing_lines, offers_int64, selected, texts,
    AdapterEntry, BackendKind,
};
use crate::inputs::{denominator, numerator, operand48};
use crate::lane::wide_of;
use crate::layout::{input_slots, output_slot, Kind};
use crate::lcg::{high_word, next_state, nth_state, stream_seed, SEED};
use crate::replay_laws::wide_numbers_are_low_word_first;
use crate::stats::{is_sorted, kept, p95_position, Sampling};
use crate::survey::{candidate_named, pinned, Candidate, Event, Survey};
use crate::text::{pieces, trimmed};

verus! {

/// A set of features offers 64-bit integers exactly if bit 37 of its first word is set.
pub proof fn int64_is_one_bit(features: [u64; 2])
    ensures
        offers_int64(features) <==> features[0] / 0x20_0000_0000 % 2 == 1,
{
    let w = features[0];
    assert((w & 0x20_0000_0000 != 0) <==> w / 0x20_0000_0000 % 2 == 1) by (bit_vector);
}

/// Two APIs can be asked for, each by one name.
pub proof fn two_apis_can_be_asked_for(name: Seq<char>)
    ensures
        selected(name) == Some(2u32) <==> name == "vulkan"@,
        selected(name) == Some(8u32) <==> name == "dx12"@,
        selected(name) is None <==> name != "vulkan"@ && name != "dx12"@,
{
    reveal_strlit("vulkan");
    reveal_strlit("dx12");
    assert("vulkan"@.len() != "dx12"@.len());
}

/// A list of adapters has a line for each, in their order, and a blank line at the end; a list of
/// none starts with a remark.
pub proof fn adapters_are_listed_one_by_one(adapters: Seq<AdapterEntry>)
    ensures
        adapters.len() > 0 ==> listing_lines(adapters).len() == adapters.len() + 1,
        forall|i: int|
            0 <= i < adapters.len() ==> listing_lines(adapters)[i] == adapter_line(
                #[trigger] adapters[i],
            ),
        adapters.len() == 0 ==> listing_lines(adapters).len() == 2,
        listing_lines(adapters).last() == ""@,
{
    assert forall|i: int| 0 <= i < adapters.len() implies listing_lines(adapters)[i]
        == adapter_line(#[trigger] adapters[i]) by {}
}

/// The line of an adapter tells its API, its name and whether it offers 64-bit integers, in this
/// order: adapters that differ in one of these alone differ in that part of their lines alone.
pub proof fn adapter_lines_tell_all_that_is_known(entry: AdapterEntry)
    ensures
        ({
            let line = adapter_line(entry);
            let api = entry.backend.spec_name();
            let start = 2 + api.len() as int;
            let tail = start + 2 + entry.name@.len();
            &&& line.take(2) == "  "@
            &&& line.subrange(2, start) == api
            &&& line.subrange(start, start + 2) == ": "@
            &&& line.subrange(start + 2, tail) == entry.name@
            &&& entry.features[0] / 0x20_0000_0000 % 2 == 1 ==> line.skip(tail)
                == " (SHADER_INT64: true)"@
            &&& entry.features[0] / 0x20_0000_0000 % 2 == 0 ==> line.skip(tail)
                == " (SHADER_INT64: false)"@
        }),
{
    int64_is_one_bit(entry.features);
    reveal_strlit("  ");
    reveal_strlit(": ");
    reveal_strlit(" (SHADER_INT64: ");
    reveal_strlit("true");
    reveal_strlit("false");
    reveal_strlit(")");
    reveal_strlit(" (SHADER_INT64: true)");
    reveal_strlit(" (SHADER_INT64: false)");
    let line = adapter_line(entry);
    let api = entry.backend.spec_name();
    let start = 2 + api.len() as int;
    let tail = start + 2 + entry.name@.len();
    assert(line.take(2) =~= "  "@);
    assert(line.subrange(2, start) =~= api);
    assert(line.subrange(start, start + 2) =~= ": "@);
    assert(line.subrange(start + 2, tail) =~= entry.name@);
    let yes = " (SHADER_INT64: "@ + "true"@ + ")"@;
    let no = " (SHADER_INT64: "@ + "false"@ + ")"@;
    assert(yes =~= " (SHADER_INT64: true)"@);
    assert(no =~= " (SHADER_INT64: false)"@);
    if offers_int64(entry.features) {
        assert(line.skip(tail) =~= yes);
    } else {
        assert(line.skip(tail) =~= no);
    }
}

/// A list of strings is its strings, in their order.
pub proof fn texts_are_taken_one_by_one(list: Seq<String>)
    ensures
        texts(list).len() == list.len(),
        forall|i: int| 0 <= i < list.len() ==> #[trigger] texts(list)[i] == list[i]@,
        default_entries().len() == 5,
{
}

/// An adapter is found exactly if one of them, wherever it stands, is of an API of the set.
pub proof fn adapters_are_found_wherever_they_stand(
    before: Seq<AdapterEntry>,
    entry: AdapterEntry,
    after: Seq<AdapterEntry>,
    kind: BackendKind,
)
    requires
        entry.backend == kind,
    ensures
        any_selected(before.push(entry) + after, kind.bit()),
{
    let all = before.push(entry) + after;
    crate::gpu::selecting_an_api_finds_its_adapters(all, kind);
    assert(all[before.len() as int].backend == kind);
}

/// A backend is called by its name and by no other.
pub proof fn backends_are_called_by_their_name(name: Seq<char>, candidate: Candidate)
    ensures
        candidate_named(name) == Some(candidate) <==> name == candidate.spec_name(),
        candidate_named(name) is None <==> forall|c: Candidate| name != #[trigger] c.spec_name(),
{
    reveal_strlit("vulkan");
    reveal_strlit("dx12");
    reveal_strlit("metal");
    assert("vulkan"@.len() == 6 && "dx12"@.len() == 4 && "metal"@.len() == 5);
    if candidate_named(name) is None {
        assert forall|c: Candidate| name != #[trigger] c.spec_name() by {}
    } else {
        let c = candidate_named(name)->0;
        assert(name == c.spec_name());
    }
}

/// `candidate` is called by one of the names, white space aside.
pub open spec fn is_called(names: Seq<Seq<char>>, candidate: Candidate) -> bool {
    exists|i: int|
        0 <= i < names.len() && trimmed(#[trigger] names[i]) == candidate.spec_name()
}

/// A name is blank or that of a backend, white space aside.
pub open spec fn is_known(name: Seq<char>) -> bool {
    trimmed(name).len() == 0 || exists|c: Candidate| trimmed(name) == #[trigger] c.spec_name()
}

/// A list of names pins exactly the backends that it calls, as many as it has names that are not
/// blank. It is refused exactly if it has an unknown name, and then for the first of them.
pub proof fn a_list_pins_the_backends_that_it_names(names: Seq<Seq<char>>)
    ensures
        match pinned(names) {
            Ok(list) => {
                &&& forall|c: Candidate| list.contains(c) <==> #[trigger] is_called(names, c)
                &&& list.len() == names.filter(|name: Seq<char>| trimmed(name).len() > 0).len()
                &&& forall|i: int| 0 <= i < names.len() ==> is_known(#[trigger] names[i])
            },
            Err(at) => {
                &&& 0 <= at < names.len()
                &&& !is_known(names[at])
                &&& forall|i: int| 0 <= i < at ==> is_known(#[trigger] names[i])
            },
        },
    decreases names.len(),
{
    reveal(Seq::filter);
    reveal_strlit("vulkan");
    reveal_strlit("dx12");
    reveal_strlit("metal");
    if names.len() > 0 {
        let before = names.drop_last();
        let name = trimmed(names.last());
        a_list_pins_the_backends_that_it_names(before);
        assert forall|i: int| 0 <= i < before.len() implies before[i] == names[i] by {}
        match pinned(before) {
            Err(at) => {
                assert forall|i: int| 0 <= i < at implies is_known(#[trigger] names[i]) by {
                    assert(is_known(before[i]));
                }
            },
            Ok(list) => {
                assert forall|i: int| 0 <= i < before.len() implies is_known(
                    #[trigger] names[i],
                ) by {
                    assert(is_known(before[i]));
                }
                backends_are_called_by_their_name(name, Candidate::Vulkan);
                let called = candidate_named(name);
                if called is Some {
                    backends_are_called_by_their_name(name, called->0);
                    assert(name == (called->0).spec_name());
                }
                assert(is_known(names.last()) <==> name.len() == 0 || called is Some);
                if is_known(names.last()) {
                    let longer = pinned(names)->Ok_0;
                    assert(pinned(names) is Ok);
                    assert forall|c: Candidate| longer.contains(c) <==> #[trigger] is_called(
                        names,
                        c,
                    ) by {
                        backends_are_called_by_their_name(name, c);
                        assert(c.spec_name().len() > 0);
                        assert(list.contains(c) <==> is_called(before, c));
                        if is_called(before, c) {
                            let i = choose|i: int|
                                0 <= i < before.len() && trimmed(#[trigger] before[i])
                                    == c.spec_name();
                            assert(trimmed(names[i]) == c.spec_name());
                            let k = choose|k: int| 0 <= k < list.len() && list[k] == c;
                            assert(longer[k] == c);
                        }
                        if is_called(names, c) {
                            let i = choose|i: int|
                                0 <= i < names.len() && trimmed(#[trigger] names[i])
                                    == c.spec_name();
                            if i < before.len() {
                                assert(trimmed(before[i]) == c.spec_name());
                            } else {
                                assert(longer.last() == c);
                            }
                        }
                        if longer.contains(c) {
                            let k = choose|k: int| 0 <= k < longer.len() && longer[k] == c;
                            if k < list.len() {
                                assert(list[k] == c);
                            } else {
                                assert(trimmed(names[names.len() - 1]) == c.spec_name());
                            }
                        }
                    }
                }
            },
        }
    }
}

/// Without a list every backend is visited; with a list, exactly those that stand on it, at
/// whatever place.
pub proof fn every_listed_backend_is_visited(survey: Survey, candidate: Candidate)
    ensures
        survey.required is None ==> survey.spec_visits(candidate),
        survey.required matches Some(list) ==> (survey.spec_visits(candidate) <==> exists|i: int|
            0 <= i < list@.len() && #[trigger] list@[i] == candidate),
{
}

/// A backend that a pinned list names, at whatever place, is visited; one that it does not name is
/// not.
pub proof fn every_named_backend_is_visited(survey: Survey, raw: Seq<char>, candidate: Candidate)
    requires
        survey.required is Some,
        pinned(pieces(raw, ',')) == Ok::<Seq<Candidate>, int>((survey.required->0)@),
    ensures
        survey.spec_visits(candidate) <==> exists|i: int|
            0 <= i < pieces(raw, ',').len() && trimmed(#[trigger] pieces(raw, ',')[i])
                == candidate.spec_name(),
{
    a_list_pins_the_backends_that_it_names(pieces(raw, ','));
    assert((survey.required->0)@.contains(candidate) <==> is_called(pieces(raw, ','), candidate));
}

/// A backend on which the suite ran is passed over without a word; one that could not be opened
/// fails the suite if the list is pinned and is told of otherwise; one without 64-bit integers is
/// told of.
pub proof fn every_event_is_answered(survey: Survey, event: Event)
    ensures
        survey.action(event) is Continue <==> event is Ran,
        survey.action(event) is SkippedNoInt64 <==> event is NoInt64,
        survey.action(event) is PinnedButMissing <==> event is NoAdapter && survey.required is Some,
        survey.action(event) is SkippedNoAdapter <==> event is NoAdapter && survey.required is None,
{
}

/// A survey ends tested exactly if the suite ran somewhere, and untested without fault exactly if
/// it is native, ran nowhere, met a device without 64-bit integers, and nobody insists on these.
pub proof fn surveys_end_by_their_notes(survey: Survey, int64_required: bool)
    ensures
        survey.spec_finish(int64_required) is Tested <==> survey.ran@.len() > 0,
        survey.spec_finish(int64_required) is NativeUntested <==> survey.native
            && survey.ran@.len() == 0 && survey.no_int64@.len() > 0 && !int64_required,
{
}

/// A survey notes the backends on which the suite ran and those without 64-bit integers, each in
/// the order of the events, and nothing else.
pub proof fn surveys_note_what_happened(
    before: Survey,
    after: Survey,
    candidate: Candidate,
    event: Event,
)
    requires
        before.becomes(after, candidate, event),
    ensures
        after.native == before.native,
        after.required == before.required,
        event is Ran ==> after.ran@ == before.ran@.push(candidate) && after.no_int64@
            == before.no_int64@,
        event is NoInt64 ==> after.no_int64@ == before.no_int64@.push(candidate) && after.ran@
            == before.ran@,
        event is NoAdapter ==> after.ran@ == before.ran@ && after.no_int64@ == before.no_int64@,
{
}

/// The 95th percentile is at the smallest position up to which 95 of 100 samples lie.
pub proof fn p95_is_the_smallest_such_position(n: int)
    requires
        n > 0,
    ensures
        100 * (p95_position(n) + 1) >= 95 * n,
        100 * p95_position(n) < 95 * n,
        0 <= p95_position(n) < n,
{
}

/// Sorted samples never descend from one to the next.
pub proof fn sorted_samples_never_descend(samples: Seq<u128>)
    ensures
        is_sorted(samples) ==> forall|i: int|
            0 < i < samples.len() ==> samples[i - 1] <= #[trigger] samples[i],
        (forall|i: int| 0 < i < samples.len() ==> samples[i - 1] <= #[trigger] samples[i])
            ==> is_sorted(samples),
{
    if forall|i: int| 0 < i < samples.len() ==> samples[i - 1] <= #[trigger] samples[i] {
        assert forall|i: int, j: int| 0 <= i <= j < samples.len() implies samples[i]
            <= samples[j] by {
            lemma_ascends(samples, i, j);
        }
    }
}

proof fn lemma_ascends(samples: Seq<u128>, i: int, j: int)
    requires
        forall|i: int| 0 < i < samples.len() ==> samples[i - 1] <= #[trigger] samples[i],
        0 <= i <= j < samples.len(),
    ensures
        samples[i] <= samples[j],
    decreases j - i,
{
    if i < j {
        lemma_ascends(samples, i, j - 1);
        assert(samples[j - 1] <= samples[j]);
    }
}

/// A plan of one program runs it once a round; a plan of two runs them by turns, the first one
/// first. What is timed in the warm-up rounds is dropped.
pub proof fn plans_take_turns(plan: Sampling)
    ensures
        plan.pair ==> plan.runs() == 2 * (plan.warmup + plan.measured),
        !plan.pair ==> plan.runs() == plan.warmup + plan.measured,
        !plan.pair ==> !plan.turns_to_second(),
        plan.pair ==> (plan.turns_to_second() <==> plan.taken as int % 2 == 1),
        plan.pair ==> (plan.keeps() <==> plan.taken >= 2 * plan.warmup),
        !plan.pair ==> (plan.keeps() <==> plan.taken >= plan.warmup),
{
}

/// Of the times of a plan, those of the measured rounds at one place of the round are kept.
pub proof fn one_more_time_is_kept_or_dropped(
    times: Seq<u128>,
    time: u128,
    warmup: int,
    width: int,
    offset: int,
)
    requires
        width > 0,
    ensures
        kept(times.push(time), warmup, width, offset) == (if times.len() >= warmup * width
            && times.len() as int % width == offset {
            kept(times, warmup, width, offset).push(time)
        } else {
            kept(times, warmup, width, offset)
        }),
        kept(Seq::empty(), warmup, width, offset).len() == 0,
{
    assert(times.push(time).drop_last() =~= times);
}

/// One step of the generator multiplies by a constant and adds one, modulo two to the sixty-four.
pub proof fn the_generator_is_linear(s: u64)
    ensures
        exists|wraps: int|
            s * 6_364_136_223_846_793_005 + 1 == #[trigger] (wraps * 0x1_0000_0000_0000_0000)
                + next_state(s),
{
    let x = s * 6_364_136_223_846_793_005 + 1;
    let wraps = x / 0x1_0000_0000_0000_0000;
    assert(x == wraps * 0x1_0000_0000_0000_0000 + next_state(s));
}

/// A stream starts from the seed with the number of the stream, spread over 64 bits, mixed in.
pub proof fn streams_are_mixed_into_the_seed(stream: u64)
    ensures
        exists|wraps: int|
            stream * 0x9E37_79B9_7F4A_7C15 == #[trigger] (wraps * 0x1_0000_0000_0000_0000) + (
            stream_seed(stream) ^ 0x4D59_5DF4_D0F3_3173),
{
    let x = stream * 0x9E37_79B9_7F4A_7C15;
    let spread = (x % 0x1_0000_0000_0000_0000) as u64;
    assert((0x4D59_5DF4_D0F3_3173u64 ^ spread) ^ 0x4D59_5DF4_D0F3_3173u64 == spread)
        by (bit_vector);
    let wraps = x / 0x1_0000_0000_0000_0000;
    assert(x == wraps * 0x1_0000_0000_0000_0000 + (stream_seed(stream) ^ 0x4D59_5DF4_D0F3_3173));
}

/// Steps of the generator add up.
pub proof fn steps_of_the_generator_add_up(s: u64, m: nat, n: nat)
    ensures
        nth_state(s, m + n) == nth_state(nth_state(s, m), n),
        nth_state(s, 0) == s,
        nth_state(s, 1) == next_state(s),
    decreases n,
{
    reveal_with_fuel(nth_state, 2);
    if n > 0 {
        steps_of_the_generator_add_up(s, m, (n - 1) as nat);
        assert((m + n - 1) as nat == m + (n - 1) as nat);
    }
}

/// The operands that a state yields are its upper bits: 32 of them for a Q16.16 number, without
/// the sign bit where it must not be negative and never zero where it divides, and 31 for a Q48.16
/// number.
pub proof fn operands_are_the_upper_bits_of_a_state(s: u64)
    ensures
        ({
            let signed = if s < 0x8000_0000_0000_0000 {
                s as int
            } else {
                s - 0x1_0000_0000_0000_0000
            };
            let h = high_word(s);
            &&& h * 0x1_0000_0000 <= signed < (h + 1) * 0x1_0000_0000
            &&& numerator(s, false) == h
            &&& h >= 0 ==> numerator(s, true) == h
            &&& h < 0 ==> numerator(s, true) == h + 0x8000_0000
            &&& h != 0 ==> denominator(s) == h
            &&& h == 0 ==> denominator(s) == 1
            &&& operand48(s) * 0x2_0000_0000 <= signed < (operand48(s) + 1) * 0x2_0000_0000
        }),
{
}

/// The buffers of an entry point are those of the module for the types of its operands and of its
/// result: one name reads one Q16.16 buffer, four work on Q48.16 numbers, and every other name
/// combines two Q16.16 buffers.
pub proof fn entry_points_use_the_bindings_of_their_module(name: Seq<char>)
    ensures
        ({
            let m = module_of(name);
            let wide = name == "add48"@ || name == "sub48"@ || name == "mul_add48"@;
            let narrowing = name == "to16_48"@;
            let dst = dst_of(name);
            let inputs = inputs_of(name);
            &&& m is Batch48 <==> wide || narrowing
            &&& wide ==> output_slot(m, Kind::Q48) == Some(dst.binding) && dst.bytes == 8
            &&& !wide ==> output_slot(m, Kind::Q16) == Some(dst.binding) && dst.bytes == 4
            &&& wide || narrowing ==> inputs.len() > 0 && inputs[0].binding == input_slots(
                m,
                Kind::Q48,
            )[0] && inputs[0].bytes == 8
            &&& name == "add48"@ || name == "sub48"@ ==> inputs.len() == 2 && inputs[1].binding
                == input_slots(m, Kind::Q48)[1] && inputs[1].bytes == 8
            &&& narrowing ==> inputs.len() == 1
            &&& name == "mul_add48"@ ==> inputs.len() == 3 && forall|i: int|
                0 <= i < 2 ==> #[trigger] inputs[i + 1].binding == input_slots(m, Kind::Q16)[i]
                    && inputs[i + 1].bytes == 4
            &&& !wide && !narrowing ==> inputs.len() == (if name == "sqrt16"@ {
                1nat
            } else {
                2nat
            }) && forall|i: int|
                0 <= i < inputs.len() ==> (#[trigger] inputs[i]).binding == input_slots(
                    m,
                    Kind::Q16,
                )[i] && inputs[i].bytes == 4
        }),
{
    lemma_names_differ();
    let inputs = inputs_of(name);
    if name == "mul_add48"@ {
        assert forall|i: int| 0 <= i < 2 implies #[trigger] inputs[i + 1].binding == input_slots(
            module_of(name),
            Kind::Q16,
        )[i] && inputs[i + 1].bytes == 4 by {
            assert(i == 0 || i == 1);
        }
    }
}

proof fn lemma_names_differ()
    ensures
        "add48"@ != "sub48"@,
        "add48"@ != "mul_add48"@,
        "add48"@ != "to16_48"@,
        "add48"@ != "sqrt16"@,
        "sub48"@ != "mul_add48"@,
        "sub48"@ != "to16_48"@,
        "sub48"@ != "sqrt16"@,
        "mul_add48"@ != "to16_48"@,
        "mul_add48"@ != "sqrt16"@,
        "to16_48"@ != "sqrt16"@,
{
    reveal_strlit("add48");
    reveal_strlit("sub48");
    reveal_strlit("mul_add48");
    reveal_strlit("to16_48");
    reveal_strlit("sqrt16");
    assert("add48"@.len() == 5 && "sub48"@.len() == 5 && "mul_add48"@.len() == 9);
    assert("to16_48"@.len() == 7 && "sqrt16"@.len() == 6);
    assert("add48"@[0] == 'a' && "sub48"@[0] == 's');
}

/// A description of an entry point has its module, its destination and its inputs.
pub proof fn descriptions_are_complete(op: Op, name: Seq<char>)
    ensures
        describes(op, name) <==> op.module == module_of(name) && op.dst == dst_of(name)
            && op.inputs@ == inputs_of(name),
{
}

/// A benchmark allocates the destination, the two counters at binding 3, and every input in order,
/// each with room for all elements.
pub proof fn benchmarks_allocate_room_for_all_elements(op: Op, elements: u32, slot: Slot)
    requires
        elements * slot.bytes <= u64::MAX,
    ensures
        plan_of(slot, elements).binding == slot.binding,
        plan_of(slot, elements).size == elements * slot.bytes,
        plans_of(op, elements).len() == 2 + op.inputs@.len(),
        plans_of(op, elements)[0] == plan_of(op.dst, elements),
        plans_of(op, elements)[1].binding == 3,
        plans_of(op, elements)[1].size == 8,
        forall|i: int|
            0 <= i < op.inputs@.len() ==> plans_of(op, elements)[2 + i] == plan_of(
                #[trigger] op.inputs@[i],
                elements,
            ),
{
    assert forall|i: int| 0 <= i < op.inputs@.len() implies plans_of(op, elements)[2 + i]
        == plan_of(#[trigger] op.inputs@[i], elements) by {}
}

/// The operands of a benchmark are drawn one after the other: the Q16.16 operands in turn from the
/// plain seed, the others from the stream of their buffer.
pub proof fn operands_are_drawn_in_order(
    elements: u32,
    non_negative: bool,
    index: u64,
    i: int,
)
    requires
        0 <= i < elements,
    ensures
        first_operands16(elements, non_negative).len() == elements,
        second_operands16(elements).len() == elements,
        operands48(elements, index).len() == elements,
        factors16(elements, index).len() == elements,
        ({
            let s = nth_state(SEED, (2 * i) as nat);
            &&& first_operands16(elements, non_negative)[i] == numerator(
                next_state(s),
                non_negative,
            )
            &&& second_operands16(elements)[i] == denominator(next_state(next_state(s)))
        }),
        ({
            let s = nth_state(stream_seed(index), i as nat);
            &&& operands48(elements, index)[i] == operand48(next_state(s))
            &&& factors16(elements, index)[i] == high_word(next_state(s))
        }),
{
    assert(nth_state(SEED, (2 * i + 1) as nat) == next_state(nth_state(SEED, (2 * i) as nat)));
    assert(nth_state(SEED, (2 * i + 2) as nat) == next_state(
        nth_state(SEED, (2 * i + 1) as nat),
    ));
    operands_are_the_upper_bits_of_a_state(nth_state(SEED, (2 * i + 1) as nat));
    operands_are_the_upper_bits_of_a_state(nth_state(SEED, (2 * i + 2) as nat));
    let t = nth_state(stream_seed(index), (i + 1) as nat);
    assert(t == next_state(nth_state(stream_seed(index), i as nat)));
    operands_are_the_upper_bits_of_a_state(t);
}

/// An input buffer of a benchmark reads back as its operands: on Q16.16 buffers the first or the
/// second operands, elsewhere Q48.16 operands or Q16.16 factors by the size of the element. Only a
/// square root asks for operands that are not negative.
pub proof fn benchmark_buffers_hold_their_operands(
    name: Seq<char>,
    op: Op,
    elements: u32,
    index: int,
)
    requires
        0 <= index < op.inputs@.len(),
        index <= u64::MAX,
    ensures
        ({
            let words = words_in(input_data_of(name, op, elements, index));
            let narrow = op.dst.bytes == 4 && op.inputs@[0].bytes == 4;
            &&& narrow && index == 0 && name == "sqrt16"@ ==> words == first_operands16(
                elements,
                true,
            ).map_values(|v: i32| word_of(v))
            &&& narrow && index == 0 && name != "sqrt16"@ ==> words == first_operands16(
                elements,
                false,
            ).map_values(|v: i32| word_of(v))
            &&& narrow && index > 0 ==> words == second_operands16(elements).map_values(
                |v: i32| word_of(v),
            )
            &&& !narrow && op.inputs@[index].bytes != 8 ==> words == factors16(
                elements,
                index as u64,
            ).map_values(|v: i32| word_of(v))
            &&& !narrow && op.inputs@[index].bytes == 8 ==> words.len() == 2 * elements && forall|
                i: int,
            |
                0 <= i < elements ==> words[2 * i] == wide_of(
                    #[trigger] operands48(elements, index as u64)[i] as int,
                ).lo && words[2 * i + 1] == wide_of(
                    operands48(elements, index as u64)[i] as int,
                ).hi
        }),
{
    bytes_round_trip(
        first_operands16(elements, name == "sqrt16"@).map_values(|v: i32| word_of(v)),
    );
    bytes_round_trip(second_operands16(elements).map_values(|v: i32| word_of(v)));
    bytes_round_trip(factors16(elements, index as u64).map_values(|v: i32| word_of(v)));
    let values = operands48(elements, index as u64);
    let wides = values.map_values(|v: i64| wide_of(v as int));
    bytes_round_trip(wide_words(wides));
    wide_numbers_are_low_word_first(wides);
    assert forall|i: int| 0 <= i < elements implies wide_words(wides)[2 * i] == wide_of(
        #[trigger] values[i] as int,
    ).lo && wide_words(wides)[2 * i + 1] == wide_of(values[i] as int).hi by {
        assert(wides[i] == wide_of(values[i] as int));
    }
}

} // verus!
