//! Conformance runs: what a dispatch is given, and what it must leave behind.
use vstd::prelude::*;
use crate::batch::{
    batch48, count, is_batch16, is_batch48, lanes16, outs48, word_of, words_of, Batch16, Batch48,
    Buffers48, Op16, Op48, Out48, Telemetry, Variant,
};
use crate::bytes::{bytes_of, i32_bytes, wide_bytes, wide_words};
use crate::lane::Lane16;
use crate::number::to_word;
use crate::replay::{
    agree_as_far_as_they_go, first_difference, first_mismatch, InputBuffer,
};
use crate::wide::Wide;

verus! {

/// One case of a Q16.16 entry point, with the telemetry that it adds.
#[derive(Clone, Copy, Debug, PartialEq, Eq, Structural)]
pub struct Case {
    pub a: i32,
    pub b: i32,
    pub want: i32,
    pub saturations: u32,
    pub faults: u32,
}

/// The case of an entry point on one pair of operands.
pub open spec fn case_of(op: Op16, a: i32, b: i32) -> Case {
    let lane = op.lane(a, b);
    Case {
        a,
        b,
        want: lane.raw,
        saturations: if lane.saturated {
            1
        } else {
            0
        },
        faults: if lane.fault {
            1
        } else {
            0
        },
    }
}

/// The case of an entry point on one pair of operands.
pub fn case16(op: Op16, a: i32, b: i32) -> (case: Case)
    ensures
        case == case_of(op, a, b),
{
    let lane: Lane16 = op.eval(Variant::Native, a, b);
    Case {
        a,
        b,
        want: lane.raw,
        saturations: if lane.saturated {
            1
        } else {
            0
        },
        faults: if lane.fault {
            1
        } else {
            0
        },
    }
}

/// The cases of an entry point on a row of operand pairs.
pub fn cases16(op: Op16, pairs: &[(i32, i32)]) -> (cases: Vec<Case>)
    ensures
        cases@ == pairs@.map_values(|pair: (i32, i32)| case_of(op, pair.0, pair.1)),
{
    let mut cases: Vec<Case> = Vec::new();
    let mut i: usize = 0;
    while i < pairs.len()
        invariant
            i <= pairs@.len(),
            cases@ =~= pairs@.map_values(
                |pair: (i32, i32)| case_of(op, pair.0, pair.1),
            ).take(i as int),
        decreases pairs@.len() - i,
    {
        cases.push(case16(op, pairs[i].0, pairs[i].1));
        i = i + 1;
    }
    cases
}

/// A dispatch: its elements, its input buffers, its destination, and what must come out.
pub struct Run {
    pub elements: u32,
    pub inputs: Vec<InputBuffer>,
    pub out_binding: u32,
    pub want: Vec<u32>,
    pub telemetry: Telemetry,
}

/// The first operands of a row of cases.
pub open spec fn firsts(cases: Seq<Case>) -> Seq<i32> {
    cases.map_values(|case: Case| case.a)
}

/// The second operands of a row of cases.
pub open spec fn seconds(cases: Seq<Case>) -> Seq<i32> {
    cases.map_values(|case: Case| case.b)
}

/// The saturations of a row of cases, added up.
pub open spec fn total_saturations(cases: Seq<Case>) -> int
    decreases cases.len(),
{
    if cases.len() == 0 {
        0
    } else {
        total_saturations(cases.drop_last()) + cases.last().saturations
    }
}

/// The faults of a row of cases, added up.
pub open spec fn total_faults(cases: Seq<Case>) -> int
    decreases cases.len(),
{
    if cases.len() == 0 {
        0
    } else {
        total_faults(cases.drop_last()) + cases.last().faults
    }
}

/// The telemetry of a row of cases grows with every case.
proof fn lemma_totals_grow(cases: Seq<Case>, i: int)
    requires
        0 <= i <= cases.len(),
    ensures
        total_saturations(cases.take(i)) <= total_saturations(cases),
        total_faults(cases.take(i)) <= total_faults(cases),
    decreases cases.len() - i,
{
    if i < cases.len() {
        lemma_totals_grow(cases, i + 1);
        assert(cases.take(i + 1).drop_last() == cases.take(i));
    } else {
        assert(cases.take(i) == cases);
    }
}

/// Cases of an entry point add at most one saturation and one fault each, so their totals fit
/// the counters of a dispatch.
pub proof fn totals_of_cases_fit(op: Op16, cases: Seq<Case>)
    requires
        forall|i: int|
            0 <= i < cases.len() ==> #[trigger] cases[i] == case_of(op, cases[i].a, cases[i].b),
    ensures
        0 <= total_saturations(cases) <= cases.len(),
        0 <= total_faults(cases) <= cases.len(),
    decreases cases.len(),
{
    if cases.len() > 0 {
        let before = cases.drop_last();
        assert forall|i: int| 0 <= i < before.len() implies #[trigger] before[i] == case_of(
            op,
            before[i].a,
            before[i].b,
        ) by {
            assert(before[i] == cases[i]);
        }
        totals_of_cases_fit(op, before);
        assert(cases.last() == cases[cases.len() - 1]);
    }
}

/// The bytes of a row of 32-bit numbers.
pub open spec fn bytes32(values: Seq<i32>) -> Seq<u8> {
    bytes_of(values.map_values(|v: i32| word_of(v)))
}

/// The dispatch of a row of Q16.16 cases: operands at bindings 1 and 2, results at binding 0.
pub fn run16(cases: &[Case]) -> (run: Run)
    requires
        cases@.len() <= u32::MAX,
        total_saturations(cases@) <= u32::MAX,
        total_faults(cases@) <= u32::MAX,
    ensures
        run.elements == cases@.len(),
        run.inputs@.len() == 2,
        run.inputs@[0].binding == 1,
        run.inputs@[0].bytes@ == bytes32(firsts(cases@)),
        run.inputs@[1].binding == 2,
        run.inputs@[1].bytes@ == bytes32(seconds(cases@)),
        run.out_binding == 0,
        run.want@ == cases@.map_values(|case: Case| word_of(case.want)),
        run.telemetry.saturations == total_saturations(cases@),
        run.telemetry.faults == total_faults(cases@),
{
    let mut a: Vec<i32> = Vec::new();
    let mut b: Vec<i32> = Vec::new();
    let mut want: Vec<u32> = Vec::new();
    let mut saturations: u32 = 0;
    let mut faults: u32 = 0;
    let mut i: usize = 0;
    while i < cases.len()
        invariant
            i <= cases@.len() <= u32::MAX,
            total_saturations(cases@) <= u32::MAX,
            total_faults(cases@) <= u32::MAX,
            a@ =~= firsts(cases@).take(i as int),
            b@ =~= seconds(cases@).take(i as int),
            want@ =~= cases@.map_values(|case: Case| word_of(case.want)).take(i as int),
            saturations == total_saturations(cases@.take(i as int)),
            faults == total_faults(cases@.take(i as int)),
        decreases cases@.len() - i,
    {
        let case: Case = cases[i];
        proof {
            assert(cases@.take(i + 1).drop_last() == cases@.take(i as int));
            lemma_totals_grow(cases@, i + 1);
        }
        a.push(case.a);
        b.push(case.b);
        want.push(to_word(case.want));
        saturations = saturations + case.saturations;
        faults = faults + case.faults;
        i = i + 1;
    }
    assert(cases@.take(cases@.len() as int) == cases@);
    assert(a@ =~= firsts(cases@));
    assert(b@ =~= seconds(cases@));
    let first: InputBuffer = InputBuffer { binding: 1, bytes: i32_bytes(a.as_slice()) };
    let second: InputBuffer = InputBuffer { binding: 2, bytes: i32_bytes(b.as_slice()) };
    let mut inputs: Vec<InputBuffer> = Vec::new();
    inputs.push(first);
    inputs.push(second);
    Run {
        elements: cases.len() as u32,
        inputs,
        out_binding: 0,
        want,
        telemetry: Telemetry { saturations, faults },
    }
}

/// The binding that a 64-bit entry point writes its results to.
pub open spec fn destination(op: Op48) -> u32 {
    match op {
        Op48::Add | Op48::Sub | Op48::MulAdd | Op48::To48From16 | Op48::To48From32 => 0,
        Op48::To16From48 | Op48::To16From32 => 4,
        Op48::To32From48 => 7,
    }
}

/// The bindings that a 64-bit entry point reads, and the bytes that they hold.
pub open spec fn sources(op: Op48, buffers: Buffers48) -> Seq<(u32, Seq<u8>)> {
    let a = (1u32, bytes_of(wide_words(buffers.a@)));
    let b = (2u32, bytes_of(wide_words(buffers.b@)));
    let a16 = (5u32, bytes32(buffers.a16@));
    let b16 = (6u32, bytes32(buffers.b16@));
    let a32 = (8u32, bytes_of(wide_words(buffers.a32@)));
    match op {
        Op48::Add | Op48::Sub => seq![a, b],
        Op48::MulAdd => seq![a, a16, b16],
        Op48::To16From48 | Op48::To32From48 => seq![a],
        Op48::To48From16 => seq![a16],
        Op48::To16From32 | Op48::To48From32 => seq![a32],
    }
}

/// A list of input buffers as pairs of a binding and its bytes.
pub open spec fn pairs_of(inputs: Seq<InputBuffer>) -> Seq<(u32, Seq<u8>)> {
    inputs.map_values(|input: InputBuffer| (input.binding, input.bytes@))
}

/// The input buffer that holds 64-bit numbers at a binding.
fn wide_input(binding: u32, values: &Vec<Wide>) -> (input: InputBuffer)
    ensures
        input.binding == binding,
        input.bytes@ == bytes_of(wide_words(values@)),
{
    InputBuffer { binding, bytes: wide_bytes(values.as_slice()) }
}

/// The input buffer that holds 32-bit numbers at a binding.
fn narrow_input(binding: u32, values: &Vec<i32>) -> (input: InputBuffer)
    ensures
        input.binding == binding,
        input.bytes@ == bytes32(values@),
{
    InputBuffer { binding, bytes: i32_bytes(values.as_slice()) }
}

/// The dispatch of a 64-bit entry point over its buffers.
pub fn run48(op: Op48, buffers: &Buffers48, n: usize) -> (run: Run)
    requires
        op.serves(*buffers, n as int),
        n <= u32::MAX,
    ensures
        run.elements == n,
        pairs_of(run.inputs@) == sources(op, *buffers),
        run.out_binding == destination(op),
        run.want@ == words_of(outs48(op, *buffers, n as nat)),
        run.telemetry.saturations == count(
            outs48(op, *buffers, n as nat).map_values(|out: Out48| out.spec_saturated()),
        ),
        run.telemetry.faults == 0,
{
    let batch: Batch48 = batch48(Variant::Native, op, buffers, n);
    let mut inputs: Vec<InputBuffer> = Vec::new();
    match op {
        Op48::Add | Op48::Sub => {
            inputs.push(wide_input(1, &buffers.a));
            inputs.push(wide_input(2, &buffers.b));
        },
        Op48::MulAdd => {
            inputs.push(wide_input(1, &buffers.a));
            inputs.push(narrow_input(5, &buffers.a16));
            inputs.push(narrow_input(6, &buffers.b16));
        },
        Op48::To16From48 | Op48::To32From48 => {
            inputs.push(wide_input(1, &buffers.a));
        },
        Op48::To48From16 => {
            inputs.push(narrow_input(5, &buffers.a16));
        },
        Op48::To16From32 | Op48::To48From32 => {
            inputs.push(wide_input(8, &buffers.a32));
        },
    }
    assert(pairs_of(inputs@) =~= sources(op, *buffers));
    let out_binding: u32 = match op {
        Op48::Add | Op48::Sub | Op48::MulAdd | Op48::To48From16 | Op48::To48From32 => 0,
        Op48::To16From48 | Op48::To16From32 => 4,
        Op48::To32From48 => 7,
    };
    Run {
        elements: n as u32,
        inputs,
        out_binding,
        want: batch.words,
        telemetry: batch.telemetry,
    }
}

/// How a dispatch compares with its run.
#[derive(Clone, Copy, Debug, PartialEq, Eq, Structural)]
pub enum Outcome {
    /// Every bit and both counters are as expected.
    Agrees,
    /// The words differ, first at this word. Without a position one row of words is longer than
    /// the other.
    Diverged { word: Option<usize> },
    /// The words agree, but a counter does not.
    Telemetry,
}

/// Compares what a dispatch left behind with what its run expects: the words come first.
pub fn compare(run: &Run, got: &[u32], sat: [u32; 2]) -> (outcome: Outcome)
    ensures
        match outcome {
            Outcome::Agrees => got@ == run.want@ && sat[0] == run.telemetry.saturations && sat[1]
                == run.telemetry.faults,
            Outcome::Diverged { word: Some(w) } => first_difference(got@, run.want@, w as int),
            Outcome::Diverged { word: None } => got@ != run.want@ && agree_as_far_as_they_go(
                got@,
                run.want@,
            ),
            Outcome::Telemetry => got@ == run.want@ && !(sat[0] == run.telemetry.saturations
                && sat[1] == run.telemetry.faults),
        },
{
    match first_mismatch(got, run.want.as_slice()) {
        Some(word) => {
            return Outcome::Diverged { word: Some(word) };
        },
        None => {},
    }
    if got.len() != run.want.len() {
        return Outcome::Diverged { word: None };
    }
    assert(got@ =~= run.want@);
    if sat[0] == run.telemetry.saturations && sat[1] == run.telemetry.faults {
        Outcome::Agrees
    } else {
        Outcome::Telemetry
    }
}

/// The flags of a row of cases add up to its telemetry.
proof fn lemma_totals_count(op: Op16, cases: Seq<Case>)
    requires
        forall|i: int|
            0 <= i < cases.len() ==> #[trigger] cases[i] == case_of(op, cases[i].a, cases[i].b),
    ensures
        total_saturations(cases) == count(
            cases.map_values(|case: Case| op.lane(case.a, case.b).saturated),
        ),
        total_faults(cases) == count(cases.map_values(|case: Case| op.lane(case.a, case.b).fault)),
    decreases cases.len(),
{
    let saturated = cases.map_values(|case: Case| op.lane(case.a, case.b).saturated);
    let faulted = cases.map_values(|case: Case| op.lane(case.a, case.b).fault);
    if cases.len() > 0 {
        let before = cases.drop_last();
        assert forall|i: int| 0 <= i < before.len() implies #[trigger] before[i] == case_of(
            op,
            before[i].a,
            before[i].b,
        ) by {
            assert(before[i] == cases[i]);
        }
        lemma_totals_count(op, before);
        assert(saturated.drop_last() =~= before.map_values(
            |case: Case| op.lane(case.a, case.b).saturated,
        ));
        assert(faulted.drop_last() =~= before.map_values(
            |case: Case| op.lane(case.a, case.b).fault,
        ));
        assert(cases.last() == cases[cases.len() - 1]);
    }
}

/// A dispatch that computes what it should passes its run: the words and the counters that
/// `batch16` leaves behind, in either variant, are those that `run16` expects of the cases of the
/// entry point.
pub proof fn conforming_dispatch16_agrees(run: Run, batch: Batch16, op: Op16, cases: Seq<Case>)
    requires
        forall|i: int|
            0 <= i < cases.len() ==> #[trigger] cases[i] == case_of(op, cases[i].a, cases[i].b),
        is_batch16(batch, op, firsts(cases), seconds(cases)),
        run.want@ == cases.map_values(|case: Case| word_of(case.want)),
        run.telemetry.saturations == total_saturations(cases),
        run.telemetry.faults == total_faults(cases),
    ensures
        batch.dst@.map_values(|v: i32| word_of(v)) == run.want@,
        batch.telemetry == run.telemetry,
{
    lemma_totals_count(op, cases);
    let lanes = lanes16(op, firsts(cases), seconds(cases));
    assert(lanes.map_values(|lane: Lane16| lane.saturated) =~= cases.map_values(
        |case: Case| op.lane(case.a, case.b).saturated,
    ));
    assert(lanes.map_values(|lane: Lane16| lane.fault) =~= cases.map_values(
        |case: Case| op.lane(case.a, case.b).fault,
    ));
    assert(batch.dst@.map_values(|v: i32| word_of(v)) =~= run.want@);
}

/// A dispatch that computes what it should passes its run: the words and the counters that
/// `batch48` leaves behind, in either variant, are those that `run48` expects.
pub proof fn conforming_dispatch48_agrees(
    run: Run,
    batch: Batch48,
    op: Op48,
    buffers: Buffers48,
    n: nat,
)
    requires
        is_batch48(batch, op, buffers, n),
        run.want@ == words_of(outs48(op, buffers, n)),
        run.telemetry.saturations == count(
            outs48(op, buffers, n).map_values(|out: Out48| out.spec_saturated()),
        ),
        run.telemetry.faults == 0,
    ensures
        batch.words@ == run.want@,
        batch.telemetry == run.telemetry,
{
}

} // verus!
