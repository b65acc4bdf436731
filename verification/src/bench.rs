//! What a benchmark of an entry point needs to know: its buffers, its operands, its settings.
use vstd::prelude::*;
use crate::batch::word_of;
use crate::bytes::{
    bytes_of, i32_bytes, i64_bytes, lemma_bytes_of_len, lemma_wide_words_len, wide_words,
};
use crate::inputs::{
    denominator, make_inputs, make_inputs16, make_inputs48, numerator, operand48,
};
use crate::lane::wide_of;
use crate::layout::{Module, SAT_BINDING, SAT_BYTES};
use crate::lcg::{high_word, nth_state, stream_seed, SEED};
use crate::numeral::{parse_unsigned, parsed};
use crate::runs::bytes32;
use crate::text::{chars_of, same_str};

verus! {

/// How many elements a dispatch handles unless told otherwise.
pub const DEFAULT_ELEMENTS: u32 = 262_144;

/// How many dispatches make a sample unless told otherwise.
pub const DEFAULT_REPEATS: u32 = 32;

/// How many warm-up samples are taken unless told otherwise.
pub const DEFAULT_WARMUP_SAMPLES: u32 = 5;

/// How many samples are measured unless told otherwise.
pub const DEFAULT_MEASURED_SAMPLES: u32 = 21;

/// The value of a setting: the number that its text denotes, or the fallback when there is no
/// text or it denotes no 32-bit number.
pub fn env_u32(text: Option<&str>, fallback: u32) -> (value: u32)
    ensures
        value == match text {
            Some(text) => match parsed(text@, 10, u32::MAX as int) {
                Some(n) => n,
                None => fallback as int,
            },
            None => fallback as int,
        },
{
    match text {
        Some(text) => match parse_unsigned(&chars_of(text), 10, u32::MAX as u64) {
            Some(n) => n as u32,
            None => fallback,
        },
        None => fallback,
    }
}

/// A buffer of an entry point: its binding, and the bytes of one element.
#[derive(Clone, Copy, Debug, PartialEq, Eq, Structural)]
pub struct Slot {
    pub binding: u32,
    pub bytes: u64,
}

/// What a benchmark needs to know about an entry point beyond its name.
pub struct Op {
    pub module: Module,
    pub dst: Slot,
    pub inputs: Vec<Slot>,
}

/// The module that an entry point belongs to.
pub open spec fn module_of(entry_point: Seq<char>) -> Module {
    if entry_point == "add48"@ || entry_point == "sub48"@ || entry_point == "mul_add48"@
        || entry_point == "to16_48"@ {
        Module::Batch48
    } else {
        Module::Batch16
    }
}

/// The destination of an entry point.
pub open spec fn dst_of(entry_point: Seq<char>) -> Slot {
    if entry_point == "add48"@ || entry_point == "sub48"@ || entry_point == "mul_add48"@ {
        Slot { binding: 0, bytes: 8 }
    } else if entry_point == "to16_48"@ {
        Slot { binding: 4, bytes: 4 }
    } else {
        Slot { binding: 0, bytes: 4 }
    }
}

/// The inputs of an entry point, in order. An entry point that is not named here combines two
/// Q16.16 buffers.
pub open spec fn inputs_of(entry_point: Seq<char>) -> Seq<Slot> {
    if entry_point == "add48"@ || entry_point == "sub48"@ {
        seq![Slot { binding: 1, bytes: 8 }, Slot { binding: 2, bytes: 8 }]
    } else if entry_point == "mul_add48"@ {
        seq![
            Slot { binding: 1, bytes: 8 },
            Slot { binding: 5, bytes: 4 },
            Slot { binding: 6, bytes: 4 },
        ]
    } else if entry_point == "to16_48"@ {
        seq![Slot { binding: 1, bytes: 8 }]
    } else if entry_point == "sqrt16"@ {
        seq![Slot { binding: 1, bytes: 4 }]
    } else {
        seq![Slot { binding: 1, bytes: 4 }, Slot { binding: 2, bytes: 4 }]
    }
}

/// `op` describes the entry point.
pub open spec fn describes(op: Op, entry_point: Seq<char>) -> bool {
    &&& op.module == module_of(entry_point)
    &&& op.dst == dst_of(entry_point)
    &&& op.inputs@ == inputs_of(entry_point)
}

/// What a benchmark needs to know about an entry point.
pub fn op(entry_point: &str) -> (op: Op)
    ensures
        describes(op, entry_point@),
{
    if same_str(entry_point, "add48") || same_str(entry_point, "sub48") {
        let inputs: Vec<Slot> = vec![
            Slot { binding: 1, bytes: 8 },
            Slot { binding: 2, bytes: 8 },
        ];
        assert(inputs@ =~= inputs_of(entry_point@));
        Op { module: Module::Batch48, dst: Slot { binding: 0, bytes: 8 }, inputs }
    } else if same_str(entry_point, "mul_add48") {
        let inputs: Vec<Slot> = vec![
            Slot { binding: 1, bytes: 8 },
            Slot { binding: 5, bytes: 4 },
            Slot { binding: 6, bytes: 4 },
        ];
        assert(inputs@ =~= inputs_of(entry_point@));
        Op { module: Module::Batch48, dst: Slot { binding: 0, bytes: 8 }, inputs }
    } else if same_str(entry_point, "to16_48") {
        let inputs: Vec<Slot> = vec![Slot { binding: 1, bytes: 8 }];
        assert(inputs@ =~= inputs_of(entry_point@));
        Op { module: Module::Batch48, dst: Slot { binding: 4, bytes: 4 }, inputs }
    } else if same_str(entry_point, "sqrt16") {
        let inputs: Vec<Slot> = vec![Slot { binding: 1, bytes: 4 }];
        assert(inputs@ =~= inputs_of(entry_point@));
        Op { module: Module::Batch16, dst: Slot { binding: 0, bytes: 4 }, inputs }
    } else {
        let inputs: Vec<Slot> = vec![
            Slot { binding: 1, bytes: 4 },
            Slot { binding: 2, bytes: 4 },
        ];
        assert(inputs@ =~= inputs_of(entry_point@));
        Op { module: Module::Batch16, dst: Slot { binding: 0, bytes: 4 }, inputs }
    }
}

/// A buffer of a benchmark: its binding and its size in bytes.
#[derive(Clone, Copy, Debug, PartialEq, Eq, Structural)]
pub struct BufferPlan {
    pub binding: u32,
    pub size: u64,
}

/// The buffer that holds `elements` elements of a slot.
pub open spec fn plan_of(slot: Slot, elements: u32) -> BufferPlan {
    BufferPlan { binding: slot.binding, size: (elements * slot.bytes) as u64 }
}

/// The buffers of a benchmark: the destination, the telemetry, then every input in order.
pub open spec fn plans_of(op: Op, elements: u32) -> Seq<BufferPlan> {
    seq![plan_of(op.dst, elements), BufferPlan { binding: SAT_BINDING, size: SAT_BYTES }]
        + op.inputs@.map_values(|slot: Slot| plan_of(slot, elements))
}

/// The buffers that a benchmark of `elements` elements allocates.
pub fn buffer_plan(op: &Op, elements: u32) -> (plans: Vec<BufferPlan>)
    requires
        elements * op.dst.bytes <= u64::MAX,
        forall|i: int|
            0 <= i < op.inputs@.len() ==> elements * (#[trigger] op.inputs@[i]).bytes <= u64::MAX,
    ensures
        plans@ == plans_of(*op, elements),
{
    let mut plans: Vec<BufferPlan> = Vec::new();
    plans.push(BufferPlan { binding: op.dst.binding, size: elements as u64 * op.dst.bytes });
    plans.push(BufferPlan { binding: SAT_BINDING, size: SAT_BYTES });
    let mut i: usize = 0;
    while i < op.inputs.len()
        invariant
            i <= op.inputs@.len(),
            forall|i: int|
                0 <= i < op.inputs@.len() ==> elements * (#[trigger] op.inputs@[i]).bytes
                    <= u64::MAX,
            plans@ =~= plans_of(*op, elements).take(2 + i),
        decreases op.inputs@.len() - i,
    {
        let slot: Slot = op.inputs[i];
        assert(elements * op.inputs@[i as int].bytes <= u64::MAX);
        plans.push(BufferPlan { binding: slot.binding, size: elements as u64 * slot.bytes });
        i = i + 1;
    }
    plans
}

/// The buffers of every entry point fit the address range, whatever the number of elements.
pub proof fn buffers_always_fit(op: Op, entry_point: Seq<char>, elements: u32)
    requires
        describes(op, entry_point),
    ensures
        elements * op.dst.bytes <= u64::MAX,
        forall|i: int|
            0 <= i < op.inputs@.len() ==> elements * (#[trigger] op.inputs@[i]).bytes <= u64::MAX,
        op.inputs@.len() > 0,
{
    assert(0 <= elements * 4 <= u64::MAX);
    assert(0 <= elements * 8 <= u64::MAX);
    assert(op.dst.bytes == 4 || op.dst.bytes == 8);
    assert forall|i: int| 0 <= i < op.inputs@.len() implies elements * (
    #[trigger] op.inputs@[i]).bytes <= u64::MAX by {
        assert(op.inputs@[i].bytes == 4 || op.inputs@[i].bytes == 8);
    }
}

/// The first operands of a benchmark on Q16.16 buffers.
pub open spec fn first_operands16(elements: u32, non_negative: bool) -> Seq<i32> {
    Seq::new(
        elements as nat,
        |i: int| numerator(nth_state(SEED, (2 * i + 1) as nat), non_negative) as i32,
    )
}

/// The second operands of a benchmark on Q16.16 buffers.
pub open spec fn second_operands16(elements: u32) -> Seq<i32> {
    Seq::new(elements as nat, |i: int| denominator(nth_state(SEED, (2 * i + 2) as nat)) as i32)
}

/// The Q48.16 operands of input buffer `index`.
pub open spec fn operands48(elements: u32, index: u64) -> Seq<i64> {
    Seq::new(
        elements as nat,
        |i: int| operand48(nth_state(stream_seed(index), (i + 1) as nat)) as i64,
    )
}

/// The Q16.16 factors of input buffer `index`.
pub open spec fn factors16(elements: u32, index: u64) -> Seq<i32> {
    Seq::new(
        elements as nat,
        |i: int| high_word(nth_state(stream_seed(index), (i + 1) as nat)) as i32,
    )
}

/// The entry point reads and writes Q16.16 buffers alone.
pub open spec fn in_q16_family(op: Op) -> bool {
    op.dst.bytes == 4 && op.inputs@[0].bytes == 4
}

/// The bytes of input buffer `index`.
pub open spec fn input_data_of(
    entry_point: Seq<char>,
    op: Op,
    elements: u32,
    index: int,
) -> Seq<u8> {
    if in_q16_family(op) {
        if index == 0 {
            bytes32(first_operands16(elements, entry_point == "sqrt16"@))
        } else {
            bytes32(second_operands16(elements))
        }
    } else if op.inputs@[index].bytes == 8 {
        bytes_of(
            wide_words(operands48(elements, index as u64).map_values(|v: i64| wide_of(v as int))),
        )
    } else {
        bytes32(factors16(elements, index as u64))
    }
}

/// The bytes that a benchmark writes to input buffer `index`.
pub fn input_data(entry_point: &str, op: &Op, elements: u32, index: usize) -> (bytes: Vec<u8>)
    requires
        index < op.inputs@.len(),
    ensures
        bytes@ == input_data_of(entry_point@, *op, elements, index as int),
{
    if op.dst.bytes == 4 && op.inputs[0].bytes == 4 {
        let square_root: bool = same_str(entry_point, "sqrt16");
        let (a, b): (Vec<i32>, Vec<i32>) = make_inputs(elements, square_root);
        if index == 0 {
            assert(a@ =~= first_operands16(elements, square_root));
            i32_bytes(a.as_slice())
        } else {
            assert(b@ =~= second_operands16(elements));
            i32_bytes(b.as_slice())
        }
    } else if op.inputs[index].bytes == 8 {
        let values: Vec<i64> = make_inputs48(elements, index as u64);
        assert(values@ =~= operands48(elements, index as u64));
        i64_bytes(values.as_slice())
    } else {
        let values: Vec<i32> = make_inputs16(elements, index as u64);
        assert(values@ =~= factors16(elements, index as u64));
        i32_bytes(values.as_slice())
    }
}

/// The operands of an entry point fill each of its input buffers exactly.
pub proof fn operands_fill_their_buffers(
    op: Op,
    entry_point: Seq<char>,
    elements: u32,
    index: int,
)
    requires
        describes(op, entry_point),
        0 <= index < op.inputs@.len(),
    ensures
        input_data_of(entry_point, op, elements, index).len() == plan_of(
            op.inputs@[index],
            elements,
        ).size,
{
    buffers_always_fit(op, entry_point, elements);
    let a = first_operands16(elements, entry_point == "sqrt16"@);
    let b = second_operands16(elements);
    let wides = operands48(elements, index as u64).map_values(|v: i64| wide_of(v as int));
    let factors = factors16(elements, index as u64);
    lemma_bytes_of_len(a.map_values(|v: i32| word_of(v)));
    lemma_bytes_of_len(b.map_values(|v: i32| word_of(v)));
    lemma_bytes_of_len(factors.map_values(|v: i32| word_of(v)));
    lemma_wide_words_len(wides);
    lemma_bytes_of_len(wide_words(wides));
    assert(op.inputs@[index].bytes == 4 || op.inputs@[index].bytes == 8);
    assert(in_q16_family(op) ==> op.inputs@[index].bytes == 4);
    if op.inputs@[index].bytes == 8 {
        assert(plan_of(op.inputs@[index], elements).size == elements * 8);
    } else {
        assert(plan_of(op.inputs@[index], elements).size == elements * 4);
    }
}

} // verus!
