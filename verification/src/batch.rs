//! The entry points by name, and whole dispatches of them over buffers of elements.
use vstd::prelude::*;
use crate::core_ops;
use crate::lane::{
    accumulated48, blended16, coarsened32, difference16, difference48, mask16, maximum16,
    minimum16, narrowed32, narrowed48, product16, quotient16, refined48, sum16, sum48, widened16,
    Lane16, Lane64,
};
use crate::native;
use crate::number::to_word;
use crate::portable;
use crate::text::same_str;
use crate::wide::Wide;

verus! {

/// Which arithmetic an entry point runs on.
#[derive(Clone, Copy, Debug, PartialEq, Eq, Structural)]
pub enum Variant {
    /// 32-bit integers alone, which every device has.
    Portable,
    /// 64-bit integers, which only some devices have.
    Native,
}

/// The entry points that combine two Q16.16 buffers into one.
///
/// `mul_round16` and `sqrt16` are entry points too (see `entry_points16`), but no integer
/// reference is defined for them.
#[derive(Clone, Copy, Debug, PartialEq, Eq, Structural)]
pub enum Op16 {
    Add,
    Sub,
    Mul,
    Div,
    Min,
    Max,
    Greater,
    Equals,
    Blend,
}

/// The entry points that read or write 64-bit elements.
#[derive(Clone, Copy, Debug, PartialEq, Eq, Structural)]
pub enum Op48 {
    Add,
    Sub,
    MulAdd,
    To16From48,
    To16From32,
    To48From16,
    To48From32,
    To32From48,
}

impl Op16 {
    /// The name of the entry point.
    pub open spec fn spec_name(self) -> Seq<char> {
        match self {
            Op16::Add => "add16"@,
            Op16::Sub => "sub16"@,
            Op16::Mul => "mul16"@,
            Op16::Div => "div16"@,
            Op16::Min => "min16"@,
            Op16::Max => "max16"@,
            Op16::Greater => "greater16"@,
            Op16::Equals => "equals16"@,
            Op16::Blend => "blend16"@,
        }
    }

    /// What the entry point computes on one pair of elements.
    pub open spec fn lane(self, a: i32, b: i32) -> Lane16 {
        match self {
            Op16::Add => sum16(a, b),
            Op16::Sub => difference16(a, b),
            Op16::Mul => product16(a, b),
            Op16::Div => quotient16(a, b),
            Op16::Min => minimum16(a, b),
            Op16::Max => maximum16(a, b),
            Op16::Greater => mask16(a > b),
            Op16::Equals => mask16(a == b),
            Op16::Blend => blended16(a, b),
        }
    }

    /// The name of the entry point.
    pub fn name(self) -> (name: &'static str)
        ensures
            name@ == self.spec_name(),
    {
        match self {
            Op16::Add => "add16",
            Op16::Sub => "sub16",
            Op16::Mul => "mul16",
            Op16::Div => "div16",
            Op16::Min => "min16",
            Op16::Max => "max16",
            Op16::Greater => "greater16",
            Op16::Equals => "equals16",
            Op16::Blend => "blend16",
        }
    }

    /// The entry point of a name.
    pub fn parse(name: &str) -> (op: Option<Op16>)
        ensures
            match op {
                Some(op) => name@ == op.spec_name(),
                None => forall|op: Op16| name@ != #[trigger] op.spec_name(),
            },
    {
        if same_str(name, "add16") {
            Some(Op16::Add)
        } else if same_str(name, "sub16") {
            Some(Op16::Sub)
        } else if same_str(name, "mul16") {
            Some(Op16::Mul)
        } else if same_str(name, "div16") {
            Some(Op16::Div)
        } else if same_str(name, "min16") {
            Some(Op16::Min)
        } else if same_str(name, "max16") {
            Some(Op16::Max)
        } else if same_str(name, "greater16") {
            Some(Op16::Greater)
        } else if same_str(name, "equals16") {
            Some(Op16::Equals)
        } else if same_str(name, "blend16") {
            Some(Op16::Blend)
        } else {
            None
        }
    }

    /// Runs the entry point on one pair of elements.
    pub fn eval(self, variant: Variant, a: i32, b: i32) -> (lane: Lane16)
        ensures
            lane == self.lane(a, b),
    {
        match self {
            Op16::Add => core_ops::add16(a, b),
            Op16::Sub => core_ops::sub16(a, b),
            Op16::Mul => match variant {
                Variant::Portable => portable::mul16(a, b),
                Variant::Native => native::mul16(a, b),
            },
            Op16::Div => match variant {
                Variant::Portable => portable::div16(a, b),
                Variant::Native => native::div16(a, b),
            },
            Op16::Min => core_ops::min16(a, b),
            Op16::Max => core_ops::max16(a, b),
            Op16::Greater => core_ops::greater16(a, b),
            Op16::Equals => core_ops::equals16(a, b),
            Op16::Blend => core_ops::blend16(a, b),
        }
    }
}

/// Two entry points on Q16.16 buffers with one name are one entry point.
pub proof fn lemma_names16_are_distinct(p: Op16, q: Op16)
    requires
        p.spec_name() == q.spec_name(),
    ensures
        p == q,
{
    reveal_strlit("add16");
    reveal_strlit("sub16");
    reveal_strlit("mul16");
    reveal_strlit("div16");
    reveal_strlit("min16");
    reveal_strlit("max16");
    reveal_strlit("greater16");
    reveal_strlit("equals16");
    reveal_strlit("blend16");
    let s = p.spec_name();
    let t = q.spec_name();
    assert(s[0] == t[0] && s[1] == t[1] && s[2] == t[2] && s.len() == t.len());
}

/// The buffers that the entry points on 64-bit elements read, by binding.
pub struct Buffers48 {
    /// Binding 1: first Q48.16 operand.
    pub a: Vec<Wide>,
    /// Binding 2: second Q48.16 operand.
    pub b: Vec<Wide>,
    /// Binding 5: first Q16.16 operand.
    pub a16: Vec<i32>,
    /// Binding 6: second Q16.16 operand.
    pub b16: Vec<i32>,
    /// Binding 8: Q32.32 operand.
    pub a32: Vec<Wide>,
}

impl Buffers48 {
    /// Buffers without elements.
    pub fn new() -> (buffers: Buffers48)
        ensures
            buffers.a@.len() == 0,
            buffers.b@.len() == 0,
            buffers.a16@.len() == 0,
            buffers.b16@.len() == 0,
            buffers.a32@.len() == 0,
    {
        Buffers48 {
            a: Vec::new(),
            b: Vec::new(),
            a16: Vec::new(),
            b16: Vec::new(),
            a32: Vec::new(),
        }
    }
}

/// The result of one element: one word, or two with the low word first.
#[derive(Clone, Copy, Debug, PartialEq, Eq, Structural)]
pub enum Out48 {
    One(Lane16),
    Two(Lane64),
}

/// The bits of a signed word.
pub open spec fn word_of(v: i32) -> u32 {
    if v < 0 {
        (v + 0x1_0000_0000) as u32
    } else {
        v as u32
    }
}

impl Out48 {
    /// The words that a storage buffer holds of the result.
    pub open spec fn words(self) -> Seq<u32> {
        match self {
            Out48::One(lane) => seq![word_of(lane.raw)],
            Out48::Two(lane) => seq![lane.raw.lo, lane.raw.hi],
        }
    }

    pub open spec fn spec_saturated(self) -> bool {
        match self {
            Out48::One(lane) => lane.saturated,
            Out48::Two(lane) => lane.saturated,
        }
    }

    /// Whether the exact result was clamped.
    pub fn saturated(self) -> (saturated: bool)
        ensures
            saturated == self.spec_saturated(),
    {
        match self {
            Out48::One(lane) => lane.saturated,
            Out48::Two(lane) => lane.saturated,
        }
    }
}

impl Op48 {
    /// The name of the entry point.
    pub open spec fn spec_name(self) -> Seq<char> {
        match self {
            Op48::Add => "add48"@,
            Op48::Sub => "sub48"@,
            Op48::MulAdd => "mul_add48"@,
            Op48::To16From48 => "to16_48"@,
            Op48::To16From32 => "to16_32"@,
            Op48::To48From16 => "to48_16"@,
            Op48::To48From32 => "to48_32"@,
            Op48::To32From48 => "to32_48"@,
        }
    }

    /// The buffers that the entry point reads hold `n` elements or more.
    pub open spec fn serves(self, buffers: Buffers48, n: int) -> bool {
        match self {
            Op48::Add | Op48::Sub => n <= buffers.a@.len() && n <= buffers.b@.len(),
            Op48::MulAdd => n <= buffers.a@.len() && n <= buffers.a16@.len() && n
                <= buffers.b16@.len(),
            Op48::To16From48 | Op48::To32From48 => n <= buffers.a@.len(),
            Op48::To48From16 => n <= buffers.a16@.len(),
            Op48::To16From32 | Op48::To48From32 => n <= buffers.a32@.len(),
        }
    }

    /// What the entry point computes on element `i`.
    pub open spec fn out(self, buffers: Buffers48, i: int) -> Out48 {
        match self {
            Op48::Add => Out48::Two(sum48(buffers.a@[i], buffers.b@[i])),
            Op48::Sub => Out48::Two(difference48(buffers.a@[i], buffers.b@[i])),
            Op48::MulAdd => Out48::Two(
                accumulated48(buffers.a@[i], buffers.a16@[i], buffers.b16@[i]),
            ),
            Op48::To16From48 => Out48::One(narrowed48(buffers.a@[i])),
            Op48::To16From32 => Out48::One(narrowed32(buffers.a32@[i])),
            Op48::To48From16 => Out48::Two(widened16(buffers.a16@[i])),
            Op48::To48From32 => Out48::Two(coarsened32(buffers.a32@[i])),
            Op48::To32From48 => Out48::Two(refined48(buffers.a@[i])),
        }
    }

    /// The name of the entry point.
    pub fn name(self) -> (name: &'static str)
        ensures
            name@ == self.spec_name(),
    {
        match self {
            Op48::Add => "add48",
            Op48::Sub => "sub48",
            Op48::MulAdd => "mul_add48",
            Op48::To16From48 => "to16_48",
            Op48::To16From32 => "to16_32",
            Op48::To48From16 => "to48_16",
            Op48::To48From32 => "to48_32",
            Op48::To32From48 => "to32_48",
        }
    }

    /// The entry point of a name.
    pub fn parse(name: &str) -> (op: Option<Op48>)
        ensures
            match op {
                Some(op) => name@ == op.spec_name(),
                None => forall|op: Op48| name@ != #[trigger] op.spec_name(),
            },
    {
        if same_str(name, "add48") {
            Some(Op48::Add)
        } else if same_str(name, "sub48") {
            Some(Op48::Sub)
        } else if same_str(name, "mul_add48") {
            Some(Op48::MulAdd)
        } else if same_str(name, "to16_48") {
            Some(Op48::To16From48)
        } else if same_str(name, "to16_32") {
            Some(Op48::To16From32)
        } else if same_str(name, "to48_16") {
            Some(Op48::To48From16)
        } else if same_str(name, "to48_32") {
            Some(Op48::To48From32)
        } else if same_str(name, "to32_48") {
            Some(Op48::To32From48)
        } else {
            None
        }
    }

    /// Runs the entry point on element `i`.
    pub fn eval(self, variant: Variant, buffers: &Buffers48, i: usize) -> (out: Out48)
        requires
            self.serves(*buffers, i + 1),
        ensures
            out == self.out(*buffers, i as int),
    {
        match self {
            Op48::Add => Out48::Two(
                match variant {
                    Variant::Portable => portable::add48(buffers.a[i], buffers.b[i]),
                    Variant::Native => native::add48(buffers.a[i], buffers.b[i]),
                },
            ),
            Op48::Sub => Out48::Two(
                match variant {
                    Variant::Portable => portable::sub48(buffers.a[i], buffers.b[i]),
                    Variant::Native => native::sub48(buffers.a[i], buffers.b[i]),
                },
            ),
            Op48::MulAdd => Out48::Two(
                match variant {
                    Variant::Portable => portable::mul_add48(
                        buffers.a[i],
                        buffers.a16[i],
                        buffers.b16[i],
                    ),
                    Variant::Native => native::mul_add48(
                        buffers.a[i],
                        buffers.a16[i],
                        buffers.b16[i],
                    ),
                },
            ),
            Op48::To16From48 => Out48::One(
                match variant {
                    Variant::Portable => portable::to16_48(buffers.a[i]),
                    Variant::Native => native::to16_48(buffers.a[i]),
                },
            ),
            Op48::To16From32 => Out48::One(core_ops::to16_32(buffers.a32[i])),
            Op48::To48From16 => Out48::Two(core_ops::to48_16(buffers.a16[i])),
            Op48::To48From32 => Out48::Two(core_ops::to48_32(buffers.a32[i])),
            Op48::To32From48 => Out48::Two(core_ops::to32_48(buffers.a[i])),
        }
    }
}

/// Two entry points on 64-bit buffers with one name are one entry point.
pub proof fn lemma_names48_are_distinct(p: Op48, q: Op48)
    requires
        p.spec_name() == q.spec_name(),
    ensures
        p == q,
{
    reveal_strlit("add48");
    reveal_strlit("sub48");
    reveal_strlit("mul_add48");
    reveal_strlit("to16_48");
    reveal_strlit("to16_32");
    reveal_strlit("to48_16");
    reveal_strlit("to48_32");
    reveal_strlit("to32_48");
    let s = p.spec_name();
    let t = q.spec_name();
    assert(s[0] == t[0] && s[2] == t[2] && s.len() == t.len());
    assert(s.len() == 7 ==> s[5] == t[5]);
}

/// How many of the flags are set.
pub open spec fn count(flags: Seq<bool>) -> nat
    decreases flags.len(),
{
    if flags.len() == 0 {
        0
    } else {
        count(flags.drop_last()) + (if flags.last() {
            1nat
        } else {
            0nat
        })
    }
}

/// What a dispatch adds up over its elements.
#[derive(Clone, Copy, Debug, PartialEq, Eq, Structural)]
pub struct Telemetry {
    pub saturations: u32,
    pub faults: u32,
}

/// What a dispatch over Q16.16 buffers leaves behind.
pub struct Batch16 {
    pub dst: Vec<i32>,
    pub telemetry: Telemetry,
}

/// The results of a dispatch over Q16.16 buffers, element by element.
pub open spec fn lanes16(op: Op16, a: Seq<i32>, b: Seq<i32>) -> Seq<Lane16> {
    Seq::new(a.len(), |i: int| op.lane(a[i], b[i]))
}

/// `batch` is what a dispatch over `a` and `b` leaves behind.
pub open spec fn is_batch16(batch: Batch16, op: Op16, a: Seq<i32>, b: Seq<i32>) -> bool {
    let lanes = lanes16(op, a, b);
    &&& batch.dst@ == lanes.map_values(|lane: Lane16| lane.raw)
    &&& batch.telemetry.saturations == count(lanes.map_values(|lane: Lane16| lane.saturated))
    &&& batch.telemetry.faults == count(lanes.map_values(|lane: Lane16| lane.fault))
}

/// Runs an entry point over two Q16.16 buffers.
pub fn batch16(variant: Variant, op: Op16, a: &[i32], b: &[i32]) -> (batch: Batch16)
    requires
        a@.len() == b@.len(),
        a@.len() <= u32::MAX,
    ensures
        is_batch16(batch, op, a@, b@),
{
    let ghost lanes = lanes16(op, a@, b@);
    let ghost raws = lanes.map_values(|lane: Lane16| lane.raw);
    let ghost saturated = lanes.map_values(|lane: Lane16| lane.saturated);
    let ghost faulted = lanes.map_values(|lane: Lane16| lane.fault);
    let mut dst: Vec<i32> = Vec::new();
    let mut saturations: u32 = 0;
    let mut faults: u32 = 0;
    let mut i: usize = 0;
    while i < a.len()
        invariant
            i <= a@.len(),
            a@.len() == b@.len(),
            a@.len() <= u32::MAX,
            lanes == lanes16(op, a@, b@),
            raws == lanes.map_values(|lane: Lane16| lane.raw),
            saturated == lanes.map_values(|lane: Lane16| lane.saturated),
            faulted == lanes.map_values(|lane: Lane16| lane.fault),
            dst@ =~= raws.take(i as int),
            saturations == count(saturated.take(i as int)),
            faults == count(faulted.take(i as int)),
            saturations <= i,
            faults <= i,
        decreases a@.len() - i,
    {
        let lane: Lane16 = op.eval(variant, a[i], b[i]);
        proof {
            assert(saturated.take(i + 1).drop_last() == saturated.take(i as int));
            assert(faulted.take(i + 1).drop_last() == faulted.take(i as int));
            assert(lanes[i as int] == lane);
        }
        dst.push(lane.raw);
        if lane.saturated {
            saturations = saturations + 1;
        }
        if lane.fault {
            faults = faults + 1;
        }
        i = i + 1;
    }
    proof {
        assert(saturated.take(saturated.len() as int) == saturated);
        assert(faulted.take(faulted.len() as int) == faulted);
        assert(dst@ == raws);
    }
    Batch16 { dst, telemetry: Telemetry { saturations, faults } }
}

/// What a dispatch over 64-bit buffers leaves behind.
pub struct Batch48 {
    pub words: Vec<u32>,
    pub telemetry: Telemetry,
}

/// The results of a dispatch over 64-bit buffers, element by element.
pub open spec fn outs48(op: Op48, buffers: Buffers48, n: nat) -> Seq<Out48> {
    Seq::new(n, |i: int| op.out(buffers, i))
}

/// The words of a row of results, one result after the other.
pub open spec fn words_of(outs: Seq<Out48>) -> Seq<u32>
    decreases outs.len(),
{
    if outs.len() == 0 {
        Seq::empty()
    } else {
        words_of(outs.drop_last()) + outs.last().words()
    }
}

/// `batch` is what a dispatch over the first `n` elements leaves behind.
pub open spec fn is_batch48(batch: Batch48, op: Op48, buffers: Buffers48, n: nat) -> bool {
    let outs = outs48(op, buffers, n);
    &&& batch.words@ == words_of(outs)
    &&& batch.telemetry.saturations == count(outs.map_values(|out: Out48| out.spec_saturated()))
    &&& batch.telemetry.faults == 0
}

/// Runs an entry point over the first `n` elements of the buffers that it reads.
pub fn batch48(variant: Variant, op: Op48, buffers: &Buffers48, n: usize) -> (batch: Batch48)
    requires
        op.serves(*buffers, n as int),
        n <= u32::MAX,
    ensures
        is_batch48(batch, op, *buffers, n as nat),
{
    let ghost outs = outs48(op, *buffers, n as nat);
    let ghost saturated = outs.map_values(|out: Out48| out.spec_saturated());
    let mut words: Vec<u32> = Vec::new();
    let mut saturations: u32 = 0;
    let mut i: usize = 0;
    while i < n
        invariant
            i <= n <= u32::MAX,
            op.serves(*buffers, n as int),
            outs == outs48(op, *buffers, n as nat),
            saturated == outs.map_values(|out: Out48| out.spec_saturated()),
            words@ =~= words_of(outs.take(i as int)),
            saturations == count(saturated.take(i as int)),
            saturations <= i,
        decreases n - i,
    {
        let out: Out48 = op.eval(variant, buffers, i);
        proof {
            assert(outs.take(i + 1).drop_last() == outs.take(i as int));
            assert(saturated.take(i + 1).drop_last() == saturated.take(i as int));
            assert(outs[i as int] == out);
        }
        match out {
            Out48::One(lane) => {
                words.push(to_word(lane.raw));
            },
            Out48::Two(lane) => {
                words.push(lane.raw.lo);
                words.push(lane.raw.hi);
            },
        }
        if out.saturated() {
            saturations = saturations + 1;
        }
        i = i + 1;
    }
    proof {
        assert(outs.take(n as int) == outs);
        assert(saturated.take(n as int) == saturated);
    }
    Batch48 { words, telemetry: Telemetry { saturations, faults: 0 } }
}

/// The names of the entry points on Q16.16 buffers.
pub fn entry_points16() -> (names: Vec<&'static str>)
    ensures
        names@ == seq![
            "add16", "sub16", "mul16", "mul_round16", "div16", "sqrt16", "min16", "max16",
            "greater16", "equals16", "blend16",
        ],
{
    vec![
        "add16", "sub16", "mul16", "mul_round16", "div16", "sqrt16", "min16", "max16",
        "greater16", "equals16", "blend16",
    ]
}

/// The names of the entry points on 64-bit buffers.
pub fn entry_points48() -> (names: Vec<&'static str>)
    ensures
        names@ == seq![
            "add48", "sub48", "mul_add48", "to16_48", "to16_32", "to48_16", "to48_32", "to32_48",
        ],
{
    vec!["add48", "sub48", "mul_add48", "to16_48", "to16_32", "to48_16", "to48_32", "to32_48"]
}

} // verus!
