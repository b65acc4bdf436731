//! The operands that a benchmark feeds to an entry point.
use vstd::prelude::*;
use crate::lane::{narrowed48, sum48, wide_of};
use crate::lcg::{high_word, nth_state, stream_seed, Lcg, SEED};
use crate::number::{from_word, signed64};
use crate::wide::from_bits;

verus! {

/// The first operand that a state yields: its upper word, with the sign bit cleared on demand.
pub open spec fn numerator(s: u64, non_negative: bool) -> int {
    if non_negative {
        (s / 0x1_0000_0000) as int % 0x8000_0000
    } else {
        high_word(s)
    }
}

/// The second operand that a state yields: its upper word, or one where that is zero.
pub open spec fn denominator(s: u64) -> int {
    if high_word(s) == 0 {
        1
    } else {
        high_word(s)
    }
}

/// The operands of the Q16.16 entry points.
///
/// No second operand is zero: a benchmark does not measure divisions by zero. Entry points that
/// are undefined below zero ask for a first operand that is never negative.
pub fn make_inputs(elements: u32, non_negative_a: bool) -> (inputs: (Vec<i32>, Vec<i32>))
    ensures
        inputs.0@.len() == elements,
        inputs.1@.len() == elements,
        forall|i: int|
            0 <= i < elements ==> #[trigger] inputs.0@[i] == numerator(
                nth_state(SEED, (2 * i + 1) as nat),
                non_negative_a,
            ),
        forall|i: int|
            0 <= i < elements ==> #[trigger] inputs.1@[i] == denominator(
                nth_state(SEED, (2 * i + 2) as nat),
            ),
{
    let mut lcg: Lcg = Lcg::seeded();
    let mut a: Vec<i32> = Vec::new();
    let mut b: Vec<i32> = Vec::new();
    let mut i: u32 = 0;
    while i < elements
        invariant
            i <= elements,
            a@.len() == i,
            b@.len() == i,
            lcg.state == nth_state(SEED, (2 * i) as nat),
            forall|k: int|
                0 <= k < i ==> #[trigger] a@[k] == numerator(
                    nth_state(SEED, (2 * k + 1) as nat),
                    non_negative_a,
                ),
            forall|k: int|
                0 <= k < i ==> #[trigger] b@[k] == denominator(
                    nth_state(SEED, (2 * k + 2) as nat),
                ),
        decreases elements - i,
    {
        let s: u64 = lcg.next();
        assert(s == nth_state(SEED, (2 * i + 1) as nat));
        let raw: u32 = (s / 0x1_0000_0000) as u32;
        let first: i32 = if non_negative_a {
            (raw % 0x8000_0000) as i32
        } else {
            from_word(raw)
        };
        let second: i32 = lcg.next_word();
        assert(lcg.state == nth_state(SEED, (2 * i + 2) as nat));
        a.push(first);
        b.push(
            if second == 0 {
                1
            } else {
                second
            },
        );
        i = i + 1;
    }
    (a, b)
}

/// The Q48.16 operand that a state yields: its upper 31 bits, sign included.
pub open spec fn operand48(s: u64) -> int {
    signed64(s) / 0x2_0000_0000
}

/// The Q48.16 operands of one input buffer.
pub fn make_inputs48(elements: u32, stream: u64) -> (values: Vec<i64>)
    ensures
        values@.len() == elements,
        forall|i: int|
            0 <= i < elements ==> #[trigger] values@[i] == operand48(
                nth_state(stream_seed(stream), (i + 1) as nat),
            ),
{
    let mut lcg: Lcg = Lcg::stream(stream);
    let mut values: Vec<i64> = Vec::new();
    let mut i: u32 = 0;
    while i < elements
        invariant
            i <= elements,
            values@.len() == i,
            lcg.state == nth_state(stream_seed(stream), i as nat),
            forall|k: int|
                0 <= k < i ==> #[trigger] values@[k] == operand48(
                    nth_state(stream_seed(stream), (k + 1) as nat),
                ),
        decreases elements - i,
    {
        let s: u64 = lcg.next();
        assert(s == nth_state(stream_seed(stream), (i + 1) as nat));
        let x: i64 = from_bits(s);
        assert(x >> 33 == x as int / 0x2_0000_0000) by (bit_vector);
        values.push(x >> 33);
        i = i + 1;
    }
    values
}

/// The Q16.16 factors of one input buffer of an accumulation.
pub fn make_inputs16(elements: u32, stream: u64) -> (values: Vec<i32>)
    ensures
        values@.len() == elements,
        forall|i: int|
            0 <= i < elements ==> #[trigger] values@[i] == high_word(
                nth_state(stream_seed(stream), (i + 1) as nat),
            ),
{
    let mut lcg: Lcg = Lcg::stream(stream);
    let mut values: Vec<i32> = Vec::new();
    let mut i: u32 = 0;
    while i < elements
        invariant
            i <= elements,
            values@.len() == i,
            lcg.state == nth_state(stream_seed(stream), i as nat),
            forall|k: int|
                0 <= k < i ==> #[trigger] values@[k] == high_word(
                    nth_state(stream_seed(stream), (k + 1) as nat),
                ),
        decreases elements - i,
    {
        let v: i32 = lcg.next_word();
        assert(lcg.state == nth_state(stream_seed(stream), (i + 1) as nat));
        values.push(v);
        i = i + 1;
    }
    values
}

/// Whatever the state, the operands stay inside the domain of the entry points: a division finds
/// no zero, and a first operand that must not be negative is not.
pub proof fn benchmark_operands_stay_in_domain(s: u64, non_negative: bool)
    ensures
        denominator(s) != 0,
        non_negative ==> 0 <= numerator(s, non_negative),
        i32::MIN <= numerator(s, non_negative) <= i32::MAX,
        i32::MIN <= denominator(s) <= i32::MAX,
{
}

/// The Q48.16 operands of a benchmark lie within Q16.16, so narrowing one never saturates and
/// adding or subtracting two never overflows.
pub proof fn benchmark_operands48_never_saturate(s: u64, t: u64)
    ensures
        -0x4000_0000 <= operand48(s) < 0x4000_0000,
        !narrowed48(wide_of(operand48(s))).saturated,
        !sum48(wide_of(operand48(s)), wide_of(operand48(t))).saturated,
        !crate::lane::difference48(wide_of(operand48(s)), wide_of(operand48(t))).saturated,
{
    crate::lane::lemma_wide_of(operand48(s));
    crate::lane::lemma_wide_of(operand48(t));
}

} // verus!
