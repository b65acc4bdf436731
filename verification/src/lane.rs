//! What every entry point computes on one element: its raw result and its telemetry.
use vstd::prelude::*;
use crate::number::{clamp_i32, clamp_i64, floor_unit, in_i32, in_i64, trunc_div, unit};
use crate::wide::Wide;

verus! {

/// The result of an entry point that writes a 32-bit value.
#[derive(Clone, Copy, Debug, PartialEq, Eq, Structural)]
pub struct Lane16 {
    /// Raw Q16.16 bits, or a mask of all zeros or all ones.
    pub raw: i32,
    /// The exact result lay outside the 32-bit range and was clamped.
    pub saturated: bool,
    /// The operands have no result: a division by zero.
    pub fault: bool,
}

/// The result of an entry point that writes a 64-bit value.
#[derive(Clone, Copy, Debug, PartialEq, Eq, Structural)]
pub struct Lane64 {
    /// Raw Q48.16 or Q32.32 bits.
    pub raw: Wide,
    /// The exact result lay outside the 64-bit range and was clamped.
    pub saturated: bool,
}

/// The words that hold `v`.
pub open spec fn wide_of(v: int) -> Wide {
    Wide { lo: (v % 0x1_0000_0000) as u32, hi: ((v / 0x1_0000_0000) % 0x1_0000_0000) as u32 }
}

/// Splitting a 64-bit number into words loses nothing.
pub proof fn lemma_wide_of(v: int)
    requires
        in_i64(v),
    ensures
        wide_of(v).value() == v,
{
}

/// Words are determined by the number that they hold.
pub proof fn lemma_wide_of_value(w: Wide)
    ensures
        wide_of(w.value()) == w,
{
}

/// The exact result `x`, brought into the 32-bit range.
pub open spec fn lane16(x: int) -> Lane16 {
    Lane16 { raw: clamp_i32(x) as i32, saturated: !in_i32(x), fault: false }
}

/// The exact result `x`, brought into the 64-bit range.
pub open spec fn lane64(x: int) -> Lane64 {
    Lane64 { raw: wide_of(clamp_i64(x)), saturated: !in_i64(x) }
}

/// `add16`: the sum of two Q16.16 numbers.
pub open spec fn sum16(a: i32, b: i32) -> Lane16 {
    lane16(a + b)
}

/// `sub16`: the difference of two Q16.16 numbers.
pub open spec fn difference16(a: i32, b: i32) -> Lane16 {
    lane16(a - b)
}

/// `mul16`: the product of two Q16.16 numbers, floored to the Q16.16 grid.
pub open spec fn product16(a: i32, b: i32) -> Lane16 {
    lane16(floor_unit(a * b))
}

/// `div16`: the quotient of two Q16.16 numbers, truncated to the Q16.16 grid.
///
/// Dividing by zero is a fault; the result is then the extreme value with the sign of `a`.
pub open spec fn quotient16(a: i32, b: i32) -> Lane16 {
    if b == 0 {
        Lane16 {
            raw: if a < 0 {
                i32::MIN
            } else {
                i32::MAX
            },
            saturated: false,
            fault: true,
        }
    } else {
        lane16(trunc_div(a * unit(), b as int))
    }
}

/// `min16`: the smaller of two numbers.
pub open spec fn minimum16(a: i32, b: i32) -> Lane16 {
    lane16(if a < b {
        a as int
    } else {
        b as int
    })
}

/// `max16`: the larger of two numbers.
pub open spec fn maximum16(a: i32, b: i32) -> Lane16 {
    lane16(if a > b {
        a as int
    } else {
        b as int
    })
}

/// A mask: all ones where `condition` holds, all zeros elsewhere.
pub open spec fn mask16(condition: bool) -> Lane16 {
    lane16(if condition {
        -1int
    } else {
        0int
    })
}

/// `blend16`: picks `a` where the mask of `a > b` is set, and `b` elsewhere.
pub open spec fn blended16(a: i32, b: i32) -> Lane16 {
    lane16(if mask16(a > b).raw != 0 {
        a as int
    } else {
        b as int
    })
}

/// `add48`: the sum of two Q48.16 numbers.
pub open spec fn sum48(a: Wide, b: Wide) -> Lane64 {
    lane64(a.value() + b.value())
}

/// `sub48`: the difference of two Q48.16 numbers.
pub open spec fn difference48(a: Wide, b: Wide) -> Lane64 {
    lane64(a.value() - b.value())
}

/// `mul_add48`: a Q48.16 accumulator plus the floored product of two Q16.16 factors.
pub open spec fn accumulated48(q: Wide, a: i32, b: i32) -> Lane64 {
    lane64(q.value() + floor_unit(a * b))
}

/// `to16_48`: a Q48.16 number as Q16.16.
pub open spec fn narrowed48(v: Wide) -> Lane16 {
    lane16(v.value())
}

/// `to48_16`: a Q16.16 number as Q48.16.
pub open spec fn widened16(v: i32) -> Lane64 {
    lane64(v as int)
}

/// `to16_32`: a Q32.32 number floored to the Q16.16 grid.
pub open spec fn narrowed32(v: Wide) -> Lane16 {
    lane16(floor_unit(v.value()))
}

/// `to48_32`: a Q32.32 number floored to the Q48.16 grid.
pub open spec fn coarsened32(v: Wide) -> Lane64 {
    lane64(floor_unit(v.value()))
}

/// `to32_48`: a Q48.16 number as Q32.32.
pub open spec fn refined48(v: Wide) -> Lane64 {
    lane64(v.value() * unit())
}

} // verus!
