//! The operations that both variants share. They need no 64-bit integer.
use vstd::prelude::*;
use crate::lane::{
    blended16, coarsened32, difference16, lane64, lemma_wide_of, mask16, maximum16, minimum16,
    narrowed32, refined48, sum16, wide_of, widened16, Lane16, Lane64,
};
use crate::number::{clamp_i64, floor_unit, unit};
use crate::wide::{lemma_value_is_injective, sign_extend, Wide};

verus! {

/// A lane that neither saturates nor faults.
fn plain16(raw: i32) -> (lane: Lane16)
    ensures
        lane == crate::lane::lane16(raw as int),
{
    Lane16 { raw, saturated: false, fault: false }
}

/// `add16`.
pub fn add16(a: i32, b: i32) -> (lane: Lane16)
    ensures
        lane == sum16(a, b),
{
    match a.checked_add(b) {
        Some(sum) => plain16(sum),
        None => Lane16 {
            raw: if a < 0 {
                i32::MIN
            } else {
                i32::MAX
            },
            saturated: true,
            fault: false,
        },
    }
}

/// `sub16`.
pub fn sub16(a: i32, b: i32) -> (lane: Lane16)
    ensures
        lane == difference16(a, b),
{
    match a.checked_sub(b) {
        Some(difference) => plain16(difference),
        None => Lane16 {
            raw: if a < 0 {
                i32::MIN
            } else {
                i32::MAX
            },
            saturated: true,
            fault: false,
        },
    }
}

/// `min16`.
pub fn min16(a: i32, b: i32) -> (lane: Lane16)
    ensures
        lane == minimum16(a, b),
{
    plain16(
        if a < b {
            a
        } else {
            b
        },
    )
}

/// `max16`.
pub fn max16(a: i32, b: i32) -> (lane: Lane16)
    ensures
        lane == maximum16(a, b),
{
    plain16(
        if a > b {
            a
        } else {
            b
        },
    )
}

/// `greater16`: the mask of `a > b`.
pub fn greater16(a: i32, b: i32) -> (lane: Lane16)
    ensures
        lane == mask16(a > b),
{
    plain16(
        if a > b {
            -1
        } else {
            0
        },
    )
}

/// `equals16`: the mask of `a == b`.
pub fn equals16(a: i32, b: i32) -> (lane: Lane16)
    ensures
        lane == mask16(a == b),
{
    plain16(
        if a == b {
            -1
        } else {
            0
        },
    )
}

/// `blend16`: `a` where the mask of `a > b` is set, `b` elsewhere.
pub fn blend16(a: i32, b: i32) -> (lane: Lane16)
    ensures
        lane == blended16(a, b),
{
    let mask: Lane16 = greater16(a, b);
    plain16(
        if mask.raw != 0 {
            a
        } else {
            b
        },
    )
}

/// Wraps words that need no clamping.
fn plain64(raw: Wide) -> (lane: Lane64)
    ensures
        lane == lane64(raw.value()),
{
    proof {
        lemma_wide_of(raw.value());
        lemma_value_is_injective(raw, wide_of(raw.value()));
    }
    Lane64 { raw, saturated: false }
}

/// `to48_16`: sign extension.
pub fn to48_16(v: i32) -> (lane: Lane64)
    ensures
        lane == widened16(v),
{
    plain64(sign_extend(v))
}

/// Both words moved down by sixteen bits, with the sign moving in from above.
fn shift_down(v: Wide) -> (w: Wide)
    ensures
        w.value() == floor_unit(v.value()),
{
    let fill: u32 = if v.hi >= 0x8000_0000 {
        0xffff_0000
    } else {
        0
    };
    Wide {
        lo: (v.hi % 0x1_0000) * 0x1_0000 + v.lo / 0x1_0000,
        hi: fill + v.hi / 0x1_0000,
    }
}

/// `to16_32`: floor to the Q16.16 grid, then clamp.
pub fn to16_32(v: Wide) -> (lane: Lane16)
    ensures
        lane == narrowed32(v),
{
    crate::portable::to16_48(shift_down(v))
}

/// `to48_32`: floor to the Q48.16 grid. The result always fits.
pub fn to48_32(v: Wide) -> (lane: Lane64)
    ensures
        lane == coarsened32(v),
        !lane.saturated,
{
    plain64(shift_down(v))
}

/// `to32_48`: exact when the whole part fits 31 bits and a sign, clamped otherwise.
pub fn to32_48(v: Wide) -> (lane: Lane64)
    ensures
        lane == refined48(v),
{
    let top: u32 = v.hi / 0x8000;
    if top == 0 || top == 0x1_ffff {
        plain64(
            Wide {
                lo: (v.lo % 0x1_0000) * 0x1_0000,
                hi: (v.hi % 0x1_0000) * 0x1_0000 + v.lo / 0x1_0000,
            },
        )
    } else {
        let negative: bool = v.hi >= 0x8000_0000;
        let raw: Wide = if negative {
            Wide { lo: 0, hi: 0x8000_0000 }
        } else {
            Wide { lo: 0xffff_ffff, hi: 0x7fff_ffff }
        };
        proof {
            lemma_wide_of(clamp_i64(v.value() * unit()));
            lemma_value_is_injective(raw, wide_of(clamp_i64(v.value() * unit())));
        }
        Lane64 { raw, saturated: true }
    }
}

} // verus!
