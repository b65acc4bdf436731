//! The operations that use 64-bit integers.
use vstd::prelude::*;
use crate::lane::{
    accumulated48, difference48, lane16, lane64, lemma_wide_of, narrowed48, product16, quotient16,
    sum48, Lane16, Lane64,
};
use crate::number::{abs, floor_unit};
use crate::wide::{from_wide, lemma_value_is_injective, to_wide, Wide};

verus! {

/// The product of two 32-bit numbers lies within 62 bits and a sign.
pub proof fn lemma_product_range(a: i32, b: i32)
    ensures
        -0x4000_0000_0000_0000 <= a * b <= 0x4000_0000_0000_0000,
{
    assert(-0x4000_0000_0000_0000 <= a * b <= 0x4000_0000_0000_0000) by (nonlinear_arith)
        requires
            -0x8000_0000 <= a <= 0x7fff_ffff,
            -0x8000_0000 <= b <= 0x7fff_ffff,
    ;
}

/// Negating the divisor negates the quotient.
proof fn lemma_negated_divisor(n: int, d: int)
    requires
        d > 0,
    ensures
        n / -d == -(n / d),
{
    let q = n / d;
    vstd::arithmetic::div_mod::lemma_fundamental_div_mod(n, d);
    assert(n / -d == -q) by (nonlinear_arith)
        requires
            n == d * q + n % d,
            0 <= n % d < d,
            d > 0,
    ;
}

/// The product of two Q16.16 numbers before clamping, floored to the Q16.16 grid.
fn wide_product(a: i32, b: i32) -> (p: i64)
    ensures
        p == floor_unit(a * b),
        -0x4000_0000_0000 <= p <= 0x4000_0000_0000,
{
    proof {
        lemma_product_range(a, b);
    }
    let full: i64 = (a as i64) * (b as i64);
    assert(full >> 16 == full as int / 65536) by (bit_vector);
    full >> 16
}

/// Clamps an exact result to 32 bits.
fn saturate16(x: i64) -> (lane: Lane16)
    ensures
        lane == lane16(x as int),
{
    if x < i32::MIN as i64 {
        Lane16 { raw: i32::MIN, saturated: true, fault: false }
    } else if x > i32::MAX as i64 {
        Lane16 { raw: i32::MAX, saturated: true, fault: false }
    } else {
        Lane16 { raw: x as i32, saturated: false, fault: false }
    }
}

/// Wraps a number that needs no clamping.
fn exact64(x: i64) -> (lane: Lane64)
    ensures
        lane == lane64(x as int),
{
    let raw: Wide = to_wide(x);
    proof {
        lemma_wide_of(x as int);
        lemma_value_is_injective(raw, crate::lane::wide_of(x as int));
    }
    Lane64 { raw, saturated: false }
}

/// Saturates toward the sign of the first operand `a` of an operation that overflowed.
fn overflowed64(a: i64, Ghost(x): Ghost<int>) -> (lane: Lane64)
    requires
        a < 0 ==> x < i64::MIN,
        a >= 0 ==> x > i64::MAX,
    ensures
        lane == lane64(x),
{
    let bound: Lane64 = exact64(if a < 0 {
        i64::MIN
    } else {
        i64::MAX
    });
    Lane64 { raw: bound.raw, saturated: true }
}

/// `mul16` on 64-bit integers.
pub fn mul16(a: i32, b: i32) -> (lane: Lane16)
    ensures
        lane == product16(a, b),
{
    saturate16(wide_product(a, b))
}

/// `div16` on 64-bit integers.
pub fn div16(a: i32, b: i32) -> (lane: Lane16)
    ensures
        lane == quotient16(a, b),
{
    if b == 0 {
        return Lane16 {
            raw: if a < 0 {
                i32::MIN
            } else {
                i32::MAX
            },
            saturated: false,
            fault: true,
        };
    }
    let numerator: i64 = (a as i64) * 0x1_0000;
    let quotient: i64 = numerator / (b as i64);
    proof {
        lemma_negated_divisor(abs(numerator as int), abs(b as int));
    }
    saturate16(quotient)
}

/// `add48` on 64-bit integers.
pub fn add48(a: Wide, b: Wide) -> (lane: Lane64)
    ensures
        lane == sum48(a, b),
{
    let x: i64 = from_wide(a);
    let y: i64 = from_wide(b);
    match x.checked_add(y) {
        Some(sum) => exact64(sum),
        None => overflowed64(x, Ghost(x + y)),
    }
}

/// `sub48` on 64-bit integers.
pub fn sub48(a: Wide, b: Wide) -> (lane: Lane64)
    ensures
        lane == difference48(a, b),
{
    let x: i64 = from_wide(a);
    let y: i64 = from_wide(b);
    match x.checked_sub(y) {
        Some(difference) => exact64(difference),
        None => overflowed64(x, Ghost(x - y)),
    }
}

/// `mul_add48` on 64-bit integers. The product always fits; only the sum can overflow.
pub fn mul_add48(q: Wide, a: i32, b: i32) -> (lane: Lane64)
    ensures
        lane == accumulated48(q, a, b),
{
    let x: i64 = from_wide(q);
    let p: i64 = wide_product(a, b);
    match x.checked_add(p) {
        Some(sum) => exact64(sum),
        None => overflowed64(x, Ghost(x + p)),
    }
}

/// `to16_48` on 64-bit integers.
pub fn to16_48(v: Wide) -> (lane: Lane16)
    ensures
        lane == narrowed48(v),
{
    saturate16(from_wide(v))
}

} // verus!
