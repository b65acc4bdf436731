//! The operations that use 32-bit integers alone.
use vstd::prelude::*;
use vstd::arithmetic::power2::pow2;
use crate::lane::{
    accumulated48, difference48, lane16, lane64, lemma_wide_of, narrowed48, product16, quotient16,
    sum48, wide_of, Lane16, Lane64,
};
use crate::number::{abs, floor_unit, magnitude, unit};
use crate::wide::{lemma_value_is_injective, Wide};

verus! {

/// The unsigned number that two words hold.
pub open spec fn unsigned(w: Wide) -> int {
    w.hi * 0x1_0000_0000 + w.lo
}

/// `a * b` when `a` and `b` are written in 16-bit halves.
proof fn lemma_halves(a1: int, a0: int, b1: int, b0: int)
    ensures
        (a1 * 0x1_0000 + a0) * (b1 * 0x1_0000 + b0) == (a1 * b1) * 0x1_0000_0000 + (a1 * b0 + a0
            * b1) * 0x1_0000 + a0 * b0,
{
    assert((a1 * 0x1_0000 + a0) * (b1 * 0x1_0000 + b0) == (a1 * b1) * 0x1_0000_0000 + (a1 * b0 + a0
        * b1) * 0x1_0000 + a0 * b0) by (nonlinear_arith);
}

/// The product of two 16-bit halves fits a word with room to spare.
proof fn lemma_half_product(x: int, y: int)
    requires
        0 <= x <= 0xffff,
        0 <= y <= 0xffff,
    ensures
        0 <= x * y <= 0xfffe_0001,
{
    assert(0 <= x * y <= 0xfffe_0001) by (nonlinear_arith)
        requires
            0 <= x <= 0xffff,
            0 <= y <= 0xffff,
    ;
}

/// The full product of two words, by 16-bit halves.
fn mul_words(a: u32, b: u32) -> (p: Wide)
    ensures
        unsigned(p) == a * b,
{
    let a1: u32 = a / 0x1_0000;
    let a0: u32 = a % 0x1_0000;
    let b1: u32 = b / 0x1_0000;
    let b0: u32 = b % 0x1_0000;
    proof {
        lemma_halves(a1 as int, a0 as int, b1 as int, b0 as int);
        lemma_half_product(a1 as int, b1 as int);
        lemma_half_product(a1 as int, b0 as int);
        lemma_half_product(a0 as int, b1 as int);
        lemma_half_product(a0 as int, b0 as int);
    }
    let high: u32 = a1 * b1;
    let cross1: u32 = a1 * b0;
    let cross0: u32 = a0 * b1;
    let low: u32 = a0 * b0;
    // The middle column collects three 16-bit values, so its carry is at most two.
    let mid: u32 = low / 0x1_0000 + cross1 % 0x1_0000 + cross0 % 0x1_0000;
    let lo: u32 = (mid % 0x1_0000) * 0x1_0000 + low % 0x1_0000;
    proof {
        vstd::arithmetic::mul::lemma_mul_upper_bound(
            a as int,
            0xffff_ffff,
            b as int,
            0xffff_ffff,
        );
    }
    let hi: u32 = high + (cross1 / 0x1_0000 + cross0 / 0x1_0000 + mid / 0x1_0000);
    Wide { lo, hi }
}

/// The sum of two numbers modulo two to the sixty-four.
fn wrapping_sum(a: Wide, b: Wide) -> (s: Wide)
    ensures
        unsigned(s) == unsigned(a) + unsigned(b) || unsigned(s) == unsigned(a) + unsigned(b)
            - 0x1_0000_0000_0000_0000,
{
    let lo: u32 = a.lo.wrapping_add(b.lo);
    let carry: u32 = if lo < a.lo {
        1
    } else {
        0
    };
    Wide { lo, hi: a.hi.wrapping_add(b.hi).wrapping_add(carry) }
}

/// The difference of two numbers modulo two to the sixty-four.
fn wrapping_difference(a: Wide, b: Wide) -> (d: Wide)
    ensures
        unsigned(d) == unsigned(a) - unsigned(b) || unsigned(d) == unsigned(a) - unsigned(b)
            + 0x1_0000_0000_0000_0000,
{
    let lo: u32 = a.lo.wrapping_sub(b.lo);
    let borrow: u32 = if a.lo < b.lo {
        1
    } else {
        0
    };
    Wide { lo, hi: a.hi.wrapping_sub(b.hi).wrapping_sub(borrow) }
}

/// Whether the number is negative.
fn is_negative(w: Wide) -> (negative: bool)
    ensures
        negative == (w.value() < 0),
{
    w.hi >= 0x8000_0000
}

/// Wraps words that need no clamping.
fn exact64(raw: Wide) -> (lane: Lane64)
    ensures
        lane == lane64(raw.value()),
{
    proof {
        lemma_wide_of(raw.value());
        lemma_value_is_injective(raw, wide_of(raw.value()));
    }
    Lane64 { raw, saturated: false }
}

/// Saturates toward the sign of the first operand `a` of an operation that overflowed.
fn overflowed64(a: Wide, Ghost(x): Ghost<int>) -> (lane: Lane64)
    requires
        a.value() < 0 ==> x < i64::MIN,
        a.value() >= 0 ==> x > i64::MAX,
    ensures
        lane == lane64(x),
{
    let raw: Wide = if is_negative(a) {
        Wide { lo: 0, hi: 0x8000_0000 }
    } else {
        Wide { lo: 0xffff_ffff, hi: 0x7fff_ffff }
    };
    proof {
        lemma_wide_of(crate::number::clamp_i64(x));
        lemma_value_is_injective(raw, wide_of(crate::number::clamp_i64(x)));
    }
    Lane64 { raw, saturated: true }
}

/// The magnitude of a product of Q16.16 numbers, shifted down to the Q16.16 grid.
///
/// A product below zero is floored away from zero, so a discarded remainder adds one.
fn shifted_magnitude(a: i32, b: i32) -> (m: Wide)
    ensures
        unsigned(m) <= 0x4000_0000_0000,
        floor_unit(a * b) == (if (a < 0) != (b < 0) {
            -unsigned(m)
        } else {
            unsigned(m)
        }),
{
    let full: Wide = mul_words(magnitude(a), magnitude(b));
    proof {
        crate::native::lemma_product_range(a, b);
        lemma_sign_of_product(a as int, b as int);
    }
    let quotient: Wide = Wide {
        lo: (full.hi % 0x1_0000) * 0x1_0000 + full.lo / 0x1_0000,
        hi: full.hi / 0x1_0000,
    };
    if (a < 0) != (b < 0) && full.lo % 0x1_0000 != 0 {
        wrapping_sum(quotient, Wide { lo: 1, hi: 0 })
    } else {
        quotient
    }
}

/// The magnitude of a product is the product of the magnitudes.
proof fn lemma_sign_of_product(a: int, b: int)
    ensures
        (a < 0) == (b < 0) ==> a * b == abs(a) * abs(b),
        (a < 0) != (b < 0) ==> a * b == -(abs(a) * abs(b)),
{
    assert((-a) * (-b) == a * b) by (nonlinear_arith);
    assert((-a) * b == -(a * b)) by (nonlinear_arith);
    assert(a * (-b) == -(a * b)) by (nonlinear_arith);
}

/// Gives a magnitude its sign and clamps it to 32 bits.
fn signed_lane16(negative: bool, m: Wide) -> (lane: Lane16)
    ensures
        lane == lane16(if negative {
            -unsigned(m)
        } else {
            unsigned(m)
        }),
{
    if negative {
        if m.hi != 0 || m.lo > 0x8000_0000 {
            Lane16 { raw: i32::MIN, saturated: true, fault: false }
        } else if m.lo == 0x8000_0000 {
            Lane16 { raw: i32::MIN, saturated: false, fault: false }
        } else {
            Lane16 { raw: -(m.lo as i32), saturated: false, fault: false }
        }
    } else {
        if m.hi != 0 || m.lo > 0x7fff_ffff {
            Lane16 { raw: i32::MAX, saturated: true, fault: false }
        } else {
            Lane16 { raw: m.lo as i32, saturated: false, fault: false }
        }
    }
}

/// `mul16` on 32-bit integers.
pub fn mul16(a: i32, b: i32) -> (lane: Lane16)
    ensures
        lane == product16(a, b),
{
    signed_lane16((a < 0) != (b < 0), shifted_magnitude(a, b))
}

/// One step of long division: doubling the scale of a quotient and bringing down one bit.
proof fn lemma_long_division_step(
    whole: int,
    fraction: int,
    rest: int,
    n: int,
    d: int,
    scale: int,
)
    requires
        (whole * scale + fraction) * d + rest == n * scale,
    ensures
        (whole * (2 * scale) + 2 * fraction) * d + 2 * rest == n * (2 * scale),
        (whole * (2 * scale) + (2 * fraction + 1)) * d + (2 * rest - d) == n * (2 * scale),
{
    assert((whole * (2 * scale) + 2 * fraction) * d == 2 * ((whole * scale + fraction) * d))
        by (nonlinear_arith);
    assert((whole * (2 * scale) + (2 * fraction + 1)) * d == 2 * ((whole * scale + fraction) * d)
        + d) by (nonlinear_arith);
    assert(n * (2 * scale) == 2 * (n * scale)) by (nonlinear_arith);
}

/// The magnitude of a quotient: a whole part, then sixteen fraction digits one at a time.
fn quotient_magnitude(n: u32, d: u32) -> (q: Wide)
    requires
        0 < d <= 0x8000_0000,
    ensures
        unsigned(q) == (n * unit()) / d as int,
{
    let whole: u32 = n / d;
    let mut rest: u32 = n % d;
    let mut fraction: u32 = 0;
    let mut digits: u32 = 0;
    proof {
        vstd::arithmetic::power2::lemma2_to64();
        vstd::arithmetic::div_mod::lemma_fundamental_div_mod(n as int, d as int);
        assert((whole * 1 + 0) * d == d * whole) by (nonlinear_arith);
    }
    while digits < 16
        invariant
            digits <= 16,
            0 < d <= 0x8000_0000,
            rest < d,
            fraction < pow2(digits as nat) <= 0x1_0000,
            (whole * pow2(digits as nat) + fraction) * d + rest == n * pow2(digits as nat),
        decreases 16 - digits,
    {
        proof {
            lemma_long_division_step(
                whole as int,
                fraction as int,
                rest as int,
                n as int,
                d as int,
                pow2(digits as nat) as int,
            );
            vstd::arithmetic::power2::lemma_pow2_unfold((digits + 1) as nat);
            vstd::arithmetic::power2::lemma2_to64();
            if digits < 15 {
                vstd::arithmetic::power2::lemma_pow2_strictly_increases((digits + 1) as nat, 16);
            }
        }
        let doubled: u32 = 2 * rest;
        if doubled >= d {
            rest = doubled - d;
            fraction = 2 * fraction + 1;
        } else {
            rest = doubled;
            fraction = 2 * fraction;
        }
        digits = digits + 1;
    }
    proof {
        vstd::arithmetic::power2::lemma2_to64();
        vstd::arithmetic::div_mod::lemma_fundamental_div_mod_converse(
            n * unit(),
            d as int,
            whole * unit() + fraction,
            rest as int,
        );
    }
    Wide { lo: (whole % 0x1_0000) * 0x1_0000 + fraction, hi: whole / 0x1_0000 }
}

/// `div16` on 32-bit integers.
pub fn div16(a: i32, b: i32) -> (lane: Lane16)
    ensures
        lane == quotient16(a, b),
{
    if b == 0 {
        return Lane16 {
            raw: if a < 0 {
                i32::MIN
            } else {
                i32::MAX
            },
            saturated: false,
            fault: true,
        };
    }
    signed_lane16((a < 0) != (b < 0), quotient_magnitude(magnitude(a), magnitude(b)))
}

/// `add48` on 32-bit integers.
pub fn add48(a: Wide, b: Wide) -> (lane: Lane64)
    ensures
        lane == sum48(a, b),
{
    let sum: Wide = wrapping_sum(a, b);
    if is_negative(a) == is_negative(b) && is_negative(sum) != is_negative(a) {
        overflowed64(a, Ghost(a.value() + b.value()))
    } else {
        exact64(sum)
    }
}

/// `sub48` on 32-bit integers.
pub fn sub48(a: Wide, b: Wide) -> (lane: Lane64)
    ensures
        lane == difference48(a, b),
{
    let difference: Wide = wrapping_difference(a, b);
    if is_negative(a) != is_negative(b) && is_negative(difference) != is_negative(a) {
        overflowed64(a, Ghost(a.value() - b.value()))
    } else {
        exact64(difference)
    }
}

/// `mul_add48` on 32-bit integers. The product always fits; only the sum can overflow.
pub fn mul_add48(q: Wide, a: i32, b: i32) -> (lane: Lane64)
    ensures
        lane == accumulated48(q, a, b),
{
    let m: Wide = shifted_magnitude(a, b);
    if (a < 0) != (b < 0) {
        sub48(q, m)
    } else {
        add48(q, m)
    }
}

/// `to16_48` on 32-bit integers: the high word must repeat the sign of the low one.
pub fn to16_48(v: Wide) -> (lane: Lane16)
    ensures
        lane == narrowed48(v),
{
    if v.hi == 0 && v.lo < 0x8000_0000 || v.hi == 0xffff_ffff && v.lo >= 0x8000_0000 {
        Lane16 { raw: crate::number::from_word(v.lo), saturated: false, fault: false }
    } else if is_negative(v) {
        Lane16 { raw: i32::MIN, saturated: true, fault: false }
    } else {
        Lane16 { raw: i32::MAX, saturated: true, fault: false }
    }
}

} // verus!
