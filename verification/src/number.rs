//! Integer vocabulary shared by the contracts: ranges, clamping, flooring and truncation.
use vstd::prelude::*;

verus! {

/// The weight of one unit in a Q16.16 or Q48.16 number.
pub open spec fn unit() -> int {
    0x1_0000
}

/// `x` fits a signed 32-bit word.
pub open spec fn in_i32(x: int) -> bool {
    i32::MIN <= x <= i32::MAX
}

/// `x` fits a signed 64-bit word.
pub open spec fn in_i64(x: int) -> bool {
    i64::MIN <= x <= i64::MAX
}

/// The point of `[lo, hi]` that is nearest to `x`.
pub open spec fn clamp(x: int, lo: int, hi: int) -> int {
    if x < lo {
        lo
    } else if x > hi {
        hi
    } else {
        x
    }
}

pub open spec fn clamp_i32(x: int) -> int {
    clamp(x, i32::MIN as int, i32::MAX as int)
}

pub open spec fn clamp_i64(x: int) -> int {
    clamp(x, i64::MIN as int, i64::MAX as int)
}

pub open spec fn abs(x: int) -> int {
    if x < 0 {
        -x
    } else {
        x
    }
}

/// The largest integer `q` with `q * unit() <= x`: an arithmetic right shift by sixteen bits.
pub open spec fn floor_unit(x: int) -> int {
    x / unit()
}

/// The quotient `n / d` rounded toward zero.
pub open spec fn trunc_div(n: int, d: int) -> int {
    if (n < 0) == (d < 0) {
        abs(n) / abs(d)
    } else {
        -(abs(n) / abs(d))
    }
}

/// The signed number that a 32-bit word holds in two's complement.
pub open spec fn signed32(w: u32) -> int {
    if w < 0x8000_0000 {
        w as int
    } else {
        w - 0x1_0000_0000
    }
}

/// The signed number that a 64-bit word holds in two's complement.
pub open spec fn signed64(w: u64) -> int {
    if w < 0x8000_0000_0000_0000 {
        w as int
    } else {
        w - 0x1_0000_0000_0000_0000
    }
}

/// The two's complement bits of `v`.
pub fn to_word(v: i32) -> (w: u32)
    ensures
        signed32(w) == v,
{
    assert((v as u32) as int == if v >= 0 {
        v as int
    } else {
        v + 0x1_0000_0000int
    }) by (bit_vector);
    v as u32
}

/// The number whose two's complement bits are `w`.
pub fn from_word(w: u32) -> (v: i32)
    ensures
        v == signed32(w),
{
    assert((w as i32) as int == if w < 0x8000_0000u32 {
        w as int
    } else {
        w - 0x1_0000_0000int
    }) by (bit_vector);
    w as i32
}

/// The absolute value of `v`, which always fits an unsigned word.
pub fn magnitude(v: i32) -> (m: u32)
    ensures
        m == abs(v as int),
{
    if v >= 0 {
        v as u32
    } else if v == i32::MIN {
        0x8000_0000
    } else {
        (-v) as u32
    }
}

/// The quotient rounded up, as `u32::div_ceil` computes it.
pub fn div_ceil(n: u32, d: u32) -> (q: u32)
    requires
        d > 0,
    ensures
        q == (n + d - 1) / d as int,
{
    let whole: u32 = n / d;
    let rest: u32 = n % d;
    proof {
        lemma_div_ceil(n as int, d as int);
    }
    if rest == 0 {
        whole
    } else {
        whole + 1
    }
}

/// Rounding up adds one to the quotient exactly when a remainder is left.
pub proof fn lemma_div_ceil(n: int, d: int)
    requires
        n >= 0,
        d > 0,
    ensures
        (n + d - 1) / d == n / d + (if n % d == 0 {
            0int
        } else {
            1int
        }),
        n / d <= n,
        n % d != 0 ==> n / d < n,
{
    let q = n / d;
    let r = n % d;
    vstd::arithmetic::div_mod::lemma_fundamental_div_mod(n, d);
    assert(q <= n && (r != 0 ==> q < n)) by (nonlinear_arith)
        requires
            n == d * q + r,
            0 <= r < d,
            n >= 0,
            q >= 0,
            d > 0,
    ;
    if r == 0 {
        assert((n + d - 1) / d == q) by (nonlinear_arith)
            requires
                n == d * q,
                d > 0,
        ;
    } else {
        assert(n + d - 1 == d * (q + 1) + (r - 1)) by (nonlinear_arith)
            requires
                n == d * q + r,
        ;
        vstd::arithmetic::div_mod::lemma_fundamental_div_mod_converse(n + d - 1, d, q + 1, r - 1);
    }
}

} // verus!
