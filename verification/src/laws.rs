//! What holds of the arithmetic as a whole, whatever the operands.
use vstd::prelude::*;
use crate::batch::{
    count, is_batch16, is_batch48, lanes16, outs48, word_of, words_of, Batch16, Batch48, Buffers48,
    Op16, Op48, Out48,
};
use crate::lane::{
    accumulated48, blended16, coarsened32, difference16, difference48, lane16, lane64,
    lemma_wide_of, lemma_wide_of_value, mask16, maximum16, minimum16, narrowed32, narrowed48,
    product16, quotient16, refined48, sum16, sum48, wide_of, widened16, Lane16, Lane64,
};
use crate::native::lemma_product_range;
use crate::number::{
    abs, clamp_i32, clamp_i64, floor_unit, in_i32, in_i64, signed32, signed64, trunc_div, unit,
};
use crate::wide::{lemma_value_range, Wide};

verus! {

/// The extreme 32-bit value with the sign of `a`.
pub open spec fn extreme32(a: int) -> int {
    if a < 0 {
        i32::MIN as int
    } else {
        i32::MAX as int
    }
}

/// The extreme 64-bit value with the sign of `a`.
pub open spec fn extreme64(a: int) -> int {
    if a < 0 {
        i64::MIN as int
    } else {
        i64::MAX as int
    }
}

/// Two dispatches of one entry point over the same Q16.16 buffers leave the same bits and the
/// same telemetry, whichever variant ran them.
pub proof fn dispatches16_agree(p: Batch16, q: Batch16, op: Op16, a: Seq<i32>, b: Seq<i32>)
    requires
        is_batch16(p, op, a, b),
        is_batch16(q, op, a, b),
    ensures
        p.dst@ == q.dst@,
        p.telemetry == q.telemetry,
{
}

/// Two dispatches of one entry point over the same 64-bit buffers leave the same bits and the
/// same telemetry, whichever variant ran them.
pub proof fn dispatches48_agree(p: Batch48, q: Batch48, op: Op48, buffers: Buffers48, n: nat)
    requires
        is_batch48(p, op, buffers, n),
        is_batch48(q, op, buffers, n),
    ensures
        p.words@ == q.words@,
        p.telemetry == q.telemetry,
{
}

/// Counting is additive: the count of a whole is the sum of the counts of its parts.
pub proof fn count_is_additive(first: Seq<bool>, second: Seq<bool>)
    ensures
        count(first + second) == count(first) + count(second),
    decreases second.len(),
{
    if second.len() == 0 {
        assert(first + second == first);
    } else {
        count_is_additive(first, second.drop_last());
        assert((first + second).drop_last() == first + second.drop_last());
    }
}

/// A 32-bit sum or difference that overflows saturates toward the sign of the first operand.
pub proof fn saturation16_follows_the_first_operand(a: i32, b: i32)
    ensures
        sum16(a, b).saturated ==> sum16(a, b).raw == extreme32(a as int),
        difference16(a, b).saturated ==> difference16(a, b).raw == extreme32(a as int),
{
}

/// A 64-bit sum, difference, accumulation or refinement that overflows saturates toward the sign
/// of the first operand.
pub proof fn saturation48_follows_the_first_operand(a: Wide, b: Wide, x: i32, y: i32)
    ensures
        sum48(a, b).saturated ==> sum48(a, b).raw.value() == extreme64(a.value()),
        difference48(a, b).saturated ==> difference48(a, b).raw.value() == extreme64(a.value()),
        accumulated48(a, x, y).saturated ==> accumulated48(a, x, y).raw.value() == extreme64(
            a.value(),
        ),
        refined48(a).saturated ==> refined48(a).raw.value() == extreme64(a.value()),
{
    lemma_product_range(x, y);
    lemma_wide_of(extreme64(a.value()));
}

/// An operation that does not saturate returns the exact result.
pub proof fn unsaturated48_is_exact(a: Wide, b: Wide, x: i32, y: i32)
    ensures
        !sum48(a, b).saturated ==> sum48(a, b).raw.value() == a.value() + b.value(),
        !difference48(a, b).saturated ==> difference48(a, b).raw.value() == a.value() - b.value(),
        !accumulated48(a, x, y).saturated ==> accumulated48(a, x, y).raw.value() == a.value()
            + floor_unit(x * y),
        !refined48(a).saturated ==> refined48(a).raw.value() == a.value() * unit(),
{
    lemma_product_range(x, y);
    if in_i64(a.value() + b.value()) {
        lemma_wide_of(a.value() + b.value());
    }
    if in_i64(a.value() - b.value()) {
        lemma_wide_of(a.value() - b.value());
    }
    if in_i64(a.value() + floor_unit(x * y)) {
        lemma_wide_of(a.value() + floor_unit(x * y));
    }
    if in_i64(a.value() * unit()) {
        lemma_wide_of(a.value() * unit());
    }
}

/// The product of two Q16.16 factors fits 62 bits and a sign, so in an accumulation only the sum
/// can overflow.
pub proof fn only_the_sum_of_an_accumulation_overflows(q: Wide, x: i32, y: i32)
    ensures
        abs(x * y) <= 0x4000_0000_0000_0000,
        accumulated48(q, x, y) == sum48(q, wide_of(floor_unit(x * y))),
{
    lemma_product_range(x, y);
    lemma_wide_of(floor_unit(x * y));
}

/// Blending by the mask of `a > b` is taking the larger operand.
pub proof fn blend_is_max(a: i32, b: i32)
    ensures
        blended16(a, b) == maximum16(a, b),
{
}

/// Masks are all zeros or all ones, and `greater` and `equals` are never both set.
pub proof fn masks_are_full_and_exclusive(a: i32, b: i32)
    ensures
        mask16(a > b).raw == 0 || mask16(a > b).raw == -1,
        mask16(a == b).raw == 0 || mask16(a == b).raw == -1,
        !(mask16(a > b).raw == -1 && mask16(a == b).raw == -1),
        mask16(a > b).raw == -1 ==> mask16(b > a).raw == 0,
{
}

/// The smaller and the larger operand together are the two operands.
pub proof fn min_and_max_share_out_the_operands(a: i32, b: i32)
    ensures
        minimum16(a, b).raw <= maximum16(a, b).raw,
        minimum16(a, b).raw + maximum16(a, b).raw == a + b,
        minimum16(a, b) == minimum16(b, a),
        maximum16(a, b) == maximum16(b, a),
{
}

/// Masks and selections report no telemetry.
pub proof fn masks_and_selections_never_saturate(op: Op16, a: i32, b: i32)
    requires
        op is Min || op is Max || op is Greater || op is Equals || op is Blend,
    ensures
        !op.lane(a, b).saturated,
        !op.lane(a, b).fault,
{
}

/// Only a division by zero faults, and a fault is not counted as a saturation.
pub proof fn only_division_by_zero_faults(op: Op16, a: i32, b: i32)
    ensures
        op.lane(a, b).fault <==> op is Div && b == 0,
        op.lane(a, b).fault ==> !op.lane(a, b).saturated && op.lane(a, b).raw == extreme32(
            a as int,
        ),
{
}

/// A widened number narrows back to itself.
pub proof fn widening_is_lossless(v: i32)
    ensures
        !widened16(v).saturated,
        widened16(v).raw.value() == v,
        narrowed48(widened16(v).raw) == lane16(v as int),
{
    lemma_wide_of(v as int);
}

/// A Q48.16 number that fits Q32.32 comes back from it unchanged.
pub proof fn refining_is_lossless(v: Wide)
    requires
        !refined48(v).saturated,
    ensures
        coarsened32(refined48(v).raw).raw == v,
        !coarsened32(refined48(v).raw).saturated,
{
    lemma_value_range(v);
    lemma_wide_of(v.value() * unit());
    lemma_wide_of_value(v);
}

/// Flooring a Q32.32 number to the Q48.16 grid never saturates.
pub proof fn coarsening_never_saturates(v: Wide)
    ensures
        !coarsened32(v).saturated,
        coarsened32(v).raw.value() == floor_unit(v.value()),
{
    lemma_value_range(v);
    lemma_wide_of(floor_unit(v.value()));
}

/// A Q32.32 number reaches Q16.16 the same way whether or not it stops at Q48.16.
pub proof fn narrowing_composes(v: Wide)
    ensures
        narrowed32(v) == narrowed48(coarsened32(v).raw),
{
    coarsening_never_saturates(v);
}

/// Multiplying or dividing by one changes nothing, and every fractional digit survives.
pub proof fn one_is_neutral(a: i32)
    ensures
        product16(a, 0x1_0000) == lane16(a as int),
        quotient16(a, 0x1_0000) == lane16(a as int),
{
    assert(abs(a * unit()) == abs(a as int) * unit());
    assert(abs(a as int) * 0x1_0000 / 0x1_0000 == abs(a as int));
}

/// Sums and products do not depend on the order of their operands.
pub proof fn sums_and_products_commute(a: i32, b: i32)
    ensures
        sum16(a, b) == sum16(b, a),
        product16(a, b) == product16(b, a),
{
    assert(a * b == b * a) by (nonlinear_arith);
}

/// A product is floored and a quotient is truncated: the first never exceeds the exact result,
/// the second never exceeds it in magnitude.
pub proof fn products_floor_and_quotients_truncate(a: i32, b: i32)
    ensures
        floor_unit(a * b) * unit() <= a * b < (floor_unit(a * b) + 1) * unit(),
        b != 0 ==> abs(trunc_div(a * unit(), b as int)) * abs(b as int) <= abs(a * unit()) < (abs(
            trunc_div(a * unit(), b as int),
        ) + 1) * abs(b as int),
{
    if b != 0 {
        let n = abs(a * unit());
        let d = abs(b as int);
        let q = n / d;
        vstd::arithmetic::div_mod::lemma_fundamental_div_mod(n, d);
        assert(q >= 0 && q * d <= n < (q + 1) * d) by (nonlinear_arith)
            requires
                n == d * q + n % d,
                0 <= n % d < d,
                n >= 0,
                d > 0,
        ;
        assert(abs(trunc_div(a * unit(), b as int)) == q);
    }
}

/// The bounds of 32 and 64 bits, clamping and magnitudes are what their names say.
pub proof fn ranges_are_those_of_machine_words(x: int)
    ensures
        in_i32(x) <==> -0x8000_0000 <= x < 0x8000_0000,
        in_i64(x) <==> -0x8000_0000_0000_0000 <= x < 0x8000_0000_0000_0000,
        in_i32(clamp_i32(x)) && (in_i32(x) ==> clamp_i32(x) == x),
        in_i64(clamp_i64(x)) && (in_i64(x) ==> clamp_i64(x) == x),
        forall|y: int|
            in_i32(y) ==> (x <= y ==> clamp_i32(x) <= y) && (x >= y ==> clamp_i32(x) >= y),
        forall|y: int|
            in_i64(y) ==> (x <= y ==> clamp_i64(x) <= y) && (x >= y ==> clamp_i64(x) >= y),
        abs(x) >= 0,
        abs(x) == x || abs(x) == -x,
{
}

/// A pair of words holds the two's complement number whose low and high halves they are, and
/// splitting a number gives the words that hold it.
pub proof fn words_hold_twos_complement(w: Wide, v: i32)
    ensures
        w.hi < 0x8000_0000 ==> w.value() == w.hi * 0x1_0000_0000 + w.lo,
        w.hi >= 0x8000_0000 ==> w.value() == w.hi * 0x1_0000_0000 + w.lo - 0x1_0000_0000_0000_0000,
        wide_of(w.value()) == w,
        0 <= v ==> word_of(v) == v,
        v < 0 ==> word_of(v) == v + 0x1_0000_0000,
        signed32(word_of(v)) == v,
{
    lemma_wide_of_value(w);
}

/// A signed number and the unsigned number with the same bits differ by a power of two or not at
/// all, whichever brings it into the signed range.
pub proof fn signed_words_are_twos_complement(w: u32, d: u64)
    ensures
        -0x8000_0000 <= signed32(w) < 0x8000_0000,
        signed32(w) == w || signed32(w) == w - 0x1_0000_0000,
        -0x8000_0000_0000_0000 <= signed64(d) < 0x8000_0000_0000_0000,
        signed64(d) == d || signed64(d) == d - 0x1_0000_0000_0000_0000,
{
}

/// A 32-bit sum or difference is exact unless it leaves the 32-bit range; then, and only then, it
/// saturates at the end of the range that was passed.
pub proof fn sums16_are_exact_or_saturate(a: i32, b: i32)
    ensures
        ({
            let s = sum16(a, b);
            let d = difference16(a, b);
            &&& s.saturated <==> a + b < -0x8000_0000 || a + b > 0x7fff_ffff
            &&& !s.saturated ==> s.raw == a + b
            &&& s.saturated ==> s.raw == (if a + b < 0 { -0x8000_0000int } else { 0x7fff_ffff })
            &&& !s.fault
            &&& d.saturated <==> a - b < -0x8000_0000 || a - b > 0x7fff_ffff
            &&& !d.saturated ==> d.raw == a - b
            &&& d.saturated ==> d.raw == (if a - b < 0 { -0x8000_0000int } else { 0x7fff_ffff })
            &&& !d.fault
            &&& Op16::Add.lane(a, b) == s
            &&& Op16::Sub.lane(a, b) == d
        }),
{
}

/// What was added can be subtracted again, as long as nothing saturates.
pub proof fn subtraction_undoes_addition(a: i32, b: i32)
    requires
        !sum16(a, b).saturated,
    ensures
        difference16(sum16(a, b).raw, b).raw == a,
        !difference16(sum16(a, b).raw, b).saturated,
{
}

/// A product is the largest grid point that does not exceed the exact one, unless no 32-bit number
/// is; then, and only then, it saturates at the end of the range that was passed.
pub proof fn products16_are_floored_or_saturate(a: i32, b: i32)
    ensures
        ({
            let r = product16(a, b);
            &&& r.saturated <==> a * b < -0x8000_0000_0000 || a * b >= 0x8000_0000_0000
            &&& !r.saturated ==> r.raw * 0x1_0000 <= a * b < (r.raw + 1) * 0x1_0000
            &&& r.saturated ==> r.raw == (if a * b < 0 { -0x8000_0000int } else { 0x7fff_ffff })
            &&& !r.fault
            &&& Op16::Mul.lane(a, b) == r
        }),
{
}

/// `q` is the quotient of `a` and `b` on the Q16.16 grid, truncated: the exact quotient lies
/// between it and the next number away from zero, and it has the sign of that quotient or is zero.
pub open spec fn truncates(q: int, a: int, b: int) -> bool {
    &&& abs(q) * abs(b) <= abs(a) * 0x1_0000 < (abs(q) + 1) * abs(b)
    &&& q == 0 || ((q < 0) == ((a < 0) != (b < 0)))
}

/// There is one truncated quotient.
proof fn lemma_truncates_once(p: int, q: int, a: int, b: int)
    requires
        b != 0,
        truncates(p, a, b),
        truncates(q, a, b),
    ensures
        p == q,
{
    let x = abs(p);
    let y = abs(q);
    let d = abs(b);
    let n = abs(a) * 0x1_0000;
    assert(x == y) by (nonlinear_arith)
        requires
            x * d <= n < (x + 1) * d,
            y * d <= n < (y + 1) * d,
            d > 0,
    ;
}

/// The quotient of two Q16.16 numbers is the exact one truncated to the grid, unless that is no
/// 32-bit number; then, and only then, it saturates at the end of the range that was passed.
/// Dividing by zero is a fault, whose result has the sign of the dividend.
pub proof fn quotients16_are_truncated_or_saturate(a: i32, b: i32)
    ensures
        ({
            let r = quotient16(a, b);
            &&& b != 0 && !r.saturated ==> {
                &&& abs(r.raw as int) * abs(b as int) <= abs(a as int) * 0x1_0000
                &&& abs(a as int) * 0x1_0000 < (abs(r.raw as int) + 1) * abs(b as int)
                &&& r.raw == 0 || ((r.raw < 0) == ((a < 0) != (b < 0)))
            }
            &&& b != 0 ==> (r.saturated <==> forall|q: i32|
                !#[trigger] truncates(q as int, a as int, b as int))
            &&& r.saturated ==> r.raw == (if (a < 0) != (b < 0) {
                -0x8000_0000int
            } else {
                0x7fff_ffff
            })
            &&& b != 0 ==> !r.fault
            &&& b == 0 ==> r.fault && !r.saturated
            &&& b == 0 ==> r.raw == (if a < 0 { -0x8000_0000int } else { 0x7fff_ffff })
            &&& Op16::Div.lane(a, b) == r
        }),
{
    if b != 0 {
        let n = abs(a * unit());
        let d = abs(b as int);
        let q = n / d;
        let t = trunc_div(a * unit(), b as int);
        vstd::arithmetic::div_mod::lemma_fundamental_div_mod(n, d);
        assert(q >= 0 && q * d <= n < (q + 1) * d) by (nonlinear_arith)
            requires
                n == d * q + n % d,
                0 <= n % d < d,
                n >= 0,
                d > 0,
        ;
        assert(abs(t) == q);
        assert(n == abs(a as int) * 0x1_0000);
        assert(truncates(t, a as int, b as int));
        let r = quotient16(a, b);
        if r.saturated {
            assert forall|x: i32| !#[trigger] truncates(x as int, a as int, b as int) by {
                if truncates(x as int, a as int, b as int) {
                    lemma_truncates_once(x as int, t, a as int, b as int);
                }
            }
        } else {
            assert(truncates(r.raw as int, a as int, b as int));
        }
    }
}

/// The smaller and the larger operand are operands that do not exceed, or fall short of, either;
/// a mask is all ones where its condition holds and all zeros elsewhere; a blend picks the first
/// operand where it is larger. None of them touches the telemetry.
pub proof fn selections16_pick_an_operand(a: i32, b: i32)
    ensures
        ({
            let low = Op16::Min.lane(a, b);
            let high = Op16::Max.lane(a, b);
            let greater = Op16::Greater.lane(a, b);
            let equals = Op16::Equals.lane(a, b);
            let blend = Op16::Blend.lane(a, b);
            &&& low.raw <= a && low.raw <= b && (low.raw == a || low.raw == b)
            &&& high.raw >= a && high.raw >= b && (high.raw == a || high.raw == b)
            &&& a > b ==> greater.raw == -1 && blend.raw == a
            &&& a <= b ==> greater.raw == 0 && blend.raw == b
            &&& a == b ==> equals.raw == -1
            &&& a != b ==> equals.raw == 0
            &&& !low.saturated && !high.saturated && !greater.saturated && !equals.saturated
                && !blend.saturated
            &&& !low.fault && !high.fault && !greater.fault && !equals.fault && !blend.fault
            &&& minimum16(a, b) == low
            &&& maximum16(a, b) == high
            &&& mask16(a > b) == greater
            &&& mask16(a == b) == equals
            &&& blended16(a, b) == blend
        }),
{
}

/// `lane` holds the exact result `x` if it fits 64 bits, and the end of the 64-bit range that `x`
/// passed otherwise.
pub open spec fn holds_or_saturates(lane: Lane64, x: int) -> bool {
    if x < -0x8000_0000_0000_0000 {
        lane.saturated && lane.raw.value() == -0x8000_0000_0000_0000
    } else if x > 0x7fff_ffff_ffff_ffff {
        lane.saturated && lane.raw.value() == 0x7fff_ffff_ffff_ffff
    } else {
        !lane.saturated && lane.raw.value() == x
    }
}

/// `lane` holds the exact result `x` if it fits 32 bits, and the end of the 32-bit range that `x`
/// passed otherwise. Nothing faults.
pub open spec fn holds_or_saturates16(lane: Lane16, x: int) -> bool {
    &&& !lane.fault
    &&& if x < -0x8000_0000 {
        lane.saturated && lane.raw == -0x8000_0000
    } else if x > 0x7fff_ffff {
        lane.saturated && lane.raw == 0x7fff_ffff
    } else {
        !lane.saturated && lane.raw == x
    }
}

proof fn lemma_lane64(x: int)
    ensures
        holds_or_saturates(lane64(x), x),
{
    lemma_wide_of(clamp_i64(x));
}

/// Sums and differences of Q48.16 numbers are exact or saturate. An accumulation adds the product
/// of its factors floored to the grid: `p` is that product.
pub proof fn sums48_are_exact_or_saturate(a: Wide, b: Wide, x: i32, y: i32, p: int)
    requires
        p * 0x1_0000 <= x * y < (p + 1) * 0x1_0000,
    ensures
        holds_or_saturates(sum48(a, b), a.value() + b.value()),
        holds_or_saturates(difference48(a, b), a.value() - b.value()),
        holds_or_saturates(accumulated48(a, x, y), a.value() + p),
{
    lemma_lane64(a.value() + b.value());
    lemma_lane64(a.value() - b.value());
    lemma_lane64(a.value() + p);
    assert(floor_unit(x * y) == p);
}

/// What every conversion does to the number that it is given. `f` is the number floored by
/// sixteen bits.
pub proof fn conversions_keep_the_number_or_saturate(v: Wide, x: i32, f: int)
    requires
        f * 0x1_0000 <= v.value() < (f + 1) * 0x1_0000,
    ensures
        holds_or_saturates16(narrowed48(v), v.value()),
        holds_or_saturates(widened16(x), x as int),
        holds_or_saturates16(narrowed32(v), f),
        holds_or_saturates(coarsened32(v), f),
        holds_or_saturates(refined48(v), v.value() * 0x1_0000),
        refined48(v).saturated <==> v.value() < -0x8000_0000_0000 || v.value() >= 0x8000_0000_0000,
{
    assert(floor_unit(v.value()) == f);
    lemma_lane64(x as int);
    lemma_lane64(f);
    lemma_lane64(v.value() * 0x1_0000);
}

/// Which operands each entry point on 64-bit elements reads: the elements at its own position, in
/// the buffers of its operand types.
pub proof fn entry_points48_read_their_own_element(buffers: Buffers48, i: int)
    ensures
        Op48::Add.out(buffers, i) == Out48::Two(sum48(buffers.a@[i], buffers.b@[i])),
        Op48::Sub.out(buffers, i) == Out48::Two(difference48(buffers.a@[i], buffers.b@[i])),
        Op48::MulAdd.out(buffers, i) == Out48::Two(
            accumulated48(buffers.a@[i], buffers.a16@[i], buffers.b16@[i]),
        ),
        Op48::To16From48.out(buffers, i) == Out48::One(narrowed48(buffers.a@[i])),
        Op48::To16From32.out(buffers, i) == Out48::One(narrowed32(buffers.a32@[i])),
        Op48::To48From16.out(buffers, i) == Out48::Two(widened16(buffers.a16@[i])),
        Op48::To48From32.out(buffers, i) == Out48::Two(coarsened32(buffers.a32@[i])),
        Op48::To32From48.out(buffers, i) == Out48::Two(refined48(buffers.a@[i])),
{
}

/// A count is the number of flags that are set.
pub proof fn count_is_the_number_of_set_flags(flags: Seq<bool>)
    ensures
        count(flags) == flags.filter(|flag: bool| flag).len(),
    decreases flags.len(),
{
    reveal(Seq::filter);
    if flags.len() > 0 {
        count_is_the_number_of_set_flags(flags.drop_last());
    }
}

/// A dispatch over Q16.16 buffers writes for each element what the entry point computes on it, and
/// counts the elements that saturate and those that fault.
pub proof fn dispatches16_work_element_by_element(
    batch: Batch16,
    op: Op16,
    a: Seq<i32>,
    b: Seq<i32>,
)
    requires
        a.len() == b.len(),
        is_batch16(batch, op, a, b),
    ensures
        batch.dst@.len() == a.len(),
        forall|i: int| 0 <= i < a.len() ==> #[trigger] batch.dst@[i] == op.lane(a[i], b[i]).raw,
        batch.telemetry.saturations == Seq::new(
            a.len(),
            |i: int| op.lane(a[i], b[i]).saturated,
        ).filter(|flag: bool| flag).len(),
        batch.telemetry.faults == Seq::new(a.len(), |i: int| op.lane(a[i], b[i]).fault).filter(
            |flag: bool| flag,
        ).len(),
{
    let lanes = lanes16(op, a, b);
    let saturated = lanes.map_values(|lane: Lane16| lane.saturated);
    let faulted = lanes.map_values(|lane: Lane16| lane.fault);
    assert(saturated =~= Seq::new(a.len(), |i: int| op.lane(a[i], b[i]).saturated));
    assert(faulted =~= Seq::new(a.len(), |i: int| op.lane(a[i], b[i]).fault));
    count_is_the_number_of_set_flags(saturated);
    count_is_the_number_of_set_flags(faulted);
}

proof fn lemma_words_of_pairs(outs: Seq<Out48>)
    requires
        forall|i: int| 0 <= i < outs.len() ==> #[trigger] outs[i] is Two,
    ensures
        words_of(outs).len() == 2 * outs.len(),
        forall|i: int|
            0 <= i < outs.len() ==> words_of(outs)[2 * i] == (#[trigger] outs[i])->Two_0.raw.lo
                && words_of(outs)[2 * i + 1] == outs[i]->Two_0.raw.hi,
    decreases outs.len(),
{
    if outs.len() > 0 {
        let before = outs.drop_last();
        assert forall|i: int| 0 <= i < before.len() implies #[trigger] before[i] is Two by {
            assert(before[i] == outs[i]);
        }
        lemma_words_of_pairs(before);
        assert forall|i: int| 0 <= i < outs.len() implies words_of(outs)[2 * i] == (
        #[trigger] outs[i])->Two_0.raw.lo && words_of(outs)[2 * i + 1]
            == outs[i]->Two_0.raw.hi by {
            if i < before.len() {
                assert(before[i] == outs[i]);
            }
        }
    }
}

proof fn lemma_words_of_singles(outs: Seq<Out48>)
    requires
        forall|i: int| 0 <= i < outs.len() ==> #[trigger] outs[i] is One,
    ensures
        words_of(outs).len() == outs.len(),
        forall|i: int|
            0 <= i < outs.len() ==> words_of(outs)[i] == word_of((#[trigger] outs[i])->One_0.raw),
    decreases outs.len(),
{
    if outs.len() > 0 {
        let before = outs.drop_last();
        assert forall|i: int| 0 <= i < before.len() implies #[trigger] before[i] is One by {
            assert(before[i] == outs[i]);
        }
        lemma_words_of_singles(before);
        assert forall|i: int| 0 <= i < outs.len() implies words_of(outs)[i] == word_of(
            (#[trigger] outs[i])->One_0.raw,
        ) by {
            if i < before.len() {
                assert(before[i] == outs[i]);
            }
        }
    }
}

/// A dispatch over 64-bit buffers writes the words of each result at the place of its element, one
/// word per Q16.16 result and two for the others, low word first. It counts the elements that
/// saturate, and nothing faults.
pub proof fn dispatches48_work_element_by_element(
    batch: Batch48,
    op: Op48,
    buffers: Buffers48,
    n: nat,
)
    requires
        is_batch48(batch, op, buffers, n),
    ensures
        op is To16From48 || op is To16From32 ==> batch.words@.len() == n && forall|i: int|
            0 <= i < n ==> op.out(buffers, i) is One && #[trigger] batch.words@[i] == word_of(
                op.out(buffers, i)->One_0.raw,
            ),
        !(op is To16From48 || op is To16From32) ==> batch.words@.len() == 2 * n && forall|i: int|
            0 <= i < n ==> {
                &&& #[trigger] op.out(buffers, i) is Two
                &&& batch.words@[2 * i] == op.out(buffers, i)->Two_0.raw.lo
                &&& batch.words@[2 * i + 1] == op.out(buffers, i)->Two_0.raw.hi
            },
        batch.telemetry.saturations == Seq::new(
            n,
            |i: int|
                match op.out(buffers, i) {
                    Out48::One(lane) => lane.saturated,
                    Out48::Two(lane) => lane.saturated,
                },
        ).filter(|flag: bool| flag).len(),
        batch.telemetry.faults == 0,
{
    let outs = outs48(op, buffers, n);
    let saturated = outs.map_values(|out: Out48| out.spec_saturated());
    assert(saturated =~= Seq::new(
        n,
        |i: int|
            match op.out(buffers, i) {
                Out48::One(lane) => lane.saturated,
                Out48::Two(lane) => lane.saturated,
            },
    ));
    count_is_the_number_of_set_flags(saturated);
    if op is To16From48 || op is To16From32 {
        lemma_words_of_singles(outs);
        assert forall|i: int| 0 <= i < n implies op.out(buffers, i) is One
            && #[trigger] batch.words@[i] == word_of(op.out(buffers, i)->One_0.raw) by {
            assert(outs[i] == op.out(buffers, i));
        }
    } else {
        lemma_words_of_pairs(outs);
        assert forall|i: int| 0 <= i < n implies {
            &&& #[trigger] op.out(buffers, i) is Two
            &&& batch.words@[2 * i] == op.out(buffers, i)->Two_0.raw.lo
            &&& batch.words@[2 * i + 1] == op.out(buffers, i)->Two_0.raw.hi
        } by {
            assert(outs[i] == op.out(buffers, i));
        }
    }
}

} // verus!
