//! A linear congruential generator: reproducible streams of operands.
use vstd::prelude::*;
use crate::number::{from_word, signed32};

verus! {

/// The state that every generator starts from, before a stream is mixed in.
pub const SEED: u64 = 0x4D59_5DF4_D0F3_3173;

/// The factor of one step.
pub const MULTIPLIER: u64 = 6_364_136_223_846_793_005;

/// The factor that spreads stream numbers over the seeds.
pub const SPREAD: u64 = 0x9E37_79B9_7F4A_7C15;

/// The state after `s`.
pub open spec fn next_state(s: u64) -> u64 {
    ((s as int * MULTIPLIER as int + 1) % 0x1_0000_0000_0000_0000) as u64
}

/// The state after `n` steps from `s`.
pub open spec fn nth_state(s: u64, n: nat) -> u64
    decreases n,
{
    if n == 0 {
        s
    } else {
        next_state(nth_state(s, (n - 1) as nat))
    }
}

/// The state that a stream starts from.
pub open spec fn stream_seed(stream: u64) -> u64 {
    SEED ^ ((stream as int * SPREAD as int) % 0x1_0000_0000_0000_0000) as u64
}

/// Stream zero starts from the plain seed.
pub proof fn stream_zero_starts_at_the_seed()
    ensures
        stream_seed(0) == SEED,
{
    assert(0x4D59_5DF4_D0F3_3173u64 ^ 0u64 == 0x4D59_5DF4_D0F3_3173u64) by (bit_vector);
}

/// The number that undoes a multiplication by `SPREAD` modulo two to the sixty-four.
const SPREAD_INVERSE: u64 = 0xF1DE_83E1_9937_733D;

/// Multiplying by `SPREAD` modulo two to the sixty-four can be undone.
proof fn lemma_spread_is_invertible(stream: u64)
    ensures
        ((stream as int * SPREAD as int) % 0x1_0000_0000_0000_0000) * SPREAD_INVERSE as int
            % 0x1_0000_0000_0000_0000 == stream,
{
    let m = 0x1_0000_0000_0000_0000int;
    let s = stream as int;
    let product = s * SPREAD as int;
    vstd::arithmetic::div_mod::lemma_mul_mod_noop_left(product, SPREAD_INVERSE as int, m);
    let wraps = 10771413168148108919int;
    assert(SPREAD as int * SPREAD_INVERSE as int == 1 + wraps * m);
    assert(product * SPREAD_INVERSE as int == m * (wraps * s) + s) by (nonlinear_arith)
        requires
            product == s * SPREAD as int,
            SPREAD as int * SPREAD_INVERSE as int == 1 + wraps * m,
    ;
    vstd::arithmetic::div_mod::lemma_fundamental_div_mod_converse(
        product * SPREAD_INVERSE as int,
        m,
        wraps * s,
        s,
    );
}

/// Different streams start from different states.
pub proof fn streams_start_apart(p: u64, q: u64)
    requires
        p != q,
    ensures
        stream_seed(p) != stream_seed(q),
{
    lemma_spread_is_invertible(p);
    lemma_spread_is_invertible(q);
    let x = ((p as int * SPREAD as int) % 0x1_0000_0000_0000_0000) as u64;
    let y = ((q as int * SPREAD as int) % 0x1_0000_0000_0000_0000) as u64;
    let seed = SEED;
    assert(seed ^ x == seed ^ y ==> x == y) by (bit_vector);
}

/// The upper word of a state as a signed number.
pub open spec fn high_word(s: u64) -> int {
    signed32((s / 0x1_0000_0000) as u32)
}

/// A generator.
pub struct Lcg {
    pub state: u64,
}

impl Lcg {
    /// The generator that starts from the plain seed.
    pub fn seeded() -> (lcg: Lcg)
        ensures
            lcg.state == SEED,
    {
        Lcg { state: SEED }
    }

    /// The generator of a stream: one independent stream per input buffer.
    pub fn stream(stream: u64) -> (lcg: Lcg)
        ensures
            lcg.state == stream_seed(stream),
    {
        Lcg { state: SEED ^ stream.wrapping_mul(SPREAD) }
    }

    /// Steps the generator and returns its new state.
    pub fn next(&mut self) -> (s: u64)
        ensures
            s == next_state(old(self).state),
            final(self).state == s,
    {
        let product: u64 = self.state.wrapping_mul(MULTIPLIER);
        self.state = product.wrapping_add(1);
        proof {
            vstd::arithmetic::div_mod::lemma_add_mod_noop(
                old(self).state as int * MULTIPLIER as int,
                1,
                0x1_0000_0000_0000_0000,
            );
        }
        self.state
    }

    /// Steps the generator and returns the upper word of its new state as a signed number.
    pub fn next_word(&mut self) -> (v: i32)
        ensures
            final(self).state == next_state(old(self).state),
            v == high_word(final(self).state),
    {
        let s: u64 = self.next();
        from_word((s / 0x1_0000_0000) as u32)
    }
}

} // verus!
