//! The operands that the conformance suite replays: every pair of edge values, then a long
//! random tail that mixes edges with random partners.
use vstd::prelude::*;
use crate::lcg::{high_word, nth_state, Lcg, SEED};
use crate::number::{signed64, trunc_div};
use crate::wide::from_bits;

verus! {

/// Q16.16 raw values around every power of two that a solver touches.
pub const EDGES: [i32; 32] = [
    -2147483648,
    -2147483647,
    -1073741824,
    -65537,
    -65536,
    -65535,
    -32769,
    -32768,
    -32767,
    -257,
    -256,
    -255,
    -3,
    -2,
    -1,
    0,
    1,
    2,
    3,
    255,
    256,
    257,
    32767,
    32768,
    32769,
    65535,
    65536,
    65537,
    1073741823,
    1073741824,
    2147483646,
    2147483647,
];

/// Q48.16 raw values around the sign, the Q16.16 range and the 48-bit range.
pub const EDGES48: [i64; 22] = [
    -0x8000_0000_0000_0000,
    -0x7fff_ffff_ffff_ffff,
    -0x1_0000_0000_0000,
    -0x8000_0000_0000,
    -0x8000_0001,
    -0x8000_0000,
    -0x7fff_ffff,
    -0x1_0000,
    -0x8000,
    -1,
    0,
    1,
    0x8000,
    0x1_0000,
    0x7fff_fffe,
    0x7fff_ffff,
    0x8000_0000,
    0x8000_0000_0000,
    0x1_0000_0000_0000,
    0x7fff_ffff_ffff_fffe,
    0x7fff_ffff_ffff_ffff,
    0x1234_5678_9abc_def0,
];

/// Q16.16 raw values around the sign, one and the 32-bit range.
pub const EDGES16: [i32; 12] = [
    -0x8000_0000,
    -0x7fff_ffff,
    -0x1_0000,
    -0x8000,
    -1,
    0,
    1,
    0x8000,
    0x1_0000,
    0x7fff_fffe,
    0x7fff_ffff,
    0x1234_5678,
];

/// How many random pairs follow the edge pairs of a Q16.16 case list.
pub const RANDOM_PAIRS16: u32 = 131_071;

/// How many random entries follow the edges of the other case lists.
pub const RANDOM_PAIRS48: u32 = 65_535;

/// Sign-extends the low sixteen bits of `v`.
pub open spec fn low_half(v: int) -> int {
    let half = v % 0x1_0000;
    if half < 0x8000 {
        half
    } else {
        half - 0x1_0000
    }
}

/// Random pair `i` of the Q16.16 arithmetic cases. Of every four pairs, one is as drawn, one is
/// small, one has a short second operand and one has an edge as second operand.
pub open spec fn random_pair16(i: int) -> (int, int) {
    let a = high_word(nth_state(SEED, (2 * i + 1) as nat));
    let b = high_word(nth_state(SEED, (2 * i + 2) as nat));
    if i % 4 == 1 {
        (trunc_div(a, 2048), trunc_div(b, 2048))
    } else if i % 4 == 2 {
        (a, low_half(b))
    } else if i % 4 == 3 {
        (a, EDGES@[i / 4 % 32] as int)
    } else {
        (a, b)
    }
}

/// Pair `k` of the Q16.16 arithmetic cases.
pub open spec fn pair16(k: int) -> (int, int) {
    if k < 1024 {
        (EDGES@[k / 32] as int, EDGES@[k % 32] as int)
    } else {
        random_pair16(k - 1024)
    }
}

/// Every pair of edges.
pub fn edge_pairs16() -> (pairs: Vec<(i32, i32)>)
    ensures
        pairs@.len() == 1024,
        forall|k: int|
            0 <= k < 1024 ==> (#[trigger] pairs@[k]).0 == EDGES@[k / 32] && pairs@[k].1 == EDGES@[k
                % 32],
{
    let mut pairs: Vec<(i32, i32)> = Vec::new();
    let mut k: usize = 0;
    while k < 1024
        invariant
            k <= 1024,
            pairs@.len() == k,
            forall|j: int|
                0 <= j < k ==> (#[trigger] pairs@[j]).0 == EDGES@[j / 32] && pairs@[j].1
                    == EDGES@[j % 32],
        decreases 1024 - k,
    {
        pairs.push((EDGES[k / 32], EDGES[k % 32]));
        k = k + 1;
    }
    pairs
}

/// The cases of the Q16.16 arithmetic entry points.
pub fn arithmetic_pairs16() -> (pairs: Vec<(i32, i32)>)
    ensures
        pairs@.len() == 1024 + RANDOM_PAIRS16,
        forall|k: int|
            0 <= k < pairs@.len() ==> (#[trigger] pairs@[k]).0 == pair16(k).0 && pairs@[k].1
                == pair16(k).1,
{
    let mut pairs: Vec<(i32, i32)> = edge_pairs16();
    let mut lcg: Lcg = Lcg::seeded();
    let mut i: u32 = 0;
    while i < RANDOM_PAIRS16
        invariant
            i <= RANDOM_PAIRS16,
            pairs@.len() == 1024 + i,
            lcg.state == nth_state(SEED, (2 * i) as nat),
            forall|k: int|
                0 <= k < pairs@.len() ==> (#[trigger] pairs@[k]).0 == pair16(k).0 && pairs@[k].1
                    == pair16(k).1,
        decreases RANDOM_PAIRS16 - i,
    {
        let a: i32 = lcg.next_word();
        assert(lcg.state == nth_state(SEED, (2 * i + 1) as nat));
        let b: i32 = lcg.next_word();
        assert(lcg.state == nth_state(SEED, (2 * i + 2) as nat));
        let pair: (i32, i32) = match i % 4 {
            1 => (a / 2048, b / 2048),
            2 => (a, short_of(b)),
            3 => (a, EDGES[(i / 4 % 32) as usize]),
            _ => (a, b),
        };
        assert(pair.0 == random_pair16(i as int).0 && pair.1 == random_pair16(i as int).1);
        pairs.push(pair);
        i = i + 1;
    }
    pairs
}

/// Sign-extends the low sixteen bits of `v`.
fn short_of(v: i32) -> (s: i32)
    ensures
        s == low_half(v as int),
{
    assert((v as i16) as int == low_half_bits(v)) by (bit_vector);
    assert(low_half_bits(v) == low_half(v as int)) by {
        assert((v & 0xffff) as int == v as int % 0x1_0000) by (bit_vector);
    }
    (v as i16) as i32
}

/// `low_half` over the bits of a word.
spec fn low_half_bits(v: i32) -> int {
    if (v & 0xffff) < 0x8000 {
        (v & 0xffff) as int
    } else {
        (v & 0xffff) - 0x1_0000
    }
}

/// The cases of the Q16.16 masks and selections: every pair of edges, then every edge with
/// itself.
pub fn mask_pairs16() -> (pairs: Vec<(i32, i32)>)
    ensures
        pairs@.len() == 1056,
        forall|k: int|
            0 <= k < 1024 ==> (#[trigger] pairs@[k]).0 == EDGES@[k / 32] && pairs@[k].1 == EDGES@[k
                % 32],
        forall|k: int|
            1024 <= k < 1056 ==> (#[trigger] pairs@[k]).0 == EDGES@[k - 1024] && pairs@[k].1
                == EDGES@[k - 1024],
{
    let mut pairs: Vec<(i32, i32)> = edge_pairs16();
    let mut i: usize = 0;
    while i < 32
        invariant
            i <= 32,
            pairs@.len() == 1024 + i,
            forall|k: int|
                0 <= k < 1024 ==> (#[trigger] pairs@[k]).0 == EDGES@[k / 32] && pairs@[k].1
                    == EDGES@[k % 32],
            forall|k: int|
                1024 <= k < 1024 + i ==> (#[trigger] pairs@[k]).0 == EDGES@[k - 1024]
                    && pairs@[k].1 == EDGES@[k - 1024],
        decreases 32 - i,
    {
        pairs.push((EDGES[i], EDGES[i]));
        i = i + 1;
    }
    pairs
}

/// Random pair `i` of the 64-bit cases. Of every four pairs, one is as drawn, one is small, one
/// has an edge as second operand and one has an edge as first operand.
pub open spec fn random_pair48(i: int) -> (int, int) {
    let a = signed64(nth_state(SEED, (2 * i + 1) as nat));
    let b = signed64(nth_state(SEED, (2 * i + 2) as nat));
    if i % 4 == 1 {
        (a / 0x10_0000, b / 0x10_0000)
    } else if i % 4 == 2 {
        (a, EDGES48@[i % 22] as int)
    } else if i % 4 == 3 {
        (EDGES48@[i / 4 % 22] as int, b)
    } else {
        (a, b)
    }
}

/// Pair `k` of the 64-bit cases.
pub open spec fn pair48(k: int) -> (int, int) {
    if k < 484 {
        (EDGES48@[k / 22] as int, EDGES48@[k % 22] as int)
    } else {
        random_pair48(k - 484)
    }
}

/// The cases of the 64-bit entry points.
pub fn edge_pairs() -> (pairs: Vec<(i64, i64)>)
    ensures
        pairs@.len() == 484 + RANDOM_PAIRS48,
        forall|k: int|
            0 <= k < pairs@.len() ==> (#[trigger] pairs@[k]).0 == pair48(k).0 && pairs@[k].1
                == pair48(k).1,
{
    let mut pairs: Vec<(i64, i64)> = Vec::new();
    let mut k: usize = 0;
    while k < 484
        invariant
            k <= 484,
            pairs@.len() == k,
            forall|j: int|
                0 <= j < k ==> (#[trigger] pairs@[j]).0 == pair48(j).0 && pairs@[j].1 == pair48(
                    j,
                ).1,
        decreases 484 - k,
    {
        pairs.push((EDGES48[k / 22], EDGES48[k % 22]));
        k = k + 1;
    }
    let mut lcg: Lcg = Lcg::seeded();
    let mut i: u32 = 0;
    while i < RANDOM_PAIRS48
        invariant
            i <= RANDOM_PAIRS48,
            pairs@.len() == 484 + i,
            lcg.state == nth_state(SEED, (2 * i) as nat),
            forall|k: int|
                0 <= k < pairs@.len() ==> (#[trigger] pairs@[k]).0 == pair48(k).0 && pairs@[k].1
                    == pair48(k).1,
        decreases RANDOM_PAIRS48 - i,
    {
        let first: u64 = lcg.next();
        assert(lcg.state == nth_state(SEED, (2 * i + 1) as nat));
        let second: u64 = lcg.next();
        assert(lcg.state == nth_state(SEED, (2 * i + 2) as nat));
        let a: i64 = from_bits(first);
        let b: i64 = from_bits(second);
        let pair: (i64, i64) = match i % 4 {
            1 => (shift20(a), shift20(b)),
            2 => (a, EDGES48[(i % 22) as usize]),
            3 => (EDGES48[(i / 4 % 22) as usize], b),
            _ => (a, b),
        };
        assert(pair.0 == random_pair48(i as int).0 && pair.1 == random_pair48(i as int).1);
        pairs.push(pair);
        i = i + 1;
    }
    pairs
}

/// Moves a number down by twenty bits.
fn shift20(v: i64) -> (w: i64)
    ensures
        w == v as int / 0x10_0000,
{
    assert(v >> 20 == v as int / 0x10_0000) by (bit_vector);
    v >> 20
}

/// The first operands of the 64-bit cases.
pub fn first_operands(pairs: &[(i64, i64)]) -> (values: Vec<i64>)
    ensures
        values@ == pairs@.map_values(|pair: (i64, i64)| pair.0),
{
    let mut values: Vec<i64> = Vec::new();
    let mut i: usize = 0;
    while i < pairs.len()
        invariant
            i <= pairs@.len(),
            values@ =~= pairs@.map_values(|pair: (i64, i64)| pair.0).take(i as int),
        decreases pairs@.len() - i,
    {
        values.push(pairs[i].0);
        i = i + 1;
    }
    values
}

/// Q16.16 value `k` of the 64-bit cases: the edges, then random values with an edge at every
/// fourth place.
pub open spec fn value16(k: int) -> int {
    if k < 12 {
        EDGES16@[k] as int
    } else if (k - 12) % 4 == 3 {
        EDGES16@[(k - 12) % 12] as int
    } else {
        high_word(nth_state(SEED, (k - 12 + 1) as nat))
    }
}

/// The Q16.16 values of the 64-bit cases.
pub fn q16_values() -> (values: Vec<i32>)
    ensures
        values@.len() == 12 + RANDOM_PAIRS48,
        forall|k: int| 0 <= k < values@.len() ==> #[trigger] values@[k] == value16(k),
{
    let mut values: Vec<i32> = Vec::new();
    let mut k: usize = 0;
    while k < 12
        invariant
            k <= 12,
            values@.len() == k,
            forall|j: int| 0 <= j < k ==> #[trigger] values@[j] == value16(j),
        decreases 12 - k,
    {
        values.push(EDGES16[k]);
        k = k + 1;
    }
    let mut lcg: Lcg = Lcg::seeded();
    let mut i: u32 = 0;
    while i < RANDOM_PAIRS48
        invariant
            i <= RANDOM_PAIRS48,
            values@.len() == 12 + i,
            lcg.state == nth_state(SEED, i as nat),
            forall|k: int| 0 <= k < values@.len() ==> #[trigger] values@[k] == value16(k),
        decreases RANDOM_PAIRS48 - i,
    {
        let v: i32 = lcg.next_word();
        assert(lcg.state == nth_state(SEED, (i + 1) as nat));
        values.push(
            if i % 4 == 3 {
                EDGES16[(i % 12) as usize]
            } else {
                v
            },
        );
        i = i + 1;
    }
    values
}

/// One case of an accumulation.
#[derive(Clone, Copy, Debug, PartialEq, Eq, Structural)]
pub struct Triple {
    pub q: i64,
    pub a: i32,
    pub b: i32,
}

/// `triple` is case `k` of the accumulations: the first operand of pair `k`, factor `k`, and a
/// factor drawn at random.
pub open spec fn is_triple(triple: Triple, k: int) -> bool {
    let factors = 12 + RANDOM_PAIRS48;
    &&& triple.q == pair48(k).0
    &&& triple.a == value16(k % factors)
    &&& triple.b == value16(nth_state(SEED, (k + 1) as nat) as int % factors)
}

/// The cases of the accumulations.
pub fn mul_add_triples() -> (triples: Vec<Triple>)
    ensures
        triples@.len() == 484 + RANDOM_PAIRS48,
        forall|k: int| 0 <= k < triples@.len() ==> is_triple(#[trigger] triples@[k], k),
{
    let factors: Vec<i32> = q16_values();
    let pairs: Vec<(i64, i64)> = edge_pairs();
    let count: usize = factors.len();
    let mut lcg: Lcg = Lcg::seeded();
    let mut triples: Vec<Triple> = Vec::new();
    let mut i: usize = 0;
    while i < pairs.len()
        invariant
            i <= pairs@.len(),
            pairs@.len() == 484 + RANDOM_PAIRS48,
            count == factors@.len() == 12 + RANDOM_PAIRS48,
            triples@.len() == i,
            lcg.state == nth_state(SEED, i as nat),
            forall|k: int|
                0 <= k < pairs@.len() ==> (#[trigger] pairs@[k]).0 == pair48(k).0 && pairs@[k].1
                    == pair48(k).1,
            forall|k: int| 0 <= k < factors@.len() ==> #[trigger] factors@[k] == value16(k),
            forall|k: int| 0 <= k < i ==> is_triple(#[trigger] triples@[k], k),
        decreases pairs@.len() - i,
    {
        let s: u64 = lcg.next();
        assert(s == nth_state(SEED, (i + 1) as nat));
        let a: i32 = factors[i % count];
        let b: i32 = factors[(s % (count as u64)) as usize];
        let triple: Triple = Triple { q: pairs[i].0, a, b };
        assert(is_triple(triple, i as int));
        triples.push(triple);
        i = i + 1;
    }
    triples
}

} // verus!
