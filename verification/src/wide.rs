//! 64-bit signed numbers held as two 32-bit words, low word first.
use vstd::prelude::*;
use crate::number::{from_word, signed32, signed64, to_word};

verus! {

/// A signed 64-bit number in two's complement, split into its low and high words.
///
/// This is how a storage buffer holds a Q48.16 or Q32.32 value.
#[derive(Clone, Copy, Debug, PartialEq, Eq, Structural)]
pub struct Wide {
    pub lo: u32,
    pub hi: u32,
}

impl Wide {
    /// The number that the two words hold.
    pub open spec fn value(self) -> int {
        signed32(self.hi) * 0x1_0000_0000 + self.lo
    }
}

/// Two words that hold the same number are the same words.
pub proof fn lemma_value_is_injective(a: Wide, b: Wide)
    requires
        a.value() == b.value(),
    ensures
        a == b,
{
}

/// Every pair of words holds a number in the signed 64-bit range.
pub proof fn lemma_value_range(a: Wide)
    ensures
        i64::MIN <= a.value() <= i64::MAX,
{
}

/// Splits a number into its two words.
pub fn to_wide(v: i64) -> (w: Wide)
    ensures
        w.value() == v,
{
    let bits: u64 = to_bits(v);
    let hi: u32 = (bits / 0x1_0000_0000) as u32;
    let lo: u32 = (bits % 0x1_0000_0000) as u32;
    Wide { lo, hi }
}

/// The number that two words hold.
pub fn from_wide(w: Wide) -> (v: i64)
    ensures
        v == w.value(),
{
    let hi: i32 = from_word(w.hi);
    (hi as i64) * 0x1_0000_0000 + w.lo as i64
}

/// The words of `v`, low word first, as a storage buffer holds them.
pub fn split(v: i64) -> (words: [u32; 2])
    ensures
        (Wide { lo: words[0], hi: words[1] }).value() == v,
{
    let w: Wide = to_wide(v);
    [w.lo, w.hi]
}

/// The two's complement bits of `v`.
pub fn to_bits(v: i64) -> (w: u64)
    ensures
        signed64(w) == v,
{
    assert((v as u64) as int == if v >= 0 {
        v as int
    } else {
        v + 0x1_0000_0000_0000_0000int
    }) by (bit_vector);
    v as u64
}

/// The number whose two's complement bits are `w`.
pub fn from_bits(w: u64) -> (v: i64)
    ensures
        v == signed64(w),
{
    assert((w as i64) as int == if w < 0x8000_0000_0000_0000u64 {
        w as int
    } else {
        w - 0x1_0000_0000_0000_0000int
    }) by (bit_vector);
    w as i64
}

/// The words of a number that fits one word: its bits, with the sign copied into the high word.
pub fn sign_extend(v: i32) -> (w: Wide)
    ensures
        w.value() == v,
{
    Wide {
        lo: to_word(v),
        hi: if v < 0 {
            0xffff_ffff
        } else {
            0
        },
    }
}

} // verus!
