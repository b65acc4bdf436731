//! Numbers as the bytes of a buffer, lowest byte first.
use vstd::prelude::*;
use crate::batch::word_of;
use crate::lane::wide_of;
use crate::number::{from_word, signed32, to_word};
use crate::wide::{lemma_value_is_injective, to_wide, Wide};

verus! {

/// The four bytes of a word.
pub open spec fn word_bytes(w: u32) -> Seq<u8> {
    seq![
        (w % 0x100) as u8,
        (w / 0x100 % 0x100) as u8,
        (w / 0x1_0000 % 0x100) as u8,
        (w / 0x100_0000) as u8,
    ]
}

/// The bytes of a row of words, one word after the other.
pub open spec fn bytes_of(words: Seq<u32>) -> Seq<u8>
    decreases words.len(),
{
    if words.len() == 0 {
        Seq::empty()
    } else {
        bytes_of(words.drop_last()) + word_bytes(words.last())
    }
}

/// The words of a row of 64-bit numbers, low word first.
pub open spec fn wide_words(values: Seq<Wide>) -> Seq<u32>
    decreases values.len(),
{
    if values.len() == 0 {
        Seq::empty()
    } else {
        wide_words(values.drop_last()).push(values.last().lo).push(values.last().hi)
    }
}

/// The word that four bytes hold.
pub open spec fn word_at(bytes: Seq<u8>, i: int) -> u32 {
    (bytes[4 * i] + bytes[4 * i + 1] * 0x100 + bytes[4 * i + 2] * 0x1_0000 + bytes[4 * i + 3]
        * 0x100_0000) as u32
}

/// The words that a buffer holds. Bytes after the last whole word are ignored.
pub open spec fn words_in(bytes: Seq<u8>) -> Seq<u32> {
    Seq::new(bytes.len() / 4, |i: int| word_at(bytes, i))
}

/// Appends the bytes of a word.
fn push_word(bytes: &mut Vec<u8>, w: u32)
    ensures
        final(bytes)@ == old(bytes)@ + word_bytes(w),
{
    bytes.push((w % 0x100) as u8);
    bytes.push((w / 0x100 % 0x100) as u8);
    bytes.push((w / 0x1_0000 % 0x100) as u8);
    bytes.push((w / 0x100_0000) as u8);
    assert(bytes@ =~= old(bytes)@ + word_bytes(w));
}

/// The bytes of a row of words.
pub fn u32_bytes(words: &[u32]) -> (bytes: Vec<u8>)
    ensures
        bytes@ == bytes_of(words@),
{
    let mut bytes: Vec<u8> = Vec::new();
    let mut i: usize = 0;
    while i < words.len()
        invariant
            i <= words@.len(),
            bytes@ =~= bytes_of(words@.take(i as int)),
        decreases words@.len() - i,
    {
        assert(words@.take(i + 1).drop_last() == words@.take(i as int));
        push_word(&mut bytes, words[i]);
        i = i + 1;
    }
    assert(words@.take(words@.len() as int) == words@);
    bytes
}

/// The bytes of a row of 32-bit numbers.
pub fn i32_bytes(values: &[i32]) -> (bytes: Vec<u8>)
    ensures
        bytes@ == bytes_of(values@.map_values(|v: i32| word_of(v))),
{
    let ghost words = values@.map_values(|v: i32| word_of(v));
    let mut bytes: Vec<u8> = Vec::new();
    let mut i: usize = 0;
    while i < values.len()
        invariant
            i <= values@.len(),
            words == values@.map_values(|v: i32| word_of(v)),
            bytes@ =~= bytes_of(words.take(i as int)),
        decreases values@.len() - i,
    {
        assert(words.take(i + 1).drop_last() == words.take(i as int));
        push_word(&mut bytes, to_word(values[i]));
        i = i + 1;
    }
    assert(words.take(words.len() as int) == words);
    bytes
}

/// The bytes of a row of 64-bit numbers that are already split into words.
pub fn wide_bytes(values: &[Wide]) -> (bytes: Vec<u8>)
    ensures
        bytes@ == bytes_of(wide_words(values@)),
{
    let mut bytes: Vec<u8> = Vec::new();
    let mut i: usize = 0;
    assert(wide_words(values@.take(0)) == Seq::<u32>::empty());
    while i < values.len()
        invariant
            i <= values@.len(),
            bytes@ =~= bytes_of(wide_words(values@.take(i as int))),
        decreases values@.len() - i,
    {
        let w: Wide = values[i];
        proof {
            let before = wide_words(values@.take(i as int));
            assert(values@.take(i + 1).drop_last() == values@.take(i as int));
            let after = wide_words(values@.take(i + 1));
            assert(after == before.push(w.lo).push(w.hi));
            assert(after.drop_last() == before.push(w.lo));
            assert(before.push(w.lo).drop_last() == before);
            assert(bytes_of(before.push(w.lo)) == bytes_of(before) + word_bytes(w.lo));
            assert(bytes_of(after) == bytes_of(before.push(w.lo)) + word_bytes(w.hi));
        }
        push_word(&mut bytes, w.lo);
        push_word(&mut bytes, w.hi);
        i = i + 1;
    }
    assert(values@.take(values@.len() as int) == values@);
    bytes
}

/// Splits a row of 64-bit numbers into words.
pub fn to_wides(values: &[i64]) -> (wides: Vec<Wide>)
    ensures
        wides@ == values@.map_values(|v: i64| wide_of(v as int)),
{
    let mut wides: Vec<Wide> = Vec::new();
    let mut i: usize = 0;
    while i < values.len()
        invariant
            i <= values@.len(),
            wides@ =~= values@.map_values(|v: i64| wide_of(v as int)).take(i as int),
        decreases values@.len() - i,
    {
        let w: Wide = to_wide(values[i]);
        proof {
            crate::lane::lemma_wide_of(values@[i as int] as int);
            lemma_value_is_injective(w, wide_of(values@[i as int] as int));
        }
        wides.push(w);
        i = i + 1;
    }
    wides
}

/// The bytes of a row of 64-bit numbers.
pub fn i64_bytes(values: &[i64]) -> (bytes: Vec<u8>)
    ensures
        bytes@ == bytes_of(wide_words(values@.map_values(|v: i64| wide_of(v as int)))),
{
    let wides: Vec<Wide> = to_wides(values);
    wide_bytes(wides.as_slice())
}

/// Reads a buffer back as words.
pub fn u32s_from_bytes(bytes: &[u8]) -> (words: Vec<u32>)
    ensures
        words@ == words_in(bytes@),
{
    let size: usize = bytes.len();
    let count: usize = size / 4;
    let mut words: Vec<u32> = Vec::new();
    let mut i: usize = 0;
    while i < count
        invariant
            i <= count,
            size == bytes@.len(),
            count == size / 4,
            words@ =~= words_in(bytes@).take(i as int),
        decreases count - i,
    {
        let b0: u32 = bytes[4 * i] as u32;
        let b1: u32 = bytes[4 * i + 1] as u32;
        let b2: u32 = bytes[4 * i + 2] as u32;
        let b3: u32 = bytes[4 * i + 3] as u32;
        words.push(b0 + b1 * 0x100 + b2 * 0x1_0000 + b3 * 0x100_0000);
        i = i + 1;
    }
    words
}

/// Reads words as signed numbers.
pub fn i32s_from_words(words: &[u32]) -> (values: Vec<i32>)
    ensures
        values@ == words@.map_values(|w: u32| signed32(w) as i32),
{
    let mut values: Vec<i32> = Vec::new();
    let mut i: usize = 0;
    while i < words.len()
        invariant
            i <= words@.len(),
            values@ =~= words@.map_values(|w: u32| signed32(w) as i32).take(i as int),
        decreases words@.len() - i,
    {
        values.push(from_word(words[i]));
        i = i + 1;
    }
    values
}

/// A word is four bytes.
pub proof fn lemma_bytes_of_len(words: Seq<u32>)
    ensures
        bytes_of(words).len() == 4 * words.len(),
    decreases words.len(),
{
    if words.len() > 0 {
        lemma_bytes_of_len(words.drop_last());
    }
}

/// A 64-bit number is two words.
pub proof fn lemma_wide_words_len(values: Seq<Wide>)
    ensures
        wide_words(values).len() == 2 * values.len(),
    decreases values.len(),
{
    if values.len() > 0 {
        lemma_wide_words_len(values.drop_last());
    }
}

/// The words that are written to a buffer are the words that are read from it.
pub proof fn bytes_round_trip(words: Seq<u32>)
    ensures
        words_in(bytes_of(words)) == words,
    decreases words.len(),
{
    lemma_bytes_of_len(words);
    if words.len() > 0 {
        let before = words.drop_last();
        bytes_round_trip(before);
        lemma_bytes_of_len(before);
        let bytes = bytes_of(words);
        assert forall|i: int| 0 <= i < words.len() implies word_at(bytes, i) == words[i] by {
            if i < before.len() {
                assert(words_in(bytes_of(before))[i] == before[i]);
                assert(word_at(bytes, i) == word_at(bytes_of(before), i));
            } else {
                let w = words.last();
                assert(bytes[4 * i] == word_bytes(w)[0]);
                assert(bytes[4 * i + 1] == word_bytes(w)[1]);
                assert(bytes[4 * i + 2] == word_bytes(w)[2]);
                assert(bytes[4 * i + 3] == word_bytes(w)[3]);
            }
        }
    }
    assert(words_in(bytes_of(words)) =~= words);
}

/// Signed numbers that are written to a buffer come back unchanged.
pub proof fn signed_bytes_round_trip(values: Seq<i32>)
    ensures
        words_in(bytes_of(values.map_values(|v: i32| word_of(v)))).map_values(
            |w: u32| signed32(w) as i32,
        ) == values,
{
    let words = values.map_values(|v: i32| word_of(v));
    bytes_round_trip(words);
    assert(words.map_values(|w: u32| signed32(w) as i32) =~= values);
}

} // verus!
