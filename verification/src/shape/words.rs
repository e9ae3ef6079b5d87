//! Little-endian 32-bit words, the unit of every GPU buffer this crate
//! writes.

use vstd::prelude::*;

verus! {

/// The unsigned 32-bit word that holds `x` in two's complement.
pub open spec fn word_of(x: i32) -> u32 {
    if x >= 0 {
        x as u32
    } else {
        (x + 0x1_0000_0000) as u32
    }
}

/// The four bytes of `w`, least significant first.
pub open spec fn le_bytes(w: u32) -> Seq<u8> {
    seq![
        (w % 256) as u8,
        ((w / 256) % 256) as u8,
        ((w / 65536) % 256) as u8,
        (w / 16777216) as u8,
    ]
}

/// The concatenated little-endian bytes of each word of `words`.
pub open spec fn words_le(words: Seq<u32>) -> Seq<u8>
    decreases words.len(),
{
    if words.len() == 0 {
        Seq::empty()
    } else {
        words_le(words.drop_last()) + le_bytes(words.last())
    }
}

/// `words_le` distributes over concatenation.
pub proof fn lemma_words_le_concat(a: Seq<u32>, b: Seq<u32>)
    ensures
        words_le(a + b) == words_le(a) + words_le(b),
    decreases b.len(),
{
    if b.len() == 0 {
        assert(a + b =~= a);
        assert(words_le(a) + words_le(b) =~= words_le(a));
    } else {
        lemma_words_le_concat(a, b.drop_last());
        assert((a + b).drop_last() =~= a + b.drop_last());
        assert((a + b).last() == b.last());
        assert(words_le(a) + (words_le(b.drop_last()) + le_bytes(b.last())) =~= (words_le(a)
            + words_le(b.drop_last())) + le_bytes(b.last()));
    }
}

/// Converts a signed word to its two's complement bit pattern.
pub fn to_word(x: i32) -> (w: u32)
    ensures
        w == word_of(x),
{
    if x >= 0 {
        x as u32
    } else {
        let wide: i64 = x as i64 + 0x1_0000_0000;
        wide as u32
    }
}

/// Appends the little-endian bytes of `w` to `buffer`.
pub fn push_word(buffer: &mut Vec<u8>, w: u32)
    ensures
        final(buffer)@ == old(buffer)@ + le_bytes(w),
{
    buffer.push((w % 256) as u8);
    buffer.push(((w / 256) % 256) as u8);
    buffer.push(((w / 65536) % 256) as u8);
    buffer.push((w / 16777216) as u8);
    assert(buffer@ =~= old(buffer)@ + le_bytes(w));
}

/// Appends the little-endian two's complement bytes of `x` to `buffer`.
pub fn push_signed_word(buffer: &mut Vec<u8>, x: i32)
    ensures
        final(buffer)@ == old(buffer)@ + le_bytes(word_of(x)),
{
    push_word(buffer, to_word(x));
}

} // verus!
