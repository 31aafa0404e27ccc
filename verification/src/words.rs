//! Little-endian 32-bit words in linear memory.

use vstd::prelude::*;

verus! {

/// The little-endian word stored at byte offset `i` of `s`.
pub open spec fn le_word(s: Seq<u8>, i: int) -> u32 {
    (s[i] as u32) | ((s[i + 1] as u32) << 8) | ((s[i + 2] as u32) << 16) | ((s[i + 3] as u32) << 24)
}

pub open spec fn word_byte(w: u32, k: u32) -> u8 {
    ((w >> (8 * k)) & 0xff) as u8
}

/// `s` with the little-endian bytes of `w` stored at offset `i`.
pub open spec fn put_le_word(s: Seq<u8>, i: int, w: u32) -> Seq<u8> {
    s.update(i, word_byte(w, 0)).update(i + 1, word_byte(w, 1)).update(i + 2, word_byte(w, 2)).update(
        i + 3,
        word_byte(w, 3),
    )
}

pub proof fn lemma_word_bytes(w: u32)
    ensures
        ((word_byte(w, 0) as u32) | ((word_byte(w, 1) as u32) << 8) | ((word_byte(w, 2) as u32) << 16)
            | ((word_byte(w, 3) as u32) << 24)) == w,
{
    assert(((((w >> 0u32) & 0xff) as u8) as u32 | (((((w >> 8u32) & 0xff) as u8) as u32) << 8) | (
    ((((w >> 16u32) & 0xff) as u8) as u32) << 16) | (((((w >> 24u32) & 0xff) as u8) as u32) << 24)) == w)
        by (bit_vector);
}

/// Storing a word and reading it back gives the word; the bytes outside
/// the four stored ones are unchanged.
pub proof fn lemma_put_le_word(s: Seq<u8>, i: int, w: u32)
    requires
        0 <= i,
        i + 4 <= s.len(),
    ensures
        put_le_word(s, i, w).len() == s.len(),
        le_word(put_le_word(s, i, w), i) == w,
        forall|b: int| 0 <= b < s.len() && (b < i || b >= i + 4) ==> #[trigger] put_le_word(s, i, w)[b] == s[b],
{
    lemma_word_bytes(w);
}

pub fn read_le_word(data: &[u8], i: usize) -> (r: u32)
    requires
        i + 4 <= data@.len(),
    ensures
        r == le_word(data@, i as int),
{
    (data[i] as u32) | ((data[i + 1] as u32) << 8) | ((data[i + 2] as u32) << 16) | ((data[i + 3] as u32)
        << 24)
}

pub fn write_le_word(data: &mut [u8], i: usize, w: u32)
    requires
        i + 4 <= old(data)@.len(),
    ensures
        final(data)@ == put_le_word(old(data)@, i as int, w),
{
    data[i] = (w & 0xff) as u8;
    data[i + 1] = ((w >> 8) & 0xff) as u8;
    data[i + 2] = ((w >> 16) & 0xff) as u8;
    data[i + 3] = ((w >> 24) & 0xff) as u8;
    proof {
        assert((w & 0xff) == ((w >> 0u32) & 0xff)) by (bit_vector);
        assert(final(data)@ =~= put_le_word(old(data)@, i as int, w));
    }
}

} // verus!
