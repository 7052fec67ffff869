//! What holds of bits and bytes.

use crate::bits::{bit_at, bit_range, bits_value, signed_word, word_at};
use vstd::prelude::*;

verus! {

/// A binary digit.
pub open spec fn digit(set: bool) -> int {
    if set {
        1
    } else {
        0
    }
}

/// The bits of a byte are its binary digits, the most significant first.
pub proof fn lemma_bits_of_byte(data: Seq<u8>, at: int)
    requires
        0 <= at < data.len(),
    ensures
        data[at] == 128 * digit(bit_at(data, 8 * at)) + 64 * digit(bit_at(data, 8 * at + 1)) + 32
            * digit(bit_at(data, 8 * at + 2)) + 16 * digit(bit_at(data, 8 * at + 3)) + 8 * digit(
            bit_at(data, 8 * at + 4),
        ) + 4 * digit(bit_at(data, 8 * at + 5)) + 2 * digit(bit_at(data, 8 * at + 6)) + digit(
            bit_at(data, 8 * at + 7),
        ),
{
    let b = data[at];
    assert(b == 128 * ((b >> 7) & 1u8) + 64 * ((b >> 6) & 1u8) + 32 * ((b >> 5) & 1u8) + 16 * ((b
        >> 4) & 1u8) + 8 * ((b >> 3) & 1u8) + 4 * ((b >> 2) & 1u8) + 2 * ((b >> 1) & 1u8) + ((b
        >> 0) & 1u8)) by (bit_vector);
    assert((b >> 7) & 1u8 <= 1 && (b >> 6) & 1u8 <= 1 && (b >> 5) & 1u8 <= 1 && (b >> 4) & 1u8 <= 1
        && (b >> 3) & 1u8 <= 1 && (b >> 2) & 1u8 <= 1 && (b >> 1) & 1u8 <= 1 && (b >> 0) & 1u8
        <= 1) by (bit_vector);
    assert((8 * at) / 8 == at && (8 * at) % 8 == 0);
    assert((8 * at + 1) / 8 == at && (8 * at + 1) % 8 == 1);
    assert((8 * at + 2) / 8 == at && (8 * at + 2) % 8 == 2);
    assert((8 * at + 3) / 8 == at && (8 * at + 3) % 8 == 3);
    assert((8 * at + 4) / 8 == at && (8 * at + 4) % 8 == 4);
    assert((8 * at + 5) / 8 == at && (8 * at + 5) % 8 == 5);
    assert((8 * at + 6) / 8 == at && (8 * at + 6) % 8 == 6);
    assert((8 * at + 7) / 8 == at && (8 * at + 7) % 8 == 7);
}

/// The bits of a range are those from its start on, and its number is twice that of the range
/// without the last bit, and the last bit.
pub proof fn lemma_bits_of_range(data: Seq<u8>, start: int, end: int, k: int)
    requires
        start < end,
        0 <= k < end - start,
    ensures
        bit_range(data, start, end).len() == end - start,
        bit_range(data, start, end)[k] == bit_at(data, start + k),
        bits_value(bit_range(data, start, end)) == 2 * bits_value(bit_range(data, start, end - 1))
            + digit(bit_at(data, end - 1)),
        bits_value(bit_range(data, start, start)) == 0,
{
    assert(bit_range(data, start, end).drop_last() =~= bit_range(data, start, end - 1));
}

/// A word is four bytes, the most significant first. As a signed number it is the same up to
/// multiples of 2^32, and lies around zero.
pub proof fn lemma_words(data: Seq<u8>, at: int)
    requires
        0 <= at,
        at + 4 <= data.len(),
    ensures
        word_at(data, at) == 256 * (256 * (256 * data[at] + data[at + 1]) + data[at + 2]) + data[at
            + 3],
        0 <= word_at(data, at) < 0x1_0000_0000,
        -0x8000_0000 <= signed_word(word_at(data, at)) < 0x8000_0000,
        (signed_word(word_at(data, at)) - word_at(data, at)) % 0x1_0000_0000 == 0,
{
}

} // verus!
