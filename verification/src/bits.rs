//! Facts about single bits of bytes and words.
use vstd::prelude::*;

verus! {

/// Bit `k` of the byte `b`, counting from the least significant bit.
pub open spec fn byte_bit(b: u8, k: u8) -> bool {
    (b >> k) & 1u8 == 1u8
}

/// Bit `k` of the word `w`, counting from the least significant bit.
pub open spec fn word_bit(w: u16, k: u16) -> bool {
    (w >> k) & 1u16 == 1u16
}

/// Extracting bit `k` of a byte gives 0 or 1, and 1 exactly when the bit is set.
pub proof fn lemma_extract_bit(b: u8, k: u8)
    requires
        k < 8,
    ensures
        (b >> k) & 1u8 == 0u8 || (b >> k) & 1u8 == 1u8,
{
    assert((b >> k) & 1u8 == 0u8 || (b >> k) & 1u8 == 1u8) by (bit_vector)
        requires
            k < 8,
    ;
}

/// On bits (0 or 1), exclusive or is 1 exactly when they differ.
pub proof fn lemma_xor_of_bits(a: u8, b: u8)
    requires
        a == 0u8 || a == 1u8,
        b == 0u8 || b == 1u8,
    ensures
        (a ^ b == 1u8) == (a != b),
        a ^ b == 0u8 || a ^ b == 1u8,
{
    assert(a ^ b == 0u8 || a ^ b == 1u8) by (bit_vector)
        requires
            a == 0u8 || a == 1u8,
            b == 0u8 || b == 1u8,
    ;
    assert((a ^ b == 1u8) == (a != b)) by (bit_vector)
        requires
            a == 0u8 || a == 1u8,
            b == 0u8 || b == 1u8,
    ;
}

/// Setting bit `k` of a byte turns that bit on and leaves the other bits as they were.
pub proof fn lemma_set_bit(b: u8, k: u8, j: u8)
    requires
        k < 8,
        j < 8,
    ensures
        byte_bit(b | (1u8 << k), j) == (j == k || byte_bit(b, j)),
{
    assert(byte_bit(b | (1u8 << k), j) == (j == k || byte_bit(b, j))) by (bit_vector)
        requires
            k < 8,
            j < 8,
    ;
}

/// Clearing bit `k` of a byte turns that bit off and leaves the other bits as they were.
pub proof fn lemma_clear_bit(b: u8, k: u8, j: u8)
    requires
        k < 8,
        j < 8,
    ensures
        byte_bit(b & !(1u8 << k), j) == (j != k && byte_bit(b, j)),
{
    assert(byte_bit(b & !(1u8 << k), j) == (j != k && byte_bit(b, j))) by (bit_vector)
        requires
            k < 8,
            j < 8,
    ;
}

/// A byte is determined by its eight bits.
pub proof fn lemma_bits_determine_byte(a: u8, b: u8)
    requires
        forall|j: u8| j < 8 ==> byte_bit(a, j) == byte_bit(b, j),
    ensures
        a == b,
{
    assert(byte_bit(a, 0) == byte_bit(b, 0));
    assert(byte_bit(a, 1) == byte_bit(b, 1));
    assert(byte_bit(a, 2) == byte_bit(b, 2));
    assert(byte_bit(a, 3) == byte_bit(b, 3));
    assert(byte_bit(a, 4) == byte_bit(b, 4));
    assert(byte_bit(a, 5) == byte_bit(b, 5));
    assert(byte_bit(a, 6) == byte_bit(b, 6));
    assert(byte_bit(a, 7) == byte_bit(b, 7));
    assert(a == b) by (bit_vector)
        requires
            byte_bit(a, 0) == byte_bit(b, 0),
            byte_bit(a, 1) == byte_bit(b, 1),
            byte_bit(a, 2) == byte_bit(b, 2),
            byte_bit(a, 3) == byte_bit(b, 3),
            byte_bit(a, 4) == byte_bit(b, 4),
            byte_bit(a, 5) == byte_bit(b, 5),
            byte_bit(a, 6) == byte_bit(b, 6),
            byte_bit(a, 7) == byte_bit(b, 7),
    ;
}

/// Each bit of `a ^ m` is the exclusive or of the bits of `a` and `m`.
pub proof fn lemma_xor_bit(a: u8, m: u8, j: u8)
    requires
        j < 8,
    ensures
        byte_bit(a ^ m, j) == (byte_bit(a, j) != byte_bit(m, j)),
{
    assert(byte_bit(a ^ m, j) == (byte_bit(a, j) != byte_bit(m, j))) by (bit_vector)
        requires
            j < 8,
    ;
}

/// A word is determined by its sixteen bits.
pub proof fn lemma_bits_determine_word(a: u16, b: u16)
    requires
        forall|j: u16| j < 16 ==> word_bit(a, j) == word_bit(b, j),
    ensures
        a == b,
{
    assert(word_bit(a, 0) == word_bit(b, 0));
    assert(word_bit(a, 1) == word_bit(b, 1));
    assert(word_bit(a, 2) == word_bit(b, 2));
    assert(word_bit(a, 3) == word_bit(b, 3));
    assert(word_bit(a, 4) == word_bit(b, 4));
    assert(word_bit(a, 5) == word_bit(b, 5));
    assert(word_bit(a, 6) == word_bit(b, 6));
    assert(word_bit(a, 7) == word_bit(b, 7));
    assert(word_bit(a, 8) == word_bit(b, 8));
    assert(word_bit(a, 9) == word_bit(b, 9));
    assert(word_bit(a, 10) == word_bit(b, 10));
    assert(word_bit(a, 11) == word_bit(b, 11));
    assert(word_bit(a, 12) == word_bit(b, 12));
    assert(word_bit(a, 13) == word_bit(b, 13));
    assert(word_bit(a, 14) == word_bit(b, 14));
    assert(word_bit(a, 15) == word_bit(b, 15));
    assert(a == b) by (bit_vector)
        requires
            word_bit(a, 0) == word_bit(b, 0),
            word_bit(a, 1) == word_bit(b, 1),
            word_bit(a, 2) == word_bit(b, 2),
            word_bit(a, 3) == word_bit(b, 3),
            word_bit(a, 4) == word_bit(b, 4),
            word_bit(a, 5) == word_bit(b, 5),
            word_bit(a, 6) == word_bit(b, 6),
            word_bit(a, 7) == word_bit(b, 7),
            word_bit(a, 8) == word_bit(b, 8),
            word_bit(a, 9) == word_bit(b, 9),
            word_bit(a, 10) == word_bit(b, 10),
            word_bit(a, 11) == word_bit(b, 11),
            word_bit(a, 12) == word_bit(b, 12),
            word_bit(a, 13) == word_bit(b, 13),
            word_bit(a, 14) == word_bit(b, 14),
            word_bit(a, 15) == word_bit(b, 15),
    ;
}

/// Testing a word against the single-bit mask `1 << k` reads bit `k`.
pub proof fn lemma_word_mask_bit(w: u16, k: u16)
    requires
        k < 16,
    ensures
        ((w & (1u16 << k)) != 0) == word_bit(w, k),
{
    assert(((w & (1u16 << k)) != 0) == word_bit(w, k)) by (bit_vector)
        requires
            k < 16,
    ;
}

/// Setting bit `k` of a word turns that bit on and leaves the other bits as they were.
pub proof fn lemma_word_set_bit(w: u16, k: u16, j: u16)
    requires
        k < 16,
        j < 16,
    ensures
        word_bit(w | (1u16 << k), j) == (j == k || word_bit(w, j)),
{
    assert(word_bit(w | (1u16 << k), j) == (j == k || word_bit(w, j))) by (bit_vector)
        requires
            k < 16,
            j < 16,
    ;
}

/// The shifts and masks of a byte that the shift instructions use, as arithmetic.
pub proof fn lemma_byte_shifts(b: u8)
    ensures
        b & 1 == b % 2,
        b >> 1u8 == b / 2,
        (b >> 7u8) & 1 == b / 128,
        b << 1u8 == ((b * 2) % 256) as u8,
{
    assert(b & 1 == b % 2) by (bit_vector);
    assert(b >> 1u8 == b / 2) by (bit_vector);
    assert((b >> 7u8) & 1 == b / 128) by (bit_vector);
    assert(b << 1u8 == ((b * 2) % 256) as u8) by (bit_vector);
}

/// The fields of an opcode that the decoder takes apart with masks and
/// shifts, as arithmetic.
pub proof fn lemma_opcode_fields(op: u16)
    ensures
        (op & 0xF000u16) >> 12u16 == op / 0x1000,
        (op & 0x0F00u16) >> 8u16 == (op / 0x100) % 0x10,
        (op & 0x00F0u16) >> 4u16 == (op / 0x10) % 0x10,
        op & 0x000Fu16 == op % 0x10,
        op & 0x0FFFu16 == op % 0x1000,
        op & 0x00FFu16 == op % 0x100,
{
    assert((op & 0xF000u16) >> 12u16 == op / 0x1000) by (bit_vector);
    assert((op & 0x0F00u16) >> 8u16 == (op / 0x100) % 0x10) by (bit_vector);
    assert((op & 0x00F0u16) >> 4u16 == (op / 0x10) % 0x10) by (bit_vector);
    assert(op & 0x000Fu16 == op % 0x10) by (bit_vector);
    assert(op & 0x0FFFu16 == op % 0x1000) by (bit_vector);
    assert(op & 0x00FFu16 == op % 0x100) by (bit_vector);
}

/// Joining a high and a low byte into a word, as arithmetic.
pub proof fn lemma_join_bytes(high: u16, low: u16)
    requires
        high < 256,
        low < 256,
    ensures
        (high << 8u16) | low == high * 256 + low,
{
    assert((high << 8u16) | low == high * 256 + low) by (bit_vector)
        requires
            high < 256,
            low < 256,
    ;
}

/// Exclusive or with the same mask twice gives the byte back.
pub proof fn lemma_xor_twice(a: u8, m: u8)
    ensures
        (a ^ m) ^ m == a,
{
    assert((a ^ m) ^ m == a) by (bit_vector);
}

/// Masking with `kk` keeps only bits of `kk`.
pub proof fn lemma_mask_within(r: u8, kk: u8)
    ensures
        (r & kk) & kk == r & kk,
        r & kk <= kk,
{
    assert((r & kk) & kk == r & kk) by (bit_vector);
    assert(r & kk <= kk) by (bit_vector);
}

} // verus!
