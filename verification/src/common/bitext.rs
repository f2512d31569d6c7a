//! Bit ranges of an instruction word.

use bit_field::BitField;
use vstd::prelude::*;

verus! {

/// The bits `start..end` of `word`, moved down so that bit `start` becomes bit 0.
pub open spec fn bit_range(word: u32, start: usize, end: usize) -> u32 {
    ((word << ((32 - end) as usize)) >> ((32 - end) as usize)) >> start
}

/// Whether bit `bit` of `word` is set.
pub open spec fn bit_set(word: u32, bit: usize) -> bool {
    word & (1u32 << bit) != 0
}

/// `bit_field::BitField::get_bits` on a `u32`, with the range `start..end`.
///
/// Trusted: for a range that is not empty and lies within the 32 bits, the
/// crate shifts the bits above `end` out to the left, back again, and then
/// shifts the bits below `start` out to the right.
#[verifier::external_body]
pub(crate) fn get_bits(word: u32, start: usize, end: usize) -> (r: u32)
    requires
        start < end <= 32,
    ensures
        r == bit_range(word, start, end),
{
    word.get_bits(start..end)
}

/// `bit_field::BitField::get_bit` on a `u32`.
///
/// Trusted: for an index below 32 the crate tests the word against `1 << bit`.
#[verifier::external_body]
pub(crate) fn get_bit(word: u32, bit: usize) -> (r: bool)
    requires
        bit < 32,
    ensures
        r == bit_set(word, bit),
{
    word.get_bit(bit)
}

/// The three ranges an instruction is read by, as plain arithmetic.
pub proof fn lemma_bit_ranges(word: u32)
    ensures
        bit_range(word, 0, 7) == word % 128,
        bit_range(word, 7, 32) == word / 128,
        bit_range(word, 15, 32) == word / 32768,
        bit_set(word, 15) == ((word / 32768) % 2 == 1),
{
    assert(((word << 25u32) >> 25u32) >> 0u32 == word % 128) by (bit_vector);
    assert(((word << 0u32) >> 0u32) >> 7u32 == word / 128) by (bit_vector);
    assert(((word << 0u32) >> 0u32) >> 15u32 == word / 32768) by (bit_vector);
    assert((word & (1u32 << 15u32) != 0) == ((word / 32768) % 2 == 1)) by (bit_vector);
}

} // verus!
