//! Single-bit reasoning about the 64-bit column mask words.
//!
//! The diffusion engine manipulates whole words at a time; the proofs relate
//! those word operations to the individual cells they touch through the
//! `bit_set` predicate and the lemmas below.

use vstd::prelude::*;

verus! {

/// The two synthetic border bits of every column word: the lowest and the
/// highest bit, standing for the cells x = 0 and x = 63.
pub const PAD_MASK: u64 = 0x8000_0000_0000_0001;

/// True iff bit `x` of `w` is set.
pub open spec fn bit_set(w: u64, x: u64) -> bool {
    w & (1u64 << x) != 0
}

/// Bits of a conjunction of two words.
pub proof fn lemma_and_bit(a: u64, b: u64, x: u64)
    by (bit_vector)
    requires
        x < 64,
    ensures
        bit_set(a & b, x) == (bit_set(a, x) && bit_set(b, x)),
{
}

/// Bits of a disjunction of two words.
pub proof fn lemma_or_bit(a: u64, b: u64, x: u64)
    by (bit_vector)
    requires
        x < 64,
    ensures
        bit_set(a | b, x) == (bit_set(a, x) || bit_set(b, x)),
{
}

/// Bits of a complemented word.
pub proof fn lemma_not_bit(a: u64, x: u64)
    by (bit_vector)
    requires
        x < 64,
    ensures
        bit_set(!a, x) == !bit_set(a, x),
{
}

/// Setting one bit leaves every other bit unchanged.
pub proof fn lemma_set_bit(w: u64, x: u64, y: u64)
    by (bit_vector)
    requires
        x < 64,
        y < 64,
    ensures
        bit_set(w | (1u64 << x), y) == (x == y || bit_set(w, y)),
{
}

/// Clearing one bit leaves every other bit unchanged.
pub proof fn lemma_clear_bit(w: u64, x: u64, y: u64)
    by (bit_vector)
    requires
        x < 64,
        y < 64,
    ensures
        bit_set(w & !(1u64 << x), y) == (x != y && bit_set(w, y)),
{
}

/// A right shift by one aligns bit x with bit x + 1 of the source.
pub proof fn lemma_shr1_bit(v: u64, x: u64)
    by (bit_vector)
    requires
        x < 63,
    ensures
        bit_set(v >> 1u64, x) == bit_set(v, (x + 1) as u64),
{
}

/// A left shift by one aligns bit x with bit x - 1 of the source.
pub proof fn lemma_shl1_bit(v: u64, x: u64)
    by (bit_vector)
    requires
        1 <= x < 64,
    ensures
        bit_set(v << 1u64, x) == bit_set(v, (x - 1) as u64),
{
}

/// Masking out the border bits keeps exactly the interior bits.
pub proof fn lemma_pad_bit(w: u64, x: u64)
    by (bit_vector)
    requires
        x < 64,
    ensures
        bit_set(w & !PAD_MASK, x) == (bit_set(w, x) && 1 <= x <= 62),
{
}

/// Every bit of the all-ones word is set.
pub proof fn lemma_full_word(x: u64)
    by (bit_vector)
    requires
        x < 64,
    ensures
        bit_set(!0u64, x),
{
}

/// Setting the border bits touches exactly the border bits.
pub proof fn lemma_pad_set_bit(w: u64, x: u64)
    by (bit_vector)
    requires
        x < 64,
    ensures
        bit_set(w | PAD_MASK, x) == (x == 0 || x == 63 || bit_set(w, x)),
{
}

/// Conjunctions with the zero word vanish, disjunctions keep the other
/// word, the all-ones word is neutral for conjunction, and no bit of zero
/// is set.
pub proof fn lemma_zero_word(b: u64, x: u64)
    by (bit_vector)
    requires
        x < 64,
    ensures
        0u64 & b == 0u64,
        b & 0u64 == 0u64,
        0u64 | b == b,
        b | 0u64 == b,
        b & !0u64 == b,
        !bit_set(0u64, x),
{
}

/// A single-bit word has exactly its own bit set.
pub proof fn lemma_single_bit(x: u64, y: u64)
    by (bit_vector)
    requires
        x < 64,
        y < 64,
    ensures
        bit_set(1u64 << x, y) == (x == y),
{
}

/// Disjunction is associative.
pub proof fn lemma_or_assoc(a: u64, b: u64, c: u64)
    by (bit_vector)
    ensures
        (a | b) | c == a | (b | c),
{
}

/// Shifting by zero changes nothing.
pub proof fn lemma_shift0(v: u64)
    by (bit_vector)
    ensures
        v >> 0u64 == v,
        v << 0u64 == v,
{
}

} // verus!
