//! Single bits of a 64-bit word, as the search reads and writes them.

use vstd::prelude::*;

verus! {

/// Whether bit `i` of `word` is one. Bit 0 is the least significant bit and
/// the first on the wire. Outside `0..64` there are no bits.
pub open spec fn bit_of(word: u64, i: int) -> bool {
    0 <= i < 64 && (word >> (i as u64)) & 1 == 1
}

/// `word` with bit `i` replaced by `value`.
pub open spec fn with_bit(word: u64, i: int, value: bool) -> u64 {
    if value {
        word | (1u64 << (i as u64))
    } else {
        word & !(1u64 << (i as u64))
    }
}

proof fn lemma_or_bit(word: u64, i: u64, j: u64)
    by (bit_vector)
    requires
        i < 64,
        j < 64,
    ensures
        (((word | (1u64 << i)) >> j) & 1 == 1) == (((word >> j) & 1 == 1) || i == j),
{
}

proof fn lemma_and_not_bit(word: u64, i: u64, j: u64)
    by (bit_vector)
    requires
        i < 64,
        j < 64,
    ensures
        (((word & !(1u64 << i)) >> j) & 1 == 1) == (((word >> j) & 1 == 1) && i != j),
{
}

proof fn lemma_zero_bit(j: u64)
    by (bit_vector)
    requires
        j < 64,
    ensures
        (0u64 >> j) & 1 == 0,
{
}

proof fn lemma_top_bit(a: u64, b: u64)
    by (bit_vector)
    requires
        ((a >> 63) & 1 == 1) == ((b >> 63) & 1 == 1),
    ensures
        a >> 63 == b >> 63,
{
}

proof fn lemma_next_lower_bit(a: u64, b: u64, n: u64)
    by (bit_vector)
    requires
        n < 63,
        a >> ((n + 1) as u64) == b >> ((n + 1) as u64),
        ((a >> n) & 1 == 1) == ((b >> n) & 1 == 1),
    ensures
        a >> n == b >> n,
{
}

proof fn lemma_shift_by_zero(a: u64)
    by (bit_vector)
    ensures
        a >> 0 == a,
{
}

/// Replacing one bit changes that bit and no other.
pub proof fn lemma_with_bit(word: u64, i: int, value: bool, j: int)
    requires
        0 <= i < 64,
    ensures
        bit_of(with_bit(word, i, value), j) == (if j == i {
            value
        } else {
            bit_of(word, j)
        }),
{
    if 0 <= j < 64 {
        lemma_or_bit(word, i as u64, j as u64);
        lemma_and_not_bit(word, i as u64, j as u64);
    }
}

/// The zero word has no bit set.
pub proof fn lemma_zero_has_no_bits(j: int)
    ensures
        !bit_of(0, j),
{
    if 0 <= j < 64 {
        lemma_zero_bit(j as u64);
    }
}

proof fn lemma_high_parts_equal(a: u64, b: u64, n: int)
    requires
        0 <= n <= 63,
        forall|j: int| n <= j < 64 ==> bit_of(a, j) == bit_of(b, j),
    ensures
        a >> (n as u64) == b >> (n as u64),
    decreases 63 - n,
{
    assert(bit_of(a, n) == bit_of(b, n));
    if n == 63 {
        lemma_top_bit(a, b);
    } else {
        lemma_high_parts_equal(a, b, n + 1);
        lemma_next_lower_bit(a, b, n as u64);
    }
}

/// A word is determined by its 64 bits.
pub proof fn lemma_bits_determine(a: u64, b: u64)
    requires
        forall|j: int| 0 <= j < 64 ==> bit_of(a, j) == bit_of(b, j),
    ensures
        a == b,
{
    lemma_high_parts_equal(a, b, 0);
    lemma_shift_by_zero(a);
    lemma_shift_by_zero(b);
}

/// A word other than zero has a bit set.
pub proof fn lemma_nonzero_has_bit(word: u64)
    requires
        word != 0,
    ensures
        exists|j: int| 0 <= j < 64 && bit_of(word, j),
{
    if forall|j: int| 0 <= j < 64 ==> !bit_of(word, j) {
        assert forall|j: int| 0 <= j < 64 implies bit_of(word, j) == bit_of(0, j) by {
            lemma_zero_has_no_bits(j);
        }
        lemma_bits_determine(word, 0);
    }
}

/// Reads bit `i` of `word`.
pub fn test_bit(word: u64, i: u8) -> (set: bool)
    requires
        i < 64,
    ensures
        set == bit_of(word, i as int),
{
    (word >> (i as u64)) & 1 == 1
}

/// Returns `word` with bit `i` replaced by `value`; every other bit stays.
pub fn replace_bit(word: u64, i: u8, value: bool) -> (out: u64)
    requires
        i < 64,
    ensures
        out == with_bit(word, i as int, value),
        forall|j: int| bit_of(out, j) == (if j == i as int { value } else { bit_of(word, j) }),
{
    let out = if value {
        word | (1u64 << (i as u64))
    } else {
        word & !(1u64 << (i as u64))
    };
    proof {
        assert forall|j: int| bit_of(out, j) == (if j == i as int {
            value
        } else {
            bit_of(word, j)
        }) by {
            lemma_with_bit(word, i as int, value, j);
        }
    }
    out
}

} // verus!
