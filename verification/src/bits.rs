//! Facts about 64-bit bitboards: single-square masks, membership of a square,
//! and the exclusive-or algebra used by position hashing.
use vstd::prelude::*;

verus! {

/// Square `i` (0 = a1, 63 = h8) is set in the bitboard `bb`.
pub open spec fn has_bit(bb: u64, i: u64) -> bool {
    (bb >> i) & 1u64 == 1u64
}

/// The bitboard holding only square `pos`.
pub open spec fn sq(pos: u64) -> u64 {
    1u64 << pos
}

/// Setting a square with `|` sets that square and no other.
pub proof fn lemma_set_bit(bb: u64, pos: u64, i: u64)
    requires
        pos < 64,
        i < 64,
    ensures
        has_bit(bb | sq(pos), i) == (i == pos || has_bit(bb, i)),
{
    assert(pos < 64 && i < 64 ==> ((((bb | (1u64 << pos)) >> i) & 1u64 == 1u64) == (i == pos || (
    bb >> i) & 1u64 == 1u64))) by (bit_vector);
}

/// Clearing a square with `& !` clears that square and no other.
pub proof fn lemma_clear_bit(bb: u64, pos: u64, i: u64)
    requires
        pos < 64,
        i < 64,
    ensures
        has_bit(bb & !sq(pos), i) == (i != pos && has_bit(bb, i)),
{
    assert(pos < 64 && i < 64 ==> ((((bb & !(1u64 << pos)) >> i) & 1u64 == 1u64) == (i != pos && (
    bb >> i) & 1u64 == 1u64))) by (bit_vector);
}

/// A mask test `sq(pos) & bb != 0` is a membership test.
pub proof fn lemma_mask_test(bb: u64, pos: u64)
    requires
        pos < 64,
    ensures
        ((sq(pos) & bb) != 0) == has_bit(bb, pos),
{
    assert(pos < 64 ==> ((((1u64 << pos) & bb) != 0u64) == ((bb >> pos) & 1u64 == 1u64)))
        by (bit_vector);
}

/// A square belongs to a union iff it belongs to one of the parts.
pub proof fn lemma_or_bit(a: u64, b: u64, i: u64)
    requires
        i < 64,
    ensures
        has_bit(a | b, i) == (has_bit(a, i) || has_bit(b, i)),
{
    assert(i < 64 ==> ((((a | b) >> i) & 1u64 == 1u64) == ((a >> i) & 1u64 == 1u64 || (b >> i)
        & 1u64 == 1u64))) by (bit_vector);
}

/// The empty bitboard holds no square.
pub proof fn lemma_zero_no_bit(i: u64)
    ensures
        !has_bit(0u64, i),
{
    assert((0u64 >> i) & 1u64 != 1u64) by (bit_vector);
}

/// Exclusive-or is associative.
pub proof fn lemma_xor_assoc(a: u64, b: u64, c: u64)
    ensures
        (a ^ b) ^ c == a ^ (b ^ c),
{
    assert((a ^ b) ^ c == a ^ (b ^ c)) by (bit_vector);
}

/// Exclusive-or is commutative.
pub proof fn lemma_xor_comm(a: u64, b: u64)
    ensures
        a ^ b == b ^ a,
{
    assert(a ^ b == b ^ a) by (bit_vector);
}

/// Zero is the unit of exclusive-or and every value is its own inverse.
pub proof fn lemma_xor_unit(a: u64, b: u64)
    ensures
        a ^ 0u64 == a,
        0u64 ^ a == a,
        a ^ a == 0u64,
        (a ^ b) ^ b == a,
{
    assert(a ^ 0u64 == a && 0u64 ^ a == a && a ^ a == 0u64 && (a ^ b) ^ b == a) by (bit_vector);
}

/// Reordering a three-term exclusive-or.
pub proof fn lemma_xor_swap(a: u64, b: u64, c: u64)
    ensures
        (a ^ b) ^ c == (a ^ c) ^ b,
{
    assert((a ^ b) ^ c == (a ^ c) ^ b) by (bit_vector);
}

/// Flipping a square with `^` flips that square and no other.
pub proof fn lemma_xor_bit(bb: u64, pos: u64, i: u64)
    requires
        pos < 64,
        i < 64,
    ensures
        has_bit(bb ^ sq(pos), i) == (if i == pos {
            !has_bit(bb, i)
        } else {
            has_bit(bb, i)
        }),
{
    assert(pos < 64 && i < 64 ==> ((((bb ^ (1u64 << pos)) >> i) & 1u64 == 1u64) == (if i == pos {
        !((bb >> i) & 1u64 == 1u64)
    } else {
        (bb >> i) & 1u64 == 1u64
    }))) by (bit_vector);
}

/// Removing a square that is set makes the bitboard smaller.
pub proof fn lemma_xor_set_bit_decreases(bb: u64, pos: u64)
    requires
        pos < 64,
        has_bit(bb, pos),
    ensures
        bb ^ sq(pos) < bb,
{
    assert(pos < 64 && (bb >> pos) & 1u64 == 1u64 ==> (bb ^ (1u64 << pos)) < bb) by (bit_vector);
}

} // verus!
