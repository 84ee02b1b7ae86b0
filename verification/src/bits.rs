//! Bit-level helpers for 64-bit occupancy masks.

use vstd::prelude::*;

verus! {

/// True when bit `i` of `m` is set. Bits are numbered from 0 (the least
/// significant bit) to 63 (the most significant bit).
pub open spec fn bit_of(m: u64, i: int) -> bool {
    0 <= i < 64 && (m >> (i as u64)) & 1u64 == 1u64
}

/// True when exactly one bit of `m` is set.
pub open spec fn is_single_bit(m: u64) -> bool {
    exists|b: u64| b < 64 && m == (1u64 << b)
}

/// The index of the single set bit of `m`; meaningful only when
/// `is_single_bit(m)` holds.
pub open spec fn bit_index(m: u64) -> int {
    (choose|b: u64| b < 64 && m == (1u64 << b)) as int
}

/// A mask with one bit set has that bit as its unique index.
pub proof fn lemma_single_bit_index(m: u64, b: u64)
    requires
        b < 64,
        m == (1u64 << b),
    ensures
        is_single_bit(m),
        bit_index(m) == b as int,
{
    assert(b < 64 && m == (1u64 << b));
    let b2 = choose|x: u64| x < 64 && m == (1u64 << x);
    assert(b2 == b) by (bit_vector)
        requires
            b < 64,
            b2 < 64,
            (1u64 << b) == (1u64 << b2),
    ;
}

/// The only set bit of `1 << b` is bit `b`.
pub proof fn lemma_bit_of_single(b: u64, i: u64)
    requires
        b < 64,
        i < 64,
    ensures
        bit_of(1u64 << b, i as int) == (i == b),
{
    assert((((1u64 << b) >> i) & 1u64 == 1u64) == (i == b)) by (bit_vector)
        requires
            b < 64,
            i < 64,
    ;
}

/// A bit of a union is set exactly when it is set in one of the parts.
pub proof fn lemma_bit_of_or(m: u64, x: u64, i: u64)
    requires
        i < 64,
    ensures
        bit_of(m | x, i as int) == (bit_of(m, i as int) || bit_of(x, i as int)),
{
    assert((((m | x) >> i) & 1u64 == 1u64) == (((m >> i) & 1u64 == 1u64) || ((x >> i) & 1u64
        == 1u64))) by (bit_vector);
}

/// The zero mask has no set bit.
pub proof fn lemma_bit_of_zero(i: u64)
    requires
        i < 64,
    ensures
        !bit_of(0u64, i as int),
{
    assert(!((0u64 >> i) & 1u64 == 1u64)) by (bit_vector);
}

/// A mask whose bit `b` is clear shares no bit with `1 << b`.
pub proof fn lemma_unset_bit_and(m: u64, b: u64)
    requires
        b < 64,
        !bit_of(m, b as int),
    ensures
        m & (1u64 << b) == 0,
{
    assert(!((m >> b) & 1u64 == 1u64) ==> m & (1u64 << b) == 0) by (bit_vector)
        requires
            b < 64,
    ;
}

/// Adding to `a` bits that `b` does not hold keeps `a` and `b` disjoint.
pub proof fn lemma_or_preserves_disjoint(a: u64, b: u64, x: u64)
    requires
        a & b == 0,
        b & x == 0,
    ensures
        (a | x) & b == 0,
        b & (a | x) == 0,
{
    assert(a & b == 0 && b & x == 0 ==> (a | x) & b == 0 && b & (a | x) == 0) by (bit_vector);
}

} // verus!
