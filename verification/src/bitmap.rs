//! A word used as a map of occupied slots.

use vstd::prelude::*;

verus! {

/// Whether slot `slot` is marked in `bits`.
pub open spec fn bit_set(bits: u64, slot: u32) -> bool {
    bits & (1u64 << slot) != 0
}

/// Whether each of the first `count` slots is marked in `bits`.
pub open spec fn all_set(bits: u64, count: u32) -> bool {
    forall|j: u32| j < count ==> #[trigger] bit_set(bits, j)
}

/// `bits` with slot `slot` marked.
pub open spec fn marked(bits: u64, slot: u32) -> u64 {
    bits | (1u64 << slot)
}

/// `bits` with slot `slot` cleared.
pub open spec fn cleared(bits: u64, slot: u32) -> u64 {
    bits & !(1u64 << slot)
}

/// Marking a slot marks it, leaves every other slot as it was, and leaves
/// the word non-zero.
pub proof fn lemma_marked(bits: u64, slot: u32, other: u32)
    requires
        slot < 64,
        other < 64,
    ensures
        bit_set(marked(bits, slot), slot),
        marked(bits, slot) != 0,
        other != slot ==> bit_set(marked(bits, slot), other) == bit_set(bits, other),
{
    assert((bits | (1u64 << slot)) & (1u64 << slot) != 0) by (bit_vector)
        requires
            slot < 64,
    ;
    assert((bits | (1u64 << slot)) != 0) by (bit_vector)
        requires
            slot < 64,
    ;
    assert(other != slot ==> (((bits | (1u64 << slot)) & (1u64 << other) != 0) == (bits & (1u64
        << other) != 0))) by (bit_vector)
        requires
            slot < 64,
            other < 64,
    ;
}

/// Clearing a slot clears it and leaves every other slot as it was.
pub proof fn lemma_cleared(bits: u64, slot: u32, other: u32)
    requires
        slot < 64,
        other < 64,
    ensures
        !bit_set(cleared(bits, slot), slot),
        other != slot ==> bit_set(cleared(bits, slot), other) == bit_set(bits, other),
{
    assert((bits & !(1u64 << slot)) & (1u64 << slot) == 0) by (bit_vector)
        requires
            slot < 64,
    ;
    assert(other != slot ==> (((bits & !(1u64 << slot)) & (1u64 << other) != 0) == (bits & (1u64
        << other) != 0))) by (bit_vector)
        requires
            slot < 64,
            other < 64,
    ;
}

/// A word with a marked slot is not zero, and the word with only the
/// first slot marked is 1.
pub proof fn lemma_nonzero(bits: u64, slot: u32)
    requires
        slot < 64,
        bit_set(bits, slot),
    ensures
        bits != 0,
{
    assert(bits & (1u64 << slot) != 0 ==> bits != 0) by (bit_vector)
        requires
            slot < 64,
    ;
}

/// In the word 1 the first slot is marked and no other.
pub proof fn lemma_one(other: u32)
    requires
        other < 64,
    ensures
        bit_set(1u64, 0),
        other != 0 ==> !bit_set(1u64, other),
{
    assert(1u64 & (1u64 << 0u32) != 0) by (bit_vector);
    assert(other != 0 ==> 1u64 & (1u64 << other) == 0) by (bit_vector)
        requires
            other < 64,
    ;
}

/// Whether no slot from `count` on is marked in `bits`.
pub open spec fn none_beyond(bits: u64, count: u32) -> bool {
    forall|s: u32| count <= s < 64 ==> !#[trigger] bit_set(bits, s)
}

/// A word whose first `n` slots are all clear has nothing in its low `n`
/// bits; with all 64 clear it is zero.
proof fn lemma_low_bits(bits: u64, n: u32)
    requires
        n <= 64,
        forall|s: u32| s < n ==> !#[trigger] bit_set(bits, s),
    ensures
        n < 64 ==> bits & !(0xffff_ffff_ffff_ffffu64 << n) == 0,
        n == 64 ==> bits == 0,
    decreases n,
{
    if n == 0 {
        assert(bits & !(0xffff_ffff_ffff_ffffu64 << 0u32) == 0) by (bit_vector);
    } else {
        let m = (n - 1) as u32;
        lemma_low_bits(bits, m);
        assert(!bit_set(bits, m));
        if n < 64 {
            assert(bits & !(0xffff_ffff_ffff_ffffu64 << m) == 0 && bits & (1u64 << m) == 0 ==> bits
                & !(0xffff_ffff_ffff_ffffu64 << n) == 0) by (bit_vector)
                requires
                    n < 64,
                    m == n - 1,
            ;
        } else {
            assert(bits & !(0xffff_ffff_ffff_ffffu64 << m) == 0 && bits & (1u64 << m) == 0 ==> bits
                == 0) by (bit_vector)
                requires
                    m == 63,
            ;
        }
    }
}

/// A word that is not zero has a marked slot.
pub proof fn lemma_some_bit(bits: u64)
    requires
        bits != 0,
    ensures
        exists|s: u32| s < 64 && #[trigger] bit_set(bits, s),
{
    if forall|s: u32| s < 64 ==> !#[trigger] bit_set(bits, s) {
        lemma_low_bits(bits, 64);
    }
}

/// Whether slot `slot` is marked in `bits`.
pub fn test_bit(bits: u64, slot: u32) -> (b: bool)
    requires
        slot < 64,
    ensures
        b == bit_set(bits, slot),
{
    bits & (1u64 << slot) != 0
}

/// The lowest of the first `count` slots that is not marked in `bits`.
pub fn lowest_clear(bits: u64, count: u32) -> (r: Option<u32>)
    requires
        count <= 64,
    ensures
        match r {
            Some(slot) => slot < count && !bit_set(bits, slot) && all_set(bits, slot),
            None => all_set(bits, count),
        },
{
    let mut slot: u32 = 0;
    while slot < count
        invariant
            slot <= count <= 64,
            all_set(bits, slot),
        decreases count - slot,
    {
        if !test_bit(bits, slot) {
            return Some(slot);
        }
        slot = slot + 1;
    }
    None
}

} // verus!
