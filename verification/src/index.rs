//! Slot addressing on a ring whose capacity is a power of two.

use vstd::prelude::*;
use vstd::arithmetic::power2::{
    is_pow2, is_pow2_equiv, lemma2_to64, lemma_pow2_pos, lemma_pow2_strictly_increases, pow2,
};
use vstd::bits::{lemma_usize_low_bits_mask_is_mod, low_bits_mask};

verus! {

/// A legal capacity: a power of two, and at least two.
pub open spec fn valid_capacity(capacity: nat) -> bool {
    capacity >= 2 && is_pow2(capacity as int)
}

/// The slot that holds position `position` on a ring of `capacity` slots.
pub open spec fn slot_of(position: nat, capacity: nat) -> nat {
    position % capacity
}

/// For a power of two that fits a `usize`, masking with its predecessor is
/// the remainder of the division by it.
pub proof fn lemma_mask_is_remainder(position: usize, capacity: usize)
    requires
        is_pow2(capacity as int),
    ensures
        position & ((capacity - 1) as usize) == position % capacity,
{
    is_pow2_equiv(capacity as int);
    let e = choose|e: nat| vstd::arithmetic::power::pow(2, e) == capacity as int;
    assert(pow2(e) == capacity);
    if e >= usize::BITS {
        lemma2_to64();
        if e > usize::BITS {
            lemma_pow2_strictly_increases(usize::BITS as nat, e);
        }
        assert(false);
    }
    lemma_pow2_pos(e);
    assert(low_bits_mask(e) == capacity - 1);
    lemma_usize_low_bits_mask_is_mod(position, e);
}

/// Tells whether `capacity` is a legal capacity.
pub fn is_valid_capacity(capacity: usize) -> (ok: bool)
    ensures
        ok == valid_capacity(capacity as nat),
{
    if capacity < 2 {
        return false;
    }
    let mut rest: usize = capacity;
    while rest % 2 == 0
        invariant
            1 <= rest <= capacity,
            is_pow2(rest as int) == is_pow2(capacity as int),
        decreases rest,
    {
        proof {
            reveal(is_pow2);
        }
        rest = rest / 2;
    }
    proof {
        reveal(is_pow2);
    }
    rest == 1
}

/// Reduces a position to the index of its slot, by masking.
pub fn slot_index(position: usize, capacity: usize) -> (index: usize)
    requires
        valid_capacity(capacity as nat),
    ensures
        index == slot_of(position as nat, capacity as nat),
        index < capacity,
{
    proof {
        lemma_mask_is_remainder(position, capacity);
    }
    position & (capacity - 1)
}

} // verus!
