//! The decisions of the protocol, on the plain values of the counters.
//!
//! Whoever holds the counters, in whatever storage, observes their values
//! and asks here what follows from them.

use vstd::prelude::*;
use crate::finish::Producers;
use crate::index::{slot_index, slot_of, valid_capacity};

verus! {

/// The slot a reader at `cursor` may read, given the published count it has
/// observed: none at or beyond that count, else the slot of the cursor.
pub fn readable_slot(cursor: usize, next_readable: usize, capacity: usize) -> (slot: Option<usize>)
    requires
        valid_capacity(capacity as nat),
    ensures
        slot == if cursor < next_readable {
            Some(slot_of(cursor as nat, capacity as nat) as usize)
        } else {
            None
        },
        slot is Some ==> slot.unwrap() < capacity,
{
    if cursor >= next_readable {
        return None;
    }
    Some(slot_index(cursor, capacity))
}

/// The value a writer proposes for the reservation counter when it has
/// observed `current`: the next position. At the largest value there is no
/// next position, and the counter stays.
pub fn next_reservation(current: usize) -> (next: usize)
    ensures
        next == if current < usize::MAX {
            current + 1
        } else {
            current as int
        },
{
    current.saturating_add(1)
}

/// The latch of a ring with several producers, given its two counts: it is
/// set while as many writers have finished as were registered.
pub fn all_finished(producer_count: usize, finish_count: usize) -> (latch: bool)
    ensures
        latch == (Producers {
            registered: producer_count as nat,
            finished: finish_count as nat,
        }).all_finished(),
{
    finish_count == producer_count
}

/// Whether a reader is drained, given the latch and the published count it
/// has observed: the latch is set and the cursor has reached the count.
pub fn drained(latch: bool, cursor: usize, next_readable: usize) -> (done: bool)
    ensures
        done == (latch && cursor == next_readable),
{
    latch && cursor == next_readable
}

/// A writer signals its end. `done` tells whether it has signalled before,
/// and is set; the result tells whether the ring has to be told, which is
/// the case the first time only.
pub fn signal_once(done: &mut bool) -> (first: bool)
    ensures
        *final(done),
        first == !*old(done),
{
    let first = !*done;
    *done = true;
    first
}

} // verus!
