//! The ghost state of a ring and the steps of its protocol.
//!
//! A put is three steps: reserve the next position, store the value into
//! the slot of that position, publish one more position. A reader sees the
//! slot of its cursor once the cursor lies below the published count.

use vstd::prelude::*;
use vstd::arithmetic::div_mod::{
    lemma_basic_div, lemma_fundamental_div_mod, lemma_mod_multiples_vanish, lemma_small_mod,
};
use crate::index::{slot_of, valid_capacity};

verus! {

/// What a ring holds: its slots and its two counters.
#[verifier::ext_equal]
pub struct RingState<T> {
    /// The number of slots.
    pub capacity: nat,
    /// The slots; `None` is a slot that was never written.
    pub slots: Seq<Option<T>>,
    /// The next position to reserve.
    pub next_write: nat,
    /// The number of published positions; reads stay below it.
    pub next_readable: nat,
}

/// The newest position below `len` that shares its slot with `cursor`.
pub open spec fn newest_at(cursor: nat, len: nat, capacity: nat) -> nat {
    (cursor + capacity * ((len - 1 - cursor) / (capacity as int))) as nat
}

impl<T> RingState<T> {
    /// A ring on which nothing was written.
    pub open spec fn empty(capacity: nat) -> Self {
        RingState {
            capacity,
            slots: Seq::new(capacity, |i: int| None::<T>),
            next_write: 0,
            next_readable: 0,
        }
    }

    /// What holds of a ring in every state: a legal capacity, one slot per
    /// index, and no more published than reserved.
    pub open spec fn inv(self) -> bool {
        &&& valid_capacity(self.capacity)
        &&& self.slots.len() == self.capacity
        &&& self.next_readable <= self.next_write
    }

    /// No put is under way.
    pub open spec fn quiescent(self) -> bool {
        self.next_readable == self.next_write
    }

    /// Claims the next position.
    pub open spec fn reserve(self) -> Self {
        RingState { next_write: self.next_write + 1, ..self }
    }

    /// Writes `value` into the slot of `position`.
    pub open spec fn store(self, position: nat, value: T) -> Self {
        RingState {
            slots: self.slots.update(slot_of(position, self.capacity) as int, Some(value)),
            ..self
        }
    }

    /// Makes one more position visible to readers.
    pub open spec fn publish(self) -> Self {
        RingState { next_readable: self.next_readable + 1, ..self }
    }

    /// A whole put: reserve, store, publish.
    pub open spec fn put(self, value: T) -> Self {
        self.reserve().store(self.next_write, value).publish()
    }

    /// The ring after putting `values` one after the other.
    pub open spec fn put_all(self, values: Seq<T>) -> Self
        decreases values.len(),
    {
        if values.len() == 0 {
            self
        } else {
            self.put_all(values.drop_last()).put(values.last())
        }
    }

    /// What a reader at `cursor` is handed: nothing at or beyond the
    /// published count, else the content of the cursor's slot.
    pub open spec fn retrieve(self, cursor: nat) -> Option<T> {
        if cursor < self.next_readable {
            self.slots[slot_of(cursor, self.capacity) as int]
        } else {
            None
        }
    }

    /// The values a reader at `cursor` is handed when it reads until it is
    /// handed nothing.
    pub open spec fn drain(self, cursor: nat) -> Seq<T> {
        Seq::new(
            if cursor <= self.next_readable {
                (self.next_readable - cursor) as nat
            } else {
                0
            },
            |i: int| self.slots[slot_of((cursor + i) as nat, self.capacity) as int].unwrap(),
        )
    }

    /// The ring is what putting `produced`, value by value, leaves behind:
    /// all of it is published, each of the last `capacity` positions sits in
    /// its slot, and the slots never reached are unwritten.
    pub open spec fn mirrors(self, produced: Seq<T>) -> bool {
        &&& self.next_write == produced.len()
        &&& self.next_readable == produced.len()
        &&& forall|p: int|
            0 <= p < produced.len() && produced.len() - p <= self.capacity ==> self.slots[slot_of(
                p as nat,
                self.capacity,
            ) as int] == Some(#[trigger] produced[p])
        &&& forall|i: int|
            produced.len() <= i < self.capacity ==> (#[trigger] self.slots[i]) is None
    }
}

/// Two positions less than one capacity apart lie in different slots.
pub proof fn lemma_distinct_slots(p: nat, q: nat, capacity: nat)
    requires
        capacity > 0,
        p < q,
        q - p < capacity,
    ensures
        slot_of(p, capacity) != slot_of(q, capacity),
{
    lemma_fundamental_div_mod(p as int, capacity as int);
    lemma_fundamental_div_mod(q as int, capacity as int);
    if p % capacity == q % capacity {
        let k = (q as int) / (capacity as int) - (p as int) / (capacity as int);
        assert(q - p == capacity * k) by (nonlinear_arith)
            requires
                p == capacity * ((p as int) / (capacity as int)) + (p % capacity),
                q == capacity * ((q as int) / (capacity as int)) + (q % capacity),
                p % capacity == q % capacity,
                k == (q as int) / (capacity as int) - (p as int) / (capacity as int),
        ;
        assert(false) by (nonlinear_arith)
            requires
                0 < capacity * k < capacity,
        ;
    }
}

/// `newest_at` names a position in the cursor's slot, at or after the
/// cursor, among the last `capacity` positions below `len`.
pub proof fn lemma_newest_at(cursor: nat, len: nat, capacity: nat)
    requires
        capacity > 0,
        cursor < len,
    ensures
        cursor <= newest_at(cursor, len, capacity) < len,
        len - newest_at(cursor, len, capacity) <= capacity,
        slot_of(newest_at(cursor, len, capacity), capacity) == slot_of(cursor, capacity),
        len - cursor <= capacity <==> newest_at(cursor, len, capacity) == cursor,
{
    let gap = len - 1 - cursor;
    let laps = gap / (capacity as int);
    let rest = gap % (capacity as int);
    let turned = capacity * laps;
    lemma_fundamental_div_mod(gap, capacity as int);
    assert(0 <= rest < capacity);
    assert(gap == turned + rest);
    assert(0 <= laps) by (nonlinear_arith)
        requires
            gap == capacity * laps + rest,
            0 <= gap,
            0 <= rest < capacity,
    ;
    assert(turned >= 0) by (nonlinear_arith)
        requires
            turned == capacity * laps,
            laps >= 0,
            capacity > 0,
    ;
    assert(newest_at(cursor, len, capacity) == cursor + turned);
    lemma_mod_multiples_vanish(laps, cursor as int, capacity as int);
    assert(capacity * laps + cursor == cursor + turned);
    if len - cursor <= capacity {
        lemma_basic_div(gap, capacity as int);
        assert(turned == 0) by (nonlinear_arith)
            requires
                turned == capacity * laps,
                laps == 0,
        ;
    } else {
        assert(laps >= 1) by (nonlinear_arith)
            requires
                gap == capacity * laps + rest,
                gap >= capacity,
                0 <= rest < capacity,
        ;
        assert(turned >= capacity) by (nonlinear_arith)
            requires
                turned == capacity * laps,
                laps >= 1,
                capacity > 0,
        ;
    }
}

impl<T> RingState<T> {
    /// A fresh ring satisfies the invariant and mirrors the empty history.
    pub proof fn lemma_empty(capacity: nat)
        requires
            valid_capacity(capacity),
        ensures
            Self::empty(capacity).inv(),
            Self::empty(capacity).quiescent(),
            Self::empty(capacity).mirrors(Seq::empty()),
    {
    }

    /// A whole put keeps the invariant, and the ring goes on mirroring the
    /// history, now one value longer.
    pub proof fn lemma_put_mirrors(self, produced: Seq<T>, value: T)
        requires
            self.inv(),
            self.mirrors(produced),
        ensures
            self.put(value).inv(),
            self.put(value).mirrors(produced.push(value)),
    {
        let after = self.put(value);
        let longer = produced.push(value);
        let len = produced.len();
        let target = slot_of(len, self.capacity);
        assert(0 <= target < self.capacity) by (nonlinear_arith)
            requires
                target == len % self.capacity,
                self.capacity > 0,
        ;
        assert forall|p: int|
            0 <= p < longer.len() && longer.len() - p <= after.capacity implies after.slots[slot_of(
            p as nat,
            after.capacity,
        ) as int] == Some(#[trigger] longer[p]) by {
            if p < len {
                lemma_distinct_slots(p as nat, len, self.capacity);
                assert(0 <= slot_of(p as nat, self.capacity) < self.capacity) by (nonlinear_arith)
                    requires
                        slot_of(p as nat, self.capacity) == (p as nat) % self.capacity,
                        self.capacity > 0,
                ;
                assert(self.slots[slot_of(p as nat, self.capacity) as int] == Some(produced[p]));
            }
        }
        assert forall|i: int| longer.len() <= i < after.capacity implies (
        #[trigger] after.slots[i]) is None by {
            lemma_small_mod(len, self.capacity);
            assert(self.slots[i] is None);
        }
    }

    /// Under `mirrors`, a reader below the published count is handed the
    /// newest value of its slot; that is the value of its own position
    /// exactly when it lags by no more than one capacity.
    pub proof fn lemma_retrieve_mirrored(self, produced: Seq<T>, cursor: nat)
        requires
            self.inv(),
            self.mirrors(produced),
        ensures
            cursor >= produced.len() ==> self.retrieve(cursor) is None,
            cursor < produced.len() ==> self.retrieve(cursor) == Some(
                produced[newest_at(cursor, produced.len(), self.capacity) as int],
            ),
            cursor < produced.len() && produced.len() - cursor <= self.capacity
                ==> self.retrieve(cursor) == Some(produced[cursor as int]),
    {
        if cursor < produced.len() {
            lemma_newest_at(cursor, produced.len(), self.capacity);
            let newest = newest_at(cursor, produced.len(), self.capacity);
            assert(self.slots[slot_of(newest, self.capacity) as int] == Some(
                produced[newest as int],
            ));
        }
    }

    /// Putting values one after the other keeps the invariant, and the ring
    /// mirrors the history with those values appended.
    pub proof fn lemma_put_all_mirrors(self, produced: Seq<T>, values: Seq<T>)
        requires
            self.inv(),
            self.mirrors(produced),
        ensures
            self.put_all(values).inv(),
            self.put_all(values).capacity == self.capacity,
            self.put_all(values).mirrors(produced + values),
        decreases values.len(),
    {
        if values.len() == 0 {
            assert(produced + values =~= produced);
        } else {
            let front = values.drop_last();
            self.lemma_put_all_mirrors(produced, front);
            self.put_all(front).lemma_put_mirrors(produced + front, values.last());
            assert((produced + front).push(values.last()) =~= produced + values);
        }
    }

    /// A reader that lags by no more than one capacity drains exactly the
    /// part of the history that lies at and after its cursor, in order.
    pub proof fn lemma_drain_mirrored(self, produced: Seq<T>, cursor: nat)
        requires
            self.inv(),
            self.mirrors(produced),
            cursor <= produced.len(),
            produced.len() - cursor <= self.capacity,
        ensures
            self.drain(cursor) == produced.subrange(cursor as int, produced.len() as int),
    {
        let rest = produced.subrange(cursor as int, produced.len() as int);
        assert forall|i: int| 0 <= i < rest.len() implies self.drain(cursor)[i] == rest[i] by {
            assert(self.slots[slot_of((cursor + i) as nat, self.capacity) as int] == Some(
                produced[cursor + i],
            ));
        }
        assert(self.drain(cursor) =~= rest);
    }

    /// On a fresh ring that is large enough for all that is put, a reader
    /// that starts at position zero drains the values that were put, in the
    /// order in which they were put.
    pub proof fn lemma_fresh_drain(capacity: nat, values: Seq<T>)
        requires
            valid_capacity(capacity),
            values.len() <= capacity,
        ensures
            Self::empty(capacity).put_all(values).drain(0) == values,
    {
        Self::lemma_empty(capacity);
        Self::empty(capacity).lemma_put_all_mirrors(Seq::empty(), values);
        assert(Seq::<T>::empty() + values =~= values);
        Self::empty(capacity).put_all(values).lemma_drain_mirrored(values, 0);
        assert(values.subrange(0, values.len() as int) =~= values);
    }

    /// A drain is as long as the reader is behind, each of its values is
    /// what one read hands out, at the cursor and at the positions after it,
    /// and the read after the last of them hands out nothing.
    pub proof fn lemma_drain_is_reads(self, cursor: nat)
        requires
            cursor <= self.next_readable,
        ensures
            self.drain(cursor).len() == self.next_readable - cursor,
            forall|i: int|
                0 <= i < self.drain(cursor).len() && self.retrieve((cursor + i) as nat) is Some
                    ==> self.retrieve((cursor + i) as nat) == Some(#[trigger] self.drain(cursor)[i]),
            self.retrieve((cursor + self.drain(cursor).len()) as nat) is None,
    {
    }
}

} // verus!
