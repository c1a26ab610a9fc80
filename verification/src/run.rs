//! Runs of the protocol in which the puts of several writers overlap.
//!
//! A run is the ring together with a record of every put that was begun, in
//! the order of reservation. It advances by single steps, taken by any
//! writer in any order. The counters are in order in every state of every
//! run. What the slots hold is stated of the runs that keep pace: those in
//! which no position is reserved while the put one lap before it is still
//! under way. A ring that wraps onto an unfinished put leaves the content of
//! that slot open.

use vstd::prelude::*;
use vstd::arithmetic::div_mod::{lemma_mod_pos_bound, lemma_mod_sub_multiples_vanish, lemma_small_mod};
use vstd::multiset::Multiset;
use vstd::seq_lib::to_multiset_build;
use crate::index::{slot_of, valid_capacity};
use crate::protocol::{lemma_distinct_slots, RingState};
use crate::tally::{lemma_tally_bounds, lemma_tally_push, lemma_tally_update, tally};

verus! {

/// How far a put has come.
pub enum Phase {
    /// Its position is reserved; its slot is not written yet.
    Reserved,
    /// Its value is in its slot; it is not published yet.
    Stored,
    /// It is complete.
    Published,
}

/// One put of a run.
pub struct PutRecord<T> {
    /// The writer that makes it.
    pub writer: nat,
    /// The value it puts.
    pub value: T,
    /// How far it has come.
    pub phase: Phase,
}

/// One step of one writer.
pub enum Step<T> {
    /// `writer` reserves the next position, for `value`.
    Reserve { writer: nat, value: T },
    /// The put at `position` writes its value into its slot.
    Store { position: nat },
    /// The put at `position` publishes.
    Publish { position: nat },
}

/// The ring, and the puts begun on it in the order of their reservation.
pub struct Run<T> {
    /// The ring.
    pub ring: RingState<T>,
    /// The put at each reserved position.
    pub puts: Seq<PutRecord<T>>,
}

/// The records of complete puts.
pub open spec fn is_published<T>() -> spec_fn(PutRecord<T>) -> bool {
    |record: PutRecord<T>| record.phase is Published
}

/// The records of the puts of `writer`.
pub open spec fn is_by<T>(writer: nat) -> spec_fn(PutRecord<T>) -> bool {
    |record: PutRecord<T>| record.writer == writer
}

/// The values of `puts`, in their order.
pub open spec fn values<T>(puts: Seq<PutRecord<T>>) -> Seq<T> {
    puts.map_values(|record: PutRecord<T>| record.value)
}

/// The values that `writer` put, in the order in which it put them.
pub open spec fn values_by<T>(puts: Seq<PutRecord<T>>, writer: nat) -> Seq<T> {
    values(puts.filter(is_by(writer)))
}

/// The values that the writers below `writers` put, as one multiset.
pub open spec fn union_by<T>(puts: Seq<PutRecord<T>>, writers: nat) -> Multiset<T>
    decreases writers,
{
    if writers == 0 {
        Multiset::empty()
    } else {
        union_by(puts, (writers - 1) as nat).add(
            values_by(puts, (writers - 1) as nat).to_multiset(),
        )
    }
}

impl<T> Run<T> {
    /// The run in which nothing has happened yet.
    pub open spec fn start(capacity: nat) -> Self {
        Run { ring: RingState::empty(capacity), puts: Seq::empty() }
    }

    /// Every put that was begun is complete.
    pub open spec fn settled(self) -> bool {
        forall|p: int| 0 <= p < self.puts.len() ==> (#[trigger] self.puts[p]).phase is Published
    }

    /// No put but the last one is under way: what a single writer, which
    /// begins a put only after its last, brings about.
    pub open spec fn single_file(self) -> bool {
        forall|p: int|
            0 <= p && p + 1 < self.puts.len() ==> (#[trigger] self.puts[p]).phase is Published
    }

    /// Whether `step` can be taken. A position can always be reserved; a put
    /// stores once, after reserving, and publishes once, after storing.
    pub open spec fn enabled(self, step: Step<T>) -> bool {
        match step {
            Step::Reserve { .. } => true,
            Step::Store { position } => position < self.puts.len()
                && self.puts[position as int].phase is Reserved,
            Step::Publish { position } => position < self.puts.len()
                && self.puts[position as int].phase is Stored,
        }
    }

    /// Whether `step` keeps pace: it reserves no position whose slot belongs
    /// to a put, one lap before, that is still under way.
    pub open spec fn paced(self, step: Step<T>) -> bool {
        match step {
            Step::Reserve { .. } => self.puts.len() >= self.ring.capacity ==> self.puts[self.puts.len()
                - self.ring.capacity].phase is Published,
            _ => true,
        }
    }

    /// The run after `step`.
    pub open spec fn step(self, step: Step<T>) -> Self {
        match step {
            Step::Reserve { writer, value } => Run {
                ring: self.ring.reserve(),
                puts: self.puts.push(PutRecord { writer, value, phase: Phase::Reserved }),
            },
            Step::Store { position } => Run {
                ring: self.ring.store(position, self.puts[position as int].value),
                puts: self.puts.update(
                    position as int,
                    PutRecord { phase: Phase::Stored, ..self.puts[position as int] },
                ),
            },
            Step::Publish { position } => Run {
                ring: self.ring.publish(),
                puts: self.puts.update(
                    position as int,
                    PutRecord { phase: Phase::Published, ..self.puts[position as int] },
                ),
            },
        }
    }

    /// Whether the steps of `steps` can be taken one after the other.
    pub open spec fn admits(self, steps: Seq<Step<T>>) -> bool
        decreases steps.len(),
    {
        if steps.len() == 0 {
            true
        } else {
            &&& self.admits(steps.drop_last())
            &&& self.follow(steps.drop_last()).enabled(steps.last())
        }
    }

    /// Whether each of the steps of `steps`, taken one after the other,
    /// keeps pace.
    pub open spec fn keeps_pace(self, steps: Seq<Step<T>>) -> bool
        decreases steps.len(),
    {
        if steps.len() == 0 {
            true
        } else {
            &&& self.keeps_pace(steps.drop_last())
            &&& self.follow(steps.drop_last()).paced(steps.last())
        }
    }

    /// The run after the steps of `steps`.
    pub open spec fn follow(self, steps: Seq<Step<T>>) -> Self
        decreases steps.len(),
    {
        if steps.len() == 0 {
            self
        } else {
            self.follow(steps.drop_last()).step(steps.last())
        }
    }

    /// What holds of every state of every run: the ring's invariant, by which
    /// no more positions are published than reserved; one record per
    /// reserved position; and as many published positions as complete puts.
    pub open spec fn counted(self) -> bool {
        &&& self.ring.inv()
        &&& self.ring.next_write == self.puts.len()
        &&& self.ring.next_readable == tally(self.puts, is_published())
    }

    /// What the slot of position `p` holds: the value of the put at `p` once
    /// it is stored, and until then what the put one lap before left there.
    pub open spec fn expected(self, p: int) -> Option<T> {
        if self.puts[p].phase is Reserved {
            if p >= self.ring.capacity {
                Some(self.puts[p - self.ring.capacity].value)
            } else {
                None
            }
        } else {
            Some(self.puts[p].value)
        }
    }

    /// What holds of every state of a run that keeps pace: the counters are
    /// in order; every put more than a lap old is complete; each of the last
    /// `capacity` positions finds in its slot what `expected` says; and the
    /// slots never reached are unwritten.
    pub open spec fn consistent(self) -> bool {
        &&& self.counted()
        &&& forall|q: int|
            0 <= q && q + self.ring.capacity < self.puts.len() ==> (
            #[trigger] self.puts[q]).phase is Published
        &&& forall|p: int|
            0 <= p < self.puts.len() && self.puts.len() - p <= self.ring.capacity
                ==> self.ring.slots[slot_of(p as nat, self.ring.capacity) as int]
                == #[trigger] self.expected(p)
        &&& forall|i: int|
            self.puts.len() <= i < self.ring.capacity ==> (#[trigger] self.ring.slots[i]) is None
    }

    /// The run in which nothing has happened is consistent.
    pub proof fn lemma_start_consistent(capacity: nat)
        requires
            valid_capacity(capacity),
        ensures
            Self::start(capacity).counted(),
            Self::start(capacity).consistent(),
            Self::start(capacity).settled(),
            Self::start(capacity).single_file(),
    {
    }

    /// Every step that can be taken keeps the counters in order, whether it
    /// keeps pace or not.
    pub proof fn lemma_step_counted(self, step: Step<T>)
        requires
            self.counted(),
            self.enabled(step),
        ensures
            self.step(step).counted(),
            self.step(step).ring.next_readable <= self.step(step).ring.next_write,
    {
        match step {
            Step::Reserve { writer, value } => {
                lemma_tally_push(
                    self.puts,
                    is_published(),
                    PutRecord { writer, value, phase: Phase::Reserved },
                );
            },
            Step::Store { position } => {
                let at = position as int;
                lemma_tally_update(
                    self.puts,
                    is_published(),
                    at,
                    PutRecord { phase: Phase::Stored, ..self.puts[at] },
                );
            },
            Step::Publish { position } => {
                let at = position as int;
                lemma_tally_update(
                    self.puts,
                    is_published(),
                    at,
                    PutRecord { phase: Phase::Published, ..self.puts[at] },
                );
                lemma_tally_bounds(self.step(step).puts, is_published());
            },
        }
    }

    /// In every state that a run reaches, however the steps of its writers
    /// fall, no more positions are published than were reserved.
    pub proof fn lemma_follow_counted(self, steps: Seq<Step<T>>)
        requires
            self.counted(),
            self.admits(steps),
        ensures
            self.follow(steps).counted(),
            self.follow(steps).ring.next_readable <= self.follow(steps).ring.next_write,
        decreases steps.len(),
    {
        if steps.len() > 0 {
            self.lemma_follow_counted(steps.drop_last());
            self.follow(steps.drop_last()).lemma_step_counted(steps.last());
        }
    }

    proof fn lemma_reserve_consistent(self, writer: nat, value: T)
        requires
            self.consistent(),
            self.paced(Step::Reserve { writer, value }),
        ensures
            self.step(Step::Reserve { writer, value }).consistent(),
    {
        let after = self.step(Step::Reserve { writer, value });
        let len = self.puts.len() as int;
        let capacity = self.ring.capacity as int;
        let record = PutRecord { writer, value, phase: Phase::Reserved };
        lemma_tally_push(self.puts, is_published(), record);
        assert forall|p: int|
            0 <= p < after.puts.len() && after.puts.len() - p <= capacity
                implies after.ring.slots[slot_of(p as nat, after.ring.capacity) as int]
                == #[trigger] after.expected(p) by {
            if p < len {
                assert(self.ring.slots[slot_of(p as nat, self.ring.capacity) as int]
                    == self.expected(p));
                assert(after.puts[p] == self.puts[p]);
                if p >= capacity {
                    assert(after.puts[p - capacity] == self.puts[p - capacity]);
                }
            } else if len >= capacity {
                let back = len - capacity;
                assert(self.puts[back].phase is Published);
                assert(self.ring.slots[slot_of(back as nat, self.ring.capacity) as int]
                    == self.expected(back));
                lemma_mod_sub_multiples_vanish(len, capacity);
                assert(after.puts[back] == self.puts[back]);
            } else {
                lemma_small_mod(len as nat, capacity as nat);
                assert(self.ring.slots[len] is None);
            }
        }
        assert forall|q: int| 0 <= q && q + capacity < after.puts.len() implies (
        #[trigger] after.puts[q]).phase is Published by {
            assert(after.puts[q] == self.puts[q]);
        }
        assert forall|i: int| after.puts.len() <= i < capacity implies (
        #[trigger] after.ring.slots[i]) is None by {
            assert(self.ring.slots[i] is None);
        }
    }

    proof fn lemma_store_consistent(self, position: nat)
        requires
            self.consistent(),
            self.enabled(Step::Store { position }),
        ensures
            self.step(Step::Store { position }).consistent(),
    {
        let after = self.step(Step::Store { position });
        let len = self.puts.len() as int;
        let capacity = self.ring.capacity as int;
        let at = position as int;
        let record = PutRecord { phase: Phase::Stored, ..self.puts[at] };
        lemma_tally_update(self.puts, is_published(), at, record);
        lemma_mod_pos_bound(at, capacity);
        assert(at + capacity >= len) by {
            if at + capacity < len {
                assert(self.puts[at].phase is Published);
            }
        }
        assert forall|p: int|
            0 <= p < after.puts.len() && after.puts.len() - p <= capacity
                implies after.ring.slots[slot_of(p as nat, after.ring.capacity) as int]
                == #[trigger] after.expected(p) by {
            lemma_mod_pos_bound(p, capacity);
            if p != at {
                if p < at {
                    lemma_distinct_slots(p as nat, at as nat, capacity as nat);
                } else {
                    lemma_distinct_slots(at as nat, p as nat, capacity as nat);
                }
                assert(self.ring.slots[slot_of(p as nat, self.ring.capacity) as int]
                    == self.expected(p));
                assert(after.puts[p] == self.puts[p]);
                if p >= capacity {
                    assert(p - capacity != at);
                    assert(after.puts[p - capacity] == self.puts[p - capacity]);
                }
            }
        }
        assert forall|q: int| 0 <= q && q + capacity < after.puts.len() implies (
        #[trigger] after.puts[q]).phase is Published by {
            assert(self.puts[q].phase is Published);
        }
        assert forall|i: int| after.puts.len() <= i < capacity implies (
        #[trigger] after.ring.slots[i]) is None by {
            lemma_small_mod(position, capacity as nat);
            assert(self.ring.slots[i] is None);
        }
    }

    proof fn lemma_publish_consistent(self, position: nat)
        requires
            self.consistent(),
            self.enabled(Step::Publish { position }),
        ensures
            self.step(Step::Publish { position }).consistent(),
    {
        let after = self.step(Step::Publish { position });
        let capacity = self.ring.capacity as int;
        let at = position as int;
        let record = PutRecord { phase: Phase::Published, ..self.puts[at] };
        lemma_tally_update(self.puts, is_published(), at, record);
        lemma_tally_bounds(after.puts, is_published());
        assert forall|p: int|
            0 <= p < after.puts.len() && after.puts.len() - p <= capacity
                implies after.ring.slots[slot_of(p as nat, after.ring.capacity) as int]
                == #[trigger] after.expected(p) by {
            assert(self.ring.slots[slot_of(p as nat, self.ring.capacity) as int]
                == self.expected(p));
            if p >= capacity {
                assert(after.puts[p - capacity].value == self.puts[p - capacity].value);
            }
        }
        assert forall|q: int| 0 <= q && q + capacity < after.puts.len() implies (
        #[trigger] after.puts[q]).phase is Published by {
            if q != at {
                assert(self.puts[q].phase is Published);
            }
        }
        assert forall|i: int| after.puts.len() <= i < capacity implies (
        #[trigger] after.ring.slots[i]) is None by {
            assert(self.ring.slots[i] is None);
        }
    }

    /// Every step that can be taken and keeps pace leads from a consistent
    /// state to a consistent state.
    pub proof fn lemma_step_consistent(self, step: Step<T>)
        requires
            self.consistent(),
            self.enabled(step),
            self.paced(step),
        ensures
            self.step(step).consistent(),
    {
        match step {
            Step::Reserve { writer, value } => self.lemma_reserve_consistent(writer, value),
            Step::Store { position } => self.lemma_store_consistent(position),
            Step::Publish { position } => self.lemma_publish_consistent(position),
        }
    }

    /// Every state that a run reaches from a consistent one, by steps that
    /// keep pace, is consistent.
    pub proof fn lemma_follow_consistent(self, steps: Seq<Step<T>>)
        requires
            self.consistent(),
            self.admits(steps),
            self.keeps_pace(steps),
        ensures
            self.follow(steps).consistent(),
        decreases steps.len(),
    {
        if steps.len() > 0 {
            self.lemma_follow_consistent(steps.drop_last());
            self.follow(steps.drop_last()).lemma_step_consistent(steps.last());
        }
    }

    /// Once every put is complete, the ring is what putting the values one
    /// after the other, in the order of reservation, leaves behind.
    pub proof fn lemma_settled_mirrors(self)
        requires
            self.consistent(),
            self.settled(),
        ensures
            self.ring.quiescent(),
            self.ring.mirrors(values(self.puts)),
    {
        lemma_tally_bounds(self.puts, is_published());
        assert forall|i: int| 0 <= i < self.puts.len() implies is_published()(
            #[trigger] self.puts[i],
        ) by {
            assert(self.puts[i].phase is Published);
        }
        let history = values(self.puts);
        assert forall|p: int|
            0 <= p < history.len() && history.len() - p
                <= self.ring.capacity implies self.ring.slots[slot_of(
            p as nat,
            self.ring.capacity,
        ) as int] == Some(#[trigger] history[p]) by {
            assert(self.ring.slots[slot_of(p as nat, self.ring.capacity) as int]
                == self.expected(p));
            assert(self.puts[p].phase is Published);
        }
    }

    /// A whole put on a settled run, its three steps taken without another
    /// writer's step between them, is the put of the ring.
    pub proof fn lemma_put_is_three_steps(self, writer: nat, value: T)
        requires
            self.consistent(),
            self.settled(),
        ensures
            ({
                let position = self.puts.len();
                let reserved = self.step(Step::Reserve { writer, value });
                let stored = reserved.step(Step::Store { position });
                let published = stored.step(Step::Publish { position });
                &&& self.paced(Step::Reserve { writer, value })
                &&& reserved.enabled(Step::Store { position })
                &&& stored.enabled(Step::Publish { position })
                &&& published.ring == self.ring.put(value)
                &&& published.settled()
                &&& values(published.puts) == values(self.puts).push(value)
            }),
    {
        let position = self.puts.len();
        let reserved = self.step(Step::Reserve { writer, value });
        let stored = reserved.step(Step::Store { position });
        let published = stored.step(Step::Publish { position });
        if self.puts.len() >= self.ring.capacity {
            assert(self.puts[self.puts.len() - self.ring.capacity].phase is Published);
        }
        assert(published.ring =~= self.ring.put(value));
        assert forall|p: int| 0 <= p < published.puts.len() implies (
        #[trigger] published.puts[p]).phase is Published by {
            if p < position {
                assert(self.puts[p].phase is Published);
            }
        }
        assert(values(published.puts) =~= values(self.puts).push(value));
    }

    /// However the steps of the writers fall, a reader that lags by no more
    /// than one capacity is handed the value of its position as soon as the
    /// put at that position has stored it.
    pub proof fn lemma_read_stored(self, cursor: nat)
        requires
            self.consistent(),
            cursor < self.ring.next_readable,
            cursor < self.puts.len(),
            self.puts.len() - cursor <= self.ring.capacity,
            !(self.puts[cursor as int].phase is Reserved),
        ensures
            self.ring.retrieve(cursor) == Some(self.puts[cursor as int].value),
    {
        assert(self.ring.slots[slot_of(cursor, self.ring.capacity) as int] == self.expected(
            cursor as int,
        ));
    }

    /// A ring that mirrors a history is a settled state of a run: the run in
    /// which one writer has put that history.
    pub proof fn lemma_mirror_is_settled(ring: RingState<T>, produced: Seq<T>, writer: nat)
        requires
            ring.inv(),
            ring.mirrors(produced),
        ensures
            ({
                let run = Run {
                    ring,
                    puts: produced.map_values(
                        |value: T| PutRecord { writer, value, phase: Phase::Published },
                    ),
                };
                &&& run.consistent()
                &&& run.settled()
                &&& run.single_file()
                &&& values(run.puts) == produced
            }),
    {
        let run = Run {
            ring,
            puts: produced.map_values(
                |value: T| PutRecord { writer, value, phase: Phase::Published },
            ),
        };
        lemma_tally_bounds(run.puts, is_published());
        assert forall|i: int| 0 <= i < run.puts.len() implies is_published()(
            #[trigger] run.puts[i],
        ) by {}
        assert(values(run.puts) =~= produced);
        assert forall|p: int|
            0 <= p < run.puts.len() && run.puts.len() - p <= run.ring.capacity
                implies run.ring.slots[slot_of(p as nat, run.ring.capacity) as int]
                == #[trigger] run.expected(p) by {
            assert(ring.slots[slot_of(p as nat, ring.capacity) as int] == Some(produced[p]));
        }
    }

    /// With two writers publication can overtake a store: when the second
    /// writer completes its put while the first has only reserved, one
    /// position is published, and a reader at position zero is handed a slot
    /// that was never written.
    pub proof fn lemma_publication_can_overtake(capacity: nat, first: T, second: T)
        requires
            valid_capacity(capacity),
        ensures
            ({
                let begun = Self::start(capacity).step(Step::Reserve { writer: 0, value: first });
                let both = begun.step(Step::Reserve { writer: 1, value: second });
                let stored = both.step(Step::Store { position: 1 });
                let published = stored.step(Step::Publish { position: 1 });
                &&& Self::start(capacity).paced(Step::Reserve { writer: 0, value: first })
                &&& begun.paced(Step::Reserve { writer: 1, value: second })
                &&& both.enabled(Step::Store { position: 1 })
                &&& stored.enabled(Step::Publish { position: 1 })
                &&& published.consistent()
                &&& published.ring.next_readable == 1
                &&& published.ring.slots[slot_of(0, capacity) as int] is None
                &&& published.ring.retrieve(0) is None
            }),
    {
        let start = Self::start(capacity);
        let begun = start.step(Step::Reserve { writer: 0, value: first });
        let both = begun.step(Step::Reserve { writer: 1, value: second });
        let stored = both.step(Step::Store { position: 1 });
        let published = stored.step(Step::Publish { position: 1 });
        Self::lemma_start_consistent(capacity);
        start.lemma_step_consistent(Step::Reserve { writer: 0, value: first });
        begun.lemma_step_consistent(Step::Reserve { writer: 1, value: second });
        both.lemma_step_consistent(Step::Store { position: 1 });
        stored.lemma_step_consistent(Step::Publish { position: 1 });
        assert(published.puts[0].phase is Reserved);
        assert(published.ring.slots[slot_of(0, capacity) as int] == published.expected(0));
    }

    /// With a single writer, which reserves a position only when the run is
    /// settled, every step keeps pace and every state of the run stays
    /// single-file.
    pub proof fn lemma_step_single_file(self, step: Step<T>)
        requires
            self.ring.capacity > 0,
            self.single_file(),
            self.enabled(step),
            step is Reserve ==> self.settled(),
        ensures
            self.paced(step),
            self.step(step).single_file(),
    {
        let after = self.step(step);
        if step is Reserve && self.puts.len() >= self.ring.capacity {
            assert(self.puts[self.puts.len() - self.ring.capacity].phase is Published);
        }
        assert forall|p: int| 0 <= p && p + 1 < after.puts.len() implies (
        #[trigger] after.puts[p]).phase is Published by {
            match step {
                Step::Reserve { .. } => {
                    assert(self.puts[p].phase is Published);
                },
                Step::Store { position } => {
                    assert(self.puts[p].phase is Published);
                },
                Step::Publish { position } => {
                    if p != position {
                        assert(self.puts[p].phase is Published);
                    }
                },
            }
        }
    }

    /// With a single writer a reader is never handed anything but the value
    /// of its position, at whatever point of a put it asks, provided it lags
    /// by no more than one capacity.
    pub proof fn lemma_single_file_read(self, cursor: nat)
        requires
            self.consistent(),
            self.single_file(),
            cursor < self.ring.next_readable,
            self.puts.len() - cursor <= self.ring.capacity,
        ensures
            cursor < self.puts.len(),
            self.ring.retrieve(cursor) == Some(self.puts[cursor as int].value),
    {
        let len = self.puts.len() as int;
        lemma_tally_bounds(self.puts, is_published());
        if cursor + 1 >= len {
            assert(tally(self.puts, is_published()) == len);
            assert(is_published()(self.puts[cursor as int]));
        }
        assert(self.puts[cursor as int].phase is Published);
        assert(self.ring.slots[slot_of(cursor, self.ring.capacity) as int] == self.expected(
            cursor as int,
        ));
    }
}

/// Appending a record appends its value to the values of its writer and to
/// those of no other.
pub proof fn lemma_values_by_push<T>(puts: Seq<PutRecord<T>>, record: PutRecord<T>, writer: nat)
    ensures
        values_by(puts.push(record), writer) == if record.writer == writer {
            values_by(puts, writer).push(record.value)
        } else {
            values_by(puts, writer)
        },
{
    puts.lemma_filter_push(record, is_by(writer));
    if record.writer == writer {
        assert(values(puts.filter(is_by(writer)).push(record)) =~= values(
            puts.filter(is_by(writer)),
        ).push(record.value));
    }
}

/// Appending a record adds its value to the union over the writers below
/// `writers` exactly when its writer is among them.
pub proof fn lemma_union_by_push<T>(puts: Seq<PutRecord<T>>, record: PutRecord<T>, writers: nat)
    ensures
        union_by(puts.push(record), writers) == if record.writer < writers {
            union_by(puts, writers).insert(record.value)
        } else {
            union_by(puts, writers)
        },
    decreases writers,
{
    if writers > 0 {
        let last = (writers - 1) as nat;
        lemma_union_by_push(puts, record, last);
        lemma_values_by_push(puts, record, last);
        if record.writer == last {
            to_multiset_build(values_by(puts, last), record.value);
        }
        assert(union_by(puts.push(record), writers) =~= if record.writer < writers {
            union_by(puts, writers).insert(record.value)
        } else {
            union_by(puts, writers)
        });
    }
}

/// The values of a run, as a multiset, are the union of what each of its
/// writers put.
pub proof fn lemma_values_are_union<T>(puts: Seq<PutRecord<T>>, writers: nat)
    requires
        forall|p: int| 0 <= p < puts.len() ==> (#[trigger] puts[p]).writer < writers,
    ensures
        values(puts).to_multiset() == union_by(puts, writers),
    decreases puts.len(),
{
    if puts.len() == 0 {
        assert(puts =~= Seq::<PutRecord<T>>::empty());
        assert(values(puts) =~= Seq::<T>::empty());
        lemma_union_by_empty::<T>(writers);
        values(puts).to_multiset_ensures();
        assert(values(puts).to_multiset().len() == 0);
        assert(values(puts).to_multiset() =~= Multiset::<T>::empty());
    } else {
        let front = puts.drop_last();
        let record = puts.last();
        assert(puts =~= front.push(record));
        assert forall|p: int| 0 <= p < front.len() implies (#[trigger] front[p]).writer
            < writers by {
            assert(front[p] == puts[p]);
        }
        lemma_values_are_union(front, writers);
        lemma_union_by_push(front, record, writers);
        assert(values(puts) =~= values(front).push(record.value));
        to_multiset_build(values(front), record.value);
        assert(values(puts).to_multiset() =~= values(front).to_multiset().insert(record.value));
        assert(union_by(puts, writers) == union_by(front, writers).insert(record.value));
    }
}

/// Where nothing was put, the union is empty.
pub proof fn lemma_union_by_empty<T>(writers: nat)
    ensures
        union_by(Seq::<PutRecord<T>>::empty(), writers) == Multiset::<T>::empty(),
    decreases writers,
{
    if writers > 0 {
        let last = (writers - 1) as nat;
        lemma_union_by_empty::<T>(last);
        let none = Seq::<PutRecord<T>>::empty();
        reveal(Seq::filter);
        assert(values_by(none, last) =~= Seq::<T>::empty());
        values_by(none, last).to_multiset_ensures();
        assert(values_by(none, last).to_multiset().len() == 0);
        assert(union_by(none, writers) =~= Multiset::<T>::empty());
    }
}

} // verus!
