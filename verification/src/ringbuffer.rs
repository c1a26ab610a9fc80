//! The two containers, and the reader and writer handles that work on them.
//!
//! A container owns its slots and counters as plain values. A handle holds
//! only its own state, a cursor or the mark that it has signalled its end,
//! and is handed the container with every call; so a writer can put between
//! two reads of a reader without either holding on to the container. A
//! writer that is given up is handed to `release`, which signals its end.

use vstd::prelude::*;
use core::marker::PhantomData;
use crate::index::{slot_index, valid_capacity};
use crate::finish::{latch_after_signal, Producers};
use crate::protocol::{newest_at, RingState};
use crate::steps::{all_finished, drained, next_reservation, readable_slot, signal_once};
use crate::valuebox::ValueBox;

verus! {

/// What a ring container offers: the moves of the writers and the queries
/// of the readers.
pub trait RBContainer<T: Sized + Clone>: Sized {
    /// The slots and counters of the container.
    spec fn state(&self) -> RingState<T>;

    /// Every value put so far, oldest first.
    spec fn produced(&self) -> Seq<T>;

    /// The finish latch: no writer is left that could put.
    spec fn finished(&self) -> bool;

    /// One more writer may still signal that it has finished.
    spec fn can_finish(&self) -> bool;

    /// The container's invariant.
    spec fn wf(&self) -> bool;

    /// A well-formed container satisfies the ring invariant, holds exactly
    /// what its history left behind, and its counters fit the machine.
    proof fn lemma_wf(&self)
        requires
            self.wf(),
        ensures
            self.state().inv(),
            self.state().mirrors(self.produced()),
            self.state().next_write <= usize::MAX,
    ;

    /// The value a reader at `cursor` is handed: none at or beyond the
    /// published count, else what lies in the slot of `cursor`, which is
    /// the newest value put into that slot.
    fn retrieve<'a>(&'a self, cursor: usize) -> (res: Option<&'a T>)
        requires
            self.wf(),
        ensures
            res is Some <==> cursor < self.state().next_readable,
            match res {
                Some(value) => {
                    &&& self.state().retrieve(cursor as nat) == Some(*value)
                    &&& *value == self.produced()[newest_at(
                        cursor as nat,
                        self.produced().len(),
                        self.state().capacity,
                    ) as int]
                },
                None => self.state().retrieve(cursor as nat) is None,
            },
    ;

    /// Appends `value`: reserves the next position, stores the value in its
    /// slot and publishes it.
    fn put(&mut self, value: T)
        requires
            old(self).wf(),
            old(self).state().next_write < usize::MAX,
        ensures
            final(self).wf(),
            final(self).state() == old(self).state().put(value),
            final(self).produced() == old(self).produced().push(value),
            final(self).finished() == old(self).finished(),
            final(self).can_finish() == old(self).can_finish(),
    ;

    /// Records that one writer has finished. The slots, the counters and
    /// the history stay as they are.
    fn mark_as_finished(&mut self)
        requires
            old(self).wf(),
            old(self).can_finish(),
        ensures
            final(self).wf(),
            final(self).state() == old(self).state(),
            final(self).produced() == old(self).produced(),
    ;

    /// Reads the finish latch.
    fn is_finished(&self) -> (res: bool)
        ensures
            res == self.finished(),
    ;

    /// The number of published positions.
    fn next_readable(&self) -> (res: usize)
        ensures
            res == self.state().next_readable,
    ;
}

/// The ring for one producer.
pub struct SPRingBuffer<T: Sized + Clone, const N: usize> {
    data: Vec<ValueBox<T>>,
    next_write: usize,
    next_readable: usize,
    is_finished: bool,
    produced: Ghost<Seq<T>>,
}

impl<T: Sized + Clone, const N: usize> SPRingBuffer<T, N> {
    /// A ring of `N` unwritten slots, with both counters at zero and the
    /// latch open. `N` must be a power of two, and at least two.
    pub fn new() -> (ring: Self)
        requires
            valid_capacity(N as nat),
        ensures
            ring.wf(),
            ring.state() == RingState::<T>::empty(N as nat),
            ring.produced() == Seq::<T>::empty(),
            !ring.finished(),
    {
        let mut data: Vec<ValueBox<T>> = Vec::new();
        let mut filled: usize = 0;
        while filled < N
            invariant
                filled <= N,
                data.len() == filled,
                forall|i: int| 0 <= i < filled ==> (#[trigger] data[i])@ is None,
            decreases N - filled,
        {
            data.push(ValueBox::uninit());
            filled = filled + 1;
        }
        let ring = SPRingBuffer {
            data,
            next_write: 0,
            next_readable: 0,
            is_finished: false,
            produced: Ghost(Seq::empty()),
        };
        proof {
            assert(ring.state() =~= RingState::<T>::empty(N as nat));
            RingState::<T>::lemma_empty(N as nat);
        }
        ring
    }

    /// A reader that starts at position zero, and the writer of this ring.
    pub fn split(&self) -> (handles: (RBReader<T, Self>, RBWriter<T, N>))
        ensures
            handles.0.cursor() == 0,
            !handles.1.finished(),
    {
        (
            RBReader { cursor: 0, _marker: PhantomData },
            RBWriter { finished: false, _marker: PhantomData },
        )
    }
}

impl<T: Sized + Clone, const N: usize> RBContainer<T> for SPRingBuffer<T, N> {
    closed spec fn state(&self) -> RingState<T> {
        RingState {
            capacity: N as nat,
            slots: self.data@.map_values(|cell: ValueBox<T>| cell@),
            next_write: self.next_write as nat,
            next_readable: self.next_readable as nat,
        }
    }

    closed spec fn produced(&self) -> Seq<T> {
        self.produced@
    }

    closed spec fn finished(&self) -> bool {
        self.is_finished
    }

    open spec fn can_finish(&self) -> bool {
        true
    }

    closed spec fn wf(&self) -> bool {
        &&& self.state().inv()
        &&& self.state().mirrors(self.produced@)
    }

    proof fn lemma_wf(&self)
        ensures
            self.state().capacity == N,
    {
    }

    fn retrieve<'a>(&'a self, cursor: usize) -> (res: Option<&'a T>) {
        proof {
            self.state().lemma_retrieve_mirrored(self.produced@, cursor as nat);
        }
        match readable_slot(cursor, self.next_readable, N) {
            Some(index) => Some(self.data[index].get()),
            None => None,
        }
    }

    fn put(&mut self, value: T) {
        let ghost appended = value;
        let curr_write_pos = self.next_write;
        self.next_write = curr_write_pos + 1;
        let index = slot_index(curr_write_pos, N);
        self.data[index].write(value);
        let published_before = self.next_readable;
        self.next_readable = published_before + 1;
        assert(published_before == curr_write_pos);
        self.produced = Ghost(self.produced@.push(appended));
        proof {
            assert(self.state() =~= old(self).state().put(appended));
            old(self).state().lemma_put_mirrors(old(self).produced@, appended);
        }
    }

    fn mark_as_finished(&mut self)
        ensures
            final(self).finished(),
    {
        self.is_finished = true;
    }

    fn is_finished(&self) -> (res: bool) {
        self.is_finished
    }

    fn next_readable(&self) -> (res: usize) {
        self.next_readable
    }
}

/// The ring for several producers.
pub struct MPRingBuffer<T: Sized + Clone, const N: usize> {
    data: Vec<ValueBox<T>>,
    next_write: usize,
    next_readable: usize,
    producer_count: usize,
    finish_count: usize,
    produced: Ghost<Seq<T>>,
}

impl<T: Sized + Clone, const N: usize> MPRingBuffer<T, N> {
    /// The writers registered with this ring, and those that have finished.
    pub closed spec fn producers(&self) -> Producers {
        Producers {
            registered: self.producer_count as nat,
            finished: self.finish_count as nat,
        }
    }

    /// A ring of `N` unwritten slots, with all counters at zero. `N` must be
    /// a power of two, and at least two.
    pub fn new() -> (ring: Self)
        requires
            valid_capacity(N as nat),
        ensures
            ring.wf(),
            ring.state() == RingState::<T>::empty(N as nat),
            ring.produced() == Seq::<T>::empty(),
            ring.producers() == Producers::none(),
    {
        let mut data: Vec<ValueBox<T>> = Vec::new();
        let mut filled: usize = 0;
        while filled < N
            invariant
                filled <= N,
                data.len() == filled,
                forall|i: int| 0 <= i < filled ==> (#[trigger] data[i])@ is None,
            decreases N - filled,
        {
            data.push(ValueBox::uninit());
            filled = filled + 1;
        }
        let ring = MPRingBuffer {
            data,
            next_write: 0,
            next_readable: 0,
            producer_count: 0,
            finish_count: 0,
            produced: Ghost(Seq::empty()),
        };
        proof {
            assert(ring.state() =~= RingState::<T>::empty(N as nat));
            RingState::<T>::lemma_empty(N as nat);
        }
        ring
    }

    /// Registers one producer, and hands out a reader that starts at
    /// position zero and the writer that was registered.
    pub fn split(&mut self) -> (handles: (RBReader<T, Self>, RBWriterClonable<T, N>))
        requires
            old(self).wf(),
            old(self).producers().registered < usize::MAX,
        ensures
            final(self).wf(),
            final(self).state() == old(self).state(),
            final(self).produced() == old(self).produced(),
            final(self).producers() == old(self).producers().register(),
            handles.0.cursor() == 0,
            !handles.1.finished(),
    {
        self.producer_count = self.producer_count + 1;
        (
            RBReader { cursor: 0, _marker: PhantomData },
            RBWriterClonable { finished: false, _marker: PhantomData },
        )
    }
}

impl<T: Sized + Clone, const N: usize> RBContainer<T> for MPRingBuffer<T, N> {
    closed spec fn state(&self) -> RingState<T> {
        RingState {
            capacity: N as nat,
            slots: self.data@.map_values(|cell: ValueBox<T>| cell@),
            next_write: self.next_write as nat,
            next_readable: self.next_readable as nat,
        }
    }

    closed spec fn produced(&self) -> Seq<T> {
        self.produced@
    }

    open spec fn finished(&self) -> bool {
        self.producers().all_finished()
    }

    open spec fn can_finish(&self) -> bool {
        self.producers().finished < usize::MAX
    }

    closed spec fn wf(&self) -> bool {
        &&& self.state().inv()
        &&& self.state().mirrors(self.produced@)
    }

    proof fn lemma_wf(&self)
        ensures
            self.state().capacity == N,
    {
    }

    fn retrieve<'a>(&'a self, cursor: usize) -> (res: Option<&'a T>) {
        proof {
            self.state().lemma_retrieve_mirrored(self.produced@, cursor as nat);
        }
        match readable_slot(cursor, self.next_readable, N) {
            Some(index) => Some(self.data[index].get()),
            None => None,
        }
    }

    fn put(&mut self, value: T)
        ensures
            final(self).producers() == old(self).producers(),
    {
        let ghost appended = value;
        let curr_write_pos = self.next_write;
        let next_write_pos = next_reservation(curr_write_pos);
        self.next_write = next_write_pos;
        let index = slot_index(curr_write_pos, N);
        self.data[index].write(value);
        self.next_readable = self.next_readable + 1;
        self.produced = Ghost(self.produced@.push(appended));
        proof {
            assert(self.state() =~= old(self).state().put(appended));
            old(self).state().lemma_put_mirrors(old(self).produced@, appended);
        }
    }

    fn mark_as_finished(&mut self)
        ensures
            final(self).producers() == old(self).producers().finish(),
    {
        self.finish_count = self.finish_count + 1;
    }

    fn is_finished(&self) -> (res: bool) {
        all_finished(self.producer_count, self.finish_count)
    }

    fn next_readable(&self) -> (res: usize) {
        self.next_readable
    }
}

/// A reader of a ring: its cursor, the next position it will ask for.
/// Reading consumes nothing, so every reader sees every published value
/// that it is not too late for.
pub struct RBReader<T: Sized + Clone, C: RBContainer<T>> {
    cursor: usize,
    _marker: PhantomData<(T, C)>,
}

impl<T: Sized + Clone, C: RBContainer<T>> Clone for RBReader<T, C> {
    /// A reader of its own, which starts again at position zero.
    fn clone(&self) -> (fresh: Self)
        ensures
            fresh.cursor() == 0,
    {
        RBReader { cursor: 0, _marker: PhantomData }
    }
}

impl<T: Sized + Clone, C: RBContainer<T>> RBReader<T, C> {
    /// The next position this reader will ask for.
    pub closed spec fn cursor(&self) -> nat {
        self.cursor as nat
    }

    /// The reader has seen all there will ever be: the latch of `ring` is
    /// set and the cursor has reached the published count.
    pub open spec fn drained(&self, ring: &C) -> bool {
        ring.finished() && self.cursor() == ring.state().next_readable
    }

    /// Hands out what `ring` holds for the cursor, and moves the cursor on by
    /// one; where the ring holds nothing for it, the cursor stays.
    pub fn next<'a>(&mut self, ring: &'a C) -> (res: Option<&'a T>)
        requires
            ring.wf(),
        ensures
            res is Some <==> old(self).cursor() < ring.state().next_readable,
            old(self).cursor() <= final(self).cursor(),
            match res {
                Some(value) => {
                    &&& ring.state().retrieve(old(self).cursor()) == Some(*value)
                    &&& *value == ring.produced()[newest_at(
                        old(self).cursor(),
                        ring.produced().len(),
                        ring.state().capacity,
                    ) as int]
                    &&& final(self).cursor() == old(self).cursor() + 1
                    &&& final(self).cursor() <= ring.state().next_readable
                },
                None => {
                    &&& ring.state().retrieve(old(self).cursor()) is None
                    &&& final(self).cursor() == old(self).cursor()
                },
            },
    {
        let res = ring.retrieve(self.cursor);
        if res.is_some() {
            proof {
                ring.lemma_wf();
            }
            self.cursor = self.cursor + 1;
        }
        res
    }

    /// Tells whether the reader is drained.
    pub fn is_finished(&self, ring: &C) -> (res: bool)
        ensures
            res == self.drained(ring),
    {
        drained(ring.is_finished(), self.cursor, ring.next_readable())
    }
}

/// The writer of a ring with one producer.
pub struct RBWriter<T: Sized + Clone, const N: usize> {
    finished: bool,
    _marker: PhantomData<T>,
}

impl<T: Sized + Clone, const N: usize> RBWriter<T, N> {
    /// This writer has signalled its end.
    pub closed spec fn finished(&self) -> bool {
        self.finished
    }

    /// Appends `value` to `ring`.
    pub fn put(&mut self, ring: &mut SPRingBuffer<T, N>, value: T)
        requires
            old(ring).wf(),
            old(ring).state().next_write < usize::MAX,
        ensures
            final(self).finished() == old(self).finished(),
            final(ring).wf(),
            final(ring).state() == old(ring).state().put(value),
            final(ring).produced() == old(ring).produced().push(value),
            final(ring).finished() == old(ring).finished(),
    {
        ring.put(value);
    }

    /// Signals the end of this writer: sets the latch of `ring`, unless this
    /// writer has signalled before.
    pub fn mark_as_finished(&mut self, ring: &mut SPRingBuffer<T, N>)
        requires
            old(ring).wf(),
        ensures
            final(self).finished(),
            final(ring).wf(),
            final(ring).state() == old(ring).state(),
            final(ring).produced() == old(ring).produced(),
            final(ring).finished() == latch_after_signal(
                old(ring).finished(),
                old(self).finished(),
            ),
    {
        if signal_once(&mut self.finished) {
            ring.mark_as_finished();
        }
    }

    /// Gives the writer up, with the signal of `mark_as_finished` if it was
    /// not given before.
    pub fn release(self, ring: &mut SPRingBuffer<T, N>)
        requires
            old(ring).wf(),
        ensures
            final(ring).wf(),
            final(ring).state() == old(ring).state(),
            final(ring).produced() == old(ring).produced(),
            final(ring).finished() == latch_after_signal(old(ring).finished(), self.finished()),
    {
        let mut writer = self;
        writer.mark_as_finished(ring);
    }
}

/// A writer of a ring with several producers.
pub struct RBWriterClonable<T: Sized + Clone, const N: usize> {
    finished: bool,
    _marker: PhantomData<T>,
}

impl<T: Sized + Clone, const N: usize> RBWriterClonable<T, N> {
    /// This writer has signalled its end.
    pub closed spec fn finished(&self) -> bool {
        self.finished
    }

    /// Appends `value` to `ring`.
    pub fn put(&mut self, ring: &mut MPRingBuffer<T, N>, value: T)
        requires
            old(ring).wf(),
            old(ring).state().next_write < usize::MAX,
        ensures
            final(self).finished() == old(self).finished(),
            final(ring).wf(),
            final(ring).state() == old(ring).state().put(value),
            final(ring).produced() == old(ring).produced().push(value),
            final(ring).producers() == old(ring).producers(),
    {
        ring.put(value);
    }

    /// Signals the end of this writer: counts it among the finished
    /// producers of `ring`, unless this writer has signalled before.
    pub fn mark_as_finished(&mut self, ring: &mut MPRingBuffer<T, N>)
        requires
            old(ring).wf(),
            !old(self).finished() ==> old(ring).producers().finished < usize::MAX,
        ensures
            final(self).finished(),
            final(ring).wf(),
            final(ring).state() == old(ring).state(),
            final(ring).produced() == old(ring).produced(),
            final(ring).producers() == old(ring).producers().signal(old(self).finished()),
    {
        if signal_once(&mut self.finished) {
            ring.mark_as_finished();
        }
    }

    /// Gives the writer up, with the signal of `mark_as_finished` if it was
    /// not given before.
    pub fn release(self, ring: &mut MPRingBuffer<T, N>)
        requires
            old(ring).wf(),
            !self.finished() ==> old(ring).producers().finished < usize::MAX,
        ensures
            final(ring).wf(),
            final(ring).state() == old(ring).state(),
            final(ring).produced() == old(ring).produced(),
            final(ring).producers() == old(ring).producers().signal(self.finished()),
    {
        let mut writer = self;
        writer.mark_as_finished(ring);
    }

    /// Registers one more producer with `ring` and hands out its writer,
    /// which has not signalled its end whatever this one has done.
    pub fn clone(&self, ring: &mut MPRingBuffer<T, N>) -> (fresh: Self)
        requires
            old(ring).wf(),
            old(ring).producers().registered < usize::MAX,
        ensures
            !fresh.finished(),
            final(ring).wf(),
            final(ring).state() == old(ring).state(),
            final(ring).produced() == old(ring).produced(),
            final(ring).producers() == old(ring).producers().register(),
    {
        ring.producer_count = ring.producer_count + 1;
        RBWriterClonable { finished: false, _marker: PhantomData }
    }
}

} // verus!
