//! Telling that no writer is left.
//!
//! A ring with one producer has a latch, which its writer sets. A ring with
//! several producers counts the writers it has handed out and those that
//! have signalled their end; it is finished while the two counts agree.

use vstd::prelude::*;
use crate::tally::{lemma_tally_bounds, lemma_tally_push, lemma_tally_remove, lemma_tally_update, tally};

verus! {

/// The count of the producers of a ring: how many were registered, and how
/// many of them have finished.
pub struct Producers {
    /// The writers handed out so far.
    pub registered: nat,
    /// The writers that have signalled their end.
    pub finished: nat,
}

impl Producers {
    /// No writer was handed out yet.
    pub open spec fn none() -> Self {
        Producers { registered: 0, finished: 0 }
    }

    /// One more writer is handed out.
    pub open spec fn register(self) -> Self {
        Producers { registered: self.registered + 1, ..self }
    }

    /// One writer signals its end.
    pub open spec fn finish(self) -> Self {
        Producers { finished: self.finished + 1, ..self }
    }

    /// What a writer's signal leaves: a writer that has signalled before
    /// (`done`) changes nothing, another is counted once.
    pub open spec fn signal(self, done: bool) -> Self {
        if done {
            self
        } else {
            self.finish()
        }
    }

    /// As many writers have finished as were registered.
    pub open spec fn all_finished(self) -> bool {
        self.finished == self.registered
    }

    /// A writer is counted once: after its signal it has signalled, and a
    /// further signal, or giving it up, leaves the counts as they are.
    pub proof fn lemma_signal_counts_once(self, done: bool)
        ensures
            self.signal(done).signal(true) == self.signal(done),
            self.signal(done).registered == self.registered,
            self.signal(done).finished == self.finished + if done {
                0nat
            } else {
                1nat
            },
    {
    }
}

/// The latch of a ring with one producer after that producer's signal: it
/// is set by a writer that has not signalled before (`done` is false), and
/// stays as it is otherwise.
pub open spec fn latch_after_signal(latch: bool, done: bool) -> bool {
    latch || !done
}

/// A signal sets the latch of a writer that had not signalled, a set latch
/// stays set, and a second signal of the same writer, which by then has
/// signalled, changes nothing.
pub proof fn lemma_latch_signal(latch: bool, done: bool)
    ensures
        !done ==> latch_after_signal(latch, done),
        latch ==> latch_after_signal(latch, done),
        latch_after_signal(latch_after_signal(latch, done), true) == latch_after_signal(
            latch,
            done,
        ),
{
}

/// The writers that have not signalled their end.
pub open spec fn is_active() -> spec_fn(bool) -> bool {
    |done: bool| !done
}

/// The writers of a ring with several producers that are alive, each with
/// the mark of whether it has signalled its end, beside the ring's counts.
pub struct Crew {
    /// The counts of the ring.
    pub producers: Producers,
    /// For each living writer, whether it has signalled.
    pub writers: Seq<bool>,
}

impl Crew {
    /// A ring that has handed out no writer.
    pub open spec fn start() -> Self {
        Crew { producers: Producers::none(), writers: Seq::empty() }
    }

    /// A writer is handed out, by a split or as a clone: it is registered,
    /// and has not signalled.
    pub open spec fn join(self) -> Self {
        Crew { producers: self.producers.register(), writers: self.writers.push(false) }
    }

    /// The writer at `writer` signals its end.
    pub open spec fn signal(self, writer: int) -> Self {
        Crew {
            producers: self.producers.signal(self.writers[writer]),
            writers: self.writers.update(writer, true),
        }
    }

    /// The writer at `writer` is given up, which signals its end if it has
    /// not done so itself.
    pub open spec fn leave(self, writer: int) -> Self {
        Crew {
            producers: self.producers.signal(self.writers[writer]),
            writers: self.writers.remove(writer),
        }
    }

    /// The counts account for every writer: those registered are those that
    /// finished and those alive that have not signalled.
    pub open spec fn balanced(self) -> bool {
        self.producers.registered == self.producers.finished + tally(self.writers, is_active())
    }

    /// Before any writer is handed out the counts are balanced.
    pub proof fn lemma_start_balanced()
        ensures
            Self::start().balanced(),
            Self::start().producers.all_finished(),
    {
    }

    /// Handing out a writer keeps the counts balanced.
    pub proof fn lemma_join_balanced(self)
        requires
            self.balanced(),
        ensures
            self.join().balanced(),
    {
        lemma_tally_push(self.writers, is_active(), false);
    }

    /// A signal keeps the counts balanced, the first of a writer and every
    /// later one; so does giving a writer up, whether it has signalled or
    /// not.
    pub proof fn lemma_balanced(self, writer: int)
        requires
            self.balanced(),
            0 <= writer < self.writers.len(),
        ensures
            self.signal(writer).balanced(),
            self.leave(writer).balanced(),
    {
        lemma_tally_update(self.writers, is_active(), writer, true);
        lemma_tally_remove(self.writers, is_active(), writer);
    }

    /// While the counts are balanced, the ring is finished exactly when no
    /// living writer is left that has not signalled: not before the last
    /// one goes, and from then on. With no writer alive it is finished.
    pub proof fn lemma_finished_with_last(self)
        requires
            self.balanced(),
        ensures
            self.producers.all_finished() <==> forall|i: int|
                0 <= i < self.writers.len() ==> #[trigger] self.writers[i],
            self.writers.len() == 0 ==> self.producers.all_finished(),
    {
        lemma_tally_bounds(self.writers, is_active());
        if self.producers.all_finished() {
            assert forall|i: int| 0 <= i < self.writers.len() implies #[trigger] self.writers[i] by {
                assert(!is_active()(self.writers[i]));
            }
        }
        if forall|i: int| 0 <= i < self.writers.len() ==> #[trigger] self.writers[i] {
            assert forall|i: int| 0 <= i < self.writers.len() implies !is_active()(
                #[trigger] self.writers[i],
            ) by {
                assert(self.writers[i]);
            }
        }
    }

    /// A second signal of a writer changes nothing.
    pub proof fn lemma_signal_twice(self, writer: int)
        requires
            0 <= writer < self.writers.len(),
        ensures
            self.signal(writer).signal(writer) == self.signal(writer),
    {
        assert(self.signal(writer).signal(writer).writers =~= self.signal(writer).writers);
    }

    /// Giving up a writer that has signalled counts nothing more.
    pub proof fn lemma_leave_after_signal(self, writer: int)
        requires
            0 <= writer < self.writers.len(),
        ensures
            self.signal(writer).leave(writer).producers == self.signal(writer).producers,
            self.signal(writer).leave(writer).producers == self.leave(writer).producers,
    {
    }
}

} // verus!
