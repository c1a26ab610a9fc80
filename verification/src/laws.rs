//! What holds of every container, reader and writer.

use vstd::prelude::*;
use crate::finish::{latch_after_signal, Crew, Producers};
use crate::protocol::newest_at;
use crate::ringbuffer::{MPRingBuffer, RBContainer, RBReader, RBWriter, RBWriterClonable};
use crate::run::{union_by, values, Phase, PutRecord, Run};

verus! {

/// A container never has more positions published than reserved.
pub proof fn lemma_published_within_reserved<T: Sized + Clone, C: RBContainer<T>>(ring: &C)
    requires
        ring.wf(),
    ensures
        ring.state().next_readable <= ring.state().next_write,
        ring.state().next_readable == ring.produced().len(),
{
    ring.lemma_wf();
}

/// A read at or beyond the published count hands out nothing.
pub proof fn lemma_read_at_published<T: Sized + Clone, C: RBContainer<T>>(ring: &C, cursor: nat)
    requires
        cursor >= ring.state().next_readable,
    ensures
        ring.state().retrieve(cursor) is None,
{
}

/// A reader that lags by no more than one capacity is handed the value that
/// was put at its position: read after read it observes the values in the
/// order in which they were put, whenever the puts fall between its reads.
pub proof fn lemma_read_in_order<T: Sized + Clone, C: RBContainer<T>>(ring: &C, cursor: nat)
    requires
        ring.wf(),
        cursor < ring.produced().len(),
        ring.produced().len() - cursor <= ring.state().capacity,
    ensures
        ring.state().retrieve(cursor) == Some(ring.produced()[cursor as int]),
{
    ring.lemma_wf();
    ring.state().lemma_retrieve_mirrored(ring.produced(), cursor);
}

/// A reader that lags by more than one capacity is handed no error and no
/// old value: it is handed the newest value that was put into the slot of
/// its position, which was put at a later position.
pub proof fn lemma_read_after_overrun<T: Sized + Clone, C: RBContainer<T>>(ring: &C, cursor: nat)
    requires
        ring.wf(),
        cursor < ring.produced().len(),
        ring.produced().len() - cursor > ring.state().capacity,
    ensures
        ({
            let newest = newest_at(cursor, ring.produced().len(), ring.state().capacity);
            &&& cursor < newest < ring.produced().len()
            &&& ring.produced().len() - newest <= ring.state().capacity
            &&& ring.state().retrieve(cursor) == Some(ring.produced()[newest as int])
        }),
{
    ring.lemma_wf();
    ring.state().lemma_retrieve_mirrored(ring.produced(), cursor);
    crate::protocol::lemma_newest_at(cursor, ring.produced().len(), ring.state().capacity);
}

/// A reader that starts at position zero on a container that has not
/// wrapped drains all that was put, in order.
pub proof fn lemma_fresh_reader_drains_history<T: Sized + Clone, C: RBContainer<T>>(
    ring: &C,
    reader: &RBReader<T, C>,
)
    requires
        ring.wf(),
        reader.cursor() == 0,
        ring.produced().len() <= ring.state().capacity,
    ensures
        ring.state().drain(reader.cursor()) == ring.produced(),
{
    ring.lemma_wf();
    ring.state().lemma_drain_mirrored(ring.produced(), 0);
    assert(ring.produced().subrange(0, ring.produced().len() as int) =~= ring.produced());
}

/// Two readers that start together drain the same values in the same
/// order; what one of them has read takes nothing from the other.
pub proof fn lemma_clones_agree<T: Sized + Clone, C: RBContainer<T>>(
    ring: &C,
    one: &RBReader<T, C>,
    other: &RBReader<T, C>,
)
    requires
        one.cursor() == other.cursor(),
    ensures
        ring.state().drain(one.cursor()) == ring.state().drain(other.cursor()),
        ring.state().retrieve(one.cursor()) == ring.state().retrieve(other.cursor()),
{
}

/// Two readers are handed the same value at the same position, whenever
/// each of them gets there: one while the container held less, the other
/// after more was put, neither lagging by more than one capacity.
pub proof fn lemma_readers_agree_over_time<T: Sized + Clone, C: RBContainer<T>>(
    earlier: &C,
    later: &C,
    cursor: nat,
)
    requires
        earlier.wf(),
        later.wf(),
        earlier.produced().len() <= later.produced().len(),
        earlier.produced() == later.produced().subrange(0, earlier.produced().len() as int),
        cursor < earlier.produced().len(),
        earlier.produced().len() - cursor <= earlier.state().capacity,
        later.produced().len() - cursor <= later.state().capacity,
    ensures
        earlier.state().retrieve(cursor) == later.state().retrieve(cursor),
        earlier.state().retrieve(cursor) == Some(later.produced()[cursor as int]),
{
    lemma_read_in_order(earlier, cursor);
    lemma_read_in_order(later, cursor);
}

/// A reader whose cursor has reached the published count of a finished
/// container is drained.
pub proof fn lemma_drained_when_finished<T: Sized + Clone, C: RBContainer<T>>(
    ring: &C,
    reader: &RBReader<T, C>,
)
    requires
        ring.finished(),
        reader.cursor() == ring.state().next_readable,
    ensures
        reader.drained(ring),
{
}

/// Once the last writer of a ring with several producers is given up, a
/// reader that has read up to the published count is drained.
pub proof fn lemma_drained_after_last_writer<T: Sized + Clone, const N: usize>(
    ring: &MPRingBuffer<T, N>,
    crew: Crew,
    reader: &RBReader<T, MPRingBuffer<T, N>>,
)
    requires
        crew.balanced(),
        crew.producers == ring.producers(),
        crew.writers.len() == 0,
        reader.cursor() == ring.state().next_readable,
    ensures
        reader.drained(ring),
{
    crew.lemma_finished_with_last();
}

/// When the writers of a run have completed their puts on a ring that has
/// not wrapped, a reader that starts at position zero drains the values in
/// the order of their reservation; as a multiset they are the union of what
/// each writer put.
pub proof fn lemma_settled_drain_is_union<T>(run: Run<T>, writers: nat)
    requires
        run.consistent(),
        run.settled(),
        run.puts.len() <= run.ring.capacity,
        forall|p: int| 0 <= p < run.puts.len() ==> (#[trigger] run.puts[p]).writer < writers,
    ensures
        run.ring.drain(0) == values(run.puts),
        run.ring.drain(0).to_multiset() == union_by(run.puts, writers),
{
    run.lemma_settled_mirrors();
    run.ring.lemma_drain_mirrored(values(run.puts), 0);
    assert(values(run.puts).subrange(0, values(run.puts).len() as int) =~= values(run.puts));
    crate::run::lemma_values_are_union(run.puts, writers);
}

/// The state of a container is a settled state of a run of the protocol:
/// the run in which one writer has put the container's history, each put
/// step by step. What holds of every settled run holds of every container.
pub proof fn lemma_container_is_settled_run<T: Sized + Clone, C: RBContainer<T>>(
    ring: &C,
    writer: nat,
)
    requires
        ring.wf(),
    ensures
        ({
            let run = Run {
                ring: ring.state(),
                puts: ring.produced().map_values(
                    |value: T| PutRecord { writer, value, phase: Phase::Published },
                ),
            };
            &&& run.consistent()
            &&& run.settled()
            &&& values(run.puts) == ring.produced()
        }),
{
    ring.lemma_wf();
    Run::lemma_mirror_is_settled(ring.state(), ring.produced(), writer);
}

/// The signal of a writer that has signalled before leaves the latch of a
/// ring with one producer as it is, whether it comes as a second call of
/// `mark_as_finished` or with `release`.
pub proof fn lemma_second_signal_keeps_latch<T: Sized + Clone, const N: usize>(
    writer: &RBWriter<T, N>,
    latch: bool,
)
    requires
        writer.finished(),
    ensures
        latch_after_signal(latch, writer.finished()) == latch,
{
}

/// The signal of a writer that has signalled before leaves the counts of a
/// ring with several producers as they are, whether it comes as a second
/// call of `mark_as_finished` or with `release`: no writer is counted
/// twice.
pub proof fn lemma_second_signal_keeps_counts<T: Sized + Clone, const N: usize>(
    writer: &RBWriterClonable<T, N>,
    producers: Producers,
)
    requires
        writer.finished(),
    ensures
        producers.signal(writer.finished()) == producers,
{
}

} // verus!
