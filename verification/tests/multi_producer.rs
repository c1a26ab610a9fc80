use broadcast_ring::index::is_valid_capacity;
use broadcast_ring::ringbuffer::{MPRingBuffer, RBContainer};

fn shuffled(count: usize, seed: u64) -> Vec<u32> {
    let mut state = seed;
    let mut values = Vec::with_capacity(count);
    for _ in 0..count {
        state = state.wrapping_mul(6364136223846793005).wrapping_add(1442695040888963407);
        values.push((state >> 32) as u32);
    }
    values
}

#[test]
fn two_producers_two_consumers() {
    let size = 5000;
    assert!(is_valid_capacity(2048));
    let mut ring = MPRingBuffer::<u32, 2048>::new();
    let (reader_factory, writer_factory) = ring.split();
    let input1 = shuffled(size, 2);
    let input2 = shuffled(size, 3);

    let mut final_result = input1.iter().chain(input2.iter()).cloned().collect::<Vec<_>>();
    final_result.sort();

    let mut inputs = vec![input1, input2];
    let mut writers = Vec::new();
    for _ in 0..2 {
        let writer = writer_factory.clone(&mut ring);
        let randomized_input = inputs.pop().expect("No input left");
        writers.push((writer, randomized_input));
    }

    // otherwise the extra writer will keep the readers from finishing
    writer_factory.release(&mut ring);

    let mut readers = (0..10).map(|_| reader_factory.clone()).collect::<Vec<_>>();
    let mut results = (0..10).map(|_| Vec::new()).collect::<Vec<Vec<u32>>>();

    // The two writers take turns, a hundred values at a time, and the
    // readers read between the turns.
    for turn in 0..(size / 100) {
        for (writer, randomized_input) in writers.iter_mut() {
            for value in &randomized_input[turn * 100..(turn + 1) * 100] {
                writer.put(&mut ring, *value);
            }
            for (reader, result) in readers.iter_mut().zip(results.iter_mut()) {
                assert!(!reader.is_finished(&ring));
                while let Some(value) = reader.next(&ring) {
                    result.push(value.clone());
                }
            }
        }
    }
    for (writer, _) in writers {
        writer.release(&mut ring);
    }

    for (i, (reader, result)) in readers.iter_mut().zip(results.iter_mut()).enumerate() {
        while !reader.is_finished(&ring) {
            while let Some(value) = reader.next(&ring) {
                result.push(value.clone());
            }
        }
        result.sort();
        assert_eq!(result.len(), final_result.len(), "thread {i} failed, length not equal");
        assert_eq!(*result, final_result, "thread {i} failed, content not equal");
    }
}

#[test]
fn mpsc_counter_stress_test() {
    const MAX_EVENTS: usize = 1_000_000;
    const BUF_SIZE: usize = 32768;

    assert!(is_valid_capacity(BUF_SIZE));
    let mut ring = MPRingBuffer::<i32, BUF_SIZE>::new();
    let (mut rx, mut tx) = ring.split();
    let mut tx2 = tx.clone(&mut ring);

    let mut sink: i32 = 0;
    let mut sent = 0;
    while sent < MAX_EVENTS {
        // Each producer puts a burst, then the consumer catches up.
        for _ in 0..10_000 {
            tx.put(&mut ring, 1);
        }
        for _ in 0..10_000 {
            tx2.put(&mut ring, 1);
        }
        sent += 10_000;
        while let Some(value) = rx.next(&ring) {
            sink += *value;
        }
        assert!(!rx.is_finished(&ring));
    }
    tx.mark_as_finished(&mut ring);
    assert!(!rx.is_finished(&ring));
    tx2.mark_as_finished(&mut ring);

    while !rx.is_finished(&ring) {
        while let Some(value) = rx.next(&ring) {
            sink += *value;
        }
    }

    let final_count = sink as usize;
    assert_eq!(final_count, MAX_EVENTS * 2, "Expected {}, got {}", MAX_EVENTS * 2, final_count);
}

#[test]
fn mpsc_small_buffer_test() {
    // A tiny buffer, so that the producers wrap around the consumer.
    const MAX_EVENTS: usize = 1_000_000;
    const BUF_SIZE: usize = 64;

    assert!(is_valid_capacity(BUF_SIZE));
    let mut ring = MPRingBuffer::<i32, BUF_SIZE>::new();
    let (mut rx, mut tx) = ring.split();
    let mut tx2 = tx.clone(&mut ring);

    let mut write_count: usize = 0;
    let mut sink: i32 = 0;
    for i in 0..MAX_EVENTS {
        tx.put(&mut ring, 1);
        write_count += 1;
        tx2.put(&mut ring, 1);
        write_count += 1;
        if i % 10 == 0 {
            // The consumer gets a turn only now and then, and reads a few.
            for _ in 0..8 {
                if let Some(value) = rx.next(&ring) {
                    sink += *value;
                }
            }
        }
    }
    tx.mark_as_finished(&mut ring);
    tx2.mark_as_finished(&mut ring);

    while !rx.is_finished(&ring) {
        while let Some(value) = rx.next(&ring) {
            sink += *value;
        }
    }

    let total_written = write_count;
    let final_count = sink as usize;
    assert_eq!(total_written, 2 * MAX_EVENTS);
    assert!(
        final_count <= total_written,
        "Read more than written! read={}, written={}",
        final_count,
        total_written
    );
    // A read never skips a position, so the reader made one read for each.
    assert_eq!(final_count, total_written);
    assert!(rx.is_finished(&ring));
}

#[test]
fn a_fresh_ring_with_no_writer_counts_as_finished() {
    let ring = MPRingBuffer::<u32, 2>::new();
    assert!(ring.is_finished());
    assert_eq!(ring.next_readable(), 0);
    assert_eq!(ring.retrieve(0), None);
}

#[test]
fn finished_only_after_the_last_clone_is_gone() {
    let mut ring = MPRingBuffer::<u32, 16>::new();
    let (mut reader, factory) = ring.split();
    assert!(!ring.is_finished());
    let mut first = factory.clone(&mut ring);
    let mut second = factory.clone(&mut ring);
    let mut third = factory.clone(&mut ring);
    factory.release(&mut ring);
    assert!(!ring.is_finished());

    for value in 0..4 {
        first.put(&mut ring, value);
        second.put(&mut ring, 10 + value);
        third.put(&mut ring, 20 + value);
    }
    first.release(&mut ring);
    assert!(!ring.is_finished());
    second.release(&mut ring);
    assert!(!ring.is_finished());
    assert!(!reader.is_finished(&ring));
    third.release(&mut ring);
    assert!(ring.is_finished());

    let mut seen = Vec::new();
    while !reader.is_finished(&ring) {
        while let Some(value) = reader.next(&ring) {
            seen.push(*value);
        }
    }
    assert_eq!(seen, vec![0, 10, 20, 1, 11, 21, 2, 12, 22, 3, 13, 23]);
}

#[test]
fn a_writer_is_counted_once_however_often_it_marks() {
    let mut ring = MPRingBuffer::<u32, 2>::new();
    let (reader, mut first) = ring.split();
    let mut second = first.clone(&mut ring);
    first.mark_as_finished(&mut ring);
    first.mark_as_finished(&mut ring);
    first.mark_as_finished(&mut ring);
    // Were the first writer counted twice, the ring would be finished here.
    assert!(!ring.is_finished());
    first.release(&mut ring);
    assert!(!ring.is_finished());
    second.mark_as_finished(&mut ring);
    assert!(ring.is_finished());
    second.release(&mut ring);
    assert!(ring.is_finished());
    assert!(reader.is_finished(&ring));
}

#[test]
fn a_clone_of_a_finished_writer_is_a_live_writer() {
    let mut ring = MPRingBuffer::<u32, 2>::new();
    let (mut reader, mut first) = ring.split();
    first.mark_as_finished(&mut ring);
    assert!(ring.is_finished());
    // The latch opens again when a writer is cloned after all had finished.
    let mut second = first.clone(&mut ring);
    assert!(!ring.is_finished());
    second.put(&mut ring, 9);
    assert_eq!(reader.next(&ring), Some(&9));
    second.release(&mut ring);
    assert!(reader.is_finished(&ring));
}

#[test]
fn an_overrun_reader_of_many_producers_is_handed_the_newer_values() {
    let mut ring = MPRingBuffer::<u32, 2>::new();
    let (mut reader, mut first) = ring.split();
    let mut second = first.clone(&mut ring);
    first.put(&mut ring, 1);
    second.put(&mut ring, 2);
    first.put(&mut ring, 3);
    assert_eq!(ring.next_readable(), 3);
    assert_eq!(reader.next(&ring), Some(&3));
    assert_eq!(reader.next(&ring), Some(&2));
    assert_eq!(reader.next(&ring), Some(&3));
    assert_eq!(reader.next(&ring), None);
}

#[test]
fn every_reader_observes_what_all_writers_put() {
    let mut ring = MPRingBuffer::<u32, 64>::new();
    let (reader, mut first) = ring.split();
    let mut second = first.clone(&mut ring);
    let mut third = first.clone(&mut ring);
    let mut expected = Vec::new();
    for round in 0..7u32 {
        first.put(&mut ring, round);
        expected.push(round);
        if round % 2 == 0 {
            second.put(&mut ring, 100 + round);
            expected.push(100 + round);
        }
        third.put(&mut ring, 200 + round);
        third.put(&mut ring, 300 + round);
        expected.push(200 + round);
        expected.push(300 + round);
    }
    first.release(&mut ring);
    second.release(&mut ring);
    third.release(&mut ring);
    for _ in 0..3 {
        let mut clone = reader.clone();
        let mut seen = Vec::new();
        while !clone.is_finished(&ring) {
            while let Some(value) = clone.next(&ring) {
                seen.push(*value);
            }
        }
        assert_eq!(seen, expected);
        // What the first writer put comes out in the order in which it put it.
        let of_first = seen.iter().cloned().filter(|value| *value < 100).collect::<Vec<_>>();
        assert_eq!(of_first, (0..7).collect::<Vec<_>>());
    }
}
