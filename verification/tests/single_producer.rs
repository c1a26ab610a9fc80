use broadcast_ring::index::is_valid_capacity;
use broadcast_ring::ringbuffer::{RBContainer, RBReader, SPRingBuffer};

fn scrambled(count: usize, seed: u64) -> Vec<u32> {
    let mut state = seed;
    let mut values = Vec::with_capacity(count);
    for _ in 0..count {
        state = state.wrapping_mul(6364136223846793005).wrapping_add(1442695040888963407);
        values.push((state >> 32) as u32);
    }
    values
}

fn drain<const N: usize>(
    reader: &mut RBReader<u32, SPRingBuffer<u32, N>>,
    ring: &SPRingBuffer<u32, N>,
    into: &mut Vec<u32>,
) {
    while let Some(value) = reader.next(ring) {
        into.push(value.clone());
    }
}

#[test]
fn single_producer_two_consumers() {
    let size = 10000;
    assert!(is_valid_capacity(1024));
    let mut ring = SPRingBuffer::<u32, 1024>::new();
    let (reader_factory, writer_factory) = ring.split();
    let randomized_input = scrambled(size, 1);

    let mut writer = writer_factory;
    let mut readers = (0..10).map(|_| reader_factory.clone()).collect::<Vec<_>>();
    let mut results = (0..10).map(|_| Vec::new()).collect::<Vec<Vec<u32>>>();

    let mut cnt = 0;
    for value in randomized_input.iter() {
        writer.put(&mut ring, *value);
        cnt += 1;
        if cnt % 100 == 0 {
            for (reader, result) in readers.iter_mut().zip(results.iter_mut()) {
                assert!(!reader.is_finished(&ring));
                drain(reader, &ring, result);
            }
        }
    }
    writer.release(&mut ring);

    for (i, (reader, result)) in readers.iter_mut().zip(results.iter_mut()).enumerate() {
        while !reader.is_finished(&ring) {
            drain(reader, &ring, result);
        }
        assert_eq!(*result, randomized_input, "thread {i} failed, not equal");
    }
}

#[test]
fn four_values_then_finished() {
    let mut ring = SPRingBuffer::<u32, 4>::new();
    let (mut reader, mut writer) = ring.split();
    for value in [11, 22, 33, 44] {
        writer.put(&mut ring, value);
    }
    writer.mark_as_finished(&mut ring);
    assert!(!reader.is_finished(&ring));
    assert_eq!(reader.next(&ring), Some(&11));
    assert_eq!(reader.next(&ring), Some(&22));
    assert_eq!(reader.next(&ring), Some(&33));
    assert!(!reader.is_finished(&ring));
    assert_eq!(reader.next(&ring), Some(&44));
    assert_eq!(reader.next(&ring), None);
    assert!(reader.is_finished(&ring));
}

#[test]
fn a_fresh_ring_is_empty_and_open() {
    let ring = SPRingBuffer::<u32, 2>::new();
    let (mut reader, _writer) = ring.split();
    assert_eq!(ring.next_readable(), 0);
    assert!(!ring.is_finished());
    assert_eq!(ring.retrieve(0), None);
    assert_eq!(reader.next(&ring), None);
    assert!(!reader.is_finished(&ring));
}

#[test]
fn reading_at_the_published_count_hands_out_nothing() {
    let mut ring = SPRingBuffer::<u32, 8>::new();
    let (mut reader, mut writer) = ring.split();
    writer.put(&mut ring, 5);
    writer.put(&mut ring, 6);
    assert_eq!(ring.next_readable(), 2);
    assert_eq!(ring.retrieve(1), Some(&6));
    assert_eq!(ring.retrieve(2), None);
    assert_eq!(ring.retrieve(3), None);
    assert_eq!(ring.retrieve(usize::MAX), None);
    assert_eq!(reader.next(&ring), Some(&5));
    assert_eq!(reader.next(&ring), Some(&6));
    assert_eq!(reader.next(&ring), None);
    assert_eq!(reader.next(&ring), None);
    writer.put(&mut ring, 7);
    assert_eq!(reader.next(&ring), Some(&7));
    assert_eq!(reader.next(&ring), None);
}

#[test]
fn a_put_publishes_exactly_one_position() {
    let mut ring = SPRingBuffer::<u32, 4>::new();
    let (_reader, mut writer) = ring.split();
    for count in 1..=20usize {
        writer.put(&mut ring, count as u32);
        assert_eq!(ring.next_readable(), count);
    }
}

#[test]
fn a_reader_that_lags_by_a_full_lap_still_reads_in_order() {
    let mut ring = SPRingBuffer::<u32, 4>::new();
    let (mut reader, mut writer) = ring.split();
    for value in 0..4 {
        writer.put(&mut ring, value);
    }
    for value in 0..4 {
        assert_eq!(reader.next(&ring), Some(&value));
    }
    for value in 4..8 {
        writer.put(&mut ring, value);
    }
    for value in 4..8 {
        assert_eq!(reader.next(&ring), Some(&value));
    }
    assert_eq!(reader.next(&ring), None);
}

#[test]
fn an_overrun_reader_is_handed_the_newer_values() {
    let mut ring = SPRingBuffer::<u32, 4>::new();
    let (mut reader, mut writer) = ring.split();
    for value in 0..6 {
        writer.put(&mut ring, value);
    }
    // Positions 0 and 1 were overwritten by the values of positions 4 and 5.
    let mut seen = Vec::new();
    while let Some(value) = reader.next(&ring) {
        seen.push(*value);
    }
    assert_eq!(seen, vec![4, 5, 2, 3, 4, 5]);
    assert_eq!(ring.retrieve(0), Some(&4));
    assert_eq!(ring.retrieve(1), Some(&5));
    assert_eq!(ring.retrieve(2), Some(&2));
}

#[test]
fn the_smallest_ring_works() {
    assert!(is_valid_capacity(2));
    let mut ring = SPRingBuffer::<u32, 2>::new();
    let (mut reader, mut writer) = ring.split();
    let mut late = reader.clone();
    for round in 0..50u32 {
        writer.put(&mut ring, 2 * round);
        writer.put(&mut ring, 2 * round + 1);
        assert_eq!(ring.next_readable(), 2 * (round as usize + 1));
        assert_eq!(reader.next(&ring), Some(&(2 * round)));
        assert_eq!(reader.next(&ring), Some(&(2 * round + 1)));
        assert_eq!(reader.next(&ring), None);
    }
    // The late reader lags by 49 laps: each of its reads finds the newest
    // value of the slot.
    assert_eq!(late.next(&ring), Some(&98));
    assert_eq!(late.next(&ring), Some(&99));
    assert_eq!(late.next(&ring), Some(&98));
    writer.release(&mut ring);
    assert!(reader.is_finished(&ring));
    assert!(!late.is_finished(&ring));
}

#[test]
fn marking_twice_is_marking_once() {
    let mut ring = SPRingBuffer::<u32, 2>::new();
    let (reader, mut writer) = ring.split();
    assert!(!ring.is_finished());
    writer.mark_as_finished(&mut ring);
    assert!(ring.is_finished());
    writer.mark_as_finished(&mut ring);
    assert!(ring.is_finished());
    writer.release(&mut ring);
    assert!(ring.is_finished());
    assert!(reader.is_finished(&ring));
}

#[test]
fn a_writer_can_put_after_it_has_marked() {
    let mut ring = SPRingBuffer::<u32, 2>::new();
    let (mut reader, mut writer) = ring.split();
    writer.mark_as_finished(&mut ring);
    assert!(reader.is_finished(&ring));
    writer.put(&mut ring, 1);
    assert!(!reader.is_finished(&ring));
    assert_eq!(reader.next(&ring), Some(&1));
    assert!(reader.is_finished(&ring));
}

#[test]
fn clones_start_at_zero_and_read_on_their_own() {
    let mut ring = SPRingBuffer::<u32, 8>::new();
    let (mut first, mut writer) = ring.split();
    for value in [1, 2, 3] {
        writer.put(&mut ring, value);
    }
    assert_eq!(first.next(&ring), Some(&1));
    assert_eq!(first.next(&ring), Some(&2));
    let mut second = first.clone();
    assert_eq!(second.next(&ring), Some(&1));
    assert_eq!(first.next(&ring), Some(&3));
    assert_eq!(second.next(&ring), Some(&2));
    assert_eq!(second.next(&ring), Some(&3));
    assert_eq!(first.next(&ring), None);
    assert_eq!(second.next(&ring), None);
}

#[test]
fn values_that_are_not_copied_are_handed_out_by_reference() {
    let mut ring = SPRingBuffer::<String, 2>::new();
    let (mut reader, mut writer) = ring.split();
    writer.put(&mut ring, String::from("alpha"));
    writer.put(&mut ring, String::from("beta"));
    assert_eq!(reader.next(&ring).map(|value| value.as_str()), Some("alpha"));
    assert_eq!(reader.next(&ring).map(|value| value.as_str()), Some("beta"));
    writer.put(&mut ring, String::from("gamma"));
    assert_eq!(ring.retrieve(0).map(|value| value.as_str()), Some("gamma"));
}
