use broadcast_ring::steps::{all_finished, drained, next_reservation, readable_slot, signal_once};

#[test]
fn nothing_is_readable_at_or_beyond_the_published_count() {
    assert_eq!(readable_slot(0, 0, 4), None);
    assert_eq!(readable_slot(3, 3, 4), None);
    assert_eq!(readable_slot(4, 3, 4), None);
    assert_eq!(readable_slot(usize::MAX, 3, 4), None);
    assert_eq!(readable_slot(usize::MAX, usize::MAX, 4), None);
}

#[test]
fn below_the_published_count_the_slot_of_the_cursor_is_readable() {
    assert_eq!(readable_slot(0, 1, 4), Some(0));
    assert_eq!(readable_slot(2, 3, 4), Some(2));
    assert_eq!(readable_slot(5, 9, 4), Some(1));
    assert_eq!(readable_slot(8, 9, 4), Some(0));
    assert_eq!(readable_slot(1023, 1024, 2), Some(1));
    assert_eq!(readable_slot(usize::MAX - 1, usize::MAX, 64), Some(62));
}

#[test]
fn the_next_reservation_is_the_next_position() {
    assert_eq!(next_reservation(0), 1);
    assert_eq!(next_reservation(41), 42);
    assert_eq!(next_reservation(usize::MAX - 1), usize::MAX);
}

#[test]
fn the_reservation_counter_stays_at_its_largest_value() {
    assert_eq!(next_reservation(usize::MAX), usize::MAX);
}

#[test]
fn the_latch_is_set_while_the_counts_agree() {
    assert!(all_finished(0, 0));
    assert!(all_finished(3, 3));
    assert!(!all_finished(3, 2));
    assert!(!all_finished(1, 0));
    assert!(!all_finished(2, 3));
}

#[test]
fn drained_takes_the_latch_and_the_whole_published_count() {
    assert!(drained(true, 0, 0));
    assert!(drained(true, 7, 7));
    assert!(!drained(false, 7, 7));
    assert!(!drained(true, 6, 7));
    assert!(!drained(false, 6, 7));
    assert!(!drained(true, 8, 7));
}

#[test]
fn only_the_first_signal_is_passed_on() {
    let mut done = false;
    assert!(signal_once(&mut done));
    assert!(done);
    assert!(!signal_once(&mut done));
    assert!(done);
    assert!(!signal_once(&mut done));
    assert!(done);
}
