use broadcast_ring::index::{is_valid_capacity, slot_index};

#[test]
fn powers_of_two_from_two_on_are_valid_capacities() {
    for capacity in [2usize, 4, 8, 64, 1024, 2048, 32768, 1 << 20] {
        assert!(is_valid_capacity(capacity), "{capacity}");
    }
    assert!(is_valid_capacity(1usize << (usize::BITS - 1)));
}

#[test]
fn other_numbers_are_no_valid_capacities() {
    for capacity in [0usize, 1, 3, 5, 6, 7, 12, 100, 1023, 1025, usize::MAX] {
        assert!(!is_valid_capacity(capacity), "{capacity}");
    }
}

#[test]
fn slot_index_is_the_remainder() {
    assert_eq!(slot_index(0, 2), 0);
    assert_eq!(slot_index(1, 2), 1);
    assert_eq!(slot_index(2, 2), 0);
    assert_eq!(slot_index(3, 2), 1);
    assert_eq!(slot_index(13, 8), 5);
    assert_eq!(slot_index(1024, 1024), 0);
    assert_eq!(slot_index(10_000, 1024), 784);
    assert_eq!(slot_index(usize::MAX, 64), 63);
}

#[test]
fn slot_index_agrees_with_division_everywhere_near_a_lap() {
    for capacity in [2usize, 4, 16, 64] {
        for position in 0..(4 * capacity) {
            assert_eq!(slot_index(position, capacity), position % capacity);
            assert!(slot_index(position, capacity) < capacity);
        }
    }
}
