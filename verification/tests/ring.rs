use graphex::ring::Ring;

#[test]
fn new_ring_is_empty() {
    let ring = Ring::new(4);
    assert_eq!(ring.len(), 0);
    assert_eq!(ring.capacity(), 4);
    assert!(!ring.is_full());
}

#[test]
fn ring_fills_in_insertion_order() {
    let mut ring = Ring::new(3);
    ring.push(7);
    assert_eq!(ring.len(), 1);
    assert_eq!(ring.tail(), 7);
    assert_eq!(ring.head(), 7);
    ring.push(9);
    ring.push(11);
    assert!(ring.is_full());
    assert_eq!(ring.tail(), 7);
    assert_eq!(ring.head(), 11);
}

#[test]
fn full_ring_evicts_the_oldest_first() {
    let mut ring = Ring::new(3);
    for value in [1u32, 2, 3, 4] {
        ring.push(value);
    }
    assert_eq!(ring.len(), 3);
    assert_eq!(ring.tail(), 2);
    assert_eq!(ring.head(), 4);
    ring.push(5);
    assert_eq!(ring.tail(), 3);
    assert_eq!(ring.head(), 5);
}

#[test]
fn ring_wraps_around_many_times() {
    let mut ring = Ring::new(4);
    for value in 0u32..103 {
        ring.push(value);
        let held: u32 = if value < 4 { value + 1 } else { 4 };
        assert_eq!(ring.len(), held as usize);
        assert_eq!(ring.head(), value);
        assert_eq!(ring.tail(), value + 1 - held);
    }
}

#[test]
fn ring_of_one_slot_keeps_the_newest() {
    let mut ring = Ring::new(1);
    ring.push(5);
    ring.push(6);
    assert_eq!(ring.len(), 1);
    assert_eq!(ring.head(), 6);
    assert_eq!(ring.tail(), 6);
}

#[test]
fn ring_without_slots_stays_empty() {
    let mut ring = Ring::new(0);
    ring.push(5);
    assert_eq!(ring.len(), 0);
    assert_eq!(ring.capacity(), 0);
    assert!(ring.is_full());
}
