use vse_rs::IdTracker;

#[test]
fn reserve_returns_consecutive_blocks() {
    let mut tracker = IdTracker::default();
    assert_eq!(tracker.reserve(1), 0);
    assert_eq!(tracker.reserve(3), 1);
    assert_eq!(tracker.reserve(2), 4);
    assert_eq!(tracker.next_pin(), 6);
}

#[test]
fn new_tracker_starts_at_zero() {
    let tracker = IdTracker::new();
    assert_eq!(tracker.next_pin(), 0);
}

#[test]
fn reserved_blocks_do_not_overlap_and_bases_increase() {
    let counts: [usize; 6] = [1, 3, 2, 1, 5, 3];
    let mut tracker = IdTracker::new();
    let mut blocks: Vec<(usize, usize)> = Vec::new();
    for count in counts {
        let base = tracker.reserve(count);
        blocks.push((base, base + count));
    }
    for i in 0..blocks.len() {
        for j in (i + 1)..blocks.len() {
            assert!(blocks[i].0 < blocks[j].0);
            assert!(blocks[i].1 <= blocks[j].0);
        }
    }
    assert_eq!(tracker.next_pin(), 15);
}

#[test]
fn reserving_nothing_moves_nothing() {
    let mut tracker = IdTracker::new();
    assert_eq!(tracker.reserve(4), 0);
    assert_eq!(tracker.reserve(0), 4);
    assert_eq!(tracker.reserve(0), 4);
    assert_eq!(tracker.reserve(1), 4);
    assert_eq!(tracker.next_pin(), 5);
}

#[test]
fn clear_starts_a_fresh_namespace() {
    let mut tracker = IdTracker::new();
    tracker.reserve(7);
    tracker.clear();
    assert_eq!(tracker.next_pin(), 0);
    assert_eq!(tracker.reserve(2), 0);
}
