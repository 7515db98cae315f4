use uno_sim::reversible_ring::{Direction, ReversibleRing};

#[test]
fn direction_reverse() {
    assert_eq!(Direction::Clockwise.get_reverse(), Direction::CounterClockwise);
    assert_eq!(Direction::CounterClockwise.get_reverse(), Direction::Clockwise);
}

#[test]
fn ring_first_advance_lands_on_zero() {
    let mut ring = ReversibleRing::from_iter(vec![10, 20, 30]);
    assert_eq!(ring.len(), 3);
    assert_eq!(ring.next(), 0);
    assert_eq!(*ring.borrow_at(0), 10);
}

#[test]
fn ring_cycle_visits_each_position_once() {
    let mut ring = ReversibleRing::from_iter(vec![0, 1, 2, 3]);
    // Four consecutive advances with no reversal visit each position
    // exactly once, in increasing circular order.
    assert_eq!(ring.next(), 0);
    assert_eq!(ring.next(), 1);
    assert_eq!(ring.next(), 2);
    assert_eq!(ring.next(), 3);
    // The next lap starts over at the same position.
    assert_eq!(ring.next(), 0);
}

#[test]
fn ring_reverse_steps_back() {
    let mut ring = ReversibleRing::from_iter(vec![0, 1, 2, 3]);
    let first = ring.next();
    assert_eq!(first, 0);
    ring.reverse();
    // After a reversal the next advance returns the position
    // immediately before the first one, not after it.
    assert_eq!(ring.next(), 3);
    assert_eq!(ring.next(), 2);
}

#[test]
fn ring_skip_consumes_a_position() {
    let mut ring = ReversibleRing::from_iter(vec![0, 1, 2]);
    assert_eq!(ring.next(), 0);
    ring.skip();
    assert_eq!(ring.next(), 2);
    assert_eq!(ring.next(), 0);
}

#[test]
fn ring_remove_and_insert() {
    let mut ring = ReversibleRing::from_iter(vec![10, 20, 30]);
    let x = ring.remove_at(1);
    assert_eq!(x, 20);
    assert_eq!(ring.len(), 2);
    ring.insert_at(1, 25);
    assert_eq!(ring.len(), 3);
    assert_eq!(*ring.borrow_at(0), 10);
    assert_eq!(*ring.borrow_at(1), 25);
    assert_eq!(*ring.borrow_at(2), 30);
}
