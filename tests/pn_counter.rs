use kv_crdt::pn_counter::PNCounter;
use kv_crdt::Merge;

fn id(s: &str) -> String {
    String::from(s)
}

#[test]
fn test_local_increments_and_decremenets() {
    let node = id("a");
    let mut counter = PNCounter::new(&node, 0, 0);
    counter.increment(&node);
    counter.increment(&node);
    counter.decrement(&node);

    assert_eq!(counter.value(), 1);
}

#[test]
fn merge_maintains_total() {
    let (a, b) = (id("a"), id("b"));
    let mut replica_a = PNCounter::new(&a, 0, 0);
    replica_a.increment(&a);

    let mut replica_b = PNCounter::new(&b, 1, 0);
    replica_b.increment(&b);

    replica_a.merge(&mut replica_b);

    assert_eq!(replica_a.value(), 3);

    let (c, d) = (id("c"), id("d"));
    let mut replica_c = PNCounter::new(&c, 0, 0);
    replica_c.increment(&c);
    replica_c.increment(&c);
    replica_c.decrement(&c);

    let mut replica_d = PNCounter::new(&d, 0, 0);
    replica_d.increment(&d);
    replica_d.increment(&d);
    replica_d.increment(&d);

    replica_c.merge(&mut replica_d);
    assert_eq!(replica_c.value(), 4);
}

#[test]
fn test_merge_is_commutative() {
    let (a, b) = (id("a"), id("b"));
    let mut replica_a = PNCounter::new(&a, 0, 0);
    replica_a.increment(&a);

    let mut replica_b = PNCounter::new(&b, 1, 0);
    replica_b.decrement(&b);

    let mut a_then_b = replica_a.clone();
    a_then_b.merge(&mut replica_b);

    let mut b_then_a = replica_b.clone();
    b_then_a.merge(&mut replica_a);

    assert_eq!(a_then_b.value(), b_then_a.value());
}

#[test]
fn merge_with_itself_keeps_value() {
    let a = id("a");
    let mut c = PNCounter::new(&a, 7, 2);
    let copy = c.duplicate();
    c.merge(&copy);
    c.merge(&copy);
    assert_eq!(c.value(), 5);
}

#[test]
fn merge_takes_max_per_origin_not_sum() {
    let a = id("a");
    let mut x = PNCounter::new(&a, 4, 0);
    let mut y = x.clone();
    y.increment(&a);
    x.merge(&y);
    assert_eq!(x.value(), 5);
    x.merge(&y);
    assert_eq!(x.value(), 5);
}

#[test]
fn merge_is_associative_on_values() {
    let (a, b, c) = (id("a"), id("b"), id("c"));
    let ra = PNCounter::new(&a, 3, 1);
    let rb = PNCounter::new(&b, 2, 5);
    let mut rc = PNCounter::new(&c, 9, 0);
    rc.decrement(&a);

    let mut left = ra.clone();
    left.merge(&rb);
    left.merge(&rc);

    let mut right_inner = rb.clone();
    right_inner.merge(&rc);
    let mut right = ra.clone();
    right.merge(&right_inner);

    assert_eq!(left.value(), right.value());
    assert_eq!(left.value(), (3 + 2 + 9) - (1 + 5));
}

#[test]
fn value_can_be_negative() {
    let a = id("a");
    let c = PNCounter::new(&a, 1, 4);
    assert_eq!(c.value(), -3);
}

#[test]
fn increment_by_refuses_overflow() {
    let a = id("a");
    let mut c = PNCounter::new(&a, u64::MAX - 1, 0);
    assert!(c.increment_by(&a, 1));
    assert_eq!(c.value(), u64::MAX as i128);
    assert!(!c.increment_by(&id("b"), 1));
    assert_eq!(c.value(), u64::MAX as i128);
    assert!(c.decrement_by(&a, 10));
    assert_eq!(c.value(), u64::MAX as i128 - 10);
}

#[test]
fn try_merge_refuses_overflow_and_keeps_state() {
    let (a, b) = (id("a"), id("b"));
    let mut x = PNCounter::new(&a, u64::MAX, 0);
    let y = PNCounter::new(&b, 1, 0);
    assert!(!x.try_merge(&y));
    assert_eq!(x.value(), u64::MAX as i128);
    let z = PNCounter::new(&a, 3, 0);
    assert!(x.try_merge(&z));
    assert_eq!(x.value(), u64::MAX as i128);
}

#[test]
fn from_tallies_validates() {
    let ok = PNCounter::from_tallies(vec![(id("a"), 3), (id("b"), 4)], vec![(id("a"), 1)]);
    assert_eq!(ok.map(|c| c.value()), Some(6));
    let dup = PNCounter::from_tallies(vec![(id("a"), 3), (id("a"), 4)], vec![]);
    assert!(dup.is_none());
    let big = PNCounter::from_tallies(vec![(id("a"), u64::MAX), (id("b"), 1)], vec![]);
    assert!(big.is_none());
}

#[test]
fn tallies_round_trip() {
    let (a, b) = (id("a"), id("b"));
    let mut x = PNCounter::new(&a, 2, 1);
    x.increment(&b);
    let y = PNCounter::from_tallies(x.increments(), x.decrements()).unwrap();
    assert_eq!(y.value(), 2);
    let mut p = y.increments();
    p.sort();
    assert_eq!(p, vec![(a.clone(), 2), (b.clone(), 1)]);
}
