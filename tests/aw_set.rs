use kv_crdt::aw_set::AWSet;
use kv_crdt::Merge;

fn tag(s: &str) -> String {
    String::from(s)
}

fn sorted(mut v: Vec<String>) -> Vec<String> {
    v.sort();
    v
}

#[test]
fn test_add_tag() {
    let mut replica_a: AWSet = AWSet::new();
    let tag = String::from("apple");
    replica_a.add_tag(tag.clone());
    assert_eq!(replica_a.was_added(&tag), true);
}

#[test]
fn add_then_remove_then_add() {
    let mut s = AWSet::new();
    s.add_tag(tag("x"));
    assert!(s.contains(&tag("x")));
    assert!(s.remove_tag(&tag("x")));
    assert!(!s.contains(&tag("x")));
    s.add_tag(tag("x"));
    assert!(s.contains(&tag("x")));
}

#[test]
fn removing_a_tag_never_added_is_reported() {
    let mut s = AWSet::new();
    assert!(!s.remove_tag(&tag("ghost")));
    assert!(s.current_tags().is_empty());
}

#[test]
fn add_wins_over_remove_that_did_not_see_it() {
    let mut origin = AWSet::new();
    origin.add_tag(tag("hiking"));
    let mut a = origin.clone();
    let mut b = origin.clone();
    a.remove_tag(&tag("hiking"));
    a.add_tag(tag("hiking"));
    b.remove_tag(&tag("hiking"));
    assert!(!b.contains(&tag("hiking")));

    let mut ab = a.clone();
    ab.merge(&b);
    let mut ba = b.clone();
    ba.merge(&a);
    assert!(ab.contains(&tag("hiking")));
    assert!(ba.contains(&tag("hiking")));
}

#[test]
fn scenario_add_on_one_node_remove_on_other() {
    let mut n1 = AWSet::new();
    let mut n2 = AWSet::new();
    n1.add_tag(tag("hiking"));
    assert!(!n2.remove_tag(&tag("hiking")));

    let n1_before = n1.clone();
    n1.merge(&n2);
    n2.merge(&n1_before);
    assert_eq!(n1.current_tags(), vec![tag("hiking")]);
    assert_eq!(n2.current_tags(), vec![tag("hiking")]);
}

#[test]
fn observed_remove_propagates() {
    let mut a = AWSet::new();
    a.add_tag(tag("t"));
    let mut b = a.clone();
    b.remove_tag(&tag("t"));
    a.merge(&b);
    assert!(!a.contains(&tag("t")));
}

#[test]
fn set_merge_idempotent_commutative_associative() {
    let mut a = AWSet::new();
    a.add_tag(tag("x"));
    a.add_tag(tag("y"));
    let mut b = AWSet::new();
    b.add_tag(tag("y"));
    b.remove_tag(&tag("y"));
    b.add_tag(tag("z"));
    let mut c = AWSet::new();
    c.add_tag(tag("w"));
    c.remove_tag(&tag("w"));

    let mut aa = a.clone();
    aa.merge(&a);
    assert_eq!(sorted(aa.current_tags()), sorted(a.current_tags()));

    let mut ab = a.clone();
    ab.merge(&b);
    let mut ba = b.clone();
    ba.merge(&a);
    assert_eq!(sorted(ab.current_tags()), sorted(ba.current_tags()));

    let mut ab_c = ab.clone();
    ab_c.merge(&c);
    let mut bc = b.clone();
    bc.merge(&c);
    let mut a_bc = a.clone();
    a_bc.merge(&bc);
    assert_eq!(sorted(ab_c.current_tags()), sorted(a_bc.current_tags()));
    assert_eq!(sorted(ab_c.current_tags()), vec![tag("x"), tag("z")]);
}

#[test]
fn from_history_round_trip_and_validation() {
    let mut a = AWSet::new();
    a.add_tag(tag("x"));
    a.remove_tag(&tag("x"));
    a.add_tag(tag("x"));
    a.add_tag(tag("y"));
    let b = AWSet::from_history(a.added_history(), a.removed_history()).unwrap();
    assert_eq!(sorted(b.current_tags()), vec![tag("x"), tag("y")]);
    let mut hist = b.added_history();
    hist.sort();
    assert_eq!(hist, vec![(tag("x"), vec![0, 1]), (tag("y"), vec![0])]);
    assert_eq!(b.removed_history(), vec![(tag("x"), vec![0])]);

    assert!(AWSet::from_history(vec![(tag("x"), vec![0]), (tag("x"), vec![0])], vec![]).is_none());
    assert!(AWSet::from_history(vec![(tag("x"), vec![1])], vec![]).is_none());
    assert!(AWSet::from_history(vec![(tag("x"), vec![0])], vec![(tag("x"), vec![1])]).is_none());
    assert!(AWSet::from_history(vec![], vec![(tag("x"), vec![0])]).is_none());
    assert!(AWSet::from_history(vec![(tag("x"), vec![0])], vec![(tag("x"), vec![0])]).is_some());
}
