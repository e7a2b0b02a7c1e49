use std::cmp::Ordering;

use crdt::set::GSet;
use crdt::set::GSetOp;
use crdt::Crdt;

/// The operation record produced by inserting `x` into a fresh replica.
fn op(x: u32) -> GSetOp<u32> {
    let mut g = GSet::<u32>::new();
    g.insert(x).unwrap()
}

/// A replica holding exactly the given elements.
fn set_of(elements: &[u32]) -> GSet<u32> {
    let mut g = GSet::<u32>::new();
    for e in elements {
        g.insert(*e);
    }
    g
}

fn apply_is_commutative(s: &GSet<u32>, op1: GSetOp<u32>, op2: GSetOp<u32>) -> bool {
    let mut one_way = s.clone();
    one_way.apply(op1.clone());
    one_way.apply(op2.clone());

    let mut other_way = s.clone();
    other_way.apply(op2);
    other_way.apply(op1);

    one_way == other_way
}

#[test]
fn check_apply_is_commutative() {
    let s = set_of(&[1, 5]);
    assert!(apply_is_commutative(&s, op(7), op(9)));
    assert!(apply_is_commutative(&s, op(1), op(9)));
    assert!(apply_is_commutative(&s, op(3), op(3)));
    assert!(apply_is_commutative(&GSet::new(), op(0), op(42)));
}

fn merge_is_commutative(a: &GSet<u32>, b: &GSet<u32>) -> bool {
    let mut ab = a.clone();
    ab.merge(b.clone());

    let mut ba = b.clone();
    ba.merge(a.clone());

    ab == ba
}

#[test]
fn check_merge_is_commutative() {
    assert!(merge_is_commutative(&set_of(&[1, 2]), &set_of(&[2, 3])));
    assert!(merge_is_commutative(&set_of(&[4]), &set_of(&[7, 8, 9])));
    assert!(merge_is_commutative(&GSet::new(), &set_of(&[1])));
    assert!(merge_is_commutative(&GSet::new(), &GSet::new()));
}

fn ordering_lte(a: &GSet<u32>, b: &GSet<u32>) -> bool {
    let mut merged = a.clone();
    merged.merge(b.clone());
    merged >= *a && merged >= *b && *a <= merged && *b <= merged
}

#[test]
fn check_ordering_lte() {
    assert!(ordering_lte(&set_of(&[1, 2]), &set_of(&[2, 3])));
    assert!(ordering_lte(&GSet::new(), &set_of(&[10])));
    assert!(ordering_lte(&set_of(&[6]), &set_of(&[6])));
    assert!(ordering_lte(&set_of(&[1, 2, 3]), &GSet::new()));
}

fn ordering_equality(a: &GSet<u32>, b: &GSet<u32>) -> bool {
    (*a == *b) == (a.partial_cmp(b) == Some(Ordering::Equal))
}

#[test]
fn check_ordering_equality() {
    // Equal element sets, reached through different insertion histories.
    let mut forwards = GSet::<u32>::new();
    forwards.insert(1);
    forwards.insert(2);
    forwards.insert(2);
    let mut backwards = GSet::<u32>::new();
    backwards.insert(2);
    backwards.insert(1);
    assert!(forwards == backwards);
    assert!(ordering_equality(&forwards, &backwards));

    assert!(ordering_equality(&set_of(&[1]), &set_of(&[1, 2])));
    assert!(ordering_equality(&set_of(&[1, 2]), &set_of(&[2, 3])));
    assert!(ordering_equality(&GSet::new(), &GSet::new()));
}

#[test]
fn test_local_insert() {
    let elements: Vec<u8> = vec![3, 1, 4, 1, 5, 9, 2, 6, 5, 3];
    let mut set = GSet::new();
    for element in elements.clone().into_iter() {
        set.insert(element);
    }
    assert!(elements.iter().all(|element| set.contains(element)));
}

#[test]
fn test_ordering_lt() {
    let b = set_of(&[9]);
    let mut a = set_of(&[5]);
    a.merge(b.clone());

    let mut i: u32 = 0;
    let mut success = None;
    while success.is_none() {
        success = a.insert(i);
        i += 1;
    }
    assert!(a > b && b < a);
}

#[test]
fn apply_is_idempotent() {
    let record = op(7);
    let mut once = set_of(&[1, 2]);
    once.apply(record.clone());
    let mut twice = set_of(&[1, 2]);
    twice.apply(record.clone());
    twice.apply(record);
    assert!(once == twice);
    assert_eq!(twice.len(), 3);
}

#[test]
fn merge_is_associative() {
    let a = set_of(&[1]);
    let b = set_of(&[2]);
    let c = set_of(&[1, 3]);

    let mut left_first = a.clone();
    left_first.merge(b.clone());
    left_first.merge(c.clone());

    let mut right_first = b.clone();
    right_first.merge(c.clone());
    let mut outer = a.clone();
    outer.merge(right_first);

    assert!(left_first == outer);
    assert_eq!(left_first.len(), 3);
}

#[test]
fn merge_is_idempotent() {
    let a = set_of(&[1, 2, 3]);
    let mut merged = a.clone();
    merged.merge(a.clone());
    assert!(merged == a);
    assert_eq!(merged.len(), 3);
}

#[test]
fn merge_agrees_with_apply() {
    // A replica that receives the operations converges to the same state as
    // one that receives a full snapshot.
    let mut source = GSet::<u32>::new();
    let op1 = source.insert(11).unwrap();
    let op2 = source.insert(22).unwrap();

    let mut by_ops = GSet::<u32>::new();
    by_ops.apply(op2);
    by_ops.apply(op1.clone());
    by_ops.apply(op1);

    let mut by_state = GSet::<u32>::new();
    by_state.merge(source.clone());

    assert!(by_ops == by_state);
    assert!(by_state == source);
}

#[test]
fn local_insert_counts_distinct_elements() {
    let elements: Vec<u8> = vec![3, 1, 4, 1, 5, 9, 2, 6, 5, 3];
    let mut set = GSet::new();
    for element in elements.clone().into_iter() {
        set.insert(element);
    }
    assert!(elements.iter().all(|element| set.contains(element)));
    assert_eq!(set.len(), 7);
}

#[test]
fn subset_agrees_with_ordering() {
    let small = set_of(&[2, 3]);
    let big = set_of(&[1, 2, 3]);
    assert!(small.is_subset(&big));
    assert!(!big.is_subset(&small));
    assert!(small <= big);
    assert!(small < big);
    assert!(!(big <= small));
    assert_eq!(small.partial_cmp(&big), Some(Ordering::Less));
    assert_eq!(big.partial_cmp(&small), Some(Ordering::Greater));
}

#[test]
fn insert_on_empty_returns_operation() {
    let mut set = GSet::<char>::new();
    let op = set.insert('a');
    assert!(op.is_some());
    assert!(set.contains(&'a'));
    assert_eq!(set.len(), 1);

    // The returned operation carries the inserted element.
    let mut fresh = GSet::<char>::new();
    fresh.apply(op.unwrap());
    assert!(fresh.contains(&'a'));
}

#[test]
fn repeated_insert_returns_nothing() {
    let mut set = GSet::<char>::new();
    let first = set.insert('a');
    let second = set.insert('a');
    assert!(first.is_some());
    assert!(second.is_none());
    assert_eq!(set.len(), 1);
}

#[test]
fn merge_pulls_in_remote_elements() {
    let mut local = GSet::<i32>::new();
    let mut remote = GSet::<i32>::new();
    local.insert(1);
    remote.insert(2);
    local.merge(remote);
    assert!(local.contains(&2));
    assert!(local.contains(&1));
    assert_eq!(local.len(), 2);
}

#[test]
fn apply_delivers_remote_insert() {
    let mut local = GSet::<i32>::new();
    let mut remote = GSet::<i32>::new();
    let op = remote.insert(13).expect("a fresh replica holds nothing yet");
    local.apply(op);
    assert!(local.contains(&13));
}

#[test]
fn overlapping_sets_are_incomparable() {
    let a = set_of(&[1, 2]);
    let b = set_of(&[2, 3]);
    assert_eq!(a.partial_cmp(&b), None);
    assert!(a != b);
    assert!(!(a < b) && !(a > b) && !(a <= b) && !(a >= b));
}

#[test]
fn empty_set_below_any_nonempty_set() {
    let a = GSet::<u32>::new();
    let b = set_of(&[1]);
    assert!(a < b);
    assert!(b > a);
}

#[test]
fn new_set_is_empty() {
    let set = GSet::<i64>::new();
    assert!(set.is_empty());
    assert_eq!(set.len(), 0);
    assert!(!set.contains(&-3));
    let fallback = GSet::<i64>::default();
    assert!(fallback.is_empty());
    assert!(set == fallback);
}

#[test]
fn disjointness_queries() {
    let a = set_of(&[1, 2]);
    let b = set_of(&[3, 4]);
    let c = set_of(&[2, 3]);
    assert!(a.is_disjoint(&b));
    assert!(!a.is_disjoint(&c));
    assert!(GSet::<u32>::new().is_disjoint(&a));
    assert!(a.is_disjoint(&GSet::new()));
}

#[test]
fn operations_compare_by_element() {
    let mut left = GSet::<u32>::new();
    let mut right = GSet::<u32>::new();
    let op_a = left.insert(5).unwrap();
    let op_b = right.insert(5).unwrap();
    let op_c = right.insert(6).unwrap();
    assert!(op_a == op_b);
    assert!(op_a != op_c);
    assert!(op_a.clone() == op_a);
}

#[test]
fn clone_preserves_the_elements() {
    let a = set_of(&[1, 2, 3]);
    let copy = a.clone();
    assert!(copy == a);
    assert_eq!(copy.len(), 3);
    assert!(copy.contains(&1) && copy.contains(&2) && copy.contains(&3));
}
