use fixed_index_vec::FixedIndexVec;

#[test]
fn new_store_is_empty() {
    let v: FixedIndexVec<i32> = FixedIndexVec::new();
    assert_eq!(v.len(), 0);
    assert!(v.is_empty());
    assert_eq!(v.next_index(), 0);
    assert_eq!(v.get(0), None);
    assert!(v.first().is_none());
    assert!(v.last().is_none());
}

#[test]
fn push_assigns_ascending_indices() {
    let mut v = FixedIndexVec::new();
    v.push(1);
    v.push(2);
    v.push(3);
    assert_eq!(v.get(0), Some(&1));
    assert_eq!(v.get(1), Some(&2));
    assert_eq!(v.get(2), Some(&3));
    assert_eq!(v.get(3), None);
    assert_eq!(v.next_index(), 3);
    assert_eq!(v.len(), 3);
}

#[test]
fn insert_is_alias_of_push() {
    let mut v = FixedIndexVec::new();
    v.insert("value1".to_string());
    v.insert("value2".to_string());
    assert_eq!(v.get(0), Some(&"value1".to_string()));
    assert_eq!(v.get(1), Some(&"value2".to_string()));
    v.remove(1);
    assert_eq!(v.get(1), None);
}

#[test]
fn remove_returns_value_then_none() {
    let mut v = FixedIndexVec::new();
    v.push(1);
    v.push(2);
    assert_eq!(v.remove(0), Some(1));
    assert_eq!(v.remove(0), None);
    assert_eq!(v.get(1), Some(&2));
}

#[test]
fn remove_present_index_leaves_others() {
    let mut v = FixedIndexVec::from_vec(vec![1, 2, 3]);
    assert_eq!(v.remove(1), Some(2));
    assert_eq!(v.get(1), None);
    assert_eq!(v.len(), 2);
    assert_eq!(v.next_index(), 3);
    assert_eq!(v.get(0), Some(&1));
    assert_eq!(v.get(2), Some(&3));
}

#[test]
fn remove_absent_is_noop() {
    let mut v = FixedIndexVec::from_vec(vec![1, 2, 3]);
    assert_eq!(v.remove(7), None);
    assert_eq!(v.len(), 3);
    assert_eq!(v.next_index(), 3);
    assert_eq!(v.get(0), Some(&1));
    assert_eq!(v.get(1), Some(&2));
    assert_eq!(v.get(2), Some(&3));
}

#[test]
fn len_never_exceeds_next_index() {
    let mut v = FixedIndexVec::new();
    assert_eq!(v.len(), v.next_index());
    v.push(10);
    v.push(20);
    assert_eq!(v.len(), v.next_index());
    v.remove(0);
    assert!(v.len() < v.next_index());
    v.push(30);
    assert!(v.len() <= v.next_index());
}

#[test]
fn iteration_is_ascending_and_exact() {
    let mut v = FixedIndexVec::from_vec(vec![1, 2, 3]);
    v.remove(1);
    let pairs = v.iter();
    assert_eq!(pairs.len(), 2);
    assert_eq!(pairs[0], (0, &1));
    assert_eq!(pairs[1], (2, &3));
    for w in pairs.windows(2) {
        assert!(w[0].0 < w[1].0);
    }
    let empty: FixedIndexVec<i32> = FixedIndexVec::new();
    assert!(empty.iter().is_empty());
}

#[test]
fn first_and_last_match_iteration() {
    let mut v = FixedIndexVec::from_vec(vec![1, 2, 3]);
    v.remove(0);
    v.remove(2);
    let pairs = v.iter();
    assert_eq!(v.first(), pairs.first().copied());
    assert_eq!(v.last(), pairs.last().copied());
    assert_eq!(v.first(), Some((1, &2)));
    assert_eq!(v.last(), Some((1, &2)));
}

#[test]
fn soft_clear_keeps_counter() {
    let mut v = FixedIndexVec::from_vec(vec![1, 2, 3]);
    let before = v.next_index();
    v.clear();
    assert_eq!(v.len(), 0);
    assert!(v.is_empty());
    assert_eq!(v.next_index(), before);
    v.push(4);
    assert_eq!(v.get(3), Some(&4));
}

#[test]
fn hard_reset_rewinds_counter() {
    let mut v = FixedIndexVec::from_vec(vec![1, 2, 3]);
    v.reset();
    assert_eq!(v.len(), 0);
    assert_eq!(v.next_index(), 0);
    v.push(9);
    assert_eq!(v.get(0), Some(&9));
    assert_eq!(v.next_index(), 1);
}

#[test]
fn from_vec_builds_dense_store() {
    let v = FixedIndexVec::from_vec(vec![10, 20, 30]);
    assert_eq!(v.len(), 3);
    assert_eq!(v.next_index(), 3);
    assert_eq!(v.get(0), Some(&10));
    assert_eq!(v.get(1), Some(&20));
    assert_eq!(v.get(2), Some(&30));
}

#[test]
fn direct_index_returns_present_value() {
    let mut v = FixedIndexVec::new();
    v.push(1);
    v.push(2);
    assert_eq!(*v.index(0), 1);
    assert_eq!(*v.index(1), 2);
}

#[test]
fn from_pairs_accepts_sparse_content() {
    let v = FixedIndexVec::from_pairs(vec![(0, 'a'), (2, 'c')], 3).unwrap();
    assert_eq!(v.len(), 2);
    assert_eq!(v.next_index(), 3);
    assert_eq!(v.get(0), Some(&'a'));
    assert_eq!(v.get(1), None);
    assert_eq!(v.get(2), Some(&'c'));
}

#[test]
fn from_pairs_rejects_unsorted_indices() {
    assert!(FixedIndexVec::from_pairs(vec![(2, 'c'), (0, 'a')], 3).is_none());
    assert!(FixedIndexVec::from_pairs(vec![(1, 'a'), (1, 'b')], 3).is_none());
}

#[test]
fn from_pairs_rejects_index_at_or_past_counter() {
    assert!(FixedIndexVec::from_pairs(vec![(3, 'd')], 3).is_none());
    assert!(FixedIndexVec::from_pairs(vec![(0, 'a'), (5, 'f')], 3).is_none());
}

#[test]
fn clone_preserves_content() {
    let mut v = FixedIndexVec::from_vec(vec![1, 2, 3]);
    v.remove(1);
    let w = v.clone();
    assert_eq!(v, w);
    assert_eq!(w.get(0), Some(&1));
    assert_eq!(w.get(1), None);
    assert_eq!(w.next_index(), 3);
}

#[test]
fn default_is_empty_store() {
    let v: FixedIndexVec<u8> = FixedIndexVec::default();
    assert!(v.is_empty());
    assert_eq!(v.next_index(), 0);
}
