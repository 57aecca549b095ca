use graphix_to_hugr::ids::{copy_of_set, elements_of, sorted, sorted_distinct, sorted_members};
use std::collections::HashSet;

fn set(ids: &[usize]) -> HashSet<usize> {
    let mut s = HashSet::new();
    for id in ids {
        s.insert(*id);
    }
    s
}

#[test]
fn sorted_puts_identifiers_in_ascending_order() {
    assert_eq!(sorted(vec![3, 1, 2]), vec![1, 2, 3]);
    assert_eq!(sorted(vec![9, 8, 7, 6, 5, 4, 3, 2, 1, 0]), vec![0, 1, 2, 3, 4, 5, 6, 7, 8, 9]);
    assert_eq!(sorted(vec![]), Vec::<usize>::new());
    assert_eq!(sorted(vec![5]), vec![5]);
}

#[test]
fn sorted_keeps_repetitions() {
    assert_eq!(sorted(vec![2, 1, 2, 1, 0]), vec![0, 1, 1, 2, 2]);
    assert_eq!(sorted(vec![usize::MAX, 0, usize::MAX]), vec![0, usize::MAX, usize::MAX]);
}

#[test]
fn sorted_distinct_drops_repetitions() {
    assert_eq!(sorted_distinct(vec![3, 1, 3, 2, 1]), vec![1, 2, 3]);
    assert_eq!(sorted_distinct(vec![4, 4, 4, 4]), vec![4]);
    assert_eq!(sorted_distinct(vec![]), Vec::<usize>::new());
    assert_eq!(sorted_distinct(vec![1, 2, 1, 2, 1, 2]), vec![1, 2]);
}

#[test]
fn sorted_members_lists_a_set_in_ascending_order() {
    assert_eq!(sorted_members(&set(&[10, 3, 7, 1])), vec![1, 3, 7, 10]);
    assert_eq!(sorted_members(&set(&[])), Vec::<usize>::new());
    assert_eq!(sorted_members(&set(&[2, 2, 2])), vec![2]);
    let many: Vec<usize> = (0..200).rev().collect();
    let ascending: Vec<usize> = (0..200).collect();
    assert_eq!(sorted_members(&set(&many)), ascending);
}

#[test]
fn elements_of_lists_each_member_once() {
    let s = set(&[5, 1, 9, 3]);
    let mut v = elements_of(&s);
    assert_eq!(v.len(), 4);
    v.sort();
    assert_eq!(v, vec![1, 3, 5, 9]);
    assert!(elements_of(&HashSet::new()).is_empty());
}

#[test]
fn copy_of_set_has_the_same_members() {
    let s = set(&[5, 1, 9, 3]);
    assert_eq!(copy_of_set(&s), s);
    assert_eq!(copy_of_set(&HashSet::new()), HashSet::new());
}
