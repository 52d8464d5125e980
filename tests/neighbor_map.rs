use std::collections::{BTreeMap, BTreeSet};

use cim::gear::fac;
use cim::neighbor_finder::NeighborMap;

#[test]
fn add_pair_records_both_directions() {
    let mut map = NeighborMap::default();
    assert!(!map.has_pair(1, 2));
    map.add_pair(1, 2);
    assert!(map.has_pair(1, 2));
    assert!(map.has_pair(2, 1));
    assert!(!map.has_pair(1, 3));
    map.add_pair(1, 2);
    map.add_pair(2, 1);
    assert_eq!(map.get_neighbors(1), vec![2]);
    assert_eq!(map.get_neighbors(2), vec![1]);
}

#[test]
fn neighbors_come_sorted() {
    let mut map = NeighborMap::default();
    map.add_pair(5, 9);
    map.add_pair(5, 1);
    map.add_pair(5, 7);
    map.add_pair(3, 5);
    assert_eq!(map.get_neighbors(5), vec![1, 3, 7, 9]);
    assert_eq!(map.get_neighbors(9), vec![5]);
    assert!(map.get_neighbors(4).is_empty());
}

#[test]
fn new_keeps_the_given_sets() {
    let mut m = BTreeMap::new();
    m.insert(1, BTreeSet::from([2, 3]));
    m.insert(4, BTreeSet::new());
    let map = NeighborMap::new(m);
    assert!(map.has_pair(1, 2));
    assert!(map.has_pair(1, 3));
    assert!(!map.has_pair(2, 1));
    assert!(map.get_neighbors(4).is_empty());
    assert_eq!(map.get_neighbors(1), vec![2, 3]);
}

#[test]
fn factorials() {
    assert_eq!(fac(0), 1);
    assert_eq!(fac(1), 1);
    assert_eq!(fac(2), 2);
    assert_eq!(fac(5), 120);
    assert_eq!(fac(10), 3628800);
    assert_eq!(fac(20), 2432902008176640000);
    assert_eq!(fac(21), 0);
    assert_eq!(fac(u64::MAX), 0);
}
