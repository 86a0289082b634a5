use rustgen::node::copy_names;
use rustgen::values::{absorb, copy_values, elements};
use rustgen::NodeMap;
use std::collections::HashSet;

fn key(name: &str) -> String {
    name.to_string()
}

fn set(values: &[usize]) -> HashSet<usize> {
    values.iter().copied().collect()
}

#[test]
fn a_new_map_is_empty() {
    let map: NodeMap<u8> = NodeMap::new();
    assert_eq!(map.len(), 0);
    assert_eq!(map.get(&key("n1")), None);
    assert!(!map.contains_key(&key("n1")));
    assert_eq!(map.position(&key("n1")), None);
}

#[test]
fn insert_binds_and_rebinds() {
    let mut map = NodeMap::new();
    map.insert(key("n1"), 1);
    map.insert(key("n2"), 2);
    map.insert(key("n3"), 3);
    assert_eq!(map.len(), 3);
    map.insert(key("n2"), 20);
    assert_eq!(map.len(), 3);
    assert_eq!(map.get(&key("n1")), Some(&1));
    assert_eq!(map.get(&key("n2")), Some(&20));
    assert_eq!(map.get(&key("n3")), Some(&3));
    assert_eq!(map.get(&key("n")), None);
    assert!(map.contains_key(&key("n3")));
}

#[test]
fn positions_walk_over_every_entry_once() {
    let mut map = NodeMap::new();
    for (name, value) in [("a", 1), ("b", 2), ("c", 3), ("a", 4)] {
        map.insert(key(name), value);
    }
    let mut seen = Vec::new();
    for i in 0..map.len() {
        assert_eq!(map.position(map.key_at(i)), Some(i));
        assert_eq!(map.get(map.key_at(i)), Some(map.value_at(i)));
        seen.push((map.key_at(i).clone(), *map.value_at(i)));
    }
    seen.sort();
    assert_eq!(seen, vec![(key("a"), 4), (key("b"), 2), (key("c"), 3)]);
}

#[test]
fn remove_takes_one_entry_out() {
    let mut map = NodeMap::new();
    for (name, value) in [("a", 1), ("b", 2), ("c", 3)] {
        map.insert(key(name), value);
    }
    assert_eq!(map.remove(&key("a")), Some(1));
    assert_eq!(map.remove(&key("a")), None);
    assert_eq!(map.len(), 2);
    assert_eq!(map.get(&key("b")), Some(&2));
    assert_eq!(map.get(&key("c")), Some(&3));
    assert_eq!(map.remove(&key("c")), Some(3));
    assert_eq!(map.remove(&key("b")), Some(2));
    assert_eq!(map.len(), 0);
    assert_eq!(map.remove(&key("b")), None);
}

#[test]
fn a_cloned_map_has_the_same_entries() {
    let mut map = NodeMap::new();
    map.insert(key("a"), vec![1, 2]);
    map.insert(key("b"), vec![]);
    let copy = map.clone();
    map.insert(key("a"), vec![9]);
    assert_eq!(copy.len(), 2);
    assert_eq!(copy.get(&key("a")), Some(&vec![1, 2]));
    assert_eq!(copy.get(&key("b")), Some(&vec![]));
}

#[test]
fn elements_lists_every_value_once() {
    let mut list = elements(&set(&[3, 1, 2]));
    list.sort();
    assert_eq!(list, vec![1, 2, 3]);
    assert!(elements(&set(&[])).is_empty());
}

#[test]
fn copy_values_is_a_set_of_its_own() {
    let mut first = set(&[1, 2]);
    let copy = copy_values(&first);
    first.insert(3);
    assert_eq!(copy, set(&[1, 2]));
}

#[test]
fn absorb_adds_what_is_missing() {
    let mut target = set(&[1, 2]);
    absorb(&mut target, &set(&[2, 3, 4]));
    assert_eq!(target, set(&[1, 2, 3, 4]));
    absorb(&mut target, &set(&[]));
    assert_eq!(target, set(&[1, 2, 3, 4]));
    let mut empty = set(&[]);
    absorb(&mut empty, &set(&[7]));
    assert_eq!(empty, set(&[7]));
}

#[test]
fn copy_names_keeps_order_and_repeats() {
    let list = vec![key("n2"), key("n1"), key("n2")];
    assert_eq!(copy_names(&list), list);
    assert!(copy_names(&Vec::new()).is_empty());
}
