use rustgen::gossip::{assemble_payload, sample_target, split_known, DEFAULT_REDUNDANCY, REDUNDANCY_SCALE};
use std::collections::HashSet;

fn set(values: &[usize]) -> HashSet<usize> {
    values.iter().copied().collect()
}

#[test]
fn the_ratio_is_given_in_parts_of_ten_thousand() {
    assert_eq!(REDUNDANCY_SCALE, 10000);
    assert_eq!(DEFAULT_REDUNDANCY, 3236);
}

#[test]
fn sample_target_is_the_smaller_of_delta_and_share() {
    assert_eq!(sample_target(5, 10, 3236), 3);
    assert_eq!(sample_target(2, 10, 3236), 2);
    assert_eq!(sample_target(100, 3, 3236), 0);
    assert_eq!(sample_target(100, 4, 3236), 1);
    assert_eq!(sample_target(0, 1000, 3236), 0);
    assert_eq!(sample_target(1000, 1000, 3236), 323);
    assert_eq!(sample_target(1000, 10000, 3236), 1000);
    assert_eq!(sample_target(usize::MAX, 10000, 3236), 3236);
    assert_eq!(sample_target(7, 0, 3236), 0);
}

#[test]
fn sample_target_takes_other_ratios() {
    assert_eq!(sample_target(100, 50, 0), 0);
    assert_eq!(sample_target(100, 50, 10000), 50);
    assert_eq!(sample_target(100, 50, 20000), 50);
    assert_eq!(sample_target(100, 50, 5000), 25);
    assert_eq!(sample_target(100, 51, 5000), 25);
    assert_eq!(sample_target(usize::MAX, u32::MAX, u32::MAX), u32::MAX);
    assert_eq!(sample_target(usize::MAX, u32::MAX, 3236), 1389851416);
}

#[test]
fn split_known_parts_the_values() {
    let (unknown, shared) = split_known(&set(&[1, 2, 3, 4, 5]), &set(&[2, 4, 6]));
    assert_eq!(unknown.len(), 3);
    assert_eq!(shared.len(), 2);
    assert_eq!(unknown.into_iter().collect::<HashSet<usize>>(), set(&[1, 3, 5]));
    assert_eq!(shared.into_iter().collect::<HashSet<usize>>(), set(&[2, 4]));
    let (unknown, shared) = split_known(&set(&[]), &set(&[1]));
    assert!(unknown.is_empty() && shared.is_empty());
    let (unknown, shared) = split_known(&set(&[1]), &set(&[]));
    assert_eq!(unknown, vec![1]);
    assert!(shared.is_empty());
}

#[test]
fn assemble_payload_takes_the_picked_values() {
    let unknown = vec![1, 2];
    let shared = vec![10, 20, 30, 40];
    assert_eq!(
        assemble_payload(&unknown, &shared, &vec![false, true, false, true]),
        set(&[1, 2, 20, 40])
    );
    assert_eq!(assemble_payload(&unknown, &shared, &vec![false; 4]), set(&[1, 2]));
    assert_eq!(assemble_payload(&unknown, &shared, &vec![true; 4]), set(&[1, 2, 10, 20, 30, 40]));
    assert_eq!(assemble_payload(&unknown, &shared, &vec![true]), set(&[1, 2, 10]));
    assert_eq!(assemble_payload(&unknown, &shared, &vec![true; 9]), set(&[1, 2, 10, 20, 30, 40]));
    assert_eq!(assemble_payload(&vec![], &vec![], &vec![]), set(&[]));
    assert_eq!(assemble_payload(&vec![3, 3], &vec![3], &vec![true]), set(&[3]));
}
