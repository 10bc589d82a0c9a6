//! Picking, ordering and thinning.

use autofocus::counting::blank;
use autofocus::ranking::{first_max_above, last_max, ranked, strongest, thin};
use autofocus::selection::{all_of, highest, lowest, sift};

#[test]
fn ties_go_to_the_last_or_the_first() {
    let v = vec![3, 7, 1, 7, 2];
    assert_eq!(last_max(&v), Some(3));
    assert_eq!(first_max_above(&v, 0), Some(1));
    assert_eq!(first_max_above(&v, 7), None);
    assert_eq!(last_max(&[]), None);
    assert_eq!(strongest(&v), 7);
    assert_eq!(strongest(&[-4, -2]), 0);
}

#[test]
fn the_order_is_strongest_first_and_stable() {
    assert_eq!(ranked(&[5, 9, 5, -1, 9]), vec![1, 4, 0, 2, 3]);
    let mut state: u64 = 7;
    let mut v: Vec<i32> = Vec::new();
    for _ in 0..200 {
        state = state.wrapping_mul(6364136223846793005).wrapping_add(1442695040888963407);
        v.push(((state >> 33) % 20) as i32);
    }
    let mut expected: Vec<usize> = (0..v.len()).collect();
    expected.sort_by(|&a, &b| v[b].cmp(&v[a]));
    assert_eq!(ranked(&v), expected);
}

#[test]
fn thinning_keeps_points_apart() {
    let spots = vec![(0u32, 0u32), (1, 1), (3, 0), (4, 0), (10, 10)];
    let order = vec![1usize, 0, 2, 3, 4];
    assert_eq!(thin(&spots, &order, 40, 9), vec![1, 3, 4]);
    assert_eq!(thin(&spots, &order, 2, 9), vec![1, 3]);
    assert_eq!(thin(&spots, &order, 40, 0), order);
}

#[test]
fn sifting_keeps_the_order_of_the_pool() {
    assert_eq!(sift(&vec![4, 0, 3, 1], &vec![true, false, true, true, true]), vec![4, 0, 3]);
    assert_eq!(all_of(3), vec![0, 1, 2]);
    assert_eq!(lowest(&vec![5, 2, 9]), 2);
    assert_eq!(highest(&vec![5, 2, 9]), 9);
    assert_eq!(blank(2), vec![false, false]);
}
