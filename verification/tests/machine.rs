//! Tests of the decision machinery on hand-fed order codes.

use rbc_solver::bellman::{policy_levels, Sweep};
use rbc_solver::checks::{check_strictly_increasing, check_within_bounds};
use rbc_solver::convergence::{sup, Controller, Verdict};

#[test]
fn sweep_single_peak() {
    // grid of 3 levels, floor code 100
    let mut s = Sweep::new(3, 100);
    assert!(!s.is_done());
    assert_eq!(s.capital(), 0);
    assert_eq!(s.trial(), 0);
    assert!(s.feed(150)); // cell 0: index 0 accepted
    assert_eq!(s.trial(), 1);
    assert!(!s.feed(140)); // first fall closes cell 0
    assert_eq!(s.capital(), 1);
    // cell 1 resumes from cell 0's choice
    assert_eq!(s.trial(), 0);
    assert!(s.feed(160));
    assert!(s.feed(170));
    assert!(!s.feed(165)); // closes cell 1 with choice at index 1
    assert_eq!(s.trial(), 1);
    assert!(s.feed(120));
    assert!(s.feed(180)); // accepting the last grid index closes cell 2
    assert!(s.is_done());
    assert_eq!(s.values(), &vec![150u64, 170u64, 180u64]);
    assert_eq!(s.policy(), &vec![0usize, 1usize, 2usize]);
    assert_eq!(s.accepted(), &vec![true, true, true]);
}

#[test]
fn sweep_rejects_floor() {
    // a cell whose first candidate does not beat the floor reports the floor
    // and chooses index 0
    let mut s = Sweep::new(2, 100);
    assert!(!s.feed(90));
    assert_eq!(s.capital(), 1);
    assert_eq!(s.trial(), 0);
    assert!(!s.feed(100)); // equal to the floor is no improvement
    assert!(s.is_done());
    assert_eq!(s.values(), &vec![100u64, 100u64]);
    assert_eq!(s.policy(), &vec![0usize, 0usize]);
    assert_eq!(s.accepted(), &vec![false, false]);
}

#[test]
fn sweep_runs_to_grid_end() {
    // candidates that keep improving stop only at the end of the grid
    let mut s = Sweep::new(3, 0);
    assert!(s.feed(1));
    assert!(s.feed(2));
    assert!(s.feed(3)); // accepting the last grid index closes cell 0
    assert_eq!(s.capital(), 1);
    // the next cells resume at the last grid index, so each scans one
    // candidate only
    assert_eq!(s.trial(), 2);
    assert!(s.feed(5));
    assert_eq!(s.trial(), 2);
    assert!(s.feed(4));
    assert!(s.is_done());
    assert_eq!(s.values(), &vec![3u64, 5u64, 4u64]);
    assert_eq!(s.policy(), &vec![2usize, 2usize, 2usize]);
}

#[test]
fn sweep_resume_never_moves_backward() {
    // candidate peaks that move upward with the current capital level: the
    // chosen indices follow them without ever moving back
    let mut s = Sweep::new(4, 0);
    while !s.is_done() {
        let i = s.capital();
        let t = s.trial();
        let cand = if t <= i { 10 + t as u64 } else { 5 };
        s.feed(cand);
    }
    assert_eq!(s.policy(), &vec![0usize, 1usize, 2usize, 3usize]);
    for w in s.policy().windows(2) {
        assert!(w[0] <= w[1]);
    }
}

#[test]
fn sup_of_empty_is_zero() {
    let v: Vec<u64> = Vec::new();
    assert_eq!(sup(&v), 0);
}

#[test]
fn sup_picks_maximum() {
    assert_eq!(sup(&vec![3u64, 7u64, 2u64]), 7);
    assert_eq!(sup(&vec![9u64]), 9);
    assert_eq!(sup(&vec![4u64, 4u64, 1u64]), 4);
}

#[test]
fn controller_converges_on_tolerance_boundary() {
    let mut c = Controller::new(10, 5);
    assert!(matches!(c.observe(11), Verdict::Proceed));
    // a supremum equal to the tolerance already counts as converged
    assert!(matches!(c.observe(10), Verdict::Converged));
    assert_eq!(c.iterations(), 2);
}

#[test]
fn controller_exhausts_budget() {
    let mut c = Controller::new(0, 3);
    assert!(matches!(c.observe(5), Verdict::Proceed));
    assert!(matches!(c.observe(4), Verdict::Proceed));
    assert!(matches!(c.observe(3), Verdict::Exhausted));
    assert_eq!(c.iterations(), 3);
}

#[test]
fn grid_check_accepts_increasing() {
    assert!(check_strictly_increasing(&vec![1u64, 2u64, 5u64]));
    assert!(check_strictly_increasing(&vec![7u64]));
    assert!(check_strictly_increasing(&Vec::new()));
}

#[test]
fn grid_check_rejects_plateau() {
    assert!(!check_strictly_increasing(&vec![1u64, 2u64, 2u64]));
    assert!(!check_strictly_increasing(&vec![3u64, 1u64]));
}

#[test]
fn bounds_check_decides_membership() {
    assert!(check_within_bounds(&vec![2u64, 3u64, 4u64], 1, 4));
    assert!(!check_within_bounds(&vec![2u64, 5u64], 1, 4));
    assert!(!check_within_bounds(&vec![0u64], 1, 4));
    assert!(check_within_bounds(&Vec::new(), 1, 4));
}

#[test]
fn policy_levels_maps_indices() {
    let levels = policy_levels(&vec![2usize, 0usize, 1usize], &vec![10u64, 20u64, 30u64]);
    assert_eq!(levels, vec![30u64, 10u64, 20u64]);
}
