//! The keyed-list plan: reuse by key, build what is new, drop what is gone.

use vue_rs::dom::keyed::{plan_rows, RowPlan};

#[test]
fn reordering_reuses_every_row() {
    let (plan, removed) = plan_rows(&vec![1, 2, 3], &vec![3, 1, 2]);
    assert_eq!(plan, vec![RowPlan::Reuse(2), RowPlan::Reuse(0), RowPlan::Reuse(1)]);
    assert!(removed.is_empty());
}

#[test]
fn new_keys_build_rows_and_missing_keys_are_dropped() {
    let (plan, removed) = plan_rows(&vec![10, 20, 30, 40], &vec![20, 50, 40]);
    assert_eq!(plan, vec![RowPlan::Reuse(1), RowPlan::Build, RowPlan::Reuse(3)]);
    assert_eq!(removed, vec![0, 2]);
}

#[test]
fn a_repeated_key_builds_a_second_row() {
    let (plan, removed) = plan_rows(&vec![7], &vec![7, 7]);
    assert_eq!(plan, vec![RowPlan::Reuse(0), RowPlan::Build]);
    assert!(removed.is_empty());
}

#[test]
fn emptying_the_list_drops_every_row() {
    let (plan, removed) = plan_rows(&vec![1, 2], &vec![]);
    assert!(plan.is_empty());
    assert_eq!(removed, vec![0, 1]);
}
