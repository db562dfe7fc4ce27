use timely_progress::runs::{run_barrier, run_two_inputs};
use timely_progress::timestamp::Product;

#[test]
fn two_inputs_leave_no_capability() {
    let (capabilities, produced) = run_two_inputs(Product::new(0, 1_000_000));
    assert!(capabilities.is_empty());
    assert_eq!(produced.get(&Product::minimum()), 20);
    assert_eq!(produced.entries().len(), 1);
}

#[test]
fn two_inputs_closing_at_the_start() {
    let (capabilities, produced) = run_two_inputs(Product::minimum());
    assert!(capabilities.is_empty());
    assert_eq!(produced.get(&Product::minimum()), 20);
}

#[test]
fn barrier_runs_through_its_rounds() {
    let (b, held) = run_barrier(1, 50);
    assert_eq!(b.epoch, 51);
    assert_eq!(b.degree, 1);
    assert_eq!(b.ttl, 50);
    assert!(!b.ready);
    assert!(held.is_empty());
}

#[test]
fn barrier_with_one_round() {
    let (b, held) = run_barrier(3, 3);
    assert_eq!(b.epoch, 4);
    assert!(held.is_empty());
}
