use timely_progress::barrier::BarrierScope;
use timely_progress::count_map::CountMap;
use timely_progress::scope::Scope;
use timely_progress::timestamp::{Product, Summary};

fn t(i: u64) -> Product {
    Product::new(0, i)
}

fn barrier(epoch: u64, ttl: u64) -> BarrierScope {
    BarrierScope { ready: false, epoch, degree: 2, ttl }
}

#[test]
fn barrier_shape_and_summary() {
    let mut b = barrier(3, 10);
    assert_eq!(b.name(), "Barrier");
    assert_eq!(b.inputs(), 1);
    assert_eq!(b.outputs(), 1);
    assert!(b.notify_me());
    let (summaries, caps) = b.get_internal_summary();
    assert_eq!(summaries, vec![vec![vec![Summary::Local(1)]]]);
    assert_eq!(caps.len(), 1);
    assert_eq!(caps[0].get(&t(3)), 2);
    assert_eq!(caps[0].entries().len(), 1);
}

#[test]
fn barrier_clears_external_frontier() {
    let mut b = barrier(0, 5);
    let mut frontier = vec![CountMap::new_from(&t(0), 4)];
    b.set_external_summary(Vec::new(), &mut frontier);
    assert!(frontier[0].is_empty());
}

#[test]
fn barrier_waits_for_previous_round() {
    let mut b = barrier(2, 5);
    let mut ext = vec![CountMap::new_from(&t(0), -1)];
    b.push_external_progress(&mut ext);
    assert!(!b.ready);
    assert!(ext[0].is_empty());
    let mut ext = vec![CountMap::new_from(&t(1), 1)];
    b.push_external_progress(&mut ext);
    assert!(!b.ready);
    let mut ext = vec![CountMap::new_from(&t(1), -1)];
    b.push_external_progress(&mut ext);
    assert!(b.ready);
}

#[test]
fn barrier_at_round_zero_never_matches() {
    let mut b = barrier(0, 5);
    let mut ext = vec![CountMap::new_from(&t(0), -1)];
    b.push_external_progress(&mut ext);
    assert!(!b.ready);
}

#[test]
fn barrier_moves_capability_to_next_round() {
    let mut b = barrier(2, 5);
    b.ready = true;
    let mut internal = vec![CountMap::new()];
    let mut consumed = vec![CountMap::new()];
    let mut produced = vec![CountMap::new()];
    let again = b.pull_internal_progress(&mut internal, &mut consumed, &mut produced);
    assert!(!again);
    assert_eq!(internal[0].get(&t(2)), -1);
    assert_eq!(internal[0].get(&t(3)), 1);
    assert_eq!(b.epoch, 3);
    assert!(!b.ready);
    // Not ready: nothing changes.
    b.pull_internal_progress(&mut internal, &mut consumed, &mut produced);
    assert_eq!(b.epoch, 3);
    assert_eq!(internal[0].entries().len(), 2);
}

#[test]
fn barrier_stops_after_last_round() {
    let mut b = barrier(5, 5);
    b.ready = true;
    let mut internal = CountMap::new();
    b.advance_epoch(&mut internal);
    assert_eq!(internal.get(&t(5)), -1);
    assert_eq!(internal.get(&t(6)), 0);
    assert_eq!(b.epoch, 6);
}

#[test]
fn barrier_observe_input_direct() {
    let mut b = barrier(4, 9);
    let mut ext = CountMap::new();
    ext.update(&t(3), -1);
    ext.update(&t(7), 2);
    b.observe_input(&mut ext);
    assert!(b.ready);
    assert!(ext.is_empty());
}

#[test]
fn barrier_past_last_round_retires_nothing() {
    // ttl 1, starting at round 1: round 1 is the last one held.
    let mut b = barrier(1, 1);
    let mut held = b.get_internal_summary().1.pop().unwrap();
    assert_eq!(held.get(&t(1)), 2);
    b.degree = 1;
    let mut held_one = CountMap::new_from(&t(1), 1);
    let mut ext = vec![CountMap::new_from(&t(0), -1)];
    b.push_external_progress(&mut ext);
    assert!(b.ready);
    let mut internal = vec![CountMap::new()];
    let mut consumed = vec![CountMap::new()];
    let mut produced = vec![CountMap::new()];
    b.pull_internal_progress(&mut internal, &mut consumed, &mut produced);
    assert_eq!(b.epoch, 2);
    internal[0].drain_into(&mut held_one);
    assert!(held_one.is_empty());
    // Round 1 retired at the input makes the barrier ready, but the rounds
    // are over, so the next pull changes no capability.
    let mut ext = vec![CountMap::new_from(&t(1), -1)];
    b.push_external_progress(&mut ext);
    assert!(b.ready);
    let mut internal = vec![CountMap::new()];
    b.pull_internal_progress(&mut internal, &mut consumed, &mut produced);
    assert!(internal[0].is_empty());
    assert_eq!(b.epoch, 2);
    assert!(!b.ready);
    held.clear();
}

#[test]
fn barrier_past_last_round_still_sees_retirement() {
    let mut b = barrier(3, 1);
    let mut ext = vec![CountMap::new_from(&t(2), -1)];
    b.push_external_progress(&mut ext);
    assert!(b.ready);
    let mut internal = vec![CountMap::new()];
    let mut consumed = vec![CountMap::new()];
    let mut produced = vec![CountMap::new()];
    b.pull_internal_progress(&mut internal, &mut consumed, &mut produced);
    assert!(internal[0].is_empty());
    assert_eq!(b.epoch, 3);
}
