use timely_progress::count_map::CountMap;
use timely_progress::input::input_pair;
use timely_progress::observer::{Event, Recorder};
use timely_progress::scope::Scope;
use timely_progress::timestamp::Product;

fn t(i: u64) -> Product {
    Product::new(0, i)
}

fn pull(scope: &mut timely_progress::input::InputScope) -> (CountMap, CountMap) {
    let mut internal = vec![CountMap::new()];
    let mut consumed: Vec<CountMap> = Vec::new();
    let mut produced = vec![CountMap::new()];
    let again = scope.pull_internal_progress(&mut internal, &mut consumed, &mut produced);
    assert!(!again);
    let i = internal.pop().unwrap();
    let p = produced.pop().unwrap();
    (i, p)
}

#[test]
fn input_scope_shape() {
    let (_h, mut s) = input_pair(Recorder::<u64>::new(), 3);
    assert_eq!(s.name(), "Input");
    assert_eq!(s.inputs(), 0);
    assert_eq!(s.outputs(), 1);
    assert!(!s.notify_me());
    let (summaries, caps) = s.get_internal_summary();
    assert_eq!(summaries.len(), 0);
    assert_eq!(caps.len(), 1);
    assert_eq!(caps[0].get(&t(0)), 3);
    assert_eq!(caps[0].entries().len(), 1);
}

#[test]
fn send_messages_is_one_batch_and_counted() {
    let (mut h, mut s) = input_pair(Recorder::<u64>::new(), 1);
    h.send_messages(&t(0), vec![4, 5, 6]);
    assert_eq!(
        h.output_ref().events(),
        &vec![Event::Open(t(0)), Event::Give(4), Event::Give(5), Event::Give(6), Event::Shut(t(0))]
    );
    s.collect(&mut h);
    let (internal, produced) = pull(&mut s);
    assert!(internal.is_empty());
    assert_eq!(produced.get(&t(0)), 3);
}

#[test]
fn advance_moves_the_frontier_forward() {
    let (mut h, mut s) = input_pair(Recorder::<u64>::new(), 1);
    assert_eq!(h.frontier_elements(), &vec![t(0)]);
    h.advance(&t(0), &t(4));
    assert_eq!(h.frontier_elements(), &vec![t(4)]);
    h.advance(&t(4), &t(9));
    assert_eq!(h.frontier_elements(), &vec![t(9)]);
    s.collect(&mut h);
    let (internal, _) = pull(&mut s);
    assert_eq!(internal.get(&t(0)), -1);
    assert_eq!(internal.get(&t(4)), 0);
    assert_eq!(internal.get(&t(9)), 1);
}

#[test]
fn frontier_sequence_never_moves_back() {
    let (mut h, _s) = input_pair(Recorder::<u64>::new(), 1);
    let mut previous = h.frontier_elements().clone();
    let moves: Vec<(u64, u64)> = vec![(0, 2), (2, 2), (2, 7), (7, 100)];
    for (a, b) in moves {
        h.advance(&t(a), &t(b));
        let now = h.frontier_elements().clone();
        for x in now.iter() {
            assert!(previous.iter().any(|u| u.le(x)));
        }
        previous = now;
    }
    h.close_at(&t(100));
    assert_eq!(h.frontier_elements().len(), 0);
}

#[test]
fn closing_cancels_the_initial_capability() {
    let (mut h, mut s) = input_pair(Recorder::<u64>::new(), 1);
    let (_, caps) = s.get_internal_summary();
    let mut total = CountMap::new();
    let mut c = caps;
    c.pop().unwrap().drain_into(&mut total);
    h.advance(&t(0), &t(5));
    s.collect(&mut h);
    let (i1, _) = pull(&mut s);
    let mut i1 = i1;
    i1.drain_into(&mut total);
    h.close_at(&t(5));
    s.collect(&mut h);
    let (i2, _) = pull(&mut s);
    let mut i2 = i2;
    i2.drain_into(&mut total);
    assert!(total.is_empty());
}

#[test]
fn two_inputs_end_to_end() {
    let (mut h1, mut s1) = input_pair(Recorder::<u64>::new(), 1);
    let (mut h2, mut s2) = input_pair(Recorder::<u64>::new(), 1);
    let mut capabilities = CountMap::new();
    let mut produced = CountMap::new();
    for s in [&mut s1, &mut s2] {
        let (_, mut caps) = s.get_internal_summary();
        caps.pop().unwrap().drain_into(&mut capabilities);
    }
    assert_eq!(capabilities.get(&t(0)), 2);

    h1.send_messages(&t(0), (0..10).collect());
    h2.send_messages(&t(0), (1..11).collect());
    let end = t(1_000_000);
    h1.advance(&t(0), &end);
    h2.advance(&t(0), &end);
    h1.close_at(&end);
    h2.close_at(&end);

    let mut rounds = 0;
    loop {
        rounds += 1;
        assert!(rounds < 10);
        s1.collect(&mut h1);
        s2.collect(&mut h2);
        let mut changed = false;
        for s in [&mut s1, &mut s2] {
            let (mut i, mut p) = pull(s);
            changed = changed || !i.is_empty() || !p.is_empty();
            i.drain_into(&mut capabilities);
            p.drain_into(&mut produced);
        }
        if !changed {
            break;
        }
    }
    assert!(capabilities.is_empty());
    assert_eq!(produced.get(&t(0)), 20);
    assert_eq!(produced.entries().len(), 1);
    let data1: Vec<u64> = h1
        .output_ref()
        .events()
        .iter()
        .filter_map(|e| match e {
            Event::Give(d) => Some(*d),
            _ => None,
        })
        .collect();
    assert_eq!(data1, (0..10).collect::<Vec<u64>>());
    assert_eq!(h2.output_ref().events().len(), 12);
}

#[test]
fn sending_is_allowed_only_at_or_above_the_frontier() {
    let (mut h, _s) = input_pair(Recorder::<u64>::new(), 1);
    assert!(h.can_send(&t(0)));
    assert!(h.can_send(&t(3)));
    h.advance(&t(0), &t(5));
    assert!(!h.can_send(&t(3)));
    assert!(h.can_send(&t(5)));
    assert!(h.can_send(&Product::new(2, 9)));
    h.close_at(&t(5));
    assert!(!h.can_send(&t(5)));
}
