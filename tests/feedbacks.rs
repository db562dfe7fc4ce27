use timely_progress::count_map::CountMap;
use timely_progress::feedback::{FeedbackObserver, FeedbackScope};
use timely_progress::observer::{Event, Observer, ObserverSessionExt, Recorder};
use timely_progress::scope::Scope;
use timely_progress::timestamp::{Product, Summary};

fn t(i: u64) -> Product {
    Product::new(0, i)
}

#[test]
fn feedback_forwards_below_limit_at_next_round() {
    let mut f = FeedbackObserver::new(t(10), Summary::Local(1), Recorder::<u64>::new());
    f.give_at(&t(3), vec![1, 2]);
    assert_eq!(
        f.targets_ref().events(),
        &vec![Event::Open(t(4)), Event::Give(1), Event::Give(2), Event::Shut(t(4))]
    );
}

#[test]
fn feedback_forwards_at_the_limit() {
    let mut f = FeedbackObserver::new(t(10), Summary::Local(1), Recorder::<u64>::new());
    f.open(&t(10));
    f.show(&5);
    f.shut(&t(10));
    assert_eq!(
        f.targets_ref().events(),
        &vec![Event::Open(t(11)), Event::Show(5), Event::Shut(t(11))]
    );
}

#[test]
fn feedback_drops_past_the_limit() {
    let mut f = FeedbackObserver::new(t(10), Summary::Local(1), Recorder::<u64>::new());
    f.give_at(&t(11), vec![1, 2, 3]);
    assert_eq!(f.targets_ref().events().len(), 0);
}

#[test]
fn feedback_scope_collects_counts() {
    let mut f = FeedbackObserver::new(t(10), Summary::Local(2), Recorder::<u64>::new());
    f.give_at(&t(3), vec![1, 2]);
    f.give_at(&t(20), vec![9]);
    let mut s = FeedbackScope::new(Summary::Local(2));
    s.collect(&mut f);
    let mut internal = vec![CountMap::new()];
    let mut consumed = vec![CountMap::new()];
    let mut produced = vec![CountMap::new()];
    let again = s.pull_internal_progress(&mut internal, &mut consumed, &mut produced);
    assert!(!again);
    assert!(internal[0].is_empty());
    assert_eq!(consumed[0].get(&t(3)), 2);
    assert_eq!(consumed[0].get(&t(20)), 1);
    assert_eq!(produced[0].get(&t(5)), 2);
    assert_eq!(produced[0].entries().len(), 1);
}

#[test]
fn feedback_scope_shape() {
    let mut s = FeedbackScope::new(Summary::Local(1));
    assert_eq!(s.name(), "Feedback");
    assert_eq!(s.inputs(), 1);
    assert_eq!(s.outputs(), 1);
    assert!(!s.notify_me());
    let (summaries, caps) = s.get_internal_summary();
    assert_eq!(summaries, vec![vec![vec![Summary::Local(1)]]]);
    assert_eq!(caps.len(), 1);
    assert!(caps[0].is_empty());
}

#[test]
fn loop_through_feedback_ends_within_bound() {
    // A batch goes round a loop until the feedback vertex drops it.
    let limit = t(1000);
    let step = 7u64;
    let mut time = t(0);
    let mut passes = 0u64;
    loop {
        let mut f = FeedbackObserver::new(limit, Summary::Local(step), Recorder::<u64>::new());
        let mut s = f.session(&time);
        s.give(1);
        f = s.close();
        let events = f.targets_ref().events();
        if events.is_empty() {
            break;
        }
        match events[0] {
            Event::Open(next) => time = next,
            _ => panic!("batch must start with an open"),
        }
        passes += 1;
    }
    assert_eq!(passes, 1000 / 7 + 1);
}
