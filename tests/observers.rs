use timely_progress::observer::{Event, ExchangeObserver, Observer, ObserverSessionExt, Recorder};
use timely_progress::timestamp::Product;

fn t(i: u64) -> Product {
    Product::new(0, i)
}

#[test]
fn recorder_keeps_calls_in_order() {
    let mut r: Recorder<u64> = Recorder::new();
    r.open(&t(1));
    r.show(&5);
    r.give(6);
    r.shut(&t(1));
    assert_eq!(
        r.events(),
        &vec![Event::Open(t(1)), Event::Show(5), Event::Give(6), Event::Shut(t(1))]
    );
}

#[test]
fn session_brackets_its_data() {
    let r: Recorder<u64> = Recorder::new();
    let mut s = r.session(&t(3));
    s.show(&1);
    s.give(2);
    s.give(3);
    let r = s.close();
    assert_eq!(
        r.events(),
        &vec![Event::Open(t(3)), Event::Show(1), Event::Give(2), Event::Give(3), Event::Shut(t(3))]
    );
}

fn first_batch_only(r: Recorder<u64>, data: &Vec<u64>) -> Recorder<u64> {
    let mut s = r.session(&t(0));
    for d in data.iter() {
        if *d > 2 {
            // Early exit still shuts the batch exactly once.
            return s.close();
        }
        s.give(*d);
    }
    s.close()
}

#[test]
fn session_shuts_once_on_early_exit() {
    let r = first_batch_only(Recorder::new(), &vec![1, 2, 3, 4]);
    let shuts = r.events().iter().filter(|e| matches!(e, Event::Shut(_))).count();
    assert_eq!(shuts, 1);
    assert_eq!(
        r.events(),
        &vec![Event::Open(t(0)), Event::Give(1), Event::Give(2), Event::Shut(t(0))]
    );
}

#[test]
fn empty_session_is_open_then_shut() {
    let r: Recorder<u64> = Recorder::new();
    let r = r.session(&t(9)).close();
    assert_eq!(r.events(), &vec![Event::Open(t(9)), Event::Shut(t(9))]);
}

#[test]
fn show_at_and_give_at_make_one_batch_each() {
    let mut r: Recorder<u64> = Recorder::new();
    r.show_at(&t(1), &vec![7, 8]);
    r.give_at(&t(2), vec![9]);
    assert_eq!(
        r.events(),
        &vec![
            Event::Open(t(1)),
            Event::Show(7),
            Event::Show(8),
            Event::Shut(t(1)),
            Event::Open(t(2)),
            Event::Give(9),
            Event::Shut(t(2)),
        ]
    );
}

#[test]
fn exchange_routes_by_hash_modulo_count() {
    let inner: Vec<Recorder<u64>> = vec![Recorder::new(), Recorder::new(), Recorder::new()];
    let mut x = ExchangeObserver::new(inner, |d: &u64| *d * 7);
    x.open(&t(0));
    for d in 0..10u64 {
        x.give(d);
    }
    x.show(&11);
    x.shut(&t(0));
    let inner = x.into_observers();
    for (k, r) in inner.iter().enumerate() {
        let ev = r.events();
        assert_eq!(ev[0], Event::Open(t(0)));
        assert_eq!(ev[ev.len() - 1], Event::Shut(t(0)));
        for e in &ev[1..ev.len() - 1] {
            match e {
                Event::Give(d) | Event::Show(d) => assert_eq!((*d * 7 % 3) as usize, k),
                _ => panic!("unexpected punctuation inside a batch"),
            }
        }
    }
    let total: usize = inner.iter().map(|r| r.events().len() - 2).sum();
    assert_eq!(total, 11);
    assert!(inner[2].events().contains(&Event::Show(11)));
}

#[test]
fn exchange_punctuates_partitions_without_data() {
    let inner: Vec<Recorder<u64>> = vec![Recorder::new(), Recorder::new()];
    let mut x = ExchangeObserver::new(inner, |_d: &u64| 0);
    x.open(&t(4));
    x.give(1);
    x.shut(&t(4));
    assert_eq!(x.observers()[1].events(), &vec![Event::Open(t(4)), Event::Shut(t(4))]);
    assert_eq!(
        x.observers()[0].events(),
        &vec![Event::Open(t(4)), Event::Give(1), Event::Shut(t(4))]
    );
}

#[test]
fn boxed_observer_forwards_calls() {
    let mut b: Box<Recorder<u64>> = Box::new(Recorder::new());
    Observer::open(&mut b, &t(1));
    Observer::give(&mut b, 2);
    Observer::shut(&mut b, &t(1));
    assert_eq!(b.events(), &vec![Event::Open(t(1)), Event::Give(2), Event::Shut(t(1))]);
}
