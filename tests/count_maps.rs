use timely_progress::count_map::CountMap;
use timely_progress::timestamp::Product;

fn t(i: u64) -> Product {
    Product::new(0, i)
}

#[test]
fn update_adds_and_drops_zero_entries() {
    let mut m = CountMap::new();
    assert!(m.is_empty());
    m.update(&t(1), 3);
    m.update(&t(2), -1);
    m.update(&t(1), -1);
    assert_eq!(m.get(&t(1)), 2);
    assert_eq!(m.get(&t(2)), -1);
    assert_eq!(m.entries().len(), 2);
    m.update(&t(1), -2);
    assert_eq!(m.get(&t(1)), 0);
    assert_eq!(m.entries().len(), 1);
    m.update(&t(2), 1);
    assert!(m.is_empty());
    assert_eq!(m.entries().len(), 0);
}

#[test]
fn update_by_zero_adds_no_entry() {
    let mut m = CountMap::new();
    m.update(&t(4), 0);
    assert!(m.is_empty());
    let n = CountMap::new_from(&t(4), 0);
    assert!(n.is_empty());
}

#[test]
fn new_from_holds_one_count() {
    let m = CountMap::new_from(&t(5), 7);
    assert_eq!(m.get(&t(5)), 7);
    assert_eq!(m.get(&t(6)), 0);
    assert_eq!(m.entries().len(), 1);
}

#[test]
fn pop_takes_every_entry_once() {
    let mut m = CountMap::new();
    m.update(&t(1), 1);
    m.update(&t(2), -2);
    m.update(&t(3), 3);
    let mut seen = Vec::new();
    while let Some((time, v)) = m.pop() {
        assert_ne!(v, 0);
        seen.push((time.inner, v));
    }
    seen.sort();
    assert_eq!(seen, vec![(1, 1), (2, -2), (3, 3)]);
    assert!(m.is_empty());
    assert_eq!(m.pop(), None);
}

#[test]
fn drain_into_adds_counts_and_empties_source() {
    let mut a = CountMap::new();
    a.update(&t(1), 2);
    a.update(&t(2), -1);
    let mut b = CountMap::new();
    b.update(&t(2), 1);
    b.update(&t(3), 4);
    a.drain_into(&mut b);
    assert!(a.is_empty());
    assert_eq!(b.get(&t(1)), 2);
    assert_eq!(b.get(&t(2)), 0);
    assert_eq!(b.get(&t(3)), 4);
    assert_eq!(b.entries().len(), 2);
}

#[test]
fn clear_empties() {
    let mut a = CountMap::new_from(&t(1), 9);
    a.clear();
    assert!(a.is_empty());
}

#[test]
fn saturating_update_stops_at_range() {
    let mut a = CountMap::new_from(&t(1), i64::MAX - 1);
    a.update_saturating(&t(1), 5);
    assert_eq!(a.get(&t(1)), i64::MAX);
    a.update_saturating(&t(2), -3);
    assert_eq!(a.get(&t(2)), -3);
    a.update_saturating(&t(2), 3);
    assert_eq!(a.get(&t(2)), 0);
    assert_eq!(a.entries().len(), 1);
}

#[test]
fn counts_cancel_over_a_lifetime() {
    // Deltas reported for one time over a closed computation net to zero.
    let mut total = CountMap::new();
    let deltas: Vec<(u64, i64)> = vec![(0, 1), (0, 2), (1, 1), (0, -3), (1, -1)];
    for (time, d) in deltas {
        let mut step = CountMap::new_from(&t(time), d);
        step.drain_into(&mut total);
    }
    assert!(total.is_empty());
}
