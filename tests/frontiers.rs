use timely_progress::count_map::CountMap;
use timely_progress::frontier::{Antichain, MutableAntichain};
use timely_progress::timestamp::Product;

fn p(o: u64, i: u64) -> Product {
    Product::new(o, i)
}

fn sorted(v: &Vec<Product>) -> Vec<(u64, u64)> {
    let mut r: Vec<(u64, u64)> = v.iter().map(|x| (x.outer, x.inner)).collect();
    r.sort();
    r
}

/// The minimal elements among the times whose count is positive, by brute force.
fn brute_force(counts: &Vec<(Product, i64)>) -> Vec<(u64, u64)> {
    let mut r = Vec::new();
    for (t, c) in counts.iter() {
        if *c > 0 && !counts.iter().any(|(u, d)| *d > 0 && u != t && u.le(t)) {
            r.push((t.outer, t.inner));
        }
    }
    r.sort();
    r
}

#[test]
fn antichain_from_elem() {
    let a = Antichain::from_elem(p(1, 2));
    assert_eq!(a.elements(), &vec![p(1, 2)]);
    assert_eq!(Antichain::new().elements().len(), 0);
}

#[test]
fn new_bottom_holds_its_time() {
    let m = MutableAntichain::new_bottom(p(0, 0));
    assert_eq!(m.elements(), &vec![p(0, 0)]);
    assert_eq!(MutableAntichain::new().elements().len(), 0);
}

#[test]
fn frontier_tracks_minimal_elements_through_updates() {
    let mut m = MutableAntichain::new();
    let mut out = CountMap::new();
    let mut counts: Vec<(Product, i64)> = Vec::new();
    let steps: Vec<(Product, i64)> = vec![
        (p(2, 2), 1),
        (p(1, 3), 1),
        (p(3, 1), 1),
        (p(1, 1), 1),
        (p(1, 1), 1),
        (p(1, 1), -1),
        (p(2, 2), -1),
        (p(1, 1), -1),
        (p(0, 5), 2),
        (p(3, 1), -1),
        (p(1, 3), -1),
        (p(0, 5), -2),
        (p(4, 4), -1),
        (p(4, 4), 2),
    ];
    for (time, d) in steps {
        m.update_weight(&time, d, &mut out);
        match counts.iter().position(|(u, _)| *u == time) {
            Some(i) => counts[i].1 += d,
            None => counts.push((time, d)),
        }
        assert_eq!(sorted(m.elements()), brute_force(&counts));
    }
}

#[test]
fn update_weight_reports_frontier_changes_only() {
    let mut m = MutableAntichain::new();
    let mut out = CountMap::new();
    m.update_weight(&p(0, 5), 1, &mut out);
    assert_eq!(out.get(&p(0, 5)), 1);
    // A time above the frontier changes nothing visible.
    m.update_weight(&p(0, 7), 1, &mut out);
    assert_eq!(out.get(&p(0, 7)), 0);
    assert_eq!(out.entries().len(), 1);
    // A lower time takes over the frontier.
    m.update_weight(&p(0, 3), 1, &mut out);
    assert_eq!(out.get(&p(0, 3)), 1);
    assert_eq!(out.get(&p(0, 5)), 0);
    // Retiring it brings the earlier minimum back.
    m.update_weight(&p(0, 3), -1, &mut out);
    assert_eq!(out.get(&p(0, 3)), 0);
    assert_eq!(out.get(&p(0, 5)), 1);
    assert_eq!(m.elements(), &vec![p(0, 5)]);
}

#[test]
fn incomparable_times_share_the_frontier() {
    let mut m = MutableAntichain::new();
    let mut out = CountMap::new();
    m.update_weight(&p(1, 0), 1, &mut out);
    m.update_weight(&p(0, 1), 1, &mut out);
    assert_eq!(sorted(m.elements()), vec![(0, 1), (1, 0)]);
    assert_eq!(out.get(&p(1, 0)), 1);
    assert_eq!(out.get(&p(0, 1)), 1);
}
