use timely_progress::timestamp::{Product, Summary};

#[test]
fn product_order_needs_both_coordinates() {
    let a = Product::new(1, 2);
    assert!(a.le(&Product::new(1, 2)));
    assert!(a.le(&Product::new(2, 3)));
    assert!(!a.le(&Product::new(0, 5)));
    assert!(!a.le(&Product::new(5, 1)));
    assert!(!Product::new(0, 5).le(&a));
}

#[test]
fn minimum_is_below_everything() {
    let m = Product::minimum();
    assert_eq!(m, Product::new(0, 0));
    assert!(m.le(&Product::new(7, 3)));
}

#[test]
fn local_summary_advances_inner_counter() {
    let s = Summary::Local(3);
    assert_eq!(s.results_in(&Product::new(4, 10)), Product::new(4, 13));
}

#[test]
fn local_summary_saturates() {
    let s = Summary::Local(5);
    assert_eq!(s.results_in(&Product::new(0, u64::MAX - 2)), Product::new(0, u64::MAX));
}

#[test]
fn summaries_compose() {
    let a = Summary::Local(2);
    let b = Summary::Local(5);
    assert_eq!(a.followed_by(&b), Summary::Local(7));
    let t = Product::new(1, 1);
    assert_eq!(a.followed_by(&b).results_in(&t), b.results_in(&a.results_in(&t)));
    assert_eq!(Summary::Local(u64::MAX).followed_by(&Summary::Local(1)), Summary::Local(u64::MAX));
}
