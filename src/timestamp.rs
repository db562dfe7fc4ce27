use vstd::prelude::*;

verus! {

/// A logical time of a nested scope: the time of the enclosing scope (`outer`)
/// paired with a loop counter of this scope (`inner`).
#[derive(Clone, Copy, Debug, PartialEq, Eq, Structural, Hash)]
pub struct Product {
    pub outer: u64,
    pub inner: u64,
}

/// The partial order on products: both coordinates must be ordered.
pub open spec fn le(a: Product, b: Product) -> bool {
    a.outer <= b.outer && a.inner <= b.inner
}

impl Product {
    pub fn new(outer: u64, inner: u64) -> (r: Product)
        ensures
            r.outer == outer,
            r.inner == inner,
    {
        Product { outer, inner }
    }

    /// The least time.
    pub open spec fn spec_minimum() -> Product {
        Product { outer: 0, inner: 0 }
    }

    /// The least time: every other time lies above it.
    pub fn minimum() -> (r: Product)
        ensures
            r == Product::spec_minimum(),
            forall|t: Product| le(r, t),
    {
        Product { outer: 0, inner: 0 }
    }

    /// The partial order, as executable code.
    pub fn le(&self, other: &Product) -> (r: bool)
        ensures
            r == le(*self, *other),
    {
        self.outer <= other.outer && self.inner <= other.inner
    }
}

/// How a time changes along a path: `Local(d)` advances the loop counter by `d`.
#[derive(Clone, Copy, Debug, PartialEq, Eq, Structural, Hash)]
pub enum Summary {
    Local(u64),
}

/// The time that `s` turns `t` into; the counter stops at its largest value.
pub open spec fn results_in(s: Summary, t: Product) -> Product {
    match s {
        Summary::Local(d) => Product {
            outer: t.outer,
            inner: if t.inner + d > u64::MAX { u64::MAX } else { (t.inner + d) as u64 },
        },
    }
}

/// The summary of a path made of a path with `a` followed by one with `b`.
pub open spec fn followed_by(a: Summary, b: Summary) -> Summary {
    match (a, b) {
        (Summary::Local(x), Summary::Local(y)) => Summary::Local(
            if x + y > u64::MAX { u64::MAX } else { (x + y) as u64 },
        ),
    }
}

impl Summary {
    pub fn results_in(&self, time: &Product) -> (r: Product)
        ensures
            r == results_in(*self, *time),
    {
        match self {
            Summary::Local(d) => Product { outer: time.outer, inner: time.inner.saturating_add(*d) },
        }
    }

    pub fn followed_by(&self, other: &Summary) -> (r: Summary)
        ensures
            r == followed_by(*self, *other),
    {
        match (self, other) {
            (Summary::Local(x), Summary::Local(y)) => Summary::Local(x.saturating_add(*y)),
        }
    }
}

/// A summary never moves a time backwards.
pub proof fn lemma_results_in_monotone(s: Summary, t: Product)
    ensures
        le(t, results_in(s, t)),
{
}

/// Applying a summary keeps the order between two times.
pub proof fn lemma_results_in_preserves_order(s: Summary, a: Product, b: Product)
    requires
        le(a, b),
    ensures
        le(results_in(s, a), results_in(s, b)),
{
}

/// Following one path by another moves a time as the composed summary does.
pub proof fn lemma_followed_by_composes(a: Summary, b: Summary, t: Product)
    ensures
        results_in(followed_by(a, b), t) == results_in(b, results_in(a, t)),
{
}

} // verus!
