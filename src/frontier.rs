use vstd::prelude::*;
use crate::count_map::CountMap;
use crate::timestamp::{le, Product};

verus! {

/// `t` has a positive count in `m` and no other time with a positive count
/// lies below it.
pub open spec fn is_minimal(m: CountMap, t: Product) -> bool {
    &&& m.count(t) > 0
    &&& forall|u: Product| #[trigger] m.count(u) > 0 && le(u, t) ==> u == t
}

/// Every time with a positive count has a minimal one at or below it.
pub proof fn lemma_minimal_below(m: CountMap, t: Product)
    requires
        m.count(t) > 0,
    ensures
        exists|u: Product| is_minimal(m, u) && le(u, t),
    decreases t.outer + t.inner,
{
    if !is_minimal(m, t) {
        let u = choose|u: Product| #[trigger] m.count(u) > 0 && le(u, t) && u != t;
        lemma_minimal_below(m, u);
        let w = choose|w: Product| is_minimal(m, w) && le(w, u);
        assert(is_minimal(m, w) && le(w, t));
    } else {
        assert(is_minimal(m, t) && le(t, t));
    }
}

/// `new` differs from `old` at `time` alone.
pub open spec fn differs_at(old: CountMap, new: CountMap, time: Product) -> bool {
    forall|t: Product| t != time ==> #[trigger] new.count(t) == old.count(t)
}

/// The minimal times do not change where the count of `time` keeps its sign,
/// where `time` leaves the positive counts without having been minimal, or
/// where it joins them above a minimal time.
pub proof fn lemma_minimal_unchanged(old: CountMap, new: CountMap, time: Product)
    requires
        differs_at(old, new, time),
        (old.count(time) > 0) == (new.count(time) > 0) || (old.count(time) > 0 && !is_minimal(
            old,
            time,
        )) || (new.count(time) > 0 && exists|f: Product|
            is_minimal(old, f) && le(f, time) && f != time),
    ensures
        forall|s: Product| is_minimal(new, s) <==> is_minimal(old, s),
{
    assert forall|s: Product| is_minimal(new, s) <==> is_minimal(old, s) by {
        if (old.count(time) > 0) == (new.count(time) > 0) {
            if is_minimal(new, s) {
                assert(old.count(s) > 0) by {
                    if s != time {
                        assert(new.count(s) == old.count(s));
                    }
                }
                assert forall|u: Product| #[trigger] old.count(u) > 0 && le(u, s) implies u == s by {
                    if u != time {
                        assert(new.count(u) == old.count(u));
                    }
                    assert(new.count(u) > 0);
                }
            }
            if is_minimal(old, s) {
                assert(new.count(s) > 0) by {
                    if s != time {
                        assert(new.count(s) == old.count(s));
                    }
                }
                assert forall|u: Product| #[trigger] new.count(u) > 0 && le(u, s) implies u == s by {
                    if u != time {
                        assert(new.count(u) == old.count(u));
                    }
                    assert(old.count(u) > 0);
                }
            }
        } else if old.count(time) > 0 && !is_minimal(old, time) {
            let w = choose|w: Product| #[trigger] old.count(w) > 0 && le(w, time) && w != time;
            assert(new.count(w) == old.count(w));
            if is_minimal(new, s) {
                assert(s != time);
                assert forall|u: Product| #[trigger] old.count(u) > 0 && le(u, s) implies u == s by {
                    if u == time {
                        assert(new.count(w) > 0 && le(w, s));
                    } else {
                        assert(new.count(u) == old.count(u));
                    }
                }
            }
            if is_minimal(old, s) {
                assert(s != time);
                assert(new.count(s) == old.count(s));
                assert forall|u: Product| #[trigger] new.count(u) > 0 && le(u, s) implies u == s by {
                    assert(u != time);
                    assert(new.count(u) == old.count(u));
                }
            }
        } else {
            let f = choose|f: Product| is_minimal(old, f) && le(f, time) && f != time;
            assert(new.count(f) == old.count(f));
            if is_minimal(new, s) {
                assert(s != time);
                assert(old.count(s) == new.count(s));
                assert forall|u: Product| #[trigger] old.count(u) > 0 && le(u, s) implies u == s by {
                    assert(u != time);
                    assert(new.count(u) == old.count(u));
                }
            }
            if is_minimal(old, s) {
                assert(s != time);
                assert(new.count(s) == old.count(s));
                assert forall|u: Product| #[trigger] new.count(u) > 0 && le(u, s) implies u == s by {
                    if u == time {
                        assert(le(f, s));
                    } else {
                        assert(new.count(u) == old.count(u));
                    }
                }
            }
        }
    }
}

/// Where `time` joins the positive counts with no minimal time below it, the
/// minimal times are `time` and the former ones that do not lie above it.
pub proof fn lemma_minimal_joined(old: CountMap, new: CountMap, time: Product)
    requires
        differs_at(old, new, time),
        old.count(time) <= 0,
        new.count(time) > 0,
        forall|f: Product| is_minimal(old, f) ==> !(le(f, time) && f != time),
    ensures
        forall|s: Product|
            is_minimal(new, s) <==> (s == time || (is_minimal(old, s) && !le(time, s))),
{
    assert forall|s: Product|
        is_minimal(new, s) <==> (s == time || (is_minimal(old, s) && !le(time, s))) by {
        if s == time {
            assert forall|u: Product| #[trigger] new.count(u) > 0 && le(u, time) implies u == time by {
                if u != time {
                    assert(old.count(u) == new.count(u));
                    lemma_minimal_below(old, u);
                    let f = choose|f: Product| is_minimal(old, f) && le(f, u);
                    assert(le(f, time));
                }
            }
        } else {
            assert(new.count(s) == old.count(s));
            if is_minimal(new, s) {
                assert forall|u: Product| #[trigger] old.count(u) > 0 && le(u, s) implies u == s by {
                    assert(u != time);
                    assert(new.count(u) == old.count(u));
                }
                assert(!le(time, s)) by {
                    if le(time, s) {
                        assert(new.count(time) > 0);
                    }
                }
            }
            if is_minimal(old, s) && !le(time, s) {
                assert forall|u: Product| #[trigger] new.count(u) > 0 && le(u, s) implies u == s by {
                    assert(u != time);
                    assert(new.count(u) == old.count(u));
                }
            }
        }
    }
}

/// Each time of `later` lies at or above some time of `earlier`: the
/// frontier did not move backwards.
pub open spec fn not_behind(later: Seq<Product>, earlier: Seq<Product>) -> bool {
    forall|t: Product| #[trigger] later.contains(t) ==> exists|u: Product| earlier.contains(u) && le(u, t)
}

/// Frontiers that never move backwards step by step never do so over a
/// whole run.
pub proof fn lemma_not_behind_transitive(a: Seq<Product>, b: Seq<Product>, c: Seq<Product>)
    requires
        not_behind(b, a),
        not_behind(c, b),
    ensures
        not_behind(c, a),
{
    assert forall|t: Product| #[trigger] c.contains(t) implies exists|u: Product| a.contains(u) && le(u, t) by {
        let v = choose|v: Product| b.contains(v) && le(v, t);
        let u = choose|u: Product| a.contains(u) && le(u, v);
    }
}

/// `t` is retired under `frontier`: no time of it lies at or below `t`.
pub open spec fn retired(frontier: Seq<Product>, t: Product) -> bool {
    forall|u: Product| #[trigger] frontier.contains(u) ==> !le(u, t)
}

/// A time retired under a frontier stays retired under every later frontier
/// that is not behind it; in particular it never comes back into the frontier.
pub proof fn lemma_retired_stays_retired(earlier: Seq<Product>, later: Seq<Product>, t: Product)
    requires
        not_behind(later, earlier),
        retired(earlier, t),
    ensures
        retired(later, t),
        !later.contains(t),
{
    assert forall|u: Product| #[trigger] later.contains(u) implies !le(u, t) by {
        let v = choose|v: Product| earlier.contains(v) && le(v, u);
    }
}

/// A set of pairwise incomparable times.
pub struct Antichain {
    elements: Vec<Product>,
}

impl Antichain {
    pub closed spec fn view(&self) -> Seq<Product> {
        self.elements@
    }

    pub open spec fn wf(&self) -> bool {
        forall|i: int, j: int|
            0 <= i < self@.len() && 0 <= j < self@.len() && i != j ==> !le(
                #[trigger] self@[i],
                #[trigger] self@[j],
            )
    }

    #[verifier::type_invariant]
    spec fn inv(&self) -> bool {
        self.wf()
    }

    pub fn new() -> (r: Antichain)
        ensures
            r.wf(),
            r@.len() == 0,
    {
        Antichain { elements: Vec::new() }
    }

    /// The antichain that holds `t` alone.
    pub fn from_elem(t: Product) -> (r: Antichain)
        ensures
            r.wf(),
            r@ == seq![t],
    {
        let mut elements = Vec::new();
        elements.push(t);
        Antichain { elements }
    }

    pub fn elements(&self) -> (r: &Vec<Product>)
        ensures
            r@ == self@,
            self.wf(),
    {
        proof {
            use_type_invariant(self);
        }
        &self.elements
    }
}

/// Whether `v` holds `x`.
pub fn contains(v: &Vec<Product>, x: &Product) -> (r: bool)
    ensures
        r == v@.contains(*x),
{
    let mut i: usize = 0;
    while i < v.len()
        invariant
            i <= v@.len(),
            forall|j: int| 0 <= j < i ==> v@[j] != *x,
        decreases v@.len() - i,
    {
        if v[i] == *x {
            return true;
        }
        i += 1;
    }
    false
}

/// One of the first `n` entries of `es` is at `t`.
spec fn seen(es: Seq<(Product, i64)>, n: int, t: Product) -> bool {
    exists|a: int| 0 <= a < n && #[trigger] es[a].0 == t
}

/// Some other time of `v` lies below `x`.
fn dominated(v: &Vec<Product>, x: &Product) -> (r: bool)
    ensures
        r == exists|k: int| 0 <= k < v@.len() && le(#[trigger] v@[k], *x) && v@[k] != *x,
{
    let mut i: usize = 0;
    while i < v.len()
        invariant
            i <= v@.len(),
            forall|k: int| 0 <= k < i ==> !(le(#[trigger] v@[k], *x) && v@[k] != *x),
        decreases v@.len() - i,
    {
        if v[i].le(x) && v[i] != *x {
            return true;
        }
        i += 1;
    }
    false
}

/// The times of `v` that do not lie at or above `x`, followed by `x`.
fn joined(v: &Vec<Product>, x: &Product) -> (r: Vec<Product>)
    requires
        v@.no_duplicates(),
        !v@.contains(*x),
    ensures
        r@.no_duplicates(),
        forall|t: Product| #[trigger] r@.contains(t) <==> (t == *x || (v@.contains(t) && !le(*x, t))),
{
    let mut r: Vec<Product> = Vec::new();
    let mut i: usize = 0;
    while i < v.len()
        invariant
            i <= v@.len(),
            v@.no_duplicates(),
            r@.no_duplicates(),
            forall|t: Product|
                #[trigger] r@.contains(t) <==> exists|k: int| 0 <= k < i && v@[k] == t && !le(*x, t),
        decreases v@.len() - i,
    {
        let y = v[i];
        let ghost before = r@;
        if !x.le(&y) {
            assert(!r@.contains(y)) by {
                if r@.contains(y) {
                    let k = choose|k: int| 0 <= k < i && v@[k] == y && !le(*x, y);
                    assert(v@[k] == v@[i as int]);
                }
            }
            r.push(y);
        }
        proof {
            assert forall|t: Product|
                #[trigger] r@.contains(t) <==> exists|k: int| 0 <= k < i + 1 && v@[k] == t && !le(*x, t) by {
                if r@.contains(t) && !before.contains(t) {
                    assert(t == y);
                    assert(v@[i as int] == t);
                }
                if before.contains(t) {
                    let k = choose|k: int| 0 <= k < before.len() && before[k] == t;
                    assert(r@[k] == t);
                }
                if r@.contains(t) && before.contains(t) {
                }
                if exists|k: int| 0 <= k < i + 1 && v@[k] == t && !le(*x, t) {
                    let k = choose|k: int| 0 <= k < i + 1 && v@[k] == t && !le(*x, t);
                    if k == i {
                        assert(r@[r@.len() - 1] == t);
                    }
                }
                if r@.contains(t) {
                    let k = choose|k: int| 0 <= k < r@.len() && r@[k] == t;
                    if k < before.len() {
                        assert(before[k] == t);
                    }
                }
            }
        }
        i += 1;
    }
    let ghost before = r@;
    r.push(*x);
    proof {
        assert(r@ == before.push(*x));
        assert forall|t: Product| #[trigger] r@.contains(t) <==> (t == *x || (v@.contains(t) && !le(*x, t))) by {
            assert(before.contains(t) <==> exists|k: int| 0 <= k < v@.len() && v@[k] == t && !le(*x, t));
            if r@.contains(t) {
                let k = choose|k: int| 0 <= k < r@.len() && r@[k] == t;
                if k < before.len() {
                    assert(before[k] == t);
                    assert(before.contains(t));
                }
            }
            if t == *x {
                assert(r@[r@.len() - 1] == t);
            }
            if v@.contains(t) && !le(*x, t) {
                let j = choose|j: int| 0 <= j < v@.len() && v@[j] == t;
                assert(v@[j] == t && !le(*x, t));
                assert(before.contains(t));
                let k = choose|k: int| 0 <= k < before.len() && before[k] == t;
                assert(r@[k] == t);
            }
        }
        assert(!before.contains(*x)) by {
            if before.contains(*x) {
                assert(exists|k: int| 0 <= k < v@.len() && v@[k] == *x && !le(*x, *x));
            }
        }
    }
    r
}

/// The times of `m` with a positive count that no other such time lies below.
#[verifier::loop_isolation(false)]
fn minimal_elements(m: &CountMap) -> (r: Vec<Product>)
    requires
        m.wf(),
    ensures
        r@.no_duplicates(),
        forall|t: Product|
            #![trigger r@.contains(t)]
            #![trigger is_minimal(*m, t)]
            r@.contains(t) <==> is_minimal(*m, t),
{
    proof {
        m.lemma_entries();
    }
    let es = m.entries();
    let mut r: Vec<Product> = Vec::new();
    let mut i: usize = 0;
    while i < es.len()
        invariant
            m.wf(),
            es@ == m.entries_view(),
            i <= es@.len(),
            r@.no_duplicates(),
            forall|a: int, b: int| 0 <= a < b < es@.len() ==> es@[a].0 != es@[b].0,
            forall|a: int|
                0 <= a < es@.len() ==> m.count(#[trigger] es@[a].0) == es@[a].1 && es@[a].1 != 0,
            forall|t: Product| m.count(t) != 0 ==> exists|a: int| 0 <= a < es@.len() && #[trigger] es@[a].0 == t,
            forall|t: Product|
                #![trigger r@.contains(t)]
                #![trigger is_minimal(*m, t)]
                r@.contains(t) <==> (is_minimal(*m, t) && seen(es@, i as int, t)),
        decreases es@.len() - i,
    {
        let (t, c) = es[i];
        let ghost before = r@;
        proof {
            assert(es@[i as int].0 == t);
        }
        if c > 0 {
            let mut below = false;
            let mut j: usize = 0;
            while j < es.len()
                invariant
                    j <= es@.len(),
                    below ==> !is_minimal(*m, t),
                    !below ==> forall|b: int|
                        0 <= b < j && #[trigger] es@[b].1 > 0 ==> es@[b].0 == t || !le(es@[b].0, t),
                decreases es@.len() - j,
            {
                let (u, d) = es[j];
                if d > 0 && u != t && u.le(&t) {
                    assert(m.count(es@[j as int].0) == d);
                    below = true;
                }
                j += 1;
            }
            if !below {
                assert forall|u: Product| #[trigger] m.count(u) > 0 && le(u, t) implies u == t by {
                    let b = choose|b: int| 0 <= b < es@.len() && #[trigger] es@[b].0 == u;
                    assert(es@[b].1 > 0);
                }
                assert(is_minimal(*m, t));
                assert(!r@.contains(t)) by {
                    if r@.contains(t) {
                        let a = choose|a: int| 0 <= a < i && #[trigger] es@[a].0 == t;
                        assert(a < i);
                        assert(es@[a].0 != es@[i as int].0);
                    }
                }
                r.push(t);
                proof {
                    assert(r@.drop_last() =~= before);
                    assert forall|x: Product| r@.contains(x) <==> (r@.drop_last().contains(x) || x == t) by {
                        if r@.contains(x) {
                            let k = choose|k: int| 0 <= k < r@.len() && r@[k] == x;
                            if k < r@.len() - 1 {
                                assert(r@.drop_last()[k] == x);
                            }
                        }
                        if r@.drop_last().contains(x) {
                            let k = choose|k: int| 0 <= k < r@.len() - 1 && r@.drop_last()[k] == x;
                            assert(r@[k] == x);
                        }
                        if x == t {
                            assert(r@[r@.len() - 1] == x);
                        }
                    }
                }
            }
        } else {
            assert(!is_minimal(*m, t));
        }
        proof {
            assert forall|x: Product| seen(es@, i + 1, x) <==> (seen(es@, i as int, x) || x == t) by {
                if seen(es@, i + 1, x) {
                    let a = choose|a: int| 0 <= a < i + 1 && #[trigger] es@[a].0 == x;
                    if a < i {
                        assert(seen(es@, i as int, x));
                    }
                }
                if x == t {
                    assert(es@[i as int].0 == x);
                }
            }
            assert(!is_minimal(*m, t) ==> !r@.contains(t));
            assert(is_minimal(*m, t) ==> r@.contains(t));
            assert forall|x: Product| x != t implies (r@.contains(x) <==> (is_minimal(*m, x) && seen(es@, i + 1, x))) by {
                assert(before.contains(x) <==> (is_minimal(*m, x) && seen(es@, i as int, x)));
                assert(r@.contains(x) <==> before.contains(x));
            }
        }
        i += 1;
    }
    r
}

/// Times with signed counts, and the frontier they induce: the minimal
/// elements among the times whose count is positive.
pub struct MutableAntichain {
    counts: CountMap,
    frontier: Vec<Product>,
}

impl MutableAntichain {
    pub closed spec fn counts(&self) -> CountMap {
        self.counts
    }

    /// The frontier, each time once.
    pub closed spec fn frontier(&self) -> Seq<Product> {
        self.frontier@
    }

    pub closed spec fn wf(&self) -> bool {
        &&& self.counts.wf()
        &&& self.frontier@.no_duplicates()
        &&& forall|t: Product|
            #![trigger self.frontier@.contains(t)]
            #![trigger is_minimal(self.counts, t)]
            self.frontier@.contains(t) <==> is_minimal(self.counts, t)
    }

    /// Every time whose count changes by a unit keeps within the counter's range.
    pub open spec fn fits_unit(m: CountMap) -> bool {
        forall|t: Product| i64::MIN < #[trigger] m.count(t) < i64::MAX
    }

    pub proof fn lemma_wf(&self)
        requires
            self.wf(),
        ensures
            self.counts().wf(),
            self.frontier().no_duplicates(),
            forall|t: Product| self.frontier().contains(t) <==> is_minimal(self.counts(), t),
    {
    }

    /// No time has a count.
    pub fn new() -> (r: MutableAntichain)
        ensures
            r.wf(),
            forall|t: Product| r.counts().count(t) == 0,
            r.frontier().len() == 0,
    {
        let counts = CountMap::new();
        let frontier = minimal_elements(&counts);
        let r = MutableAntichain { counts, frontier };
        proof {
            if r.frontier@.len() > 0 {
                assert(r.frontier@.contains(r.frontier@[0]));
            }
        }
        r
    }

    /// `t` holds a count of one, and is the whole frontier.
    pub fn new_bottom(t: Product) -> (r: MutableAntichain)
        ensures
            r.wf(),
            r.counts().count(t) == 1,
            forall|u: Product| u != t ==> r.counts().count(u) == 0,
            r.frontier() == seq![t],
    {
        let counts = CountMap::new_from(&t, 1);
        let frontier = minimal_elements(&counts);
        let r = MutableAntichain { counts, frontier };
        proof {
            assert(r.frontier@.contains(t));
            assert forall|k: int| 0 <= k < r.frontier@.len() implies r.frontier@[k] == t by {
                assert(r.frontier@.contains(r.frontier@[k]));
            }
            if r.frontier@.len() > 1 {
                assert(r.frontier@[0] == r.frontier@[1]);
            }
            assert(r.frontier@ =~= seq![t]);
        }
        r
    }

    /// The count of `time`.
    pub fn count_of(&self, time: &Product) -> (r: i64)
        requires
            self.wf(),
        ensures
            r == self.counts().count(*time),
    {
        self.counts.get(time)
    }

    /// The frontier.
    pub fn elements(&self) -> (r: &Vec<Product>)
        ensures
            r@ == self.frontier(),
    {
        &self.frontier
    }

    /// Makes `fresh`, the minimal times of the counts, the frontier, and
    /// records in `out` one down for each time that left it and one up for
    /// each time that joined it.
    #[verifier::loop_isolation(false)]
    fn install(&mut self, fresh: Vec<Product>, out: &mut CountMap)
        requires
            old(self).counts.wf(),
            old(self).frontier@.no_duplicates(),
            fresh@.no_duplicates(),
            forall|t: Product| fresh@.contains(t) <==> is_minimal(old(self).counts, t),
            old(out).wf(),
            Self::fits_unit(*old(out)),
        ensures
            final(self).wf(),
            final(self).counts == old(self).counts,
            final(self).frontier@ == fresh@,
            final(out).wf(),
            forall|t: Product|
                #[trigger] final(out).count(t) == old(out).count(t) + (if fresh@.contains(t) {
                    1int
                } else {
                    0
                }) - (if old(self).frontier@.contains(t) {
                    1int
                } else {
                    0
                }),
    {
        let ghost out0 = *out;
        let ghost stale = self.frontier@;
        let mut i: usize = 0;
        while i < self.frontier.len()
            invariant
                self.frontier@ == stale,
                stale.no_duplicates(),
                i <= stale.len(),
                out.wf(),
                Self::fits_unit(out0),
                forall|t: Product|
                    #[trigger] out.count(t) == out0.count(t) - (if stale.take(i as int).contains(t)
                        && !fresh@.contains(t) {
                        1int
                    } else {
                        0
                    }),
            decreases stale.len() - i,
        {
            let x = self.frontier[i];
            proof {
                assert(!stale.take(i as int).contains(x)) by {
                    if stale.take(i as int).contains(x) {
                        let k = choose|k: int| 0 <= k < i && stale.take(i as int)[k] == x;
                        assert(stale[k] == stale[i as int]);
                    }
                }
                let longer = stale.take(i + 1);
                let shorter = stale.take(i as int);
                assert forall|t: Product|
                    longer.contains(t) <==> shorter.contains(t) || t == x by {
                    if longer.contains(t) {
                        let k = choose|k: int| 0 <= k < longer.len() && #[trigger] longer[k] == t;
                        if k < i {
                            assert(shorter[k] == t);
                        }
                    }
                    if shorter.contains(t) {
                        let k = choose|k: int| 0 <= k < shorter.len() && #[trigger] shorter[k] == t;
                        assert(longer[k] == t);
                    }
                    if t == x {
                        assert(longer[i as int] == t);
                    }
                }
            }
            if !contains(&fresh, &x) {
                assert(out0.fits(x, -1));
                assert(out.count(x) == out0.count(x));
                out.update(&x, -1);
            }
            i += 1;
        }
        proof {
            assert(stale.take(stale.len() as int) =~= stale);
        }
        let ghost mid = *out;
        let mut j: usize = 0;
        while j < fresh.len()
            invariant
                fresh@.no_duplicates(),
                j <= fresh@.len(),
                out.wf(),
                Self::fits_unit(out0),
                forall|t: Product|
                    #[trigger] mid.count(t) == out0.count(t) - (if stale.contains(t)
                        && !fresh@.contains(t) {
                        1int
                    } else {
                        0
                    }),
                forall|t: Product|
                    #[trigger] out.count(t) == mid.count(t) + (if fresh@.take(j as int).contains(t)
                        && !stale.contains(t) {
                        1int
                    } else {
                        0
                    }),
            decreases fresh@.len() - j,
        {
            let x = fresh[j];
            proof {
                assert(!fresh@.take(j as int).contains(x)) by {
                    if fresh@.take(j as int).contains(x) {
                        let k = choose|k: int| 0 <= k < j && fresh@.take(j as int)[k] == x;
                        assert(fresh@[k] == fresh@[j as int]);
                    }
                }
                let longer = fresh@.take(j + 1);
                let shorter = fresh@.take(j as int);
                assert forall|t: Product|
                    longer.contains(t) <==> shorter.contains(t) || t == x by {
                    if longer.contains(t) {
                        let k = choose|k: int| 0 <= k < longer.len() && #[trigger] longer[k] == t;
                        if k < j {
                            assert(shorter[k] == t);
                        }
                    }
                    if shorter.contains(t) {
                        let k = choose|k: int| 0 <= k < shorter.len() && #[trigger] shorter[k] == t;
                        assert(longer[k] == t);
                    }
                    if t == x {
                        assert(longer[j as int] == t);
                    }
                }
            }
            if !contains(&self.frontier, &x) {
                assert(out0.fits(x, 1));
                assert(out.count(x) == out0.count(x));
                out.update(&x, 1);
            }
            j += 1;
        }
        proof {
            assert(fresh@.take(fresh@.len() as int) =~= fresh@);
        }
        self.frontier = fresh;
    }

    /// Adds `delta` to the count of `time`, and records in `out` the change of
    /// the frontier: one down for each time that left it, one up for each
    /// time that joined it.  The frontier is kept as it is where the change
    /// cannot move it, updated from itself where `time` joins it, and found
    /// again from the positive counts only where a time of it leaves them.
    pub fn update_weight(&mut self, time: &Product, delta: i64, out: &mut CountMap)
        requires
            old(self).wf(),
            old(self).counts().fits(*time, delta as int),
            old(out).wf(),
            Self::fits_unit(*old(out)),
        ensures
            final(self).wf(),
            final(out).wf(),
            final(self).counts().wf(),
            final(self).frontier().no_duplicates(),
            forall|t: Product|
                #![trigger final(self).frontier().contains(t)]
                #![trigger is_minimal(final(self).counts(), t)]
                final(self).frontier().contains(t) <==> is_minimal(final(self).counts(), t),
            final(self).counts().count(*time) == old(self).counts().count(*time) + delta,
            forall|t: Product| t != *time ==> final(self).counts().count(t) == old(self).counts().count(t),
            forall|t: Product|
                #[trigger] final(out).count(t) == old(out).count(t) + (if final(self).frontier().contains(t) {
                    1int
                } else {
                    0
                }) - (if old(self).frontier().contains(t) {
                    1int
                } else {
                    0
                }),
    {
        let before = self.counts.get(time);
        proof {
            self.counts.lemma_counts_fit(*time);
        }
        let ghost c0 = self.counts;
        self.counts.update(time, delta);
        let after = self.counts.get(time);
        let unchanged = if (before > 0) == (after > 0) {
            true
        } else if before > 0 {
            !contains(&self.frontier, time)
        } else {
            dominated(&self.frontier, time)
        };
        if unchanged {
            proof {
                assert(differs_at(c0, self.counts, *time));
                if !((before > 0) == (after > 0)) && before <= 0 {
                    let k = choose|k: int|
                        0 <= k < self.frontier@.len() && le(#[trigger] self.frontier@[k], *time)
                            && self.frontier@[k] != *time;
                    assert(self.frontier@.contains(self.frontier@[k]));
                    assert(is_minimal(c0, self.frontier@[k]));
                }
                lemma_minimal_unchanged(c0, self.counts, *time);
                assert forall|t: Product|
                    self.frontier@.contains(t) <==> is_minimal(self.counts, t) by {
                    assert(is_minimal(self.counts, t) == is_minimal(c0, t));
                }
            }
            return;
        }
        let fresh = if after > 0 {
            proof {
                assert(!self.frontier@.contains(*time));
                assert(differs_at(c0, self.counts, *time));
                assert forall|f: Product| is_minimal(c0, f) implies !(le(f, *time) && f != *time) by {
                    if le(f, *time) && f != *time {
                        assert(self.frontier@.contains(f));
                        let k = choose|k: int| 0 <= k < self.frontier@.len() && self.frontier@[k] == f;
                        assert(le(self.frontier@[k], *time) && self.frontier@[k] != *time);
                    }
                }
                lemma_minimal_joined(c0, self.counts, *time);
            }
            let r = joined(&self.frontier, time);
            proof {
                assert forall|t: Product| r@.contains(t) <==> is_minimal(self.counts, t) by {
                    assert(is_minimal(self.counts, t) <==> (t == *time || (is_minimal(c0, t) && !le(
                        *time,
                        t,
                    ))));
                }
            }
            r
        } else {
            minimal_elements(&self.counts)
        };
        self.install(fresh, out);
    }
}

} // verus!
