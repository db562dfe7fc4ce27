use vstd::prelude::*;
use crate::timestamp::Product;

verus! {

/// The net count that the entries of `s` give to `t`.
pub open spec fn weight(s: Seq<(Product, i64)>, t: Product) -> int
    decreases s.len(),
{
    if s.len() == 0 {
        0
    } else {
        weight(s.drop_last(), t) + if s.last().0 == t {
            s.last().1 as int
        } else {
            0
        }
    }
}

/// No time appears twice and no entry has a zero count.
pub open spec fn compact(s: Seq<(Product, i64)>) -> bool {
    &&& forall|i: int, j: int| 0 <= i < j < s.len() ==> s[i].0 != s[j].0
    &&& forall|i: int| 0 <= i < s.len() ==> s[i].1 != 0
}

proof fn lemma_weight_push(s: Seq<(Product, i64)>, x: (Product, i64), t: Product)
    ensures
        weight(s.push(x), t) == weight(s, t) + if x.0 == t {
            x.1 as int
        } else {
            0
        },
{
    assert(s.push(x).drop_last() =~= s);
}

proof fn lemma_weight_remove(s: Seq<(Product, i64)>, i: int, t: Product)
    requires
        0 <= i < s.len(),
    ensures
        weight(s.remove(i), t) == weight(s, t) - if s[i].0 == t {
            s[i].1 as int
        } else {
            0
        },
    decreases s.len(),
{
    if i == s.len() - 1 {
        assert(s.remove(i) =~= s.drop_last());
    } else {
        lemma_weight_remove(s.drop_last(), i, t);
        assert(s.remove(i).drop_last() =~= s.drop_last().remove(i));
    }
}

proof fn lemma_weight_update(s: Seq<(Product, i64)>, i: int, v: i64, t: Product)
    requires
        0 <= i < s.len(),
    ensures
        weight(s.update(i, (s[i].0, v)), t) == weight(s, t) + if s[i].0 == t {
            v - s[i].1
        } else {
            0
        },
    decreases s.len(),
{
    if i == s.len() - 1 {
        assert(s.update(i, (s[i].0, v)).drop_last() =~= s.drop_last());
    } else {
        lemma_weight_update(s.drop_last(), i, v, t);
        assert(s.update(i, (s[i].0, v)).drop_last() =~= s.drop_last().update(i, (s[i].0, v)));
    }
}

proof fn lemma_weight_absent(s: Seq<(Product, i64)>, t: Product)
    requires
        forall|i: int| 0 <= i < s.len() ==> s[i].0 != t,
    ensures
        weight(s, t) == 0,
    decreases s.len(),
{
    if s.len() > 0 {
        lemma_weight_absent(s.drop_last(), t);
    }
}

proof fn lemma_weight_at(s: Seq<(Product, i64)>, i: int)
    requires
        compact(s),
        0 <= i < s.len(),
    ensures
        weight(s, s[i].0) == s[i].1,
    decreases s.len(),
{
    if i == s.len() - 1 {
        lemma_weight_absent(s.drop_last(), s[i].0);
    } else {
        lemma_weight_at(s.drop_last(), i);
    }
}

/// A sparse map from times to signed counts; a time whose count is zero holds
/// no entry.
pub struct CountMap {
    entries: Vec<(Product, i64)>,
}

impl CountMap {
    /// The count of `t`; zero where the map holds no entry for it.
    pub closed spec fn count(&self, t: Product) -> int {
        weight(self.entries@, t)
    }

    pub closed spec fn wf(&self) -> bool {
        compact(self.entries@)
    }

    /// The number of times with a non-zero count.
    pub closed spec fn size(&self) -> nat {
        self.entries@.len()
    }

    /// Every count is zero.
    pub open spec fn is_zero(&self) -> bool {
        forall|t: Product| self.count(t) == 0
    }

    /// Adding `delta` to the count of `t` stays within the counter's range.
    pub open spec fn fits(&self, t: Product, delta: int) -> bool {
        i64::MIN <= self.count(t) + delta <= i64::MAX
    }

    /// All counts are zero exactly when the map holds no entry.
    pub proof fn lemma_zero_iff_empty(&self)
        requires
            self.wf(),
        ensures
            self.is_zero() <==> self.size() == 0,
    {
        if self.size() == 0 {
            assert forall|t: Product| self.count(t) == 0 by {
                lemma_weight_absent(self.entries@, t);
            }
        } else {
            lemma_weight_at(self.entries@, 0);
            assert(self.count(self.entries@[0].0) != 0);
        }
    }

    /// Every count lies within the counter's range.
    pub proof fn lemma_counts_fit(&self, t: Product)
        requires
            self.wf(),
        ensures
            i64::MIN <= self.count(t) <= i64::MAX,
    {
        let s = self.entries@;
        if exists|i: int| 0 <= i < s.len() && s[i].0 == t {
            let i = choose|i: int| 0 <= i < s.len() && s[i].0 == t;
            lemma_weight_at(s, i);
        } else {
            lemma_weight_absent(s, t);
        }
    }

    pub fn new() -> (r: CountMap)
        ensures
            r.wf(),
            r.is_zero(),
    {
        let r = CountMap { entries: Vec::new() };
        proof {
            r.lemma_zero_iff_empty();
        }
        r
    }

    /// A map that holds `value` at `time` alone.
    pub fn new_from(time: &Product, value: i64) -> (r: CountMap)
        ensures
            r.wf(),
            r.count(*time) == value,
            forall|t: Product| t != *time ==> r.count(t) == 0,
    {
        let mut r = CountMap::new();
        r.update(time, value);
        r
    }

    /// The count of `time`.
    pub fn get(&self, time: &Product) -> (r: i64)
        requires
            self.wf(),
        ensures
            r == self.count(*time),
    {
        let mut i: usize = 0;
        while i < self.entries.len()
            invariant
                self.wf(),
                i <= self.entries@.len(),
                forall|j: int| 0 <= j < i ==> self.entries@[j].0 != *time,
            decreases self.entries@.len() - i,
        {
            if self.entries[i].0 == *time {
                proof {
                    lemma_weight_at(self.entries@, i as int);
                }
                return self.entries[i].1;
            }
            i += 1;
        }
        proof {
            lemma_weight_absent(self.entries@, *time);
        }
        0
    }

    /// Adds `delta` to the count of `time`, dropping the entry where the count
    /// becomes zero.
    pub fn update(&mut self, time: &Product, delta: i64)
        requires
            old(self).wf(),
            old(self).fits(*time, delta as int),
        ensures
            final(self).wf(),
            final(self).count(*time) == old(self).count(*time) + delta,
            forall|t: Product| t != *time ==> final(self).count(t) == old(self).count(t),
    {
        let ghost s = self.entries@;
        let mut i: usize = 0;
        while i < self.entries.len()
            invariant
                self.entries@ == s,
                compact(s),
                old(self).fits(*time, delta as int),
                old(self).entries@ == s,
                i <= s.len(),
                forall|j: int| 0 <= j < i ==> s[j].0 != *time,
            decreases s.len() - i,
        {
            if self.entries[i].0 == *time {
                proof {
                    lemma_weight_at(s, i as int);
                }
                let sum = self.entries[i].1 + delta;
                if sum == 0 {
                    self.entries.remove(i);
                    proof {
                        assert forall|t: Product|
                            #[trigger] weight(self.entries@, t) == weight(s, t) - if s[i as int].0
                                == t {
                                s[i as int].1 as int
                            } else {
                                0
                            } by {
                            lemma_weight_remove(s, i as int, t);
                        }
                        assert forall|a: int, b: int|
                            0 <= a < b < self.entries@.len() implies self.entries@[a].0
                            != self.entries@[b].0 by {
                            assert(self.entries@[a] == s[if a < i { a } else { a + 1 }]);
                            assert(self.entries@[b] == s[if b < i { b } else { b + 1 }]);
                        }
                        assert forall|a: int| 0 <= a < self.entries@.len() implies self.entries@[a].1
                            != 0 by {
                            assert(self.entries@[a] == s[if a < i { a } else { a + 1 }]);
                        }
                    }
                } else {
                    self.entries.set(i, (*time, sum));
                    proof {
                        assert forall|t: Product|
                            #[trigger] weight(self.entries@, t) == weight(s, t) + if s[i as int].0
                                == t {
                                sum - s[i as int].1
                            } else {
                                0
                            } by {
                            lemma_weight_update(s, i as int, sum, t);
                        }
                    }
                }
                return;
            }
            i += 1;
        }
        if delta != 0 {
            self.entries.push((*time, delta));
            proof {
                assert forall|t: Product|
                    #[trigger] weight(self.entries@, t) == weight(s, t) + if *time == t {
                        delta as int
                    } else {
                        0
                    } by {
                    lemma_weight_push(s, (*time, delta), t);
                }
            }
        }
        proof {
            lemma_weight_absent(s, *time);
        }
    }

    /// Every count is zero.
    pub fn is_empty(&self) -> (r: bool)
        requires
            self.wf(),
        ensures
            r == self.is_zero(),
    {
        proof {
            self.lemma_zero_iff_empty();
        }
        self.entries.len() == 0
    }

    /// Sets every count to zero.
    pub fn clear(&mut self)
        ensures
            final(self).wf(),
            final(self).is_zero(),
    {
        self.entries.clear();
        proof {
            final(self).lemma_zero_iff_empty();
        }
    }

    /// Takes one time with a non-zero count out of the map, with its count;
    /// `None` exactly when every count is zero.
    pub fn pop(&mut self) -> (r: Option<(Product, i64)>)
        requires
            old(self).wf(),
        ensures
            final(self).wf(),
            r is None <==> old(self).is_zero(),
            r is None ==> final(self).is_zero(),
            r matches Some((t, v)) ==> {
                &&& v != 0
                &&& v == old(self).count(t)
                &&& final(self).count(t) == 0
                &&& forall|u: Product| u != t ==> final(self).count(u) == old(self).count(u)
                &&& final(self).size() + 1 == old(self).size()
            },
    {
        proof {
            old(self).lemma_zero_iff_empty();
        }
        let ghost s = self.entries@;
        let r = self.entries.pop();
        proof {
            if s.len() > 0 {
                let last = s.last();
                assert(self.entries@ =~= s.drop_last());
                lemma_weight_at(s, s.len() - 1);
                lemma_weight_absent(self.entries@, last.0);
            } else {
                final(self).lemma_zero_iff_empty();
            }
        }
        r
    }

    /// Adds every count of this map to `other` and leaves this map empty.
    pub fn drain_into(&mut self, other: &mut CountMap)
        requires
            old(self).wf(),
            old(other).wf(),
            forall|t: Product| old(other).fits(t, old(self).count(t)),
        ensures
            final(self).wf(),
            final(other).wf(),
            final(self).is_zero(),
            forall|t: Product| final(other).count(t) == old(other).count(t) + old(self).count(t),
    {
        loop
            invariant
                self.wf(),
                other.wf(),
                forall|t: Product|
                    #[trigger] other.count(t) + self.count(t) == old(other).count(t) + old(
                        self,
                    ).count(t),
                forall|t: Product| other.fits(t, self.count(t)),
            ensures
                self.wf(),
                other.wf(),
                self.is_zero(),
                forall|t: Product|
                    #[trigger] other.count(t) + self.count(t) == old(other).count(t) + old(
                        self,
                    ).count(t),
            decreases self.size(),
        {
            match self.pop() {
                None => {
                    break ;
                },
                Some((t, v)) => {
                    other.update(&t, v);
                },
            }
        }
    }

    /// The entries of the map, in no particular order.
    pub closed spec fn entries_view(&self) -> Seq<(Product, i64)> {
        self.entries@
    }

    pub fn entries(&self) -> (r: &Vec<(Product, i64)>)
        ensures
            r@ == self.entries_view(),
    {
        &self.entries
    }

    /// The entries list each time with a non-zero count exactly once, with
    /// that count.
    pub proof fn lemma_entries(&self)
        requires
            self.wf(),
        ensures
            forall|i: int, j: int|
                0 <= i < j < self.entries_view().len() ==> self.entries_view()[i].0
                    != self.entries_view()[j].0,
            forall|i: int|
                0 <= i < self.entries_view().len() ==> self.count(#[trigger] self.entries_view()[i].0)
                    == self.entries_view()[i].1 && self.entries_view()[i].1 != 0,
            forall|t: Product|
                self.count(t) != 0 ==> exists|i: int|
                    0 <= i < self.entries_view().len() && #[trigger] self.entries_view()[i].0 == t,
    {
        let s = self.entries_view();
        assert forall|i: int| 0 <= i < s.len() implies self.count(#[trigger] s[i].0) == s[i].1 by {
            lemma_weight_at(s, i);
        }
        assert forall|t: Product| self.count(t) != 0 implies exists|i: int|
            0 <= i < self.entries_view().len() && #[trigger] self.entries_view()[i].0 == t by {
            if !(exists|i: int| 0 <= i < s.len() && #[trigger] s[i].0 == t) {
                lemma_weight_absent(s, t);
            }
        }
    }

    /// The count of `t` after adding `delta`, held to the counter's range.
    pub open spec fn clamped(&self, t: Product, delta: int) -> int {
        let v = self.count(t) + delta;
        if v > i64::MAX {
            i64::MAX as int
        } else if v < i64::MIN {
            i64::MIN as int
        } else {
            v
        }
    }

    /// Adds `delta` to the count of `time`, stopping at the counter's range.
    pub fn update_saturating(&mut self, time: &Product, delta: i64)
        requires
            old(self).wf(),
        ensures
            final(self).wf(),
            final(self).count(*time) == old(self).clamped(*time, delta as int),
            forall|t: Product| t != *time ==> final(self).count(t) == old(self).count(t),
    {
        let current = self.get(time);
        let sum = current as i128 + delta as i128;
        let next: i64 = if sum > i64::MAX as i128 {
            i64::MAX
        } else if sum < i64::MIN as i128 {
            i64::MIN
        } else {
            sum as i64
        };
        self.update(time, (next as i128 - current as i128) as i64);
    }
}

} // verus!
