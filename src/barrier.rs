use vstd::prelude::*;
use crate::count_map::CountMap;
use crate::scope::{all_wf, PathSummaries, Scope};
use crate::timestamp::{Product, Summary};

verus! {

/// The time of loop round `epoch` at the root.
pub open spec fn at_epoch(epoch: u64) -> Product {
    Product { outer: 0, inner: epoch }
}

/// A scope that holds a capability at one round at a time, and moves it to
/// the next round once its input has retired the round before.
pub struct BarrierScope {
    pub ready: bool,
    pub epoch: u64,
    pub degree: u64,
    pub ttl: u64,
}

impl BarrierScope {
    /// The barrier still holds a capability at its current round: the rounds
    /// end after `ttl`.
    pub open spec fn holds(&self) -> bool {
        self.epoch <= self.ttl
    }

    /// The barrier will move on at its next pull.
    pub open spec fn acts(&self) -> bool {
        self.ready && self.holds()
    }

    /// `m` is what a barrier of degree one holds: one capability at the
    /// current round while the rounds last, and nothing after.
    pub open spec fn holding(&self, m: CountMap) -> bool {
        forall|t: Product|
            #[trigger] m.count(t) == if self.holds() && t == at_epoch(self.epoch) {
                1int
            } else {
                0
            }
    }

    /// The input retired the round before the current one: `m` takes one
    /// away from its count.
    pub open spec fn retires_previous(&self, m: CountMap) -> bool {
        exists|t: Product| t.inner + 1 == self.epoch && #[trigger] m.count(t) == -1
    }

    /// Reads the changes of the input frontier, and becomes ready where the
    /// round before the current one was retired.
    pub fn observe_input(&mut self, external: &mut CountMap)
        requires
            old(external).wf(),
        ensures
            final(external).wf(),
            final(external).is_zero(),
            final(self).epoch == old(self).epoch,
            final(self).degree == old(self).degree,
            final(self).ttl == old(self).ttl,
            final(self).ready == (old(self).ready || old(self).retires_previous(*old(external))),
    {
        loop
            invariant
                external.wf(),
                self.epoch == old(self).epoch,
                self.degree == old(self).degree,
                self.ttl == old(self).ttl,
                forall|t: Product|
                    #[trigger] external.count(t) == 0 || external.count(t) == old(external).count(t),
                self.ready == (old(self).ready || (exists|t: Product|
                    t.inner + 1 == self.epoch && #[trigger] old(external).count(t) == -1
                        && external.count(t) == 0)),
            ensures
                external.wf(),
                external.is_zero(),
                self.epoch == old(self).epoch,
                self.degree == old(self).degree,
                self.ttl == old(self).ttl,
                self.ready == (old(self).ready || (exists|t: Product|
                    t.inner + 1 == self.epoch && #[trigger] old(external).count(t) == -1
                        && external.count(t) == 0)),
            decreases external.size(),
        {
            let ghost prev = *external;
            match external.pop() {
                None => {
                    break ;
                },
                Some((time, val)) => {
                    if self.epoch > 0 && time.inner == self.epoch - 1 && val == -1 {
                        self.ready = true;
                    }
                    proof {
                        assert(old(external).count(time) == val);
                        assert forall|t: Product|
                            t.inner + 1 == self.epoch && #[trigger] old(external).count(t) == -1
                                && external.count(t) == 0 implies t == time || prev.count(t)
                            == 0 by {}
                    }
                },
            }
        }
        proof {
            if old(self).retires_previous(*old(external)) {
                let t = choose|t: Product|
                    t.inner + 1 == self.epoch && #[trigger] old(external).count(t) == -1;
                assert(external.count(t) == 0);
            }
        }
    }

    /// When ready and while the rounds last: gives up the capability at the
    /// current round, takes one at the next round unless the current one is
    /// the last, and moves on to the next round.  After the last round it
    /// changes no capability.
    pub fn advance_epoch(&mut self, internal: &mut CountMap)
        requires
            old(internal).wf(),
            old(self).acts() ==> old(self).epoch < u64::MAX,
            old(self).acts() ==> old(internal).fits(at_epoch(old(self).epoch), -1),
            old(self).acts() ==> old(internal).fits(at_epoch((old(self).epoch + 1) as u64), 1),
        ensures
            final(internal).wf(),
            final(self).degree == old(self).degree,
            final(self).ttl == old(self).ttl,
            !final(self).ready,
            !old(self).acts() ==> *final(internal) == *old(internal) && final(self).epoch == old(self).epoch,
            !old(self).holds() ==> *final(internal) == *old(internal),
            old(self).acts() ==> {
                let e = old(self).epoch;
                &&& final(self).epoch == e + 1
                &&& final(internal).count(at_epoch(e)) == old(internal).count(at_epoch(e)) - 1
                &&& final(internal).count(at_epoch((e + 1) as u64)) == old(internal).count(
                    at_epoch((e + 1) as u64),
                ) + if e < old(self).ttl {
                    1int
                } else {
                    0
                }
                &&& forall|t: Product|
                    t != at_epoch(e) && t != at_epoch((e + 1) as u64) ==> #[trigger] final(internal).count(t)
                        == old(internal).count(t)
            },
            old(self).holding(*old(internal)) ==> final(self).holding(*final(internal)),
    {
        if self.ready {
            if self.epoch <= self.ttl {
                internal.update(&Product::new(0, self.epoch), -1);
                if self.epoch < self.ttl {
                    internal.update(&Product::new(0, self.epoch + 1), 1);
                }
                self.epoch = self.epoch + 1;
            }
            self.ready = false;
        }
        proof {
            if old(self).holding(*old(internal)) {
                assert forall|t: Product|
                    #[trigger] internal.count(t) == if self.holds() && t == at_epoch(self.epoch) {
                        1int
                    } else {
                        0
                    } by {
                    assert(old(internal).count(t) == if old(self).holds() && t == at_epoch(
                        old(self).epoch,
                    ) {
                        1int
                    } else {
                        0
                    });
                }
            }
        }
    }
}

impl Scope for BarrierScope {
    open spec fn arity_in(&self) -> nat {
        1
    }

    open spec fn arity_out(&self) -> nat {
        1
    }

    open spec fn can_pull(
        &self,
        internal: Seq<CountMap>,
        consumed: Seq<CountMap>,
        produced: Seq<CountMap>,
    ) -> bool {
        self.acts() ==> {
            &&& self.epoch < u64::MAX
            &&& internal[0].fits(at_epoch(self.epoch), -1)
            &&& internal[0].fits(at_epoch((self.epoch + 1) as u64), 1)
        }
    }

    fn name(&self) -> (r: String)
        ensures
            r@ == "Barrier"@,
    {
        "Barrier".to_owned()
    }

    fn inputs(&self) -> u64 {
        1
    }

    fn outputs(&self) -> u64 {
        1
    }

    fn get_internal_summary(&mut self) -> (r: (PathSummaries, Vec<CountMap>))
        ensures
            *final(self) == *old(self),
            r.0@.len() == 1,
            r.0@[0]@.len() == 1,
            r.0@[0]@[0]@ == seq![Summary::Local(1)],
            r.1@.len() == 1,
            r.1@[0].count(at_epoch(old(self).epoch)) == old(self).degree as i64,
            forall|t: Product| t != at_epoch(old(self).epoch) ==> r.1@[0].count(t) == 0,
            old(self).degree == 1 && old(self).holds() ==> old(self).holding(r.1@[0]),
    {
        let summaries = vec![vec![vec![Summary::Local(1)]]];
        let capabilities = vec![CountMap::new_from(&Product::new(0, self.epoch), self.degree as i64)];
        (summaries, capabilities)
    }

    fn set_external_summary(&mut self, summaries: PathSummaries, frontier: &mut Vec<CountMap>)
        ensures
            *final(self) == *old(self),
            forall|i: int| 0 <= i < final(frontier)@.len() ==> (#[trigger] final(frontier)@[i]).is_zero(),
    {
        let mut i: usize = 0;
        while i < frontier.len()
            invariant
                i <= frontier@.len(),
                frontier@.len() == old(frontier)@.len(),
                all_wf(frontier@),
                forall|k: int| 0 <= k < i ==> (#[trigger] frontier@[k]).is_zero(),
            decreases frontier@.len() - i,
        {
            frontier[i].clear();
            i += 1;
        }
    }

    fn push_external_progress(&mut self, external: &mut Vec<CountMap>)
        ensures
            final(external)@[0].is_zero(),
            final(self).epoch == old(self).epoch,
            final(self).degree == old(self).degree,
            final(self).ttl == old(self).ttl,
            final(self).ready == (old(self).ready || old(self).retires_previous(old(external)@[0])),
    {
        self.observe_input(&mut external[0]);
    }

    fn pull_internal_progress(
        &mut self,
        internal: &mut Vec<CountMap>,
        consumed: &mut Vec<CountMap>,
        produced: &mut Vec<CountMap>,
    ) -> (r: bool)
        ensures
            !r,
            *final(consumed) == *old(consumed),
            *final(produced) == *old(produced),
            final(self).degree == old(self).degree,
            final(self).ttl == old(self).ttl,
            !final(self).ready,
            !old(self).acts() ==> final(internal)@ == old(internal)@ && final(self).epoch == old(
                self,
            ).epoch,
            !old(self).holds() ==> final(internal)@ == old(internal)@,
            old(self).acts() ==> {
                let e = old(self).epoch;
                &&& final(self).epoch == e + 1
                &&& final(internal)@[0].count(at_epoch(e)) == old(internal)@[0].count(at_epoch(e)) - 1
                &&& final(internal)@[0].count(at_epoch((e + 1) as u64)) == old(internal)@[0].count(
                    at_epoch((e + 1) as u64),
                ) + if e < old(self).ttl {
                    1int
                } else {
                    0
                }
                &&& forall|t: Product|
                    t != at_epoch(e) && t != at_epoch((e + 1) as u64) ==> #[trigger] final(internal)@[0].count(t)
                        == old(internal)@[0].count(t)
            },
            old(self).holding(old(internal)@[0]) ==> final(self).holding(final(internal)@[0]),
    {
        self.advance_epoch(&mut internal[0]);
        false
    }

    fn notify_me(&self) -> (r: bool)
        ensures
            r,
    {
        true
    }
}

} // verus!
