use vstd::prelude::*;
use crate::count_map::CountMap;
use crate::frontier::{
    is_minimal, lemma_minimal_below, lemma_minimal_unchanged, not_behind, Antichain, MutableAntichain,
};
use crate::timestamp::le;
use crate::observer::{given, Event, Observer, ObserverSessionExt};
use crate::scope::{all_wf, PathSummaries, Scope};
use crate::timestamp::Product;

verus! {

/// `t` is in `s`, as 1 or 0.
pub open spec fn indicator(s: Seq<Product>, t: Product) -> int {
    if s.contains(t) {
        1
    } else {
        0
    }
}

/// Every count of `m` can move by two either way.
pub open spec fn roomy(m: CountMap) -> bool {
    forall|t: Product| i64::MIN + 2 <= #[trigger] m.count(t) <= i64::MAX - 2
}

/// What `helper` issued is what `scope` holds or has reported.
pub open spec fn paired<O: Observer>(helper: InputHelper<O>, scope: InputScope) -> bool {
    forall|t: Product|
        #[trigger] helper.issued()[t] == scope.progress().count(t) + scope.reported()[t]
}

/// Conservation over a closed input: once its handle holds no time, and
/// every change it issued has been reported, the reports cancel, time by
/// time, the capabilities the input started with (one at each initial time
/// for a single worker).
pub proof fn lemma_closed_input_nets_to_zero<O: Observer>(helper: InputHelper<O>, scope: InputScope)
    requires
        helper.wf(),
        scope.wf(),
        paired(helper, scope),
        helper.origin() == scope.initial(),
        helper.frontier().len() == 0,
        helper.pending_progress().is_zero(),
        scope.progress().is_zero(),
    ensures
        forall|t: Product| #[trigger] scope.reported()[t] + indicator(scope.initial(), t) == 0,
{
    helper.lemma_conservation();
    assert forall|t: Product| #[trigger] scope.reported()[t] + indicator(scope.initial(), t) == 0 by {
        assert(helper.issued()[t] == scope.progress().count(t) + scope.reported()[t]);
        assert(helper.issued()[t] + helper.pending_progress().count(t) + indicator(helper.origin(), t) == 0);
    }
}

/// The handle through which data and progress enter the graph at an input:
/// the times at which it may still send, and what it did since the scope
/// last collected.
pub struct InputHelper<O: Observer> {
    frontier: MutableAntichain,
    progress: CountMap,
    messages: CountMap,
    output: O,
    origin: Ghost<Seq<Product>>,
    issued: Ghost<Map<Product, int>>,
}

/// The input's side of the progress protocol.
pub struct InputScope {
    progress: CountMap,
    messages: CountMap,
    initial: Antichain,
    copies: u64,
    reported: Ghost<Map<Product, int>>,
}

/// A new input whose handle may send at the least time, and the scope that
/// reports for it, with `copies` workers that each hold that time.
pub fn input_pair<O: Observer>(output: O, copies: u64) -> (r: (InputHelper<O>, InputScope))
    ensures
        r.0.wf(),
        r.0.frontier() == seq![Product::spec_minimum()],
        r.0.frontier_counts().count(Product::spec_minimum()) == 1,
        forall|t: Product| t != Product::spec_minimum() ==> r.0.frontier_counts().count(t) == 0,
        r.0.pending_progress().is_zero(),
        r.0.pending_messages().is_zero(),
        r.0.output() == output,
        r.0.origin() == seq![Product::spec_minimum()],
        forall|t: Product| #[trigger] r.0.issued()[t] == 0,
        r.1.wf(),
        r.1.initial() == seq![Product::spec_minimum()],
        r.1.copies() == copies,
        r.1.progress().is_zero(),
        r.1.messages().is_zero(),
        forall|t: Product| #[trigger] r.1.reported()[t] == 0,
        r.0.origin() == r.1.initial(),
        paired(r.0, r.1),
{
    let start = Product::minimum();
    let ghost origin = seq![start];
    let ghost none = Map::total(|t: Product| 0int);
    let helper = InputHelper {
        frontier: MutableAntichain::new_bottom(start),
        progress: CountMap::new(),
        messages: CountMap::new(),
        output,
        origin: Ghost(origin),
        issued: Ghost(none),
    };
    let scope = InputScope {
        progress: CountMap::new(),
        messages: CountMap::new(),
        initial: Antichain::from_elem(start),
        copies,
        reported: Ghost(none),
    };
    (helper, scope)
}

impl<O: Observer> InputHelper<O> {
    pub closed spec fn frontier(&self) -> Seq<Product> {
        self.frontier.frontier()
    }

    pub closed spec fn frontier_counts(&self) -> CountMap {
        self.frontier.counts()
    }

    /// Changes of the frontier not yet collected.
    pub closed spec fn pending_progress(&self) -> CountMap {
        self.progress
    }

    /// Messages sent and not yet collected, by time.
    pub closed spec fn pending_messages(&self) -> CountMap {
        self.messages
    }

    pub closed spec fn output(&self) -> O {
        self.output
    }

    /// The frontier the input started with.
    pub closed spec fn origin(&self) -> Seq<Product> {
        self.origin@
    }

    /// The changes of the frontier that the scope has collected so far, by time.
    pub closed spec fn issued(&self) -> Map<Product, int> {
        self.issued@
    }

    pub closed spec fn wf(&self) -> bool {
        &&& self.frontier.wf()
        &&& self.progress.wf()
        &&& self.messages.wf()
        &&& forall|t: Product| #[trigger] self.issued@.dom().contains(t)
        &&& forall|t: Product|
            #[trigger] self.issued@[t] + self.progress.count(t) == indicator(self.frontier.frontier(), t)
                - indicator(self.origin@, t)
    }

    /// The frontier is the set of minimal times with a positive count, each
    /// once, and the maps of pending changes are well formed.
    pub proof fn lemma_wf(&self)
        requires
            self.wf(),
        ensures
            self.frontier_counts().wf(),
            self.pending_progress().wf(),
            self.pending_messages().wf(),
            self.frontier().no_duplicates(),
            forall|t: Product|
                #![trigger self.frontier().contains(t)]
                #![trigger is_minimal(self.frontier_counts(), t)]
                self.frontier().contains(t) <==> is_minimal(self.frontier_counts(), t),
    {
        self.frontier.lemma_wf();
    }

    /// The count of `time` in the frontier's counts.
    pub fn frontier_count(&self, time: &Product) -> (r: i64)
        requires
            self.wf(),
        ensures
            r == self.frontier_counts().count(*time),
    {
        self.frontier.count_of(time)
    }

    /// Conservation of progress: per time, the changes of the frontier that
    /// the handle issued, collected or not, add up to the move from the first
    /// frontier to the current one; once no time is held they exactly cancel
    /// the capabilities the input started with.
    pub proof fn lemma_conservation(&self)
        requires
            self.wf(),
        ensures
            forall|t: Product|
                #[trigger] self.issued()[t] + self.pending_progress().count(t) == indicator(self.frontier(), t)
                    - indicator(self.origin(), t),
            self.frontier().len() == 0 ==> forall|t: Product|
                #[trigger] self.issued()[t] + self.pending_progress().count(t) + indicator(self.origin(), t)
                    == 0,
    {
        if self.frontier().len() == 0 {
            assert forall|t: Product|
                #[trigger] self.issued()[t] + self.pending_progress().count(t) + indicator(self.origin(), t)
                    == 0 by {
                assert(!self.frontier().contains(t));
                assert(self.issued@[t] + self.progress.count(t) == indicator(self.frontier.frontier(), t)
                    - indicator(self.origin@, t));
            }
        }
    }

    /// The times at which the input may still send.
    pub fn frontier_elements(&self) -> (r: &Vec<Product>)
        requires
            self.wf(),
        ensures
            r@ == self.frontier(),
    {
        self.frontier.elements()
    }

    /// `time` lies at or above a time of the frontier: the input may still
    /// send at it.
    pub open spec fn may_send(&self, time: Product) -> bool {
        exists|u: Product| self.frontier().contains(u) && le(u, time)
    }

    pub fn can_send(&self, time: &Product) -> (r: bool)
        requires
            self.wf(),
        ensures
            r == self.may_send(*time),
    {
        let elements = self.frontier.elements();
        let mut i: usize = 0;
        while i < elements.len()
            invariant
                elements@ == self.frontier(),
                i <= elements@.len(),
                forall|k: int| 0 <= k < i ==> !le(#[trigger] elements@[k], *time),
            decreases elements@.len() - i,
        {
            if elements[i].le(time) {
                assert(elements@.contains(elements@[i as int]));
                return true;
            }
            i += 1;
        }
        proof {
            assert forall|u: Product| elements@.contains(u) implies !le(u, *time) by {
                let k = choose|k: int| 0 <= k < elements@.len() && elements@[k] == u;
                assert(!le(elements@[k], *time));
            }
        }
        false
    }

    /// Sends `data` at `time` as one batch, and counts the messages.
    pub fn send_messages(&mut self, time: &Product, data: Vec<O::Data>)
        requires
            old(self).wf(),
            old(self).may_send(*time),
            data@.len() <= i64::MAX,
            old(self).pending_messages().fits(*time, data@.len() as int),
        ensures
            final(self).wf(),
            final(self).output().trace() == old(self).output().trace().push(Event::Open(*time))
                + given(data@).push(Event::Shut(*time)),
            final(self).pending_messages().count(*time) == old(self).pending_messages().count(*time)
                + data@.len(),
            forall|t: Product|
                t != *time ==> final(self).pending_messages().count(t) == old(
                    self,
                ).pending_messages().count(t),
            final(self).frontier() == old(self).frontier(),
            final(self).frontier_counts() == old(self).frontier_counts(),
            final(self).pending_progress() == old(self).pending_progress(),
            final(self).origin() == old(self).origin(),
            final(self).issued() == old(self).issued(),
    {
        let n = data.len();
        self.output.give_at(time, data);
        self.messages.update(time, n as i64);
    }

    /// Moves one hold of the input from `start` to `end`.
    pub fn advance(&mut self, start: &Product, end: &Product)
        requires
            old(self).wf(),
            old(self).frontier_counts().count(*start) > 0,
            le(*start, *end),
            old(self).frontier_counts().fits(*end, 1),
            roomy(old(self).pending_progress()),
        ensures
            final(self).wf(),
            final(self).frontier().no_duplicates(),
            forall|t: Product|
                #![trigger final(self).frontier().contains(t)]
                #![trigger is_minimal(final(self).frontier_counts(), t)]
                final(self).frontier().contains(t) <==> is_minimal(final(self).frontier_counts(), t),
            final(self).frontier_counts().count(*start) == old(self).frontier_counts().count(*start)
                - 1 + if *start == *end {
                1int
            } else {
                0
            },
            final(self).frontier_counts().count(*end) == old(self).frontier_counts().count(*end) + 1
                - if *start == *end {
                1int
            } else {
                0
            },
            forall|t: Product|
                t != *start && t != *end ==> final(self).frontier_counts().count(t) == old(
                    self,
                ).frontier_counts().count(t),
            forall|t: Product|
                #[trigger] final(self).pending_progress().count(t) == old(self).pending_progress().count(t)
                    + indicator(final(self).frontier(), t) - indicator(old(self).frontier(), t),
            final(self).pending_messages() == old(self).pending_messages(),
            final(self).output() == old(self).output(),
            final(self).origin() == old(self).origin(),
            final(self).issued() == old(self).issued(),
            not_behind(final(self).frontier(), old(self).frontier()),
    {
        proof {
            self.frontier.lemma_wf();
        }
        let ghost f0 = self.frontier.frontier();
        let ghost progress_before = self.progress;
        proof {
            old(self).frontier_counts().lemma_counts_fit(*start);
        }
        self.frontier.update_weight(start, -1, &mut self.progress);
        let ghost f1 = self.frontier.frontier();
        let ghost progress_between = self.progress;
        assert forall|t: Product| i64::MIN < #[trigger] self.progress.count(t) < i64::MAX by {
            assert(progress_between.count(t) == progress_before.count(t) + indicator(f1, t) - indicator(f0, t));
        }
        self.frontier.update_weight(end, 1, &mut self.progress);
        assert forall|t: Product|
            #[trigger] self.progress.count(t) == progress_before.count(t) + indicator(self.frontier.frontier(), t)
                - indicator(f0, t) by {
            assert(progress_between.count(t) == progress_before.count(t) + indicator(f1, t) - indicator(f0, t));
        }
        proof {
            let c0 = old(self).frontier_counts();
            let c2 = self.frontier.counts();
            if le(*start, *end) && c0.count(*start) > 0 {
                assert forall|t: Product| #[trigger] self.frontier.frontier().contains(t) implies exists|
                    u: Product,
                | f0.contains(u) && le(u, t) by {
                    assert(is_minimal(c2, t));
                    if t == *end {
                        lemma_minimal_below(c0, *start);
                        let u = choose|u: Product| is_minimal(c0, u) && le(u, *start);
                        assert(f0.contains(u) && le(u, t));
                    } else {
                        lemma_minimal_below(c0, t);
                        let u = choose|u: Product| is_minimal(c0, u) && le(u, t);
                        assert(f0.contains(u));
                    }
                }
            }
        }
    }

    /// Gives up one hold of the input at `time`.
    pub fn close_at(&mut self, time: &Product)
        requires
            old(self).wf(),
            old(self).frontier_counts().count(*time) > 0,
            MutableAntichain::fits_unit(old(self).pending_progress()),
        ensures
            final(self).wf(),
            final(self).frontier().no_duplicates(),
            forall|t: Product|
                #![trigger final(self).frontier().contains(t)]
                #![trigger is_minimal(final(self).frontier_counts(), t)]
                final(self).frontier().contains(t) <==> is_minimal(final(self).frontier_counts(), t),
            final(self).frontier_counts().count(*time) == old(self).frontier_counts().count(*time) - 1,
            forall|t: Product|
                t != *time ==> final(self).frontier_counts().count(t) == old(
                    self,
                ).frontier_counts().count(t),
            forall|t: Product|
                #[trigger] final(self).pending_progress().count(t) == old(self).pending_progress().count(t)
                    + indicator(final(self).frontier(), t) - indicator(old(self).frontier(), t),
            final(self).pending_messages() == old(self).pending_messages(),
            final(self).output() == old(self).output(),
            final(self).origin() == old(self).origin(),
            final(self).issued() == old(self).issued(),
            not_behind(final(self).frontier(), old(self).frontier()),
            old(self).frontier_counts().count(*time) > 1 || !old(self).frontier().contains(*time) ==> {
                &&& forall|t: Product|
                    #[trigger] final(self).frontier().contains(t) == old(self).frontier().contains(t)
                &&& forall|t: Product|
                    #[trigger] final(self).pending_progress().count(t) == old(
                        self,
                    ).pending_progress().count(t)
            },
    {
        proof {
            self.frontier.lemma_wf();
        }
        let ghost f0 = self.frontier.frontier();
        proof {
            old(self).frontier_counts().lemma_counts_fit(*time);
        }
        self.frontier.update_weight(time, -1, &mut self.progress);
        proof {
            let c0 = old(self).frontier_counts();
            let c1 = self.frontier.counts();
            if c0.count(*time) > 1 || !f0.contains(*time) {
                assert(crate::frontier::differs_at(c0, c1, *time));
                lemma_minimal_unchanged(c0, c1, *time);
                assert forall|t: Product|
                    #[trigger] self.frontier.frontier().contains(t) == f0.contains(t) by {
                    assert(is_minimal(c1, t) == is_minimal(c0, t));
                }
            }
        }
        proof {
            let c0 = old(self).frontier_counts();
            let c1 = self.frontier.counts();
            assert forall|t: Product| #[trigger] self.frontier.frontier().contains(t) implies exists|
                u: Product,
            | f0.contains(u) && le(u, t) by {
                assert(is_minimal(c1, t));
                lemma_minimal_below(c0, t);
                let u = choose|u: Product| is_minimal(c0, u) && le(u, t);
                assert(f0.contains(u));
            }
        }
    }

    /// The observer that receives the input's data.
    pub fn output_ref(&self) -> (r: &O)
        ensures
            *r == self.output(),
    {
        &self.output
    }
}

impl InputScope {
    pub closed spec fn progress(&self) -> CountMap {
        self.progress
    }

    pub closed spec fn messages(&self) -> CountMap {
        self.messages
    }

    pub closed spec fn initial(&self) -> Seq<Product> {
        self.initial@
    }

    pub closed spec fn copies(&self) -> u64 {
        self.copies
    }

    /// The changes of the frontier reported so far, by time.
    pub closed spec fn reported(&self) -> Map<Product, int> {
        self.reported@
    }

    pub closed spec fn wf(&self) -> bool {
        &&& self.progress.wf()
        &&& self.messages.wf()
        &&& forall|t: Product| #[trigger] self.reported@.dom().contains(t)
    }

    /// Takes over what the handle did since the last collection.
    pub fn collect<O: Observer>(&mut self, helper: &mut InputHelper<O>)
        requires
            old(self).wf(),
            old(helper).wf(),
            forall|t: Product| old(self).progress().fits(t, old(helper).pending_progress().count(t)),
            forall|t: Product| old(self).messages().fits(t, old(helper).pending_messages().count(t)),
        ensures
            final(self).wf(),
            final(helper).wf(),
            final(self).initial() == old(self).initial(),
            final(self).copies() == old(self).copies(),
            forall|t: Product|
                #[trigger] final(self).progress().count(t) == old(self).progress().count(t) + old(
                    helper,
                ).pending_progress().count(t),
            forall|t: Product|
                #[trigger] final(self).messages().count(t) == old(self).messages().count(t) + old(
                    helper,
                ).pending_messages().count(t),
            final(helper).pending_progress().is_zero(),
            final(helper).pending_messages().is_zero(),
            final(helper).frontier() == old(helper).frontier(),
            final(helper).frontier_counts() == old(helper).frontier_counts(),
            final(helper).output() == old(helper).output(),
            final(helper).origin() == old(helper).origin(),
            forall|t: Product|
                #[trigger] final(helper).issued()[t] == old(helper).issued()[t] + old(
                    helper,
                ).pending_progress().count(t),
            final(self).reported() == old(self).reported(),
            paired(*old(helper), *old(self)) ==> paired(*final(helper), *final(self)),
    {
        let ghost before = helper.progress;
        assert forall|t: Product| self.progress.fits(t, helper.progress.count(t)) by {
            assert(old(self).progress().fits(t, old(helper).pending_progress().count(t)));
        }
        assert forall|t: Product| self.messages.fits(t, helper.messages.count(t)) by {
            assert(old(self).messages().fits(t, old(helper).pending_messages().count(t)));
        }
        helper.progress.drain_into(&mut self.progress);
        helper.messages.drain_into(&mut self.messages);
        let ghost total = Map::total(|t: Product| old(helper).issued@[t] + before.count(t));
        helper.issued = Ghost(total);
        proof {
            if paired(*old(helper), *old(self)) {
                assert forall|t: Product|
                    #[trigger] helper.issued()[t] == self.progress().count(t) + self.reported()[t] by {
                    assert(old(helper).issued()[t] == old(self).progress().count(t) + old(
                        self,
                    ).reported()[t]);
                }
            }
        }
        proof {
            assert forall|t: Product|
                #[trigger] helper.issued@[t] + helper.progress.count(t) == indicator(
                    helper.frontier.frontier(),
                    t,
                ) - indicator(helper.origin@, t) by {
                assert(old(helper).issued@[t] + before.count(t) == indicator(
                    helper.frontier.frontier(),
                    t,
                ) - indicator(helper.origin@, t));
            }
        }
    }
}

impl Scope for InputScope {
    open spec fn arity_in(&self) -> nat {
        0
    }

    open spec fn arity_out(&self) -> nat {
        1
    }

    open spec fn can_pull(
        &self,
        internal: Seq<CountMap>,
        consumed: Seq<CountMap>,
        produced: Seq<CountMap>,
    ) -> bool {
        &&& self.wf()
        &&& forall|t: Product| internal[0].fits(t, #[trigger] self.progress().count(t))
        &&& forall|t: Product| produced[0].fits(t, #[trigger] self.messages().count(t))
    }

    fn name(&self) -> (r: String)
        ensures
            r@ == "Input"@,
    {
        "Input".to_owned()
    }

    fn inputs(&self) -> u64 {
        0
    }

    fn outputs(&self) -> u64 {
        1
    }

    fn get_internal_summary(&mut self) -> (r: (PathSummaries, Vec<CountMap>))
        ensures
            *final(self) == *old(self),
            r.0@.len() == 0,
            r.1@.len() == 1,
            forall|t: Product|
                #[trigger] r.1@[0].count(t) == if old(self).initial().contains(t) {
                    (old(self).copies() as i64) as int
                } else {
                    0
                },
    {
        let mut map = CountMap::new();
        let elements = self.initial.elements();
        let mut i: usize = 0;
        while i < elements.len()
            invariant
                i <= elements@.len(),
                elements@ == self.initial@,
                self.initial.wf(),
                map.wf(),
                forall|t: Product|
                    #[trigger] map.count(t) == if elements@.take(i as int).contains(t) {
                        (self.copies as i64) as int
                    } else {
                        0
                    },
            decreases elements@.len() - i,
        {
            let x = elements[i];
            proof {
                assert(!elements@.take(i as int).contains(x)) by {
                    if elements@.take(i as int).contains(x) {
                        let k = choose|k: int| 0 <= k < i && elements@.take(i as int)[k] == x;
                        assert(crate::timestamp::le(elements@[k], elements@[i as int]));
                    }
                }
            }
            map.update(&x, #[verifier::truncate] (self.copies as i64));
            proof {
                assert forall|t: Product|
                    #[trigger] map.count(t) == if elements@.take(i + 1).contains(t) {
                        (self.copies as i64) as int
                    } else {
                        0
                    } by {
                    let longer = elements@.take(i + 1);
                    let shorter = elements@.take(i as int);
                    assert(longer[i as int] == x);
                    if shorter.contains(t) {
                        let k = choose|k: int| 0 <= k < shorter.len() && #[trigger] shorter[k] == t;
                        assert(longer[k] == t);
                    }
                    if longer.contains(t) && t != x {
                        let k = choose|k: int| 0 <= k < longer.len() && #[trigger] longer[k] == t;
                        assert(shorter[k] == t);
                    }
                }
            }
            i += 1;
        }
        proof {
            assert(elements@.take(elements@.len() as int) =~= elements@);
        }
        (Vec::new(), vec![map])
    }

    fn set_external_summary(&mut self, summaries: PathSummaries, frontier: &mut Vec<CountMap>)
        ensures
            *final(self) == *old(self),
            *final(frontier) == *old(frontier),
    {
    }

    fn push_external_progress(&mut self, external: &mut Vec<CountMap>)
        ensures
            *final(self) == *old(self),
            *final(external) == *old(external),
    {
    }

    /// Reports the collected changes of the frontier as changes of the
    /// capabilities, and the collected messages as produced.
    fn pull_internal_progress(
        &mut self,
        internal: &mut Vec<CountMap>,
        consumed: &mut Vec<CountMap>,
        produced: &mut Vec<CountMap>,
    ) -> (r: bool)
        ensures
            !r,
            final(self).wf(),
            final(self).progress().is_zero(),
            final(self).messages().is_zero(),
            final(self).initial() == old(self).initial(),
            final(self).copies() == old(self).copies(),
            *final(consumed) == *old(consumed),
            forall|t: Product|
                #[trigger] final(internal)@[0].count(t) == old(internal)@[0].count(t) + old(
                    self,
                ).progress().count(t),
            forall|t: Product|
                #[trigger] final(produced)@[0].count(t) == old(produced)@[0].count(t) + old(
                    self,
                ).messages().count(t),
            forall|t: Product|
                #[trigger] final(self).reported()[t] == old(self).reported()[t] + old(
                    self,
                ).progress().count(t),
    {
        assert forall|t: Product| produced@[0].fits(t, self.messages.count(t)) by {
            assert(produced@[0].fits(t, old(self).messages().count(t)));
        }
        self.messages.drain_into(&mut produced[0]);
        assert forall|t: Product| internal@[0].fits(t, self.progress.count(t)) by {
            assert(internal@[0].fits(t, old(self).progress().count(t)));
        }
        let ghost before = self.progress;
        self.progress.drain_into(&mut internal[0]);
        let ghost total = Map::total(|t: Product| old(self).reported@[t] + before.count(t));
        self.reported = Ghost(total);
        false
    }

    fn notify_me(&self) -> (r: bool)
        ensures
            !r,
    {
        false
    }
}

} // verus!
