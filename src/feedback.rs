use vstd::prelude::*;
use crate::count_map::CountMap;
use crate::observer::{Event, Observer};
use crate::scope::{all_wf, PathSummaries, Scope};
use crate::timestamp::{le, results_in, Product, Summary};

verus! {

/// The time that `t` becomes after `k` passes along a path with summary `s`.
pub open spec fn rounds(s: Summary, t: Product, k: nat) -> Product
    decreases k,
{
    if k == 0 {
        t
    } else {
        results_in(s, rounds(s, t, (k - 1) as nat))
    }
}

/// The number of passes after which a time that starts at `t` is past `limit`,
/// on a loop whose summary advances the counter by `d`.
pub open spec fn pass_bound(d: u64, t: Product, limit: Product) -> nat {
    if t.inner > limit.inner {
        0
    } else {
        ((limit.inner - t.inner) / (d as int) + 1) as nat
    }
}

proof fn lemma_rounds_closed_form(d: u64, t: Product, k: nat)
    ensures
        rounds(Summary::Local(d), t, k).outer == t.outer,
        rounds(Summary::Local(d), t, k).inner == if t.inner + k * d > u64::MAX {
            u64::MAX as int
        } else {
            t.inner + k * d
        },
    decreases k,
{
    if k == 0 {
        assert(k * d == 0) by (nonlinear_arith)
            requires
                k == 0,
        ;
    } else {
        let prev = rounds(Summary::Local(d), t, (k - 1) as nat);
        lemma_rounds_closed_form(d, t, (k - 1) as nat);
        assert(rounds(Summary::Local(d), t, k) == results_in(Summary::Local(d), prev));
        assert(k * d == (k - 1) * d + d) by (nonlinear_arith);
        assert((k - 1) * d >= 0) by (nonlinear_arith)
            requires
                k >= 1,
        ;
    }
}

/// Liveness of loops: where the summary advances the counter by `d > 0` and
/// the limit lies below the counter's largest value, a time that goes round
/// the loop is past the limit, so that the feedback vertex drops it, after at
/// most `pass_bound(d, t, limit)` passes.
pub proof fn lemma_loop_bounded(d: u64, t: Product, limit: Product, k: nat)
    requires
        d > 0,
        limit.inner < u64::MAX,
        k >= pass_bound(d, t, limit),
    ensures
        !le(rounds(Summary::Local(d), t, k), limit),
{
    lemma_rounds_closed_form(d, t, k);
    if t.inner <= limit.inner {
        let gap: int = limit.inner - t.inner;
        let q: int = gap / (d as int);
        assert(q * d <= gap && gap < q * d + d) by (nonlinear_arith)
            requires
                q == gap / (d as int),
                d > 0,
                gap >= 0,
        ;
        assert(k * d >= (q + 1) * d) by (nonlinear_arith)
            requires
                k >= q + 1,
                d > 0,
        ;
        assert((q + 1) * d == q * d + d) by (nonlinear_arith);
        assert(t.inner + k * d > limit.inner);
    } else {
        assert(k * d >= 0) by (nonlinear_arith);
    }
}

/// Message counts, each map well formed at all times.
struct Tally {
    consumed: CountMap,
    produced: CountMap,
}

impl Tally {
    #[verifier::type_invariant]
    spec fn inv(&self) -> bool {
        &&& self.consumed.wf()
        &&& self.produced.wf()
    }

    fn new() -> (r: Tally)
        ensures
            r.consumed.is_zero(),
            r.produced.is_zero(),
    {
        Tally { consumed: CountMap::new(), produced: CountMap::new() }
    }

    /// Takes the counts out of `slot`, leaving empty ones there.
    fn take(slot: &mut Tally) -> (r: (CountMap, CountMap))
        ensures
            r.0 == old(slot).consumed,
            r.1 == old(slot).produced,
            r.0.wf(),
            r.1.wf(),
            final(slot).consumed.is_zero(),
            final(slot).produced.is_zero(),
    {
        let mut out = Tally::new();
        core::mem::swap(slot, &mut out);
        proof {
            use_type_invariant(&out);
        }
        let Tally { consumed, produced } = out;
        (consumed, produced)
    }
}

/// The feedback vertex as an observer: a batch at a time not above `limit`
/// is passed on to `targets` at the time the summary turns it into; a later
/// one is dropped, which bounds the rounds of a loop.  It counts the messages
/// it received and those it passed on.
pub struct FeedbackObserver<O: Observer> {
    limit: Product,
    summary: Summary,
    targets: O,
    active: bool,
    time: Product,
    tally: Tally,
    log: Ghost<Seq<Event<O::Data>>>,
}

impl<O: Observer> FeedbackObserver<O> {
    pub closed spec fn limit(&self) -> Product {
        self.limit
    }

    pub closed spec fn summary(&self) -> Summary {
        self.summary
    }

    pub closed spec fn targets(&self) -> O {
        self.targets
    }

    /// The current batch is passed on.
    pub closed spec fn active(&self) -> bool {
        self.active
    }

    /// The time of the current batch.
    pub closed spec fn time(&self) -> Product {
        self.time
    }

    /// Messages received, by time, not yet collected.
    pub closed spec fn consumed(&self) -> CountMap {
        self.tally.consumed
    }

    /// Messages passed on, by time, not yet collected.
    pub closed spec fn produced(&self) -> CountMap {
        self.tally.produced
    }

    /// The two observers have the same limit and summary.
    pub open spec fn same_setup(&self, other: &Self) -> bool {
        &&& self.limit() == other.limit()
        &&& self.summary() == other.summary()
    }

    pub fn new(limit: Product, summary: Summary, targets: O) -> (r: Self)
        ensures
            r.limit() == limit,
            r.summary() == summary,
            r.targets() == targets,
            !r.active(),
            r.consumed().is_zero(),
            r.produced().is_zero(),
            r.trace() == Seq::<Event<O::Data>>::empty(),
    {
        FeedbackObserver {
            limit,
            summary,
            targets,
            active: false,
            time: limit,
            tally: Tally::new(),
            log: Ghost(Seq::empty()),
        }
    }

    pub fn targets_ref(&self) -> (r: &O)
        ensures
            *r == self.targets(),
    {
        &self.targets
    }

    /// The counts are those of `before` with one more message received at the
    /// batch's time and, where the batch is passed on, one more passed on at
    /// the time the summary turns it into; each count stops at its range.
    pub open spec fn counted_one_after(&self, before: Self) -> bool {
        let t0 = before.time();
        let t1 = results_in(before.summary(), before.time());
        &&& self.consumed().count(t0) == before.consumed().clamped(t0, 1)
        &&& forall|t: Product| t != t0 ==> #[trigger] self.consumed().count(t) == before.consumed().count(t)
        &&& before.active() ==> self.produced().count(t1) == before.produced().clamped(t1, 1)
        &&& before.active() ==> forall|t: Product|
            t != t1 ==> #[trigger] self.produced().count(t) == before.produced().count(t)
        &&& !before.active() ==> self.produced() == before.produced()
    }

    /// Counts one message received, and one passed on when the batch is.
    fn count_one(&mut self)
        ensures
            final(self).same_setup(old(self)),
            final(self).active() == old(self).active(),
            final(self).time() == old(self).time(),
            final(self).targets() == old(self).targets(),
            final(self).trace() == old(self).trace(),
            final(self).counted_one_after(*old(self)),
    {
        let time = self.time;
        let (mut consumed, mut produced) = Tally::take(&mut self.tally);
        consumed.update_saturating(&time, 1);
        if self.active {
            let next = self.summary.results_in(&time);
            produced.update_saturating(&next, 1);
        }
        self.tally = Tally { consumed, produced };
    }
}

impl<O: Observer> Observer for FeedbackObserver<O> {
    type Data = O::Data;

    closed spec fn trace(&self) -> Seq<Event<O::Data>> {
        self.log@
    }

    /// Begins a batch at `time`, passed on at the summary's result when `time`
    /// is not above the limit.
    fn open(&mut self, time: &Product)
        ensures
            final(self).same_setup(old(self)),
            final(self).active() == le(*time, old(self).limit()),
            final(self).time() == *time,
            final(self).active() ==> final(self).targets().trace() == old(self).targets().trace().push(
                Event::Open(results_in(old(self).summary(), *time)),
            ),
            !final(self).active() ==> final(self).targets() == old(self).targets(),
            final(self).consumed() == old(self).consumed(),
            final(self).produced() == old(self).produced(),
            final(self).trace() == old(self).trace().push(Event::Open(*time)),
    {
        self.active = time.le(&self.limit);
        self.time = *time;
        if self.active {
            let next = self.summary.results_in(time);
            self.targets.open(&next);
        }
        self.log = Ghost(self.log@.push(Event::Open(*time)));
    }

    /// Presents `data` within the batch; it is passed on when the batch is.
    fn show(&mut self, data: &O::Data)
        ensures
            final(self).same_setup(old(self)),
            final(self).active() == old(self).active(),
            final(self).time() == old(self).time(),
            final(self).active() ==> final(self).targets().trace() == old(self).targets().trace().push(
                Event::Show(*data),
            ),
            !final(self).active() ==> final(self).targets() == old(self).targets(),
            final(self).counted_one_after(*old(self)),
            final(self).trace() == old(self).trace().push(Event::Show(*data)),
    {
        self.count_one();
        if self.active {
            self.targets.show(data);
        }
        self.log = Ghost(self.log@.push(Event::Show(*data)));
    }

    /// Hands `data` over within the batch; it is passed on when the batch is,
    /// and dropped otherwise.
    fn give(&mut self, data: O::Data)
        ensures
            final(self).same_setup(old(self)),
            final(self).active() == old(self).active(),
            final(self).time() == old(self).time(),
            final(self).active() ==> final(self).targets().trace() == old(self).targets().trace().push(
                Event::Give(data),
            ),
            !final(self).active() ==> final(self).targets() == old(self).targets(),
            final(self).counted_one_after(*old(self)),
            final(self).trace() == old(self).trace().push(Event::Give(data)),
    {
        let ghost d = data;
        self.count_one();
        if self.active {
            self.targets.give(data);
        }
        self.log = Ghost(self.log@.push(Event::Give(d)));
    }

    /// Ends the batch at `time`; the end is passed on when the batch is.
    fn shut(&mut self, time: &Product)
        ensures
            final(self).same_setup(old(self)),
            final(self).active() == old(self).active(),
            final(self).time() == old(self).time(),
            final(self).active() ==> final(self).targets().trace() == old(self).targets().trace().push(
                Event::Shut(results_in(old(self).summary(), *time)),
            ),
            !final(self).active() ==> final(self).targets() == old(self).targets(),
            final(self).consumed() == old(self).consumed(),
            final(self).produced() == old(self).produced(),
            final(self).trace() == old(self).trace().push(Event::Shut(*time)),
    {
        if self.active {
            let next = self.summary.results_in(time);
            self.targets.shut(&next);
        }
        self.log = Ghost(self.log@.push(Event::Shut(*time)));
    }
}

/// The feedback vertex's side of the progress protocol: one input, one
/// output, the loop's summary between them, and the message counts that it
/// collects from its observer.
pub struct FeedbackScope {
    consumed: CountMap,
    produced: CountMap,
    summary: Summary,
}

impl FeedbackScope {
    pub closed spec fn consumed(&self) -> CountMap {
        self.consumed
    }

    pub closed spec fn produced(&self) -> CountMap {
        self.produced
    }

    pub closed spec fn summary(&self) -> Summary {
        self.summary
    }

    pub closed spec fn wf(&self) -> bool {
        &&& self.consumed.wf()
        &&& self.produced.wf()
    }

    pub fn new(summary: Summary) -> (r: FeedbackScope)
        ensures
            r.wf(),
            r.summary() == summary,
            r.consumed().is_zero(),
            r.produced().is_zero(),
    {
        FeedbackScope { consumed: CountMap::new(), produced: CountMap::new(), summary }
    }

    /// Takes over the counts of messages that `observer` received and passed on.
    pub fn collect<O: Observer>(&mut self, observer: &mut FeedbackObserver<O>)
        requires
            old(self).wf(),
            forall|t: Product| old(self).consumed().fits(t, #[trigger] old(observer).consumed().count(t)),
            forall|t: Product| old(self).produced().fits(t, #[trigger] old(observer).produced().count(t)),
        ensures
            final(self).wf(),
            final(self).summary() == old(self).summary(),
            forall|t: Product|
                #[trigger] final(self).consumed().count(t) == old(self).consumed().count(t) + old(observer).consumed().count(t),
            forall|t: Product|
                #[trigger] final(self).produced().count(t) == old(self).produced().count(t) + old(observer).produced().count(t),
            final(observer).consumed().is_zero(),
            final(observer).produced().is_zero(),
            final(observer).same_setup(old(observer)),
            final(observer).active() == old(observer).active(),
            final(observer).time() == old(observer).time(),
            final(observer).targets() == old(observer).targets(),
            final(observer).trace() == old(observer).trace(),
    {
        let (mut consumed, mut produced) = Tally::take(&mut observer.tally);
        assert forall|t: Product| self.consumed.fits(t, consumed.count(t)) by {
            assert(old(self).consumed().fits(t, old(observer).consumed().count(t)));
        }
        assert forall|t: Product| self.produced.fits(t, produced.count(t)) by {
            assert(old(self).produced().fits(t, old(observer).produced().count(t)));
        }
        consumed.drain_into(&mut self.consumed);
        produced.drain_into(&mut self.produced);
    }
}

impl Scope for FeedbackScope {
    open spec fn arity_in(&self) -> nat {
        1
    }

    open spec fn arity_out(&self) -> nat {
        1
    }

    open spec fn can_pull(
        &self,
        internal: Seq<CountMap>,
        consumed: Seq<CountMap>,
        produced: Seq<CountMap>,
    ) -> bool {
        &&& self.wf()
        &&& forall|t: Product| consumed[0].fits(t, #[trigger] self.consumed().count(t))
        &&& forall|t: Product| produced[0].fits(t, #[trigger] self.produced().count(t))
    }

    fn name(&self) -> (r: String)
        ensures
            r@ == "Feedback"@,
    {
        "Feedback".to_owned()
    }

    fn inputs(&self) -> u64 {
        1
    }

    fn outputs(&self) -> u64 {
        1
    }

    fn get_internal_summary(&mut self) -> (r: (PathSummaries, Vec<CountMap>))
        ensures
            *final(self) == *old(self),
            r.0@.len() == 1,
            r.0@[0]@.len() == 1,
            r.0@[0]@[0]@ == seq![old(self).summary()],
            r.1@.len() == 1,
            r.1@[0].is_zero(),
    {
        (vec![vec![vec![self.summary]]], vec![CountMap::new()])
    }

    fn set_external_summary(&mut self, summaries: PathSummaries, frontier: &mut Vec<CountMap>)
        ensures
            *final(self) == *old(self),
            *final(frontier) == *old(frontier),
    {
    }

    fn push_external_progress(&mut self, external: &mut Vec<CountMap>)
        ensures
            *final(self) == *old(self),
            *final(external) == *old(external),
    {
    }

    /// Reports the collected message counts.
    fn pull_internal_progress(
        &mut self,
        internal: &mut Vec<CountMap>,
        consumed: &mut Vec<CountMap>,
        produced: &mut Vec<CountMap>,
    ) -> (r: bool)
        ensures
            !r,
            final(self).wf(),
            final(self).consumed().is_zero(),
            final(self).produced().is_zero(),
            final(self).summary() == old(self).summary(),
            *final(internal) == *old(internal),
            forall|t: Product|
                #[trigger] final(consumed)@[0].count(t) == old(consumed)@[0].count(t) + old(
                    self,
                ).consumed().count(t),
            forall|t: Product|
                #[trigger] final(produced)@[0].count(t) == old(produced)@[0].count(t) + old(
                    self,
                ).produced().count(t),
    {
        assert forall|t: Product| consumed@[0].fits(t, self.consumed.count(t)) by {
            assert(consumed@[0].fits(t, old(self).consumed().count(t)));
        }
        self.consumed.drain_into(&mut consumed[0]);
        assert forall|t: Product| produced@[0].fits(t, self.produced.count(t)) by {
            assert(produced@[0].fits(t, old(self).produced().count(t)));
        }
        self.produced.drain_into(&mut produced[0]);
        false
    }

    fn notify_me(&self) -> (r: bool)
        ensures
            !r,
    {
        false
    }
}

} // verus!
