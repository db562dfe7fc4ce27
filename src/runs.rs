use vstd::prelude::*;
use crate::barrier::BarrierScope;
use crate::count_map::CountMap;
use crate::graph::GraphBuilder;
use crate::input::{indicator, InputHelper, InputScope};
use crate::observer::{Observer, Recorder};
use crate::scope::Scope;
use crate::timestamp::{le, Product};

verus! {

/// Drives a barrier of degree one from round `first` through `ttl`: each round
/// its input retires the round before and the barrier moves its capability on.
/// Returns the barrier and what it holds, which is nothing once the rounds end.
pub fn run_barrier(first: u64, ttl: u64) -> (r: (BarrierScope, CountMap))
    requires
        1 <= first <= ttl < u64::MAX,
    ensures
        r.0.epoch == ttl + 1,
        r.0.degree == 1,
        r.0.ttl == ttl,
        r.1.wf(),
        r.1.is_zero(),
{
    let mut barrier = BarrierScope { ready: false, epoch: first, degree: 1, ttl };
    let (_, held) = barrier.get_internal_summary();
    let mut slot = held;
    let mut consumed = vec![CountMap::new()];
    let mut produced = vec![CountMap::new()];
    while barrier.epoch <= ttl
        invariant
            barrier.degree == 1,
            barrier.ttl == ttl,
            ttl < u64::MAX,
            1 <= first <= barrier.epoch <= ttl + 1,
            !barrier.ready,
            slot@.len() == 1,
            slot@[0].wf(),
            barrier.holding(slot@[0]),
            consumed@.len() == 1,
            produced@.len() == 1,
            consumed@[0].wf(),
            produced@[0].wf(),
        decreases ttl + 1 - barrier.epoch,
    {
        let previous = Product::new(0, barrier.epoch - 1);
        let mut external = vec![CountMap::new_from(&previous, -1)];
        proof {
            assert(external@[0].count(previous) == -1);
        }
        barrier.push_external_progress(&mut external);
        proof {
            let e = barrier.epoch;
            assert(slot@[0].count(Product { outer: 0, inner: e }) == 1);
            assert(slot@[0].count(Product { outer: 0, inner: (e + 1) as u64 }) == 0);
        }
        barrier.pull_internal_progress(&mut slot, &mut consumed, &mut produced);
    }
    let held = match slot.pop() {
        Some(m) => m,
        None => CountMap::new(),
    };
    (barrier, held)
}

/// The numbers from `lo` up to, not including, `hi`.
fn numbers(lo: u64, hi: u64) -> (r: Vec<u64>)
    requires
        lo <= hi,
    ensures
        r@.len() == hi - lo,
{
    let mut r: Vec<u64> = Vec::new();
    let mut x = lo;
    while x < hi
        invariant
            lo <= x <= hi,
            r@.len() == x - lo,
        decreases hi - x,
    {
        r.push(x);
        x = x + 1;
    }
    r
}

/// Collects what `helper` did into `scope`, pulls the scope's reports, and
/// adds them to the running totals; says whether anything was reported.
fn collect_and_pull<O: Observer>(
    helper: &mut InputHelper<O>,
    scope: &mut InputScope,
    capabilities: &mut CountMap,
    produced: &mut CountMap,
) -> (r: bool)
    requires
        old(helper).wf(),
        old(scope).wf(),
        old(capabilities).wf(),
        old(produced).wf(),
        old(scope).progress().is_zero(),
        old(scope).messages().is_zero(),
        forall|t: Product| old(capabilities).fits(t, #[trigger] old(helper).pending_progress().count(t)),
        forall|t: Product| old(produced).fits(t, #[trigger] old(helper).pending_messages().count(t)),
    ensures
        final(helper).wf(),
        final(scope).wf(),
        final(capabilities).wf(),
        final(produced).wf(),
        final(helper).pending_progress().is_zero(),
        final(helper).pending_messages().is_zero(),
        final(scope).progress().is_zero(),
        final(scope).messages().is_zero(),
        forall|t: Product|
            #[trigger] final(capabilities).count(t) == old(capabilities).count(t) + old(
                helper,
            ).pending_progress().count(t),
        forall|t: Product|
            #[trigger] final(produced).count(t) == old(produced).count(t) + old(
                helper,
            ).pending_messages().count(t),
        r == !(old(helper).pending_progress().is_zero() && old(helper).pending_messages().is_zero()),
{
    proof {
        helper.lemma_wf();
        assert forall|t: Product| scope.progress().fits(t, helper.pending_progress().count(t)) by {
            helper.pending_progress().lemma_counts_fit(t);
        }
        assert forall|t: Product| scope.messages().fits(t, helper.pending_messages().count(t)) by {
            helper.pending_messages().lemma_counts_fit(t);
        }
    }
    let ghost pending = helper.pending_progress();
    let ghost sent = helper.pending_messages();
    scope.collect(helper);
    let mut internal = vec![CountMap::new()];
    let mut consumed: Vec<CountMap> = Vec::new();
    let mut messages = vec![CountMap::new()];
    proof {
        assert forall|t: Product| internal@[0].fits(t, #[trigger] scope.progress().count(t)) by {
            pending.lemma_counts_fit(t);
        }
        assert forall|t: Product| messages@[0].fits(t, #[trigger] scope.messages().count(t)) by {
            sent.lemma_counts_fit(t);
        }
    }
    scope.pull_internal_progress(&mut internal, &mut consumed, &mut messages);
    proof {
        assert forall|t: Product| internal@[0].count(t) == pending.count(t) by {}
        assert forall|t: Product| messages@[0].count(t) == sent.count(t) by {}
    }
    let changed = !(internal[0].is_empty() && messages[0].is_empty());
    internal[0].drain_into(capabilities);
    messages[0].drain_into(produced);
    changed
}

/// Two inputs send 0..10 and 1..11 at the least time, move their hold to
/// `end`, close it, and their progress is collected until nothing changes;
/// returns the capability totals (initial plus reported) and the messages
/// produced.
pub fn run_two_inputs(end: Product) -> (r: (CountMap, CountMap))
    ensures
        r.0.wf(),
        r.0.is_zero(),
        r.1.wf(),
        r.1.count(Product::spec_minimum()) == 20,
        forall|t: Product| t != Product::spec_minimum() ==> r.1.count(t) == 0,
{
    let ghost least = Product::spec_minimum();
    let mut builder = GraphBuilder::new();
    let (mut h1, mut s1, _) = builder.new_input(Recorder::<u64>::new(), 1);
    let (mut h2, mut s2, _) = builder.new_input(Recorder::<u64>::new(), 1);

    let mut capabilities = CountMap::new();
    let (_, mut c1) = s1.get_internal_summary();
    c1[0].drain_into(&mut capabilities);
    let (_, mut c2) = s2.get_internal_summary();
    proof {
        assert forall|t: Product| capabilities.fits(t, c2@[0].count(t)) by {
            assert(c1@[0].wf());
        }
    }
    c2[0].drain_into(&mut capabilities);

    let start = Product::minimum();
    proof {
        assert(h1.frontier()[0] == least);
        assert(h2.frontier()[0] == least);
        assert(le(least, start));
    }
    h1.send_messages(&start, numbers(0, 10));
    h2.send_messages(&start, numbers(1, 11));
    proof {
        h1.lemma_wf();
        h2.lemma_wf();
    }
    h1.advance(&start, &end);
    h2.advance(&start, &end);
    h1.close_at(&end);
    h2.close_at(&end);
    proof {
        h1.lemma_wf();
        h2.lemma_wf();
        h1.lemma_conservation();
        h2.lemma_conservation();
        assert forall|t: Product| !h1.frontier().contains(t) && !h2.frontier().contains(t) by {
            assert(h1.frontier_counts().count(t) == 0);
            assert(h2.frontier_counts().count(t) == 0);
        }
        assert forall|t: Product|
            #[trigger] h1.pending_progress().count(t) == -indicator(seq![least], t)
                && h2.pending_progress().count(t) == -indicator(seq![least], t) by {
            assert(indicator(h1.frontier(), t) == 0);
            assert(indicator(h2.frontier(), t) == 0);
        }
    }

    let mut produced = CountMap::new();
    loop
        invariant
            h1.wf(),
            h2.wf(),
            s1.wf(),
            s2.wf(),
            capabilities.wf(),
            produced.wf(),
            s1.progress().is_zero(),
            s1.messages().is_zero(),
            s2.progress().is_zero(),
            s2.messages().is_zero(),
            forall|t: Product|
                #[trigger] capabilities.count(t) + h1.pending_progress().count(t)
                    + h2.pending_progress().count(t) == 0,
            forall|t: Product|
                -1 <= #[trigger] h1.pending_progress().count(t) <= 0 && -1
                    <= h2.pending_progress().count(t) <= 0,
            forall|t: Product|
                #[trigger] produced.count(t) + h1.pending_messages().count(t)
                    + h2.pending_messages().count(t) == if t == least {
                    20int
                } else {
                    0
                },
            forall|t: Product|
                0 <= #[trigger] h1.pending_messages().count(t) <= 10 && 0
                    <= h2.pending_messages().count(t) <= 10,
        ensures
            capabilities.wf(),
            produced.wf(),
            capabilities.is_zero(),
            forall|t: Product|
                #[trigger] produced.count(t) == if t == least {
                    20int
                } else {
                    0
                },
        decreases h1.pending_progress().size() + h1.pending_messages().size()
            + h2.pending_progress().size() + h2.pending_messages().size(),
    {
        proof {
            h1.lemma_wf();
            h2.lemma_wf();
        }
        let ghost before = (
            h1.pending_progress(),
            h1.pending_messages(),
            h2.pending_progress(),
            h2.pending_messages(),
        );
        let changed1 = collect_and_pull(&mut h1, &mut s1, &mut capabilities, &mut produced);
        let changed2 = collect_and_pull(&mut h2, &mut s2, &mut capabilities, &mut produced);
        proof {
            h1.lemma_wf();
            h2.lemma_wf();
            h1.pending_progress().lemma_zero_iff_empty();
            h1.pending_messages().lemma_zero_iff_empty();
            h2.pending_progress().lemma_zero_iff_empty();
            h2.pending_messages().lemma_zero_iff_empty();
            before.0.lemma_zero_iff_empty();
            before.1.lemma_zero_iff_empty();
            before.2.lemma_zero_iff_empty();
            before.3.lemma_zero_iff_empty();
        }
        if !changed1 && !changed2 {
            break;
        }
    }
    proof {
        assert(produced.count(least) == 20);
    }
    (capabilities, produced)
}

} // verus!
