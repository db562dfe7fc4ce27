use vstd::prelude::*;
use crate::count_map::CountMap;
use crate::timestamp::Summary;

verus! {

/// For each input, for each output, the least summaries of the paths between them.
pub type PathSummaries = Vec<Vec<Vec<Summary>>>;

/// Every map of `maps` is well formed.
pub open spec fn all_wf(maps: Seq<CountMap>) -> bool {
    forall|i: int| 0 <= i < maps.len() ==> (#[trigger] maps[i]).wf()
}

/// `s` has one row per input and one entry per output in each row.
pub open spec fn shaped(s: Seq<Vec<Vec<Summary>>>, inputs: nat, outputs: nat) -> bool {
    &&& s.len() == inputs
    &&& forall|i: int| 0 <= i < s.len() ==> (#[trigger] s[i])@.len() == outputs
}

/// A unit of computation that takes part in progress tracking, driven by the
/// scope that holds it.
pub trait Scope {
    /// The number of inputs.
    spec fn arity_in(&self) -> nat;

    /// The number of outputs.
    spec fn arity_out(&self) -> nat;

    /// The scope can report its progress into these maps without any count
    /// leaving the counter's range.
    spec fn can_pull(&self, internal: Seq<CountMap>, consumed: Seq<CountMap>, produced: Seq<CountMap>) -> bool;

    fn name(&self) -> String;

    fn inputs(&self) -> (r: u64)
        ensures
            r == self.arity_in(),
    ;

    fn outputs(&self) -> (r: u64)
        ensures
            r == self.arity_out(),
    ;

    /// The summaries from each input to each output, and the capabilities
    /// that the scope holds on each output before any data flows.
    fn get_internal_summary(&mut self) -> (r: (PathSummaries, Vec<CountMap>))
        ensures
            final(self).arity_in() == old(self).arity_in(),
            final(self).arity_out() == old(self).arity_out(),
            shaped(r.0@, old(self).arity_in(), old(self).arity_out()),
            r.1@.len() == old(self).arity_out(),
            all_wf(r.1@),
    ;

    /// What the enclosing graph can still send to each input.
    fn set_external_summary(&mut self, summaries: PathSummaries, frontier: &mut Vec<CountMap>)
        requires
            old(frontier)@.len() == old(self).arity_in(),
            all_wf(old(frontier)@),
        ensures
            final(self).arity_in() == old(self).arity_in(),
            final(self).arity_out() == old(self).arity_out(),
            final(frontier)@.len() == old(frontier)@.len(),
            all_wf(final(frontier)@),
    ;

    /// The changes of the frontier at each input.
    fn push_external_progress(&mut self, external: &mut Vec<CountMap>)
        requires
            old(external)@.len() == old(self).arity_in(),
            all_wf(old(external)@),
        ensures
            final(self).arity_in() == old(self).arity_in(),
            final(self).arity_out() == old(self).arity_out(),
            final(external)@.len() == old(external)@.len(),
            all_wf(final(external)@),
    ;

    /// Reports the changes of the scope's capabilities, of the messages it
    /// consumed and of those it produced since it was last asked; `true` asks
    /// to be polled again.
    fn pull_internal_progress(
        &mut self,
        internal: &mut Vec<CountMap>,
        consumed: &mut Vec<CountMap>,
        produced: &mut Vec<CountMap>,
    ) -> (r: bool)
        requires
            old(internal)@.len() == old(self).arity_out(),
            old(consumed)@.len() == old(self).arity_in(),
            old(produced)@.len() == old(self).arity_out(),
            all_wf(old(internal)@),
            all_wf(old(consumed)@),
            all_wf(old(produced)@),
            old(self).can_pull(old(internal)@, old(consumed)@, old(produced)@),
        ensures
            final(self).arity_in() == old(self).arity_in(),
            final(self).arity_out() == old(self).arity_out(),
            final(internal)@.len() == old(internal)@.len(),
            final(consumed)@.len() == old(consumed)@.len(),
            final(produced)@.len() == old(produced)@.len(),
            all_wf(final(internal)@),
            all_wf(final(consumed)@),
            all_wf(final(produced)@),
    ;

    /// Whether the scope wants to hear of progress at its inputs.
    fn notify_me(&self) -> bool;
}

} // verus!
