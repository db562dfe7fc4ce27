use vstd::prelude::*;
use crate::feedback::{FeedbackObserver, FeedbackScope};
use crate::input::{input_pair, paired, InputHelper, InputScope};
use crate::observer::{Event, Observer};
use crate::timestamp::{Product, Summary};

verus! {

/// Where data of an edge comes from: an input of the enclosing graph, or an
/// output port of one of its scopes.
#[derive(Clone, Copy, Debug, PartialEq, Eq, Structural)]
pub enum Source {
    GraphInput(u64),
    ScopeOutput(u64, u64),
}

/// Where data of an edge goes: an output of the enclosing graph, or an input
/// port of one of its scopes.
#[derive(Clone, Copy, Debug, PartialEq, Eq, Structural)]
pub enum Target {
    GraphOutput(u64),
    ScopeInput(u64, u64),
}

/// The topology of a graph under construction: scopes are numbered in the
/// order they are added, and edges join sources to targets by those numbers.
pub struct GraphBuilder {
    scopes: u64,
    edges: Vec<(Source, Target)>,
}

impl GraphBuilder {
    /// The number of scopes added so far.
    pub closed spec fn scope_count(&self) -> nat {
        self.scopes as nat
    }

    /// The edges added so far, in order.
    pub closed spec fn edge_list(&self) -> Seq<(Source, Target)> {
        self.edges@
    }

    pub fn new() -> (r: GraphBuilder)
        ensures
            r.scope_count() == 0,
            r.edge_list() == Seq::<(Source, Target)>::empty(),
    {
        GraphBuilder { scopes: 0, edges: Vec::new() }
    }

    /// Adds a scope and returns its index.
    pub fn add_scope(&mut self) -> (r: u64)
        requires
            old(self).scope_count() < u64::MAX,
        ensures
            r == old(self).scope_count(),
            final(self).scope_count() == old(self).scope_count() + 1,
            final(self).edge_list() == old(self).edge_list(),
    {
        let index = self.scopes;
        self.scopes = self.scopes + 1;
        index
    }

    /// Records an edge; the graph may be cyclic.
    pub fn add_edge(&mut self, source: Source, target: Target)
        ensures
            final(self).scope_count() == old(self).scope_count(),
            final(self).edge_list() == old(self).edge_list().push((source, target)),
    {
        self.edges.push((source, target));
    }

    /// Adds an input scope, and returns its handle, its scope, and the
    /// stream of its output.
    pub fn new_input<O: Observer>(&mut self, output: O, copies: u64) -> (r: (
        InputHelper<O>,
        InputScope,
        Stream,
    ))
        requires
            old(self).scope_count() < u64::MAX,
        ensures
            final(self).scope_count() == old(self).scope_count() + 1,
            final(self).edge_list() == old(self).edge_list(),
            r.0.wf(),
            r.0.frontier() == seq![Product::spec_minimum()],
            r.0.frontier_counts().count(Product::spec_minimum()) == 1,
            forall|t: Product| t != Product::spec_minimum() ==> r.0.frontier_counts().count(t) == 0,
            r.0.pending_progress().is_zero(),
            r.0.pending_messages().is_zero(),
            r.0.output() == output,
            r.0.origin() == seq![Product::spec_minimum()],
            forall|t: Product| #[trigger] r.0.issued()[t] == 0,
            r.1.wf(),
            r.1.initial() == seq![Product::spec_minimum()],
            r.1.copies() == copies,
            r.1.progress().is_zero(),
            r.1.messages().is_zero(),
            forall|t: Product| #[trigger] r.1.reported()[t] == 0,
            paired(r.0, r.1),
            r.2.name == Source::ScopeOutput(old(self).scope_count() as u64, 0),
    {
        let index = self.add_scope();
        let (helper, scope) = input_pair(output, copies);
        (helper, scope, Stream::new(Source::ScopeOutput(index, 0)))
    }

    /// Adds a loop variable: a feedback scope whose output stream carries
    /// what enters the loop, moved on by `summary` and dropped past `limit`,
    /// to `targets`.
    pub fn loop_variable<O: Observer>(&mut self, limit: Product, summary: Summary, targets: O) -> (r: (
        FeedbackHelper<O>,
        FeedbackScope,
        Stream,
    ))
        requires
            old(self).scope_count() < u64::MAX,
        ensures
            final(self).scope_count() == old(self).scope_count() + 1,
            final(self).edge_list() == old(self).edge_list(),
            r.0.index == old(self).scope_count(),
            r.0.target.limit() == limit,
            r.0.target.summary() == summary,
            r.0.target.targets() == targets,
            r.0.target.trace() == Seq::<Event<O::Data>>::empty(),
            !r.0.target.active(),
            r.0.target.consumed().is_zero(),
            r.0.target.produced().is_zero(),
            r.1.wf(),
            r.1.summary() == summary,
            r.1.consumed().is_zero(),
            r.1.produced().is_zero(),
            r.2.name == Source::ScopeOutput(old(self).scope_count() as u64, 0),
    {
        let index = self.add_scope();
        let target = FeedbackObserver::new(limit, summary, targets);
        let scope = FeedbackScope::new(summary);
        (FeedbackHelper { index, target }, scope, Stream::new(Source::ScopeOutput(index, 0)))
    }

    pub fn scopes(&self) -> (r: u64)
        ensures
            r == self.scope_count(),
    {
        self.scopes
    }

    pub fn edges(&self) -> (r: &Vec<(Source, Target)>)
        ensures
            r@ == self.edge_list(),
    {
        &self.edges
    }
}

/// A handle on the output of a source, used while the graph is built.
#[derive(Clone, Copy, Debug, PartialEq, Eq, Structural)]
pub struct Stream {
    pub name: Source,
}

impl Stream {
    pub fn new(source: Source) -> (r: Stream)
        ensures
            r.name == source,
    {
        Stream { name: source }
    }

    /// Adds the edge from this stream's source to `target`.
    pub fn connect_to(&self, builder: &mut GraphBuilder, target: Target)
        ensures
            final(builder).scope_count() == old(builder).scope_count(),
            final(builder).edge_list() == old(builder).edge_list().push((self.name, target)),
    {
        builder.add_edge(self.name, target);
    }

    /// Closes a loop: adds the edge from this stream to the feedback scope's
    /// input and hands back the observer to which the stream's data go.
    pub fn connect_loop<O: Observer>(&self, builder: &mut GraphBuilder, helper: FeedbackHelper<O>) -> (r:
        FeedbackObserver<O>)
        ensures
            r == helper.target,
            final(builder).scope_count() == old(builder).scope_count(),
            final(builder).edge_list() == old(builder).edge_list().push(
                (self.name, Target::ScopeInput(helper.index, 0)),
            ),
    {
        self.connect_to(builder, Target::ScopeInput(helper.index, 0));
        helper.target
    }
}

/// The input side of a loop variable: the feedback observer that data enter
/// the loop through, and the index of its scope.
pub struct FeedbackHelper<O: Observer> {
    pub index: u64,
    pub target: FeedbackObserver<O>,
}

} // verus!
