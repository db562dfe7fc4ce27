use timely_progress::graph::{GraphBuilder, Source, Stream, Target};
use timely_progress::observer::{Event, Observer, Recorder};
use timely_progress::timestamp::{Product, Summary};

#[test]
fn scopes_are_numbered_in_order() {
    let mut b = GraphBuilder::new();
    assert_eq!(b.add_scope(), 0);
    assert_eq!(b.add_scope(), 1);
    assert_eq!(b.scopes(), 2);
    assert_eq!(b.edges().len(), 0);
}

#[test]
fn connect_to_records_fan_out() {
    let mut b = GraphBuilder::new();
    let s = Stream::new(Source::ScopeOutput(0, 0));
    s.connect_to(&mut b, Target::ScopeInput(1, 0));
    s.connect_to(&mut b, Target::ScopeInput(2, 0));
    assert_eq!(
        b.edges(),
        &vec![
            (Source::ScopeOutput(0, 0), Target::ScopeInput(1, 0)),
            (Source::ScopeOutput(0, 0), Target::ScopeInput(2, 0)),
        ]
    );
}

#[test]
fn loops_with_swapped_feedback() {
    let mut b = GraphBuilder::new();
    let (_h1, _s1, in1) = b.new_input(Recorder::<u64>::new(), 1);
    let (_h2, _s2, in2) = b.new_input(Recorder::<u64>::new(), 1);
    let limit = Product::new(0, 1_000_000);
    let (loop1, _f1, stream1) = b.loop_variable(limit, Summary::Local(1), Recorder::<u64>::new());
    let (loop2, _f2, stream2) = b.loop_variable(limit, Summary::Local(1), Recorder::<u64>::new());
    assert_eq!(in1.name, Source::ScopeOutput(0, 0));
    assert_eq!(in2.name, Source::ScopeOutput(1, 0));
    assert_eq!(stream1.name, Source::ScopeOutput(2, 0));
    assert_eq!(stream2.name, Source::ScopeOutput(3, 0));
    assert_eq!(loop1.index, 2);
    // Each loop's output feeds the other loop's input.
    let mut o1 = stream1.connect_loop(&mut b, loop2);
    let _o2 = stream2.connect_loop(&mut b, loop1);
    assert_eq!(
        b.edges(),
        &vec![
            (Source::ScopeOutput(2, 0), Target::ScopeInput(3, 0)),
            (Source::ScopeOutput(3, 0), Target::ScopeInput(2, 0)),
        ]
    );
    o1.open(&Product::new(0, 4));
    o1.give(3);
    o1.shut(&Product::new(0, 4));
    assert_eq!(
        o1.targets_ref().events(),
        &vec![
            Event::Open(Product::new(0, 5)),
            Event::Give(3),
            Event::Shut(Product::new(0, 5)),
        ]
    );
}
