//! Under any cap, every trace is kept or counted.

use vstd::prelude::*;
#[allow(unused_imports)]
use crate::events::EventView;
#[allow(unused_imports)]
use crate::laws::batches::{law_rollback_restores, lemma_nested_steps_stay_inside};
#[allow(unused_imports)]
use crate::laws::runs::{batches_nested, lemma_run_concat, lemma_step_records_its_event, run, Step};
#[allow(unused_imports)]
use crate::laws::transactions::{
    kept, law_nested_steps_form_nodes, lemma_pushes_no_marker_parts, lemma_steps_of_nested,
    node_kept, node_steps, node_wf, nodes_wf, pushes_no_marker, steps_of, Ending, Node,
};
#[allow(unused_imports)]
use crate::model::{BatchView, CollectorView};

verus! {

/// How many traces a log accounts for: those in it, and those that its markers count.
pub open spec fn tally(events: Seq<EventView>) -> nat
    decreases events.len(),
{
    if events.len() == 0 {
        0
    } else {
        tally(events.drop_last()) + match events.last() {
            EventView::Truncated(dropped) => dropped as nat,
            _ => 1,
        }
    }
}

/// The traces in a log, without its markers.
pub open spec fn traces(events: Seq<EventView>) -> Seq<EventView>
    decreases events.len(),
{
    if events.len() == 0 {
        Seq::empty()
    } else if events.last().is_marker() {
        traces(events.drop_last())
    } else {
        traces(events.drop_last()).push(events.last())
    }
}

/// Whether `short` is `long` with some traces left out.
pub open spec fn thinned(short: Seq<EventView>, long: Seq<EventView>) -> bool
    decreases long.len(),
{
    if long.len() == 0 {
        short.len() == 0
    } else {
        ||| thinned(short, long.drop_last())
        ||| {
            &&& short.len() > 0
            &&& short.last() == long.last()
            &&& thinned(short.drop_last(), long.drop_last())
        }
    }
}

/// Whether a log grew by some traces: it has some of them, in their order, behind those it
/// had, and accounts for all of them.
pub open spec fn grew_by(
    before: Seq<EventView>,
    after: Seq<EventView>,
    events: Seq<EventView>,
) -> bool {
    &&& tally(after) == tally(before) + events.len()
    &&& exists|added: Seq<EventView>|
        traces(after) == traces(before) + added && #[trigger] thinned(added, events)
}

proof fn lemma_tally_concat(a: Seq<EventView>, b: Seq<EventView>)
    ensures
        tally(a + b) == tally(a) + tally(b),
        traces(a + b) == traces(a) + traces(b),
    decreases b.len(),
{
    if b.len() == 0 {
        assert(a + b =~= a);
        assert(traces(a) + traces(b) =~= traces(a));
    } else {
        lemma_tally_concat(a, b.drop_last());
        assert((a + b).drop_last() =~= a + b.drop_last());
        assert((a + b).last() == b.last());
        assert(traces(a + b) =~= traces(a) + traces(b));
    }
}

proof fn lemma_thinned_concat(
    a: Seq<EventView>,
    b: Seq<EventView>,
    c: Seq<EventView>,
    d: Seq<EventView>,
)
    requires
        thinned(a, b),
        thinned(c, d),
    ensures
        thinned(a + c, b + d),
    decreases d.len(),
{
    if d.len() == 0 {
        assert(a + c =~= a);
        assert(b + d =~= b);
    } else {
        assert((b + d).drop_last() =~= b + d.drop_last());
        if thinned(c, d.drop_last()) {
            lemma_thinned_concat(a, b, c, d.drop_last());
        } else {
            lemma_thinned_concat(a, b, c.drop_last(), d.drop_last());
            assert((a + c).drop_last() =~= a + c.drop_last());
        }
    }
}

proof fn lemma_grew_by_nothing(log: Seq<EventView>)
    ensures
        grew_by(log, log, Seq::empty()),
{
    let none = Seq::<EventView>::empty();
    assert(traces(log) =~= traces(log) + none);
    assert(thinned(none, none));
}

proof fn lemma_grew_twice(
    before: Seq<EventView>,
    mid: Seq<EventView>,
    after: Seq<EventView>,
    a: Seq<EventView>,
    b: Seq<EventView>,
)
    requires
        grew_by(before, mid, a),
        grew_by(mid, after, b),
    ensures
        grew_by(before, after, a + b),
{
    let x = choose|x: Seq<EventView>|
        traces(mid) == traces(before) + x && #[trigger] thinned(x, a);
    let y = choose|y: Seq<EventView>|
        traces(after) == traces(mid) + y && #[trigger] thinned(y, b);
    lemma_thinned_concat(x, a, y, b);
    assert(traces(after) =~= traces(before) + (x + y));
}

/// Recording a trace, whatever the cap, adds it to the log or to the count of a marker.
proof fn lemma_push_is_counted(c: CollectorView, event: EventView)
    requires
        c.enabled,
        !event.is_marker(),
        tally(c.current().events) < u64::MAX,
    ensures
        grew_by(c.current().events, c.push_event(event).current().events, seq![event]),
{
    let log = c.current().events;
    let after = c.push_event(event).current().events;
    let none = Seq::<EventView>::empty();
    let one = seq![event];
    assert(one.drop_last() =~= none);
    assert(thinned(none, none));
    assert(thinned(none, one));
    assert(thinned(one, one));
    if c.current().is_truncated() {
        assert(after.drop_last() =~= log.drop_last());
        assert(traces(after) =~= traces(log) + none);
    } else if c.over_cap(event) {
        assert(after.drop_last() =~= log);
        assert(traces(after) =~= traces(log) + none);
    } else {
        assert(after.drop_last() =~= log);
        assert(traces(after) =~= traces(log) + one);
    }
}

proof fn lemma_node_is_counted(c: CollectorView, node: Node)
    requires
        c.enabled,
        node_wf(node),
        pushes_no_marker(node_steps(node)),
        tally(c.current().events) + node_kept(c, node).len() <= u64::MAX,
    ensures
        ({
            let after = run(c, node_steps(node));
            &&& after.enabled
            &&& grew_by(c.current().events, after.current().events, node_kept(c, node))
        }),
    decreases node, 0int,
{
    let steps = node_steps(node);
    let after = run(c, steps);
    match node {
        Node::Leaf(step) => {
            assert(steps.drop_last() =~= Seq::empty());
            assert(run(c, steps.drop_last()) == c);
            assert(steps[0] == step);
            lemma_step_records_its_event(c, step);
            let told = CollectorView {
                pending: after.pending,
                max_bytes: after.max_bytes,
                ..c
            };
            assert(told.current() == c.current());
            match step.event(c.pending) {
                Some(event) => {
                    lemma_push_is_counted(told, event);
                },
                None => {
                    lemma_grew_by_nothing(c.current().events);
                },
            }
        },
        Node::Batch(inner, ending) => {
            let middle = steps_of(inner);
            let begin: Seq<Step> = seq![Step::Begin];
            let end: Seq<Step> = seq![ending.step()];
            let opened = c.begin_batch();
            let inside = run(opened, middle);
            lemma_steps_of_nested(inner);
            lemma_run_concat(c, begin, middle);
            lemma_run_concat(c, begin + middle, end);
            assert(begin.drop_last() =~= Seq::empty());
            assert(end.drop_last() =~= Seq::empty());
            assert(run(c, begin.drop_last()) == c);
            assert(run(c, begin) == opened);
            assert(run(inside, end.drop_last()) == inside);
            assert(after == ending.step().apply(inside));
            lemma_pushes_no_marker_parts(begin + middle, end);
            lemma_pushes_no_marker_parts(begin, middle);
            lemma_nested_steps_stay_inside(c, middle);
            let log = c.current().events;
            match ending {
                Ending::Rollback(false) => {
                    law_rollback_restores(c, middle);
                    assert(after.current() == c.current());
                    lemma_grew_by_nothing(log);
                },
                _ => {
                    let added = inside.current().events;
                    let events = kept(opened, inner);
                    assert(opened.current() == BatchView::empty());
                    law_nodes_are_kept_or_counted(opened, inner);
                    let x = choose|x: Seq<EventView>|
                        traces(added) == traces(opened.current().events) + x
                            && #[trigger] thinned(x, events);
                    assert(traces(added) =~= x);
                    assert(after.current().events =~= log + added);
                    lemma_tally_concat(log, added);
                    assert(grew_by(log, after.current().events, events));
                },
            }
        },
    }
}

/// Whatever caps are set, well-nested steps leave each trace that stands in no batch that
/// was rolled back without being read-only, or count it in a marker: the log accounts for
/// exactly as many more as there are of these, and those that it holds are among them, in
/// their order.
pub proof fn law_nodes_are_kept_or_counted(c: CollectorView, nodes: Seq<Node>)
    requires
        c.enabled,
        nodes_wf(nodes),
        pushes_no_marker(steps_of(nodes)),
        tally(c.current().events) + kept(c, nodes).len() <= u64::MAX,
    ensures
        run(c, steps_of(nodes)).enabled,
        grew_by(
            c.current().events,
            run(c, steps_of(nodes)).current().events,
            kept(c, nodes),
        ),
    decreases nodes, 1int,
{
    if nodes.len() == 0 {
        lemma_grew_by_nothing(c.current().events);
    } else {
        let earlier = nodes.drop_last();
        let node = nodes.last();
        let before = run(c, steps_of(earlier));
        assert(node_wf(nodes[nodes.len() - 1]));
        lemma_pushes_no_marker_parts(steps_of(earlier), node_steps(node));
        law_nodes_are_kept_or_counted(c, earlier);
        lemma_run_concat(c, steps_of(earlier), node_steps(node));
        lemma_node_is_counted(before, node);
        lemma_grew_twice(
            c.current().events,
            before.current().events,
            run(c, steps_of(nodes)).current().events,
            kept(c, earlier),
            node_kept(before, node),
        );
    }
}

/// Whatever caps are set, a transaction that commits adds to the committed log, or to what
/// its markers count, exactly the traces that it recorded and that stand in no batch that
/// was rolled back without being read-only.
pub proof fn law_transaction_is_kept_or_counted(c: CollectorView, nodes: Seq<Node>)
    requires
        c.enabled,
        c.batches.len() == 0,
        nodes_wf(nodes),
        pushes_no_marker(steps_of(nodes)),
        kept(c.begin_batch(), nodes).len() <= u64::MAX,
    ensures
        ({
            let after = run(c.begin_batch(), steps_of(nodes)).commit_batch();
            let events = kept(c.begin_batch(), nodes);
            &&& tally(after.committed.events) == tally(c.committed.events) + events.len()
            &&& grew_by(c.committed.events, after.committed.events, events)
        }),
{
    let opened = c.begin_batch();
    let inside = run(opened, steps_of(nodes));
    let after = inside.commit_batch();
    let log = c.committed.events;
    let added = inside.current().events;
    let events = kept(opened, nodes);
    assert(opened.current() == BatchView::empty());
    law_nodes_are_kept_or_counted(opened, nodes);
    lemma_steps_of_nested(nodes);
    lemma_nested_steps_stay_inside(c, steps_of(nodes));
    let x = choose|x: Seq<EventView>|
        traces(added) == traces(opened.current().events) + x && #[trigger] thinned(x, events);
    assert(traces(added) =~= x);
    assert(after.committed.events =~= log + added);
    lemma_tally_concat(log, added);
    assert(grew_by(log, after.committed.events, events));
}

/// The same of any well-nested steps, with the nodes that tell which batches they open and
/// how these end.
pub proof fn law_transaction_steps_are_kept_or_counted<'a>(
    c: CollectorView,
    steps: Seq<Step<'a>>,
) -> (nodes: Seq<Node<'a>>)
    requires
        c.enabled,
        c.batches.len() == 0,
        batches_nested(steps),
        pushes_no_marker(steps),
        steps.len() <= u64::MAX,
    ensures
        nodes_wf(nodes),
        steps_of(nodes) == steps,
        grew_by(
            c.committed.events,
            run(c.begin_batch(), steps).commit_batch().committed.events,
            kept(c.begin_batch(), nodes),
        ),
{
    let nodes = law_nested_steps_form_nodes(steps);
    lemma_nodes_keep_at_most_one_a_step(c.begin_batch(), nodes);
    law_transaction_is_kept_or_counted(c, nodes);
    nodes
}

proof fn lemma_node_keeps_at_most_one_a_step(c: CollectorView, node: Node)
    ensures
        node_kept(c, node).len() <= node_steps(node).len(),
    decreases node, 0int,
{
    if let Node::Batch(inner, _) = node {
        lemma_nodes_keep_at_most_one_a_step(c.begin_batch(), inner);
    }
}

/// No step records more than one trace.
proof fn lemma_nodes_keep_at_most_one_a_step(c: CollectorView, nodes: Seq<Node>)
    ensures
        kept(c, nodes).len() <= steps_of(nodes).len(),
    decreases nodes, 1int,
{
    if nodes.len() > 0 {
        let earlier = nodes.drop_last();
        lemma_nodes_keep_at_most_one_a_step(c, earlier);
        lemma_node_keeps_at_most_one_a_step(run(c, steps_of(earlier)), nodes.last());
    }
}

} // verus!
