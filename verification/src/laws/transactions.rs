//! What a transaction leaves: the traces that stand in no batch that was rolled back.

use vstd::prelude::*;
#[allow(unused_imports)]
use crate::events::EventView;
#[allow(unused_imports)]
use crate::laws::accounting::lemma_events_size_concat;
#[allow(unused_imports)]
use crate::laws::batches::{law_rollback_restores, lemma_nested_steps_stay_inside};
#[allow(unused_imports)]
use crate::laws::cap::{extended, no_markers};
#[allow(unused_imports)]
use crate::laws::runs::{
    batch_depth, batches_nested, lemma_run_concat, lemma_step_records_its_event,
    push_option, run, Step,
};
#[allow(unused_imports)]
use crate::model::{events_size, BatchView, CollectorView};

verus! {

/// How a batch ends.
pub enum Ending {
    Commit,
    Rollback(bool),
}

impl Ending {
    pub open spec fn step<'a>(self) -> Step<'a> {
        match self {
            Ending::Commit => Step::Commit,
            Ending::Rollback(was_read_only) => Step::Rollback(was_read_only),
        }
    }
}

/// A step of a transaction, or a batch with what happens in it.
pub enum Node<'a> {
    Leaf(Step<'a>),
    Batch(Seq<Node<'a>>, Ending),
}

/// The steps of a node.
pub open spec fn node_steps<'a>(node: Node<'a>) -> Seq<Step<'a>>
    decreases node,
{
    match node {
        Node::Leaf(step) => seq![step],
        Node::Batch(inner, ending) => seq![Step::Begin] + steps_of(inner) + seq![ending.step()],
    }
}

/// The steps of some nodes, one node after the other.
pub open spec fn steps_of<'a>(nodes: Seq<Node<'a>>) -> Seq<Step<'a>>
    decreases nodes,
{
    if nodes.len() == 0 {
        Seq::empty()
    } else {
        steps_of(nodes.drop_last()) + node_steps(nodes.last())
    }
}

/// Whether the leaves of a node are steps within a transaction that open and close no
/// batch.
pub open spec fn node_wf(node: Node) -> bool
    decreases node,
{
    match node {
        Node::Leaf(step) => step.is_inner() && step.batch_change() == 0,
        Node::Batch(inner, _) => nodes_wf(inner),
    }
}

pub open spec fn nodes_wf(nodes: Seq<Node>) -> bool
    decreases nodes,
{
    forall|i: int| 0 <= i < nodes.len() ==> node_wf(#[trigger] nodes[i])
}

/// The traces that a node records, in their order, without those in a batch that is
/// rolled back and was not read-only.
pub open spec fn node_kept(c: CollectorView, node: Node) -> Seq<EventView>
    decreases node,
{
    match node {
        Node::Leaf(step) => match step.event(c.pending) {
            Some(event) => seq![event],
            None => Seq::empty(),
        },
        Node::Batch(inner, Ending::Rollback(false)) => Seq::empty(),
        Node::Batch(inner, _) => kept(c.begin_batch(), inner),
    }
}

/// The traces that some nodes record, in their order, without those in a batch that is
/// rolled back and was not read-only.
pub open spec fn kept(c: CollectorView, nodes: Seq<Node>) -> Seq<EventView>
    decreases nodes,
{
    if nodes.len() == 0 {
        Seq::empty()
    } else {
        kept(c, nodes.drop_last()) + node_kept(
            run(c, steps_of(nodes.drop_last())),
            nodes.last(),
        )
    }
}

/// Whether the steps set no cap.
pub open spec fn sets_no_cap(steps: Seq<Step>) -> bool {
    forall|i: int| 0 <= i < steps.len() ==> match #[trigger] steps[i] {
        Step::SetMaxBytes(max_bytes) => max_bytes == 0,
        _ => true,
    }
}

proof fn lemma_depth_concat(a: Seq<Step>, b: Seq<Step>)
    ensures
        batch_depth(a + b) == batch_depth(a) + batch_depth(b),
    decreases b.len(),
{
    if b.len() == 0 {
        assert(a + b =~= a);
    } else {
        lemma_depth_concat(a, b.drop_last());
        assert((a + b).drop_last() =~= a + b.drop_last());
    }
}

proof fn lemma_depth_one(step: Step)
    ensures
        batch_depth(seq![step]) == step.batch_change(),
{
    assert(seq![step].drop_last() =~= Seq::empty());
    assert(batch_depth(Seq::<Step>::empty()) == 0);
}

proof fn lemma_nested_concat(a: Seq<Step>, b: Seq<Step>)
    requires
        batches_nested(a),
        batches_nested(b),
    ensures
        batches_nested(a + b),
{
    lemma_depth_concat(a, b);
    assert forall|k: int| 0 <= k <= (a + b).len() implies batch_depth(
        #[trigger] (a + b).take(k),
    ) >= 0 by {
        if k <= a.len() {
            assert((a + b).take(k) =~= a.take(k));
        } else {
            assert((a + b).take(k) =~= a + b.take(k - a.len()));
            lemma_depth_concat(a, b.take(k - a.len()));
        }
    }
}

/// The steps of a well-formed node are well nested.
pub proof fn lemma_node_steps_nested(node: Node)
    requires
        node_wf(node),
    ensures
        batches_nested(node_steps(node)),
    decreases node, 0int,
{
    let steps = node_steps(node);
    match node {
        Node::Leaf(step) => {
            lemma_depth_one(step);
            assert forall|k: int| 0 <= k <= steps.len() implies batch_depth(
                #[trigger] steps.take(k),
            ) >= 0 by {
                if k == 0 {
                    assert(steps.take(k) =~= Seq::empty());
                } else {
                    assert(steps.take(k) =~= steps);
                }
            }
        },
        Node::Batch(inner, ending) => {
            let middle = steps_of(inner);
            let begin: Seq<Step> = seq![Step::Begin];
            let end: Seq<Step> = seq![ending.step()];
            lemma_steps_of_nested(inner);
            lemma_depth_one(Step::Begin);
            lemma_depth_one(ending.step());
            lemma_depth_concat(begin, middle);
            lemma_depth_concat(begin + middle, end);
            assert forall|k: int| 0 <= k <= steps.len() implies batch_depth(
                #[trigger] steps.take(k),
            ) >= 0 by {
                if k == 0 {
                    assert(steps.take(k) =~= Seq::empty());
                } else if k <= 1 + middle.len() {
                    assert(steps.take(k) =~= begin + middle.take(k - 1));
                    lemma_depth_concat(begin, middle.take(k - 1));
                } else {
                    assert(steps.take(k) =~= steps);
                }
            }
        },
    }
}

/// The steps of well-formed nodes are well nested.
pub proof fn lemma_steps_of_nested(nodes: Seq<Node>)
    requires
        nodes_wf(nodes),
    ensures
        batches_nested(steps_of(nodes)),
    decreases nodes, 1int,
{
    if nodes.len() > 0 {
        assert(node_wf(nodes[nodes.len() - 1]));
        lemma_steps_of_nested(nodes.drop_last());
        lemma_node_steps_nested(nodes.last());
        lemma_nested_concat(steps_of(nodes.drop_last()), node_steps(nodes.last()));
    } else {
        let steps = steps_of(nodes);
        assert forall|k: int| 0 <= k <= steps.len() implies batch_depth(
            #[trigger] steps.take(k),
        ) >= 0 by {
            assert(steps.take(k) =~= steps);
        }
    }
}

/// The last place up to `m` where no batch is open.
proof fn lemma_last_outside(steps: Seq<Step>, m: int) -> (j: int)
    requires
        0 <= m <= steps.len(),
    ensures
        0 <= j <= m,
        batch_depth(steps.take(j)) == 0,
        forall|k: int| j < k <= m ==> batch_depth(#[trigger] steps.take(k)) != 0,
    decreases m,
{
    if batch_depth(steps.take(m)) == 0 {
        m
    } else {
        if m == 0 {
            assert(steps.take(0) =~= Seq::empty());
        }
        lemma_last_outside(steps, m - 1)
    }
}

/// Well-nested steps are those of some nodes, so that what holds of nodes holds of every
/// well-nested run.
pub proof fn law_nested_steps_form_nodes<'a>(steps: Seq<Step<'a>>) -> (nodes: Seq<Node<'a>>)
    requires
        batches_nested(steps),
    ensures
        nodes_wf(nodes),
        steps_of(nodes) == steps,
    decreases steps.len(),
{
    if steps.len() == 0 {
        assert(steps_of(Seq::<Node>::empty()) =~= steps);
        Seq::empty()
    } else {
        let last = steps.last();
        let m = steps.len() - 1;
        let shorter = steps.drop_last();
        assert(steps.take(m) =~= shorter);
        assert(last == steps[m]);
        let j = if last.batch_change() == 0 {
            m
        } else {
            lemma_last_outside(steps, m)
        };
        let earlier = steps.take(j);
        assert forall|k: int| 0 <= k <= earlier.len() implies batch_depth(
            #[trigger] earlier.take(k),
        ) >= 0 by {
            assert(earlier.take(k) =~= steps.take(k));
        }
        assert forall|i: int| 0 <= i < earlier.len() implies (
        #[trigger] earlier[i]).is_inner() by {
            assert(earlier[i] == steps[i]);
        }
        let nodes = law_nested_steps_form_nodes(earlier);
        let node = if last.batch_change() == 0 {
            assert(steps =~= earlier + seq![last]);
            assert(node_steps(Node::Leaf(last)) == seq![last]);
            Node::Leaf(last)
        } else {
            let inner = steps.subrange(j + 1, m);
            assert(steps.take(j + 1).drop_last() =~= earlier);
            assert(batch_depth(steps.take(j + 1)) >= 0);
            assert(steps[j] == Step::<'a>::Begin);
            assert forall|k: int| 0 <= k <= inner.len() implies batch_depth(
                #[trigger] inner.take(k),
            ) >= 0 && batch_depth(inner.take(k)) == batch_depth(steps.take(j + 1 + k)) - 1 by {
                assert(steps.take(j + 1 + k) =~= steps.take(j + 1) + inner.take(k));
                lemma_depth_concat(steps.take(j + 1), inner.take(k));
            }
            assert(inner.take(inner.len() as int) =~= inner);
            assert(steps.take(j + 1 + inner.len()) =~= shorter);
            assert forall|i: int| 0 <= i < inner.len() implies (
            #[trigger] inner[i]).is_inner() by {
                assert(inner[i] == steps[j + 1 + i]);
            }
            let inside = law_nested_steps_form_nodes(inner);
            let ending = match last {
                Step::Rollback(was_read_only) => Ending::Rollback(was_read_only),
                _ => Ending::Commit,
            };
            assert(ending.step::<'a>() == last);
            assert(steps =~= earlier + (seq![Step::Begin] + inner + seq![last]));
            assert(node_steps(Node::Batch(inside, ending)) == seq![Step::Begin] + inner + seq![
                last,
            ]);
            Node::Batch(inside, ending)
        };
        assert(nodes.push(node).drop_last() =~= nodes);
        assert(nodes.push(node).last() == node);
        assert(steps == earlier + node_steps(node));
        nodes.push(node)
    }
}

/// A batch with some traces, and then with others behind them.
pub proof fn lemma_extended_twice(batch: BatchView, a: Seq<EventView>, b: Seq<EventView>)
    ensures
        extended(extended(batch, a), b) == extended(batch, a + b),
{
    lemma_events_size_concat(a, b);
    assert(extended(extended(batch, a), b) =~= extended(batch, a + b));
}

/// A collector whose current batch got some traces, and whose begun calls changed.
spec fn grown(c: CollectorView, after: CollectorView, events: Seq<EventView>) -> bool {
    after == CollectorView {
        pending: after.pending,
        ..c.with_current(extended(c.current(), events))
    }
}

proof fn lemma_grown_twice(
    c: CollectorView,
    mid: CollectorView,
    after: CollectorView,
    a: Seq<EventView>,
    b: Seq<EventView>,
)
    requires
        grown(c, mid, a),
        grown(mid, after, b),
    ensures
        grown(c, after, a + b),
{
    assert(mid.current() =~= extended(c.current(), a));
    lemma_extended_twice(c.current(), a, b);
    assert(after =~= CollectorView {
        pending: after.pending,
        ..c.with_current(extended(c.current(), a + b))
    });
}

proof fn lemma_sets_no_cap_parts(a: Seq<Step>, b: Seq<Step>)
    requires
        sets_no_cap(a + b),
    ensures
        sets_no_cap(a),
        sets_no_cap(b),
{
    assert forall|i: int| 0 <= i < a.len() implies match #[trigger] a[i] {
        Step::SetMaxBytes(max_bytes) => max_bytes == 0,
        _ => true,
    } by {
        assert((a + b)[i] == a[i]);
    }
    assert forall|i: int| 0 <= i < b.len() implies match #[trigger] b[i] {
        Step::SetMaxBytes(max_bytes) => max_bytes == 0,
        _ => true,
    } by {
        assert((a + b)[a.len() + i] == b[i]);
    }
}

proof fn lemma_no_markers_parts(a: Seq<EventView>, b: Seq<EventView>)
    requires
        no_markers(a + b),
    ensures
        no_markers(a),
        no_markers(b),
{
    assert forall|i: int| 0 <= i < a.len() implies !(#[trigger] a[i]).is_marker() by {
        assert((a + b)[i] == a[i]);
    }
    assert forall|i: int| 0 <= i < b.len() implies !(#[trigger] b[i]).is_marker() by {
        assert((a + b)[a.len() + i] == b[i]);
    }
}

/// Steps that set no cap leave none set.
proof fn lemma_run_sets_no_cap(c: CollectorView, steps: Seq<Step>)
    requires
        c.max_bytes == 0,
        sets_no_cap(steps),
    ensures
        run(c, steps).max_bytes == 0,
    decreases steps.len(),
{
    if steps.len() > 0 {
        let shorter = steps.drop_last();
        assert(shorter + seq![steps.last()] =~= steps);
        lemma_sets_no_cap_parts(shorter, seq![steps.last()]);
        lemma_run_sets_no_cap(c, shorter);
        assert(seq![steps.last()][0] == steps.last());
    }
}

proof fn lemma_node_grows(c: CollectorView, node: Node)
    requires
        c.enabled,
        c.max_bytes == 0,
        !c.current().is_truncated(),
        node_wf(node),
        sets_no_cap(node_steps(node)),
        no_markers(node_kept(c, node)),
    ensures
        grown(c, run(c, node_steps(node)), node_kept(c, node)),
    decreases node, 0int,
{
    let steps = node_steps(node);
    let after = run(c, steps);
    match node {
        Node::Leaf(step) => {
            assert(steps.drop_last() =~= Seq::empty());
            assert(run(c, steps.drop_last()) == c);
            assert(steps[0] == step);
            lemma_step_records_its_event(c, step);
            let told = CollectorView { pending: after.pending, ..c };
            match step.event(c.pending) {
                Some(event) => {
                    assert(node_kept(c, node)[0] == event);
                    assert(node_kept(c, node).drop_last() =~= Seq::empty());
                    assert(events_size(node_kept(c, node).drop_last()) == 0);
                    assert(c.current().recorded(event) =~= extended(
                        c.current(),
                        node_kept(c, node),
                    ));
                },
                None => {
                    assert(extended(c.current(), node_kept(c, node)) =~= c.current());
                },
            }
            assert(c.with_current(c.current()) =~= c);
            assert(after.max_bytes == 0);
            assert(after == push_option(told, step.event(c.pending)));
            assert(after =~= CollectorView {
                pending: after.pending,
                ..c.with_current(extended(c.current(), node_kept(c, node)))
            });
        },
        Node::Batch(inner, ending) => {
            let middle = steps_of(inner);
            let begin: Seq<Step> = seq![Step::Begin];
            let end: Seq<Step> = seq![ending.step()];
            let opened = c.begin_batch();
            let inside = run(opened, middle);
            lemma_steps_of_nested(inner);
            lemma_run_concat(c, begin, middle);
            lemma_run_concat(c, begin + middle, end);
            assert(begin.drop_last() =~= Seq::empty());
            assert(end.drop_last() =~= Seq::empty());
            assert(run(c, begin.drop_last()) == c);
            assert(run(c, begin) == opened);
            assert(run(inside, end.drop_last()) == inside);
            assert(after == ending.step().apply(inside));
            lemma_sets_no_cap_parts(begin + middle, end);
            lemma_sets_no_cap_parts(begin, middle);
            lemma_run_sets_no_cap(opened, middle);
            lemma_nested_steps_stay_inside(c, middle);
            match ending {
                Ending::Rollback(false) => {
                    law_rollback_restores(c, middle);
                    assert(extended(c.current(), Seq::empty()) =~= c.current());
                    assert(c.with_current(c.current()) =~= c);
                },
                _ => {
                    let events = kept(opened, inner);
                    lemma_nodes_grow(opened, inner);
                    assert(opened.current() == BatchView::empty());
                    assert(inside.current() =~= extended(BatchView::empty(), events));
                    assert(c.current().merged(inside.current()) =~= extended(
                        c.current(),
                        events,
                    ));
                    assert(grown(c, after, events));
                },
            }
        },
    }
}

proof fn lemma_nodes_grow(c: CollectorView, nodes: Seq<Node>)
    requires
        c.enabled,
        c.max_bytes == 0,
        !c.current().is_truncated(),
        nodes_wf(nodes),
        sets_no_cap(steps_of(nodes)),
        no_markers(kept(c, nodes)),
    ensures
        grown(c, run(c, steps_of(nodes)), kept(c, nodes)),
    decreases nodes, 1int,
{
    if nodes.len() == 0 {
        assert(extended(c.current(), kept(c, nodes)) =~= c.current());
        assert(c.with_current(c.current()) =~= c);
    } else {
        let earlier = nodes.drop_last();
        let node = nodes.last();
        let before = run(c, steps_of(earlier));
        let a = kept(c, earlier);
        let b = node_kept(before, node);
        assert(node_wf(nodes[nodes.len() - 1]));
        lemma_sets_no_cap_parts(steps_of(earlier), node_steps(node));
        lemma_no_markers_parts(a, b);
        lemma_nodes_grow(c, earlier);
        lemma_run_concat(c, steps_of(earlier), node_steps(node));
        assert(before.current() =~= extended(c.current(), a));
        if a.len() > 0 {
            assert(before.current().events.last() == a[a.len() - 1]);
        } else {
            assert(before.current().events =~= c.current().events);
        }
        lemma_node_grows(before, node);
        lemma_grown_twice(c, before, run(c, steps_of(nodes)), a, b);
    }
}

/// Without a cap, well-nested steps leave exactly the traces that stand in no batch that
/// was rolled back without being read-only, in the order in which they were recorded,
/// and change nothing else but the begun calls.
pub proof fn law_nested_steps_leave_what_was_kept(c: CollectorView, nodes: Seq<Node>)
    requires
        c.enabled,
        c.max_bytes == 0,
        !c.current().is_truncated(),
        nodes_wf(nodes),
        sets_no_cap(steps_of(nodes)),
        no_markers(kept(c, nodes)),
    ensures
        ({
            let after = run(c, steps_of(nodes));
            &&& after.current().events == c.current().events + kept(c, nodes)
            &&& after == CollectorView {
                pending: after.pending,
                ..c.with_current(extended(c.current(), kept(c, nodes)))
            }
        }),
{
    lemma_nodes_grow(c, nodes);
}

/// Without a cap, a transaction that commits leaves exactly the traces that it recorded
/// and that stand in no batch that was rolled back without being read-only, in their
/// order, behind those committed before.
pub proof fn law_transaction_leaves_what_was_kept(c: CollectorView, nodes: Seq<Node>)
    requires
        c.enabled,
        c.max_bytes == 0,
        c.batches.len() == 0,
        nodes_wf(nodes),
        sets_no_cap(steps_of(nodes)),
        no_markers(kept(c.begin_batch(), nodes)),
    ensures
        ({
            let after = run(c.begin_batch(), steps_of(nodes)).commit_batch();
            &&& after.committed.events == c.committed.events + kept(c.begin_batch(), nodes)
            &&& after.batches.len() == 0
        }),
{
    let inside = run(c.begin_batch(), steps_of(nodes));
    lemma_nodes_grow(c.begin_batch(), nodes);
    assert(c.begin_batch().current() == BatchView::empty());
    assert(inside.current().events =~= kept(c.begin_batch(), nodes));
    assert(inside.batches.drop_last() =~= c.batches);
}

/// Whether no step pushes a truncation marker.
pub open spec fn pushes_no_marker(steps: Seq<Step>) -> bool {
    forall|i: int| 0 <= i < steps.len() ==> match #[trigger] steps[i] {
        Step::Push(event) => !event.is_marker(),
        _ => true,
    }
}

pub proof fn lemma_pushes_no_marker_parts(a: Seq<Step>, b: Seq<Step>)
    requires
        pushes_no_marker(a + b),
    ensures
        pushes_no_marker(a),
        pushes_no_marker(b),
{
    assert forall|i: int| 0 <= i < a.len() implies match #[trigger] a[i] {
        Step::Push(event) => !event.is_marker(),
        _ => true,
    } by {
        assert((a + b)[i] == a[i]);
    }
    assert forall|i: int| 0 <= i < b.len() implies match #[trigger] b[i] {
        Step::Push(event) => !event.is_marker(),
        _ => true,
    } by {
        assert((a + b)[a.len() + i] == b[i]);
    }
}

proof fn lemma_node_keeps_no_marker(c: CollectorView, node: Node)
    requires
        pushes_no_marker(node_steps(node)),
    ensures
        no_markers(node_kept(c, node)),
    decreases node, 0int,
{
    match node {
        Node::Leaf(step) => {
            assert(node_steps(node)[0] == step);
        },
        Node::Batch(inner, ending) => {
            let begin: Seq<Step> = seq![Step::Begin];
            lemma_pushes_no_marker_parts(begin + steps_of(inner), seq![ending.step()]);
            lemma_pushes_no_marker_parts(begin, steps_of(inner));
            lemma_nodes_keep_no_marker(c.begin_batch(), inner);
        },
    }
}

proof fn lemma_nodes_keep_no_marker(c: CollectorView, nodes: Seq<Node>)
    requires
        pushes_no_marker(steps_of(nodes)),
    ensures
        no_markers(kept(c, nodes)),
    decreases nodes, 1int,
{
    if nodes.len() > 0 {
        let earlier = nodes.drop_last();
        lemma_pushes_no_marker_parts(steps_of(earlier), node_steps(nodes.last()));
        lemma_nodes_keep_no_marker(c, earlier);
        lemma_node_keeps_no_marker(run(c, steps_of(earlier)), nodes.last());
    }
}

/// Without a cap, every transaction of well-nested steps that commits leaves exactly the
/// traces that it recorded and that stand in no batch that was rolled back without being
/// read-only, in their order, behind those committed before. The nodes tell which batches
/// the steps open and how these end.
pub proof fn law_committed_steps_leave_what_was_kept<'a>(
    c: CollectorView,
    steps: Seq<Step<'a>>,
) -> (nodes: Seq<Node<'a>>)
    requires
        c.enabled,
        c.max_bytes == 0,
        c.batches.len() == 0,
        batches_nested(steps),
        sets_no_cap(steps),
        pushes_no_marker(steps),
    ensures
        nodes_wf(nodes),
        steps_of(nodes) == steps,
        run(c.begin_batch(), steps).commit_batch().committed.events == c.committed.events + kept(
            c.begin_batch(),
            nodes,
        ),
{
    let nodes = law_nested_steps_form_nodes(steps);
    lemma_nodes_keep_no_marker(c.begin_batch(), nodes);
    law_transaction_leaves_what_was_kept(c, nodes);
    nodes
}

} // verus!
