//! Which traces the cap counts.

use vstd::prelude::*;
#[allow(unused_imports)]
use crate::events::EventView;
#[allow(unused_imports)]
use crate::laws::runs::{law_run_keeps_wf, run, Step};
#[allow(unused_imports)]
use crate::model::{batches_bytes, events_size, BatchView, CollectorView};
#[allow(unused_imports)]
use crate::size::saturated;

verus! {

/// The sizes of some traces together.
pub open spec fn total_size(events: Seq<EventView>) -> nat
    decreases events.len(),
{
    if events.len() == 0 {
        0
    } else {
        events[0].size() + total_size(events.drop_first())
    }
}

/// The sizes of all traces in some batches together.
pub open spec fn open_size(batches: Seq<BatchView>) -> nat
    decreases batches.len(),
{
    if batches.len() == 0 {
        0
    } else {
        total_size(batches[0].events) + open_size(batches.drop_first())
    }
}

/// The sizes of all live traces together: of the committed ones, and of those in each open
/// batch, each once.
pub open spec fn live_size(c: CollectorView) -> nat {
    total_size(c.committed.events) + open_size(c.batches)
}

/// The log that traces go to: that of the innermost open batch, or the committed one.
pub open spec fn log(c: CollectorView) -> Seq<EventView> {
    if c.batches.len() > 0 {
        c.batches[c.batches.len() - 1].events
    } else {
        c.committed.events
    }
}

/// Whether a log ends in a marker.
pub open spec fn ends_in_marker(events: Seq<EventView>) -> bool {
    events.len() > 0 && events[events.len() - 1] is Truncated
}

proof fn lemma_total_size(events: Seq<EventView>)
    ensures
        total_size(events) == events_size(events),
    decreases events.len(),
{
    if events.len() > 0 {
        let others = events.drop_first();
        let shorter = events.drop_last();
        if others.len() == 0 {
            assert(shorter =~= others);
            lemma_total_size(shorter);
            assert(events.last() == events[0]);
        } else {
            lemma_total_size(others);
            lemma_total_size(shorter);
            lemma_total_size(others.drop_last());
            assert(shorter.drop_first() =~= others.drop_last());
            assert(others.last() == events.last());
            assert(shorter[0] == events[0]);
        }
    }
}

proof fn lemma_open_size_last(batches: Seq<BatchView>)
    requires
        batches.len() > 0,
    ensures
        open_size(batches) == open_size(batches.drop_last()) + total_size(batches.last().events),
    decreases batches.len(),
{
    let others = batches.drop_first();
    let shorter = batches.drop_last();
    if others.len() == 0 {
        assert(shorter =~= others);
        assert(open_size(others) == 0);
    } else {
        lemma_open_size_last(others);
        assert(shorter.drop_first() =~= others.drop_last());
        assert(others.last() == batches.last());
        assert(shorter[0] == batches[0]);
    }
}

proof fn lemma_open_size(batches: Seq<BatchView>)
    requires
        forall|i: int| 0 <= i < batches.len() ==> (#[trigger] batches[i]).wf(),
    ensures
        saturated(batches_bytes(batches) as int) == saturated(open_size(batches) as int),
    decreases batches.len(),
{
    if batches.len() > 0 {
        lemma_open_size_last(batches);
        lemma_open_size(batches.drop_last());
        lemma_total_size(batches.last().events);
        assert(batches[batches.len() - 1].wf());
    }
}

/// The cap is held against all live traces, each counted once: a trace is recorded if its
/// size and theirs together stay within the cap, or if there is none; else a marker that
/// counts it stands in its place. The largest cap is one that no size goes past.
pub proof fn law_cap_is_held_against_all_live_traces(c: CollectorView, event: EventView)
    requires
        c.wf(),
        c.enabled,
        !ends_in_marker(log(c)),
    ensures
        ({
            let after = c.push_event(event);
            let fits = c.max_bytes == 0 || c.max_bytes == usize::MAX || live_size(c) + event.size()
                <= c.max_bytes;
            &&& log(after) == log(c).push(
                if fits {
                    event
                } else {
                    EventView::Truncated(1)
                },
            )
            &&& live_size(after) == live_size(c) + (if fits {
                event.size()
            } else {
                8
            })
        }),
{
    lemma_open_size(c.batches);
    lemma_total_size(c.committed.events);
    let after = c.push_event(event);
    lemma_total_size(log(c));
    lemma_total_size(log(after));
    assert(log(after).drop_last() =~= log(c));
    if c.batches.len() > 0 {
        lemma_open_size_last(c.batches);
        lemma_open_size_last(after.batches);
        assert(after.batches.drop_last() =~= c.batches.drop_last());
    }
}

/// The same of every collector, whatever it was told since it was made.
pub proof fn law_cap_counts_whatever_happened(steps: Seq<Step>, event: EventView)
    ensures
        ({
            let c = run(CollectorView::initial(), steps);
            let fits = c.max_bytes == 0 || c.max_bytes == usize::MAX || live_size(c) + event.size()
                <= c.max_bytes;
            c.enabled && !ends_in_marker(log(c)) ==> log(c.push_event(event)) == log(c).push(
                if fits {
                    event
                } else {
                    EventView::Truncated(1)
                },
            )
        }),
{
    let c = run(CollectorView::initial(), steps);
    law_run_keeps_wf(CollectorView::initial(), steps);
    if c.enabled && !ends_in_marker(log(c)) {
        law_cap_is_held_against_all_live_traces(c, event);
    }
}

/// Opening a batch, or committing one, changes nothing of what is live; rolling a batch back
/// takes what is in it, and nothing else.
pub proof fn law_batches_hold_what_is_live(c: CollectorView)
    requires
        c.enabled,
    ensures
        live_size(c.begin_batch()) == live_size(c),
        live_size(c.commit_batch()) == live_size(c),
        live_size(c.rollback_batch(true)) == live_size(c),
        c.batches.len() > 0 ==> live_size(c.rollback_batch(false)) + total_size(log(c))
            == live_size(c),
        live_size(c.take_committed()) == 0,
{
    let opened = c.begin_batch();
    lemma_open_size_last(opened.batches);
    assert(opened.batches.drop_last() =~= c.batches);
    if c.batches.len() > 0 {
        lemma_open_size_last(c.batches);
        let closed = c.commit_batch();
        lemma_total_size_concat(log(c.rollback_batch(false)), log(c));
        if c.batches.len() > 1 {
            lemma_open_size_last(c.batches.drop_last());
            lemma_open_size_last(closed.batches);
            assert(closed.batches.drop_last() =~= c.batches.drop_last().drop_last());
        }
    }
}

proof fn lemma_total_size_concat(a: Seq<EventView>, b: Seq<EventView>)
    ensures
        total_size(a + b) == total_size(a) + total_size(b),
    decreases a.len(),
{
    if a.len() == 0 {
        assert(a + b =~= b);
    } else {
        lemma_total_size_concat(a.drop_first(), b);
        assert((a + b).drop_first() =~= a.drop_first() + b);
    }
}

/// Whether a trace fits does not depend on the batch that it is recorded in.
pub proof fn law_what_fits_is_the_same_in_a_new_batch(c: CollectorView, event: EventView)
    requires
        c.enabled,
        !ends_in_marker(log(c)),
        !(event is Truncated),
    ensures
        log(c.push_event(event)) == log(c).push(event) <==> log(
            c.begin_batch().push_event(event),
        ) == seq![event],
        log(c.push_event(event)) == log(c).push(EventView::Truncated(1)) <==> log(
            c.begin_batch().push_event(event),
        ) == seq![EventView::Truncated(1)],
{
    let opened = c.begin_batch();
    assert(opened.batches.drop_last() =~= c.batches);
    assert(batches_bytes(opened.batches) == batches_bytes(c.batches));
    let marker = EventView::Truncated(1);
    assert(log(c).push(event).last() == event && log(c).push(marker).last() == marker);
    assert(seq![event][0] == event && seq![marker][0] == marker);
    assert(log(opened) =~= Seq::empty());
    assert(log(opened).push(event) =~= seq![event]);
    assert(log(opened).push(marker) =~= seq![marker]);
}

} // verus!
