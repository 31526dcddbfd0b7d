//! What the cap keeps, and what it drops.

use vstd::prelude::*;
#[allow(unused_imports)]
use crate::events::EventView;
#[allow(unused_imports)]
use crate::model::{batches_bytes, events_size, BatchView, CollectorView};
#[allow(unused_imports)]
use crate::size::saturated;

verus! {

/// The collector after recording some traces, one after the other.
pub open spec fn pushed(c: CollectorView, events: Seq<EventView>) -> CollectorView
    decreases events.len(),
{
    if events.len() == 0 {
        c
    } else {
        pushed(c, events.drop_last()).push_event(events.last())
    }
}

/// Whether none of some traces is a truncation marker.
pub open spec fn no_markers(events: Seq<EventView>) -> bool {
    forall|i: int| 0 <= i < events.len() ==> !(#[trigger] events[i]).is_marker()
}

/// A batch with some traces behind its own.
pub open spec fn extended(batch: BatchView, events: Seq<EventView>) -> BatchView {
    BatchView {
        events: batch.events + events,
        approx_bytes: saturated((batch.approx_bytes + events_size(events)) as int) as usize,
    }
}

/// Without a cap every trace is kept, in order and as it is, and nothing but the
/// current batch changes.
pub proof fn law_unlimited_keeps_every_event(c: CollectorView, events: Seq<EventView>)
    requires
        c.enabled,
        c.max_bytes == 0,
        !c.current().is_truncated(),
        no_markers(events),
    ensures
        pushed(c, events).current().events == c.current().events + events,
        pushed(c, events) == c.with_current(extended(c.current(), events)),
{
    law_within_cap_keeps_every_event(c, events);
    assert(pushed(c, events).current() =~= extended(c.current(), events));
}

/// Behind a truncation marker, traces are counted and nothing else happens.
pub proof fn law_marker_counts_what_follows(c: CollectorView, events: Seq<EventView>)
    requires
        c.enabled,
        c.current().is_truncated(),
    ensures
        pushed(c, events) == c.with_current(
            BatchView {
                events: c.current().events.drop_last().push(
                    EventView::Truncated(
                        counted(c.current().events.last()->Truncated_0, events.len()),
                    ),
                ),
                ..c.current()
            },
        ),
    decreases events.len(),
{
    if events.len() == 0 {
        assert(c.current().events.drop_last().push(c.current().events.last())
            =~= c.current().events);
        assert(c.with_current(c.current()) =~= c);
    } else {
        let before = pushed(c, events.drop_last());
        law_marker_counts_what_follows(c, events.drop_last());
        assert(before.current().events.drop_last() =~= c.current().events.drop_last());
        assert(before.current().is_truncated());
        assert(pushed(c, events) =~= before.with_current(before.current().dropped_one()));
    }
}

/// A counter after counting some more, which stays at its largest value.
pub open spec fn counted(dropped: u64, more: nat) -> u64 {
    if dropped + more > u64::MAX {
        u64::MAX
    } else {
        (dropped + more) as u64
    }
}

/// The trace that would go past the cap, and those recorded behind it, leave a single
/// marker that counts them.
pub proof fn law_single_marker(c: CollectorView, first: EventView, rest: Seq<EventView>)
    requires
        c.enabled,
        !c.current().is_truncated(),
        c.over_cap(first),
    ensures
        pushed(c.push_event(first), rest).current().events == c.current().events.push(
            EventView::Truncated(counted(1, rest.len())),
        ),
        pushed(c.push_event(first), rest).with_current(c.current()) == c,
{
    let marked = c.push_event(first);
    law_marker_counts_what_follows(marked, rest);
    assert(marked.current().events.drop_last() =~= c.current().events);
    assert(pushed(marked, rest).with_current(c.current()) =~= c);
}

/// The sizes of the traces that are no markers.
pub open spec fn payload(events: Seq<EventView>) -> nat
    decreases events.len(),
{
    if events.len() == 0 {
        0
    } else {
        payload(events.drop_last()) + if events.last().is_marker() {
            0
        } else {
            events.last().size()
        }
    }
}

/// The payload of some batches together.
pub open spec fn batches_payload(batches: Seq<BatchView>) -> nat
    decreases batches.len(),
{
    if batches.len() == 0 {
        0
    } else {
        batches_payload(batches.drop_last()) + payload(batches.last().events)
    }
}

/// The payload of all live traces.
pub open spec fn live_payload(c: CollectorView) -> nat {
    payload(c.committed.events) + batches_payload(c.batches)
}

proof fn lemma_payload_concat(a: Seq<EventView>, b: Seq<EventView>)
    ensures
        payload(a + b) == payload(a) + payload(b),
    decreases b.len(),
{
    if b.len() == 0 {
        assert(a + b =~= a);
    } else {
        lemma_payload_concat(a, b.drop_last());
        assert((a + b).drop_last() =~= a + b.drop_last());
    }
}

proof fn lemma_payload_le_size(events: Seq<EventView>)
    ensures
        payload(events) <= events_size(events),
    decreases events.len(),
{
    if events.len() > 0 {
        lemma_payload_le_size(events.drop_last());
    }
}

proof fn lemma_payload_le_running(batches: Seq<BatchView>)
    requires
        forall|i: int| 0 <= i < batches.len() ==> (#[trigger] batches[i]).wf(),
        batches_bytes(batches) < usize::MAX,
    ensures
        batches_payload(batches) <= batches_bytes(batches),
    decreases batches.len(),
{
    if batches.len() > 0 {
        lemma_payload_le_running(batches.drop_last());
        lemma_payload_le_size(batches.last().events);
        assert(batches[batches.len() - 1].wf());
    }
}

proof fn lemma_payload_with_current(c: CollectorView, batch: BatchView)
    ensures
        live_payload(c.with_current(batch)) + payload(c.current().events) == live_payload(c)
            + payload(batch.events),
{
    if c.batches.len() > 0 {
        let after = c.with_current(batch).batches;
        assert(after.drop_last() =~= c.batches.drop_last());
    }
}

/// Under a cap, recording never brings the live traces, without the markers, past it,
/// nor past a higher limit that they are within.
pub proof fn law_push_event_respects_cap(c: CollectorView, event: EventView, limit: usize)
    requires
        c.wf(),
        0 < c.max_bytes <= limit < usize::MAX,
        live_payload(c) <= limit,
    ensures
        live_payload(c.push_event(event)) <= limit,
{
    let batch = c.current();
    if !c.enabled {
    } else if batch.is_truncated() {
        let after = batch.dropped_one();
        assert(after.events.drop_last() =~= batch.events.drop_last());
        lemma_payload_with_current(c, after);
    } else if c.over_cap(event) {
        let after = batch.recorded(EventView::Truncated(1));
        assert(after.events.drop_last() =~= batch.events);
        lemma_payload_with_current(c, after);
    } else {
        let after = batch.recorded(event);
        assert(after.events.drop_last() =~= batch.events);
        lemma_payload_with_current(c, after);
        lemma_payload_le_running(c.batches);
        lemma_payload_le_size(c.committed.events);
    }
}

/// Opening and closing batches, and taking the committed traces, never add to the live
/// traces.
pub proof fn law_batches_respect_cap(c: CollectorView, was_read_only: bool)
    ensures
        live_payload(c.begin_batch()) == live_payload(c),
        live_payload(c.commit_batch()) == live_payload(c),
        live_payload(c.rollback_batch(was_read_only)) <= live_payload(c),
        live_payload(c.take_committed()) <= live_payload(c),
        c.enabled ==> live_payload(c.take_committed()) == 0,
{
    assert(c.batches.push(BatchView::empty()).drop_last() =~= c.batches);
    if c.enabled && c.batches.len() > 0 {
        let outer = CollectorView { batches: c.batches.drop_last(), ..c };
        let merged = outer.current().merged(c.batches.last());
        lemma_payload_concat(outer.current().events, c.batches.last().events);
        lemma_payload_with_current(outer, merged);
    }
}

/// Whether some traces, on top of the live ones, stay within the cap.
pub open spec fn within_cap(c: CollectorView, events: Seq<EventView>) -> bool {
    c.max_bytes == 0 || saturated(c.live_bytes() + events_size(events)) <= c.max_bytes
}

/// The length of the longest beginning of some traces that stays within the cap.
pub open spec fn fitting(c: CollectorView, events: Seq<EventView>) -> nat
    decreases events.len(),
{
    if events.len() == 0 {
        0
    } else {
        let shorter = events.drop_last();
        if fitting(c, shorter) == shorter.len() && within_cap(c, events) {
            events.len()
        } else {
            fitting(c, shorter)
        }
    }
}

proof fn lemma_live_bytes_extended(c: CollectorView, events: Seq<EventView>)
    ensures
        c.with_current(extended(c.current(), events)).live_bytes() == saturated(
            c.live_bytes() + events_size(events),
        ),
{
    if c.batches.len() > 0 {
        let after = c.with_current(extended(c.current(), events)).batches;
        assert(after.drop_last() =~= c.batches.drop_last());
    }
}

/// A beginning of some traces stays within the cap if and only if it is no longer than
/// the longest one that does, the empty one left aside.
pub proof fn law_fitting_is_the_longest(c: CollectorView, events: Seq<EventView>, n: int)
    requires
        0 < n <= events.len(),
    ensures
        fitting(c, events) <= events.len(),
        within_cap(c, events.take(n)) <==> n <= fitting(c, events),
    decreases events.len(),
{
    let shorter = events.drop_last();
    assert(events.take(events.len() as int) =~= events);
    if shorter.len() > 0 {
        law_fitting_is_the_longest(c, shorter, shorter.len() as int);
        assert(shorter.take(shorter.len() as int) =~= shorter);
    } else {
        assert(fitting(c, shorter) == 0);
    }
    if n < events.len() {
        law_fitting_is_the_longest(c, shorter, n);
        assert(shorter.take(n) =~= events.take(n));
    }
}

/// Recording some traces and then others is recording all of them.
proof fn lemma_pushed_concat(c: CollectorView, a: Seq<EventView>, b: Seq<EventView>)
    ensures
        pushed(c, a + b) == pushed(pushed(c, a), b),
    decreases b.len(),
{
    if b.len() == 0 {
        assert(a + b =~= a);
    } else {
        lemma_pushed_concat(c, a, b.drop_last());
        assert((a + b).drop_last() =~= a + b.drop_last());
    }
}

/// Traces that stay within the cap are all kept, in order and as they are, and nothing
/// but the current batch changes.
pub proof fn law_within_cap_keeps_every_event(c: CollectorView, events: Seq<EventView>)
    requires
        c.enabled,
        !c.current().is_truncated(),
        no_markers(events),
        events.len() > 0 ==> within_cap(c, events),
    ensures
        pushed(c, events) == c.with_current(extended(c.current(), events)),
    decreases events.len(),
{
    if events.len() == 0 {
        assert(extended(c.current(), events) =~= c.current());
        assert(c.with_current(c.current()) =~= c);
    } else {
        let shorter = events.drop_last();
        let before = pushed(c, shorter);
        law_within_cap_keeps_every_event(c, shorter);
        lemma_live_bytes_extended(c, shorter);
        assert(before.current() =~= extended(c.current(), shorter));
        assert(shorter.push(events.last()) =~= events);
        if shorter.len() > 0 {
            assert(before.current().events.last() == events[shorter.len() - 1]);
        } else {
            assert(before.current().events =~= c.current().events);
        }
        assert(!before.over_cap(events.last()));
        assert(before.current().recorded(events.last()) =~= extended(c.current(), events));
        assert(pushed(c, events) =~= c.with_current(extended(c.current(), events)));
    }
}

/// The longest beginning of the traces that stays within the cap is kept, in order and
/// as it is, and a single marker counts the rest, if there is any. Nothing but the
/// current batch changes.
pub proof fn law_cap_keeps_the_longest_beginning(c: CollectorView, events: Seq<EventView>)
    requires
        c.enabled,
        !c.current().is_truncated(),
        no_markers(events),
    ensures
        ({
            let n = fitting(c, events);
            let kept = c.current().events + events.take(n as int);
            let after = pushed(c, events);
            &&& n <= events.len()
            &&& n == events.len() ==> after.current().events == kept
            &&& n < events.len() ==> after.current().events == kept.push(
                EventView::Truncated(counted(1, (events.len() - n - 1) as nat)),
            )
            &&& after.with_current(c.current()) == c
        }),
{
    let n = fitting(c, events) as int;
    if events.len() > 0 {
        law_fitting_is_the_longest(c, events, events.len() as int);
    }
    let head = events.take(n);
    if n > 0 {
        law_fitting_is_the_longest(c, events, n);
    }
    law_within_cap_keeps_every_event(c, head);
    let before = pushed(c, head);
    assert(before.current() =~= extended(c.current(), head));
    assert(before.with_current(c.current()) =~= c);
    if n < events.len() {
        let first = events[n];
        let rest = events.skip(n + 1);
        law_fitting_is_the_longest(c, events, n + 1);
        assert(events.take(n + 1).drop_last() =~= head);
        lemma_live_bytes_extended(c, head);
        if n > 0 {
            assert(before.current().events.last() == events[n - 1]);
        } else {
            assert(before.current().events =~= c.current().events);
        }
        law_single_marker(before, first, rest);
        assert(events =~= head.push(first) + rest);
        lemma_pushed_concat(c, head.push(first), rest);
        assert(head.push(first).drop_last() =~= head);
        let after = pushed(c, events);
        assert(after.with_current(before.current()) == before);
        assert(after.with_current(c.current()) =~= before.with_current(c.current())) by {
            assert(after.batches.len() == before.batches.len());
            if before.batches.len() > 0 {
                assert(before.batches.drop_last() =~= after.with_current(
                    before.current(),
                ).batches.drop_last());
                assert(after.with_current(before.current()).batches.drop_last()
                    =~= after.batches.drop_last());
            }
        }
    } else {
        assert(head =~= events);
    }
}

} // verus!
