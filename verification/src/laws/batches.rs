//! What opening and closing batches does to the traces.

use vstd::prelude::*;
#[allow(unused_imports)]
use crate::events::EventView;
#[allow(unused_imports)]
use crate::laws::cap::{extended, law_unlimited_keeps_every_event, no_markers, pushed};
#[allow(unused_imports)]
use crate::laws::runs::{
    all_inner, batch_depth, batches_nested, lemma_step_records_its_event, run, Step,
};
#[allow(unused_imports)]
use crate::model::{BatchView, CollectorView};

verus! {

/// What stays as it was below the innermost batches: collection is on as before, and the
/// committed traces and the lowest `floor` batches are the same.
spec fn same_below(c: CollectorView, after: CollectorView, floor: nat) -> bool {
    &&& after.enabled == c.enabled
    &&& after.committed == c.committed
    &&& after.batches.len() >= floor
    &&& c.batches.len() >= floor
    &&& after.batches.take(floor as int) == c.batches.take(floor as int)
}

/// A step that leaves more than `floor` batches open touches none below.
proof fn lemma_step_keeps_below(c: CollectorView, step: Step, floor: nat)
    requires
        c.enabled,
        c.batches.len() > floor,
        c.batches.len() + step.batch_change() > floor,
        step.is_inner(),
    ensures
        same_below(c, step.apply(c), floor),
        step.apply(c).batches.len() == c.batches.len() + step.batch_change(),
{
    let after = step.apply(c);
    if step.batch_change() == 0 {
        lemma_step_records_its_event(c, step);
    }
    assert(after.batches.take(floor as int) =~= c.batches.take(floor as int));
}

/// Steps that close no batch but their own touch none below.
proof fn lemma_run_keeps_below(c: CollectorView, steps: Seq<Step>, floor: nat)
    requires
        c.enabled,
        c.batches.len() == floor + 1,
        all_inner(steps),
        forall|k: int| 0 <= k <= steps.len() ==> batch_depth(#[trigger] steps.take(k)) >= 0,
    ensures
        same_below(c, run(c, steps), floor),
        run(c, steps).batches.len() == c.batches.len() + batch_depth(steps),
    decreases steps.len(),
{
    assert(steps.take(steps.len() as int) =~= steps);
    if steps.len() > 0 {
        let shorter = steps.drop_last();
        assert forall|k: int| 0 <= k <= shorter.len() implies batch_depth(
            #[trigger] shorter.take(k),
        ) >= 0 by {
            assert(shorter.take(k) =~= steps.take(k));
        }
        lemma_run_keeps_below(c, shorter, floor);
        assert(steps.take(shorter.len() as int) =~= shorter);
        assert(steps.last() == steps[steps.len() - 1]);
        lemma_step_keeps_below(run(c, shorter), steps.last(), floor);
    }
}

/// Inside a batch of their own, well-nested steps leave all but the batch as it was.
pub proof fn lemma_nested_steps_stay_inside(c: CollectorView, steps: Seq<Step>)
    requires
        c.enabled,
        batches_nested(steps),
    ensures
        ({
            let inside = run(c.begin_batch(), steps);
            &&& inside.enabled
            &&& inside.committed == c.committed
            &&& inside.batches.len() == c.batches.len() + 1
            &&& inside.batches.drop_last() == c.batches
        }),
{
    let inside = run(c.begin_batch(), steps);
    lemma_run_keeps_below(c.begin_batch(), steps, c.batches.len());
    assert(c.begin_batch().batches.take(c.batches.len() as int) =~= c.batches);
    assert(inside.batches.drop_last() =~= inside.batches.take(c.batches.len() as int));
}

/// Rolling back a batch leaves no trace of what was recorded in it: whatever happened
/// inside, batches opened and closed there and markers left there included, the batches
/// and the committed traces are those of before.
pub proof fn law_rollback_restores(c: CollectorView, steps: Seq<Step>)
    requires
        c.enabled,
        batches_nested(steps),
    ensures
        ({
            let inside = run(c.begin_batch(), steps);
            inside.rollback_batch(false) == CollectorView {
                pending: inside.pending,
                max_bytes: inside.max_bytes,
                ..c
            }
        }),
{
    lemma_nested_steps_stay_inside(c, steps);
}

/// Committing a batch puts its traces behind those of the batch around it or, at the top,
/// behind the committed ones, and changes nothing else there.
pub proof fn law_commit_appends(c: CollectorView, steps: Seq<Step>)
    requires
        c.enabled,
        batches_nested(steps),
    ensures
        ({
            let inside = run(c.begin_batch(), steps);
            let after = inside.commit_batch();
            &&& after.current().events == c.current().events + inside.current().events
            &&& after == CollectorView {
                pending: inside.pending,
                max_bytes: inside.max_bytes,
                ..c.with_current(c.current().merged(inside.current()))
            }
        }),
{
    lemma_nested_steps_stay_inside(c, steps);
}

/// Rolling back a read-only batch keeps its traces: it leaves the same as committing it.
pub proof fn law_read_only_rollback_is_commit(c: CollectorView)
    ensures
        c.rollback_batch(true) == c.commit_batch(),
{
}

/// Without a cap, recording in a batch of its own that is committed comes to the same as
/// recording without it.
pub proof fn law_committed_batch_is_transparent(c: CollectorView, events: Seq<EventView>)
    requires
        c.enabled,
        c.max_bytes == 0,
        !c.current().is_truncated(),
        no_markers(events),
    ensures
        pushed(c.begin_batch(), events).commit_batch() == pushed(c, events),
{
    law_unlimited_keeps_every_event(c, events);
    law_unlimited_keeps_every_event(c.begin_batch(), events);
    let inner = extended(BatchView::empty(), events);
    assert(c.begin_batch().current() == BatchView::empty());
    assert(c.current().merged(inner) =~= extended(c.current(), events));
    assert(pushed(c.begin_batch(), events).batches.drop_last() =~= c.batches);
    assert(pushed(c.begin_batch(), events).commit_batch() =~= pushed(c, events));
}

/// Taking the committed traces leaves none to take.
pub proof fn law_take_drains(c: CollectorView)
    requires
        c.enabled,
    ensures
        c.take_committed().committed.events.len() == 0,
        c.take_committed().take_committed() == c.take_committed(),
{
}

} // verus!
