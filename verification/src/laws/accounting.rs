//! The running sizes are right, and stay so.

use vstd::prelude::*;
#[allow(unused_imports)]
use crate::events::{raw_text, raw_texts, ContractCallView, EventView};
#[allow(unused_imports)]
use crate::hooks::{CallArguments, CallHook};
#[allow(unused_imports)]
use crate::model::{events_size, BatchView, CollectorView};
#[allow(unused_imports)]
use crate::principal::{ContractView, PrincipalView};
#[allow(unused_imports)]
use crate::value::ValueView;

verus! {

/// Sizes add up.
pub proof fn lemma_events_size_concat(a: Seq<EventView>, b: Seq<EventView>)
    ensures
        events_size(a + b) == events_size(a) + events_size(b),
    decreases b.len(),
{
    if b.len() == 0 {
        assert(a + b =~= a);
    } else {
        lemma_events_size_concat(a, b.drop_last());
        assert((a + b).drop_last() =~= a + b.drop_last());
    }
}

proof fn lemma_recorded_wf(batch: BatchView, event: EventView)
    requires
        batch.wf(),
    ensures
        batch.recorded(event).wf(),
{
    assert(batch.events.push(event).drop_last() =~= batch.events);
}

proof fn lemma_merged_wf(batch: BatchView, later: BatchView)
    requires
        batch.wf(),
        later.wf(),
    ensures
        batch.merged(later).wf(),
{
    lemma_events_size_concat(batch.events, later.events);
}

proof fn lemma_dropped_one_wf(batch: BatchView)
    requires
        batch.wf(),
        batch.is_truncated(),
    ensures
        batch.dropped_one().wf(),
{
    let events = batch.dropped_one().events;
    assert(events.drop_last() =~= batch.events.drop_last());
}

proof fn lemma_with_current_wf(c: CollectorView, batch: BatchView)
    requires
        c.wf(),
        batch.wf(),
    ensures
        c.with_current(batch).wf(),
{
}

/// Setting the switch or the cap, beginning a batch and taking the committed traces keep
/// the running sizes right.
pub proof fn law_settings_and_begin_keep_wf(c: CollectorView, on: bool, max_bytes: usize)
    requires
        c.wf(),
    ensures
        c.set_enabled(on).wf(),
        c.set_max_bytes(max_bytes).wf(),
        c.begin_batch().wf(),
        c.take_committed().wf(),
{
}

/// Closing a batch either way keeps the running sizes right.
pub proof fn law_closing_keeps_wf(c: CollectorView, was_read_only: bool)
    requires
        c.wf(),
    ensures
        c.commit_batch().wf(),
        c.rollback_batch(was_read_only).wf(),
{
    if c.enabled && c.batches.len() > 0 {
        let outer = CollectorView { batches: c.batches.drop_last(), ..c };
        assert(outer.wf());
        lemma_merged_wf(outer.current(), c.batches.last());
        lemma_with_current_wf(outer, outer.current().merged(c.batches.last()));
    }
}

/// Recording keeps the running sizes right.
pub proof fn law_push_event_keeps_wf(c: CollectorView, event: EventView)
    requires
        c.wf(),
    ensures
        c.push_event(event).wf(),
{
    let batch = c.current();
    assert(batch.wf());
    lemma_recorded_wf(batch, event);
    lemma_recorded_wf(batch, EventView::Truncated(1));
    if batch.is_truncated() {
        lemma_dropped_one_wf(batch);
        lemma_with_current_wf(c, batch.dropped_one());
    }
}

/// Beginning a call keeps the frames well-formed.
pub proof fn law_will_begin_call_keeps_wf(c: CollectorView, call: CallHook, args: CallArguments)
    requires
        c.wf(),
    ensures
        c.will_begin_call(call, args).wf(),
{
}

/// Learning an argument, by its index or by its id, keeps the frames well-formed.
pub proof fn law_arguments_keep_wf(c: CollectorView, arg_index: int, id: u64, value: ValueView)
    requires
        c.wf(),
    ensures
        c.did_evaluate_call_argument(arg_index, value).wf(),
        c.did_finish_eval(id, value).wf(),
{
}

/// Finishing a call keeps the running sizes right and the frames well-formed.
pub proof fn law_did_finish_call_keeps_wf(
    c: CollectorView,
    contract: ContractView,
    call: CallHook,
    result: Option<ValueView>,
)
    requires
        c.wf(),
    ensures
        c.did_finish_call(contract, call, result).wf(),
{
    if c.pending.len() > 0 {
        let rest = CollectorView { pending: c.pending.drop_last(), ..c };
        assert(rest.wf());
        if let Some(value) = result {
            if let Some(event) = c.pending.last().event(contract, value) {
                law_push_event_keeps_wf(rest, event);
            }
        }
    }
}

/// Recording a nested call keeps the running sizes right.
pub proof fn law_record_nested_call_keeps_wf(
    c: CollectorView,
    contract: ContractView,
    sender: Option<PrincipalView>,
    caller: ContractView,
    function_name: Seq<char>,
    args: Seq<ValueView>,
    result: ValueView,
)
    requires
        c.wf(),
    ensures
        c.record_nested_call(contract, sender, caller, function_name, args, result).wf(),
{
    let after = c.record_nested_call(contract, sender, caller, function_name, args, result);
    if after != c {
        let event = EventView::ContractCall(
            ContractCallView {
                contract,
                sender,
                caller: PrincipalView::Contract(caller),
                function_name,
                raw_args: raw_texts(args),
                raw_result: raw_text(result),
            },
        );
        law_push_event_keeps_wf(c, event);
    }
}

} // verus!
