//! Runs: what holds after any sequence of operations.

use vstd::prelude::*;
#[allow(unused_imports)]
use crate::consensus::encodable;
#[allow(unused_imports)]
use crate::events::{all_encodable, raw_text, raw_texts, ContractCallView, EventView};
#[allow(unused_imports)]
use crate::hooks::{CallArguments, CallHook};
#[allow(unused_imports)]
use crate::laws::accounting::{
    law_arguments_keep_wf, law_closing_keeps_wf, law_did_finish_call_keeps_wf,
    law_push_event_keeps_wf, law_record_nested_call_keeps_wf, law_settings_and_begin_keep_wf,
    law_will_begin_call_keeps_wf,
};
#[allow(unused_imports)]
use crate::laws::cap::{law_batches_respect_cap, law_push_event_respects_cap, live_payload};
#[allow(unused_imports)]
use crate::model::{CollectorView, FrameView};
#[allow(unused_imports)]
use crate::principal::{ContractView, PrincipalView};
#[allow(unused_imports)]
use crate::value::ValueView;

verus! {

/// An operation on the collector.
pub enum Step<'a> {
    SetEnabled(bool),
    SetMaxBytes(usize),
    TakeCommitted,
    Begin,
    Commit,
    Rollback(bool),
    Push(EventView),
    WillBeginCall(CallHook<'a>, CallArguments<'a>),
    DidEvaluateCallArgument(int, ValueView),
    DidFinishEval(u64, ValueView),
    DidFinishCall(ContractView, CallHook<'a>, Option<ValueView>),
    NestedCall(
        ContractView,
        Option<PrincipalView>,
        ContractView,
        Seq<char>,
        Seq<ValueView>,
        ValueView,
    ),
}

impl<'a> Step<'a> {
    pub open spec fn apply(self, c: CollectorView) -> CollectorView {
        match self {
            Step::SetEnabled(on) => c.set_enabled(on),
            Step::SetMaxBytes(max_bytes) => c.set_max_bytes(max_bytes),
            Step::TakeCommitted => c.take_committed(),
            Step::Begin => c.begin_batch(),
            Step::Commit => c.commit_batch(),
            Step::Rollback(was_read_only) => c.rollback_batch(was_read_only),
            Step::Push(event) => c.push_event(event),
            Step::WillBeginCall(call, args) => c.will_begin_call(call, args),
            Step::DidEvaluateCallArgument(index, value) => c.did_evaluate_call_argument(
                index,
                value,
            ),
            Step::DidFinishEval(id, value) => c.did_finish_eval(id, value),
            Step::DidFinishCall(contract, call, result) => c.did_finish_call(
                contract,
                call,
                result,
            ),
            Step::NestedCall(contract, sender, caller, function_name, args, result) =>
            c.record_nested_call(contract, sender, caller, function_name, args, result),
        }
    }

    /// Whether the step is one of those that happen within a transaction: it neither
    /// switches collection nor takes the committed traces.
    pub open spec fn is_inner(self) -> bool {
        !(self is SetEnabled) && !(self is TakeCommitted)
    }

    /// Whether the step can record a trace.
    pub open spec fn records(self) -> bool {
        self is Push || self is DidFinishCall || self is NestedCall
    }

    /// The trace that the step records while collection is enabled, if any.
    pub open spec fn event(self, pending: Seq<FrameView>) -> Option<EventView> {
        match self {
            Step::Push(event) => Some(event),
            Step::DidFinishCall(contract, call, Some(value)) if call.kind() is Some
                && pending.len() > 0 => pending.last().event(contract, value),
            Step::NestedCall(contract, sender, caller, function_name, args, result) if
            all_encodable(args) && encodable(result) => Some(
                EventView::ContractCall(
                    ContractCallView {
                        contract,
                        sender,
                        caller: PrincipalView::Contract(caller),
                        function_name,
                        raw_args: raw_texts(args),
                        raw_result: raw_text(result),
                    },
                ),
            ),
            _ => None,
        }
    }

    /// How many more batches are open afterwards.
    pub open spec fn batch_change(self) -> int {
        match self {
            Step::Begin => 1,
            Step::Commit => -1,
            Step::Rollback(_) => -1,
            _ => 0,
        }
    }

    /// How many more calls are begun afterwards.
    pub open spec fn call_change(self) -> int {
        match self {
            Step::WillBeginCall(call, _) if call.kind() is Some => 1,
            Step::DidFinishCall(_, call, _) if call.kind() is Some => -1,
            _ => 0,
        }
    }
}

/// The collector after some steps.
pub open spec fn run(c: CollectorView, steps: Seq<Step>) -> CollectorView
    decreases steps.len(),
{
    if steps.len() == 0 {
        c
    } else {
        steps.last().apply(run(c, steps.drop_last()))
    }
}

/// How many more batches are open after some steps.
pub open spec fn batch_depth(steps: Seq<Step>) -> int
    decreases steps.len(),
{
    if steps.len() == 0 {
        0
    } else {
        batch_depth(steps.drop_last()) + steps.last().batch_change()
    }
}

/// How many more calls are begun after some steps.
pub open spec fn call_depth(steps: Seq<Step>) -> int
    decreases steps.len(),
{
    if steps.len() == 0 {
        0
    } else {
        call_depth(steps.drop_last()) + steps.last().call_change()
    }
}

/// The steps happen within a transaction.
pub open spec fn all_inner(steps: Seq<Step>) -> bool {
    forall|i: int| 0 <= i < steps.len() ==> (#[trigger] steps[i]).is_inner()
}

/// The steps happen within a transaction, and close the batches that they open, and no
/// others.
pub open spec fn batches_nested(steps: Seq<Step>) -> bool {
    &&& all_inner(steps)
    &&& batch_depth(steps) == 0
    &&& forall|k: int| 0 <= k <= steps.len() ==> batch_depth(#[trigger] steps.take(k)) >= 0
}

/// The steps happen within a transaction, and finish the calls that they begin, and no
/// others.
pub open spec fn calls_nested(steps: Seq<Step>) -> bool {
    &&& all_inner(steps)
    &&& call_depth(steps) == 0
    &&& forall|k: int| 0 <= k <= steps.len() ==> call_depth(#[trigger] steps.take(k)) >= 0
}

/// Running some steps and then others is running all of them.
pub proof fn lemma_run_concat(c: CollectorView, a: Seq<Step>, b: Seq<Step>)
    ensures
        run(c, a + b) == run(run(c, a), b),
    decreases b.len(),
{
    if b.len() == 0 {
        assert(a + b =~= a);
    } else {
        lemma_run_concat(c, a, b.drop_last());
        assert((a + b).drop_last() =~= a + b.drop_last());
    }
}

/// Until collection is enabled, no step does anything, but that the cap can be set.
pub proof fn law_disabled_does_nothing(c: CollectorView, steps: Seq<Step>)
    requires
        !c.enabled,
        forall|i: int| 0 <= i < steps.len() ==> #[trigger] steps[i] != Step::SetEnabled(true),
    ensures
        run(c, steps) == c.set_max_bytes(run(c, steps).max_bytes),
        (forall|i: int| 0 <= i < steps.len() ==> !(#[trigger] steps[i] is SetMaxBytes)) ==> run(
            c,
            steps,
        ) == c,
    decreases steps.len(),
{
    if steps.len() > 0 {
        law_disabled_does_nothing(c, steps.drop_last());
        assert(steps.last() == steps[steps.len() - 1]);
        assert(forall|i: int|
            0 <= i < steps.drop_last().len() ==> #[trigger] steps.drop_last()[i] == steps[i]);
    }
}

/// A collector that was never enabled stays empty, whatever it is told.
pub proof fn law_never_enabled_stays_empty(steps: Seq<Step>)
    requires
        forall|i: int| 0 <= i < steps.len() ==> #[trigger] steps[i] != Step::SetEnabled(true),
    ensures
        run(CollectorView::initial(), steps) == CollectorView::initial().set_max_bytes(
            run(CollectorView::initial(), steps).max_bytes,
        ),
{
    law_disabled_does_nothing(CollectorView::initial(), steps);
}

/// After any steps the running sizes are right, if they were right before.
pub proof fn law_run_keeps_wf(c: CollectorView, steps: Seq<Step>)
    requires
        c.wf(),
    ensures
        run(c, steps).wf(),
    decreases steps.len(),
{
    if steps.len() > 0 {
        let before = run(c, steps.drop_last());
        law_run_keeps_wf(c, steps.drop_last());
        match steps.last() {
            Step::SetEnabled(on) => law_settings_and_begin_keep_wf(before, on, 0),
            Step::SetMaxBytes(max_bytes) => law_settings_and_begin_keep_wf(
                before,
                true,
                max_bytes,
            ),
            Step::TakeCommitted => law_settings_and_begin_keep_wf(before, true, 0),
            Step::Begin => law_settings_and_begin_keep_wf(before, true, 0),
            Step::Commit => law_closing_keeps_wf(before, false),
            Step::Rollback(was_read_only) => law_closing_keeps_wf(before, was_read_only),
            Step::Push(event) => law_push_event_keeps_wf(before, event),
            Step::WillBeginCall(call, args) => law_will_begin_call_keeps_wf(before, call, args),
            Step::DidEvaluateCallArgument(index, value) => law_arguments_keep_wf(
                before,
                index,
                0,
                value,
            ),
            Step::DidFinishEval(id, value) => law_arguments_keep_wf(before, 0, id, value),
            Step::DidFinishCall(contract, call, result) => law_did_finish_call_keeps_wf(
                before,
                contract,
                call,
                result,
            ),
            Step::NestedCall(contract, sender, caller, function_name, args, result) =>
            law_record_nested_call_keeps_wf(
                before,
                contract,
                sender,
                caller,
                function_name,
                args,
                result,
            ),
        }
    }
}

/// Recording one trace, or none.
pub open spec fn push_option(c: CollectorView, event: Option<EventView>) -> CollectorView {
    match event {
        Some(e) => c.push_event(e),
        None => c,
    }
}

/// What an inner step that opens or closes no batch does: it records its trace, and
/// changes the begun calls and the cap.
pub proof fn lemma_step_records_its_event(c: CollectorView, step: Step)
    requires
        c.enabled,
        step.is_inner(),
        step.batch_change() == 0,
    ensures
        step.apply(c) == push_option(
            CollectorView {
                pending: step.apply(c).pending,
                max_bytes: step.apply(c).max_bytes,
                ..c
            },
            step.event(c.pending),
        ),
        !(step is SetMaxBytes) ==> step.apply(c).max_bytes == c.max_bytes,
        !step.records() ==> step.event(c.pending) is None,
{
    assert(step.apply(c) =~= push_option(
        CollectorView {
            pending: step.apply(c).pending,
            max_bytes: step.apply(c).max_bytes,
            ..c
        },
        step.event(c.pending),
    ));
}

/// Under a cap, no steps bring the live traces, without the markers, past it. The cap may
/// be set in between, as long as each step that can record finds one, and none above the
/// limit.
pub proof fn law_run_respects_cap(c: CollectorView, steps: Seq<Step>, limit: usize)
    requires
        c.wf(),
        limit < usize::MAX,
        live_payload(c) <= limit,
        forall|k: int|
            #![trigger steps[k]]
            0 <= k < steps.len() && steps[k].records() ==> 0 < run(c, steps.take(k)).max_bytes
                <= limit,
    ensures
        live_payload(run(c, steps)) <= limit,
    decreases steps.len(),
{
    if steps.len() > 0 {
        let shorter = steps.drop_last();
        let step = steps.last();
        let before = run(c, shorter);
        assert forall|k: int|
            #![trigger shorter[k]]
            0 <= k < shorter.len() && shorter[k].records() implies 0 < run(
            c,
            shorter.take(k),
        ).max_bytes <= limit by {
            assert(shorter[k] == steps[k]);
            assert(shorter.take(k) =~= steps.take(k));
        }
        law_run_respects_cap(c, shorter, limit);
        law_run_keeps_wf(c, shorter);
        law_run_keeps_wf(c, steps);
        assert(steps.take(steps.len() - 1) =~= shorter);
        assert(step == steps[steps.len() - 1]);
        match step {
            Step::SetEnabled(_) => {},
            Step::TakeCommitted => law_batches_respect_cap(before, false),
            Step::Begin => law_batches_respect_cap(before, false),
            Step::Commit => law_batches_respect_cap(before, false),
            Step::Rollback(was_read_only) => law_batches_respect_cap(before, was_read_only),
            _ => {
                if before.enabled {
                    lemma_step_records_its_event(before, step);
                    let told = CollectorView {
                        pending: run(c, steps).pending,
                        max_bytes: run(c, steps).max_bytes,
                        ..before
                    };
                    if let Some(event) = step.event(before.pending) {
                        assert(told.wf());
                        law_push_event_respects_cap(told, event, limit);
                    }
                }
            },
        }
    }
}

} // verus!
