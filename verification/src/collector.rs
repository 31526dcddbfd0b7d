//! The collector of storage writes and nested contract calls.

use vstd::prelude::*;
#[allow(unused_imports)]
use vstd::string::*;
use crate::events::{
    ContractCallEventData, MapDeleteEventData, MapWriteEventData, StorageEvent, VarSetEventData,
    VmTraceEvent,
};
#[allow(unused_imports)]
use crate::events::{arg_views, sender_view, EventView};
use crate::hooks::{
    atom_at, CallArguments, CallHook, InvocationContext, SymbolicExpression, VmExecutionError,
};
#[allow(unused_imports)]
use crate::hooks::atom_values;
#[allow(unused_imports)]
use crate::laws::accounting::{
    law_arguments_keep_wf, law_closing_keeps_wf, law_did_finish_call_keeps_wf,
    law_push_event_keeps_wf, law_record_nested_call_keeps_wf, law_settings_and_begin_keep_wf,
    law_will_begin_call_keeps_wf,
};
use crate::model::PendingKind;
#[allow(unused_imports)]
use crate::model::{
    batches_bytes, first_at, BatchView, CollectorView, FrameView,
};
use crate::principal::{PrincipalData, QualifiedContractIdentifier};
#[allow(unused_imports)]
use crate::size::saturated;
use crate::text::same_text;
use crate::value::Value;
#[allow(unused_imports)]
use crate::value::ValueView;

verus! {

/// A storage builtin that has begun and not finished.
struct PendingStorageCall {
    kind: PendingKind,
    name: String,
    arg_ids: Vec<u64>,
    values: Vec<Option<Value>>,
}

/// One rollback frame of traces, with a running size used by the per-transaction cap.
struct TraceBatch {
    events: Vec<VmTraceEvent>,
    approx_bytes: usize,
}

/// Batch-stacked collector of writes and nested calls.
pub struct StorageTraceCollector {
    enabled: bool,
    /// Per-transaction cap on live traces. `0` means unlimited.
    max_bytes: usize,
    batches: Vec<TraceBatch>,
    committed: TraceBatch,
    pending: Vec<PendingStorageCall>,
}

/// The models of some traces.
pub open spec fn event_views(events: Seq<VmTraceEvent>) -> Seq<EventView> {
    Seq::new(events.len(), |i: int| events[i]@)
}

/// The result of a call; `None` if it failed.
pub open spec fn result_view(res: Result<Value, VmExecutionError>) -> Option<ValueView> {
    match res {
        Ok(value) => Some(value@),
        Err(_) => None,
    }
}

/// The model of an argument slot.
spec fn slot_view(slot: Option<Value>) -> Option<ValueView> {
    match slot {
        Some(value) => Some(value@),
        None => None,
    }
}

impl PendingStorageCall {
    spec fn view(&self) -> FrameView {
        FrameView {
            kind: self.kind,
            name: self.name@,
            arg_ids: self.arg_ids@,
            values: Seq::new(self.values@.len(), |i: int| slot_view(self.values@[i])),
        }
    }
}

impl TraceBatch {
    spec fn view(&self) -> BatchView {
        BatchView { events: event_views(self.events@), approx_bytes: self.approx_bytes }
    }
}

spec fn batch_views(batches: Seq<TraceBatch>) -> Seq<BatchView> {
    Seq::new(batches.len(), |i: int| batches[i]@)
}

spec fn frame_views(frames: Seq<PendingStorageCall>) -> Seq<FrameView> {
    Seq::new(frames.len(), |i: int| frames[i]@)
}

impl View for StorageTraceCollector {
    type V = CollectorView;

    closed spec fn view(&self) -> CollectorView {
        CollectorView {
            enabled: self.enabled,
            max_bytes: self.max_bytes,
            batches: batch_views(self.batches@),
            committed: self.committed@,
            pending: frame_views(self.pending@),
        }
    }
}

impl TraceBatch {
    /// A batch without traces.
    fn empty() -> (batch: Self)
        ensures
            batch@ == BatchView::empty(),
    {
        let batch = TraceBatch { events: Vec::new(), approx_bytes: 0 };
        assert(batch@ =~= BatchView::empty());
        batch
    }

    /// Puts the traces of `later` behind those of the batch.
    fn merge(&mut self, later: TraceBatch)
        ensures
            final(self)@ == old(self)@.merged(later@),
    {
        let ghost appended = later@;
        let mut later: TraceBatch = later;
        self.approx_bytes = self.approx_bytes.saturating_add(later.approx_bytes);
        self.events.append(&mut later.events);
        assert(self@ =~= old(self)@.merged(appended));
    }

    /// Counts one more trace in the marker at the end.
    fn count_dropped(&mut self)
        requires
            old(self)@.is_truncated(),
        ensures
            final(self)@ == old(self)@.dropped_one(),
    {
        if let Some(VmTraceEvent::Truncated { dropped }) = self.events.last_mut() {
            *dropped = dropped.saturating_add(1);
        }
        assert(self@ =~= old(self)@.dropped_one());
    }

    /// Puts one trace behind the others.
    fn record(&mut self, event: VmTraceEvent)
        ensures
            final(self)@ == old(self)@.recorded(event@),
    {
        self.approx_bytes = self.approx_bytes.saturating_add(event.approx_size());
        self.events.push(event);
        assert(self@ =~= old(self)@.recorded(event@));
    }
}

impl PendingStorageCall {
    /// A frame whose arguments are all unknown.
    fn open(kind: PendingKind, args: CallArguments) -> (frame: Self)
        ensures
            frame@ == FrameView::opened(kind, args),
    {
        let name: String = match atom_at(args, 0) {
            Some(name) => name,
            None => String::new(),
        };
        let mut arg_ids: Vec<u64> = Vec::new();
        let n: usize = match args {
            CallArguments::Expressions(exprs) => {
                for i in 0..exprs.len()
                    invariant
                        arg_ids@.len() == i,
                        forall|j: int| 0 <= j < i ==> arg_ids@[j] == exprs@[j].id,
                {
                    arg_ids.push(exprs[i].id);
                }
                exprs.len()
            },
            CallArguments::Values(vals) => vals.len(),
        };
        let mut values: Vec<Option<Value>> = Vec::new();
        for i in 0..n
            invariant
                values@.len() == i,
                forall|j: int| 0 <= j < i ==> values@[j] is None,
        {
            values.push(None);
        }
        let frame = PendingStorageCall { kind, name, arg_ids, values };
        assert(frame@ =~= FrameView::opened(kind, args));
        frame
    }

    /// The argument at `index`, as far as it is known.
    fn value_at(&self, index: usize) -> (value: Option<&Value>)
        ensures
            match value {
                Some(v) => self@.value_at(index as int) == Some(v@),
                None => self@.value_at(index as int) is None,
            },
    {
        if index < self.values.len() {
            self.values[index].as_ref()
        } else {
            None
        }
    }

    /// Makes the argument at `index` known, if there is one.
    fn fill(&mut self, index: usize, value: &Value)
        ensures
            final(self)@ == old(self)@.with_value(index as int, value@),
    {
        if index < self.values.len() {
            self.values[index] = Some(value.clone());
        }
        assert(self@ =~= old(self)@.with_value(index as int, value@));
    }

    /// The first argument with an id.
    fn position(&self, id: u64) -> (index: Option<usize>)
        ensures
            match index {
                Some(i) => first_at(self@.arg_ids, id, i as int),
                None => forall|i: int| !first_at(self@.arg_ids, id, i),
            },
    {
        for i in 0..self.arg_ids.len()
            invariant
                forall|j: int| 0 <= j < i ==> self.arg_ids@[j] != id,
        {
            if self.arg_ids[i] == id {
                return Some(i);
            }
        }
        None
    }

    /// Makes the first argument with an id known, unless it is known already.
    fn fill_by_id(&mut self, id: u64, value: &Value)
        ensures
            final(self)@ == old(self)@.with_evaluated(id, value@),
    {
        if let Some(index) = self.position(id) {
            assert(forall|i: int| first_at(self@.arg_ids, id, i) ==> i == index);
            if self.value_at(index).is_none() {
                self.fill(index, value);
            }
        }
    }

    /// The trace of the finished call, if it changed storage.
    fn into_event(self, contract: QualifiedContractIdentifier, result: &Value) -> (event: Option<
        VmTraceEvent,
    >)
        ensures
            match event {
                Some(e) => self@.event(contract@, result@) == Some(e@),
                None => self@.event(contract@, result@) is None,
            },
    {
        match self.kind {
            PendingKind::VarSet => {
                let Some(value) = self.value_at(1) else {
                    return None;
                };
                match VarSetEventData::try_from_value(contract, self.name.clone(), value) {
                    Ok(data) => Some(VmTraceEvent::Storage(StorageEvent::VarSet(data))),
                    Err(_) => None,
                }
            },
            PendingKind::MapSet => {
                let Some(key) = self.value_at(1) else {
                    return None;
                };
                let Some(value) = self.value_at(2) else {
                    return None;
                };
                match MapWriteEventData::try_from_values(contract, self.name.clone(), key, value) {
                    Ok(data) => Some(VmTraceEvent::Storage(StorageEvent::MapSet(data))),
                    Err(_) => None,
                }
            },
            PendingKind::MapInsert => {
                if !is_true(result) {
                    return None;
                }
                let Some(key) = self.value_at(1) else {
                    return None;
                };
                let Some(value) = self.value_at(2) else {
                    return None;
                };
                match MapWriteEventData::try_from_values(contract, self.name.clone(), key, value) {
                    Ok(data) => Some(VmTraceEvent::Storage(StorageEvent::MapInsert(data))),
                    Err(_) => None,
                }
            },
            PendingKind::MapDelete => {
                if !is_true(result) {
                    return None;
                }
                let Some(key) = self.value_at(1) else {
                    return None;
                };
                match MapDeleteEventData::try_from_value(contract, self.name.clone(), key) {
                    Ok(data) => Some(VmTraceEvent::Storage(StorageEvent::MapDelete(data))),
                    Err(_) => None,
                }
            },
        }
    }
}

/// Whether a value is `true`.
fn is_true(value: &Value) -> (yes: bool)
    ensures
        yes == (value@ == ValueView::Bool(true)),
{
    match value {
        Value::Bool(b) => *b,
        _ => false,
    }
}

impl Default for StorageTraceCollector {
    fn default() -> (collector: Self)
        ensures
            collector@ == CollectorView::initial(),
            collector@.wf(),
    {
        let collector = StorageTraceCollector {
            enabled: false,
            max_bytes: 0,
            batches: Vec::new(),
            committed: TraceBatch::empty(),
            pending: Vec::new(),
        };
        assert(collector@ =~= CollectorView::initial());
        collector
    }
}

impl StorageTraceCollector {
    /// Enables or disables collection. Disabled is a no-op on every method, but for this
    /// switch and the cap.
    pub fn set_enabled(&mut self, on: bool)
        ensures
            final(self)@ == old(self)@.set_enabled(on),
            old(self)@.wf() ==> final(self)@.wf(),
    {
        proof {
            if self@.wf() {
                law_settings_and_begin_keep_wf(self@, on, 0);
            }
        }
        self.enabled = on;
    }

    /// Sets the per-transaction size cap in bytes. `0` (default) is unlimited, as a
    /// write log that can reconstruct the full state needs. A positive value drops
    /// traces past the cap.
    pub fn set_max_bytes(&mut self, max_bytes: usize)
        ensures
            final(self)@ == old(self)@.set_max_bytes(max_bytes),
            old(self)@.wf() ==> final(self)@.wf(),
    {
        proof {
            if self@.wf() {
                law_settings_and_begin_keep_wf(self@, true, max_bytes);
            }
        }
        self.max_bytes = max_bytes;
    }

    /// Whether collection is on.
    pub fn enabled(&self) -> (on: bool)
        ensures
            on == self@.enabled,
    {
        self.enabled
    }

    /// Opens a batch.
    pub fn begin_batch(&mut self)
        ensures
            final(self)@ == old(self)@.begin_batch(),
            old(self)@.wf() ==> final(self)@.wf(),
    {
        if self.enabled {
            self.batches.push(TraceBatch::empty());
        }
        assert(self@ =~= old(self)@.begin_batch());
    }

    /// Merges the current batch into its parent, or into the committed traces at the
    /// top.
    pub fn commit_batch(&mut self)
        ensures
            final(self)@ == old(self)@.commit_batch(),
            old(self)@.wf() ==> final(self)@.wf(),
    {
        proof {
            if self@.wf() {
                law_closing_keeps_wf(self@, false);
            }
        }
        if !self.enabled {
            return;
        }
        let Some(batch) = self.batches.pop() else {
            return;
        };
        self.current_mut().merge(batch);
        assert(self@ =~= old(self)@.commit_batch());
    }

    /// Drops the current batch, unless it was read-only: then its traces stand behind
    /// those of its parent or, at the top, behind the committed ones (nested read-only
    /// calls stay visible to the caller).
    pub fn rollback_batch(&mut self, was_read_only: bool)
        ensures
            final(self)@ == old(self)@.rollback_batch(was_read_only),
            old(self)@.wf() ==> final(self)@.wf(),
    {
        proof {
            if self@.wf() {
                law_closing_keeps_wf(self@, was_read_only);
            }
        }
        if !self.enabled {
            return;
        }
        let Some(batch) = self.batches.pop() else {
            return;
        };
        if was_read_only {
            self.current_mut().merge(batch);
        }
        assert(self@ =~= old(self)@.rollback_batch(was_read_only));
    }

    /// Takes the committed traces of the finished transaction. Open batches and begun
    /// calls are forgotten.
    pub fn take_committed(&mut self) -> (events: Vec<VmTraceEvent>)
        ensures
            old(self)@.enabled ==> event_views(events@) == old(self)@.committed.events,
            old(self)@.enabled ==> events@.len() == old(self)@.committed.events.len(),
            old(self)@.enabled ==> forall|i: int|
                0 <= i < events@.len() ==> (#[trigger] events@[i])@
                    == old(self)@.committed.events[i],
            !old(self)@.enabled ==> events@.len() == 0 && final(self)@ == old(self)@,
            final(self)@ == old(self)@.take_committed(),
            old(self)@.wf() ==> final(self)@.wf(),
    {
        if !self.enabled {
            return Vec::new();
        }
        self.pending.clear();
        self.batches.clear();
        let mut taken: TraceBatch = TraceBatch::empty();
        std::mem::swap(&mut self.committed, &mut taken);
        assert(self@ =~= old(self)@.take_committed());
        taken.events
    }

    /// The committed traces, left where they are.
    pub fn committed(&self) -> (events: &[VmTraceEvent])
        ensures
            event_views(events@) == self@.committed.events,
            events@.len() == self@.committed.events.len(),
            forall|i: int|
                0 <= i < events@.len() ==> (#[trigger] events@[i])@ == self@.committed.events[i],
    {
        self.committed.events.as_slice()
    }

    fn live_bytes(&self) -> (bytes: usize)
        ensures
            bytes == self@.live_bytes(),
    {
        let ghost views = batch_views(self.batches@);
        let mut open: usize = 0;
        for i in 0..self.batches.len()
            invariant
                views == batch_views(self.batches@),
                open == saturated(batches_bytes(views.take(i as int)) as int),
        {
            open = open.saturating_add(self.batches[i].approx_bytes);
            assert(views.take(i + 1).drop_last() =~= views.take(i as int));
        }
        assert(views.take(self.batches@.len() as int) =~= views);
        self.committed.approx_bytes.saturating_add(open)
    }

    fn current_mut(&mut self) -> (batch: &mut TraceBatch)
        ensures
            batch@ == old(self)@.current(),
            final(self)@ == old(self)@.with_current(final(batch)@),
            final(self).enabled == old(self).enabled,
            final(self).max_bytes == old(self).max_bytes,
    {
        match self.batches.last_mut() {
            Some(batch) => batch,
            None => &mut self.committed,
        }
    }

    fn current_is_truncated(&self) -> (truncated: bool)
        ensures
            truncated == self@.current().is_truncated(),
    {
        let events: &[VmTraceEvent] = match self.batches.last() {
            Some(batch) => batch.events.as_slice(),
            None => self.committed.events.as_slice(),
        };
        match events.last() {
            Some(VmTraceEvent::Truncated { .. }) => true,
            _ => false,
        }
    }

    /// Records an already-built event onto the current batch.
    ///
    /// If a per-transaction byte cap is set and this event would exceed it, a single
    /// [`VmTraceEvent::Truncated`] marker is appended instead and further events
    /// increment `dropped`. A truncated nested batch that rolls back drops the marker
    /// with the batch.
    pub fn push_event(&mut self, event: VmTraceEvent)
        ensures
            final(self)@ == old(self)@.push_event(event@),
            old(self)@.wf() ==> final(self)@.wf(),
    {
        proof {
            if self@.wf() {
                law_push_event_keeps_wf(self@, event@);
            }
        }
        if !self.enabled {
            return;
        }
        if self.current_is_truncated() {
            self.current_mut().count_dropped();
            return;
        }
        let size: usize = event.approx_size();
        let live: usize = self.live_bytes();
        if self.max_bytes > 0 && live.saturating_add(size) > self.max_bytes {
            self.current_mut().record(VmTraceEvent::Truncated { dropped: 1 });
            return;
        }
        self.current_mut().record(event);
    }

    /// Opens a storage builtin call that might be traced.
    pub fn will_begin_call(&mut self, call: &CallHook, args: CallArguments)
        ensures
            final(self)@ == old(self)@.will_begin_call(*call, args),
            old(self)@.wf() ==> final(self)@.wf(),
    {
        proof {
            if self@.wf() {
                law_will_begin_call_keeps_wf(self@, *call, args);
            }
        }
        if !self.enabled {
            return;
        }
        let Some(kind) = call_kind(call) else {
            return;
        };
        let frame: PendingStorageCall = PendingStorageCall::open(kind, args);
        self.pending.push(frame);
        assert(self@ =~= old(self)@.will_begin_call(*call, args));
    }

    /// Fills an evaluated argument by index.
    pub fn did_evaluate_call_argument(&mut self, arg_index: usize, value: &Value)
        ensures
            final(self)@ == old(self)@.did_evaluate_call_argument(arg_index as int, value@),
            old(self)@.wf() ==> final(self)@.wf(),
    {
        proof {
            if self@.wf() {
                law_arguments_keep_wf(self@, arg_index as int, 0, value@);
            }
        }
        if !self.enabled {
            return;
        }
        if let Some(frame) = self.pending.last_mut() {
            frame.fill(arg_index, value);
        }
        assert(self@ =~= old(self)@.did_evaluate_call_argument(arg_index as int, value@));
    }

    /// Fills a special-form argument by expression id.
    pub fn did_finish_eval(&mut self, expr: &SymbolicExpression, value: &Value)
        ensures
            final(self)@ == old(self)@.did_finish_eval(expr.id, value@),
            old(self)@.wf() ==> final(self)@.wf(),
    {
        proof {
            if self@.wf() {
                law_arguments_keep_wf(self@, 0, expr.id, value@);
            }
        }
        if !self.enabled {
            return;
        }
        if let Some(frame) = self.pending.last_mut() {
            frame.fill_by_id(expr.id, value);
        }
        assert(self@ =~= old(self)@.did_finish_eval(expr.id, value@));
    }

    /// Emits a storage event if this pending call was a matching builtin that actually
    /// changed storage.
    pub fn did_finish_call(
        &mut self,
        invoke_ctx: &InvocationContext,
        call: &CallHook,
        res: &Result<Value, VmExecutionError>,
    )
        ensures
            final(self)@ == old(self)@.did_finish_call(
                invoke_ctx.contract_context.contract_identifier@,
                *call,
                result_view(*res),
            ),
            old(self)@.wf() ==> final(self)@.wf(),
    {
        proof {
            if self@.wf() {
                law_did_finish_call_keeps_wf(
                    self@,
                    invoke_ctx.contract_context.contract_identifier@,
                    *call,
                    result_view(*res),
                );
            }
        }
        if !self.enabled {
            return;
        }
        if call_kind(call).is_none() {
            return;
        }
        let Some(frame) = self.pending.pop() else {
            return;
        };
        proof {
            let rest = CollectorView { pending: old(self)@.pending.drop_last(), ..old(self)@ };
            assert(self@ =~= rest);
            assert(frame@ == old(self)@.pending.last());
        }
        let Ok(result) = res else {
            return;
        };
        let contract: QualifiedContractIdentifier =
            invoke_ctx.contract_context.contract_identifier.clone();
        if let Some(event) = frame.into_event(contract, result) {
            self.push_event(event);
        }
    }

    /// Records a nested `contract-call?` after the callee returned. Arguments are
    /// already evaluated (atom-value expressions).
    pub fn record_nested_call(
        &mut self,
        invoke_ctx: &InvocationContext,
        contract_identifier: QualifiedContractIdentifier,
        function_name: String,
        function_args: &[SymbolicExpression],
        result: &Value,
    )
        ensures
            final(self)@ == old(self)@.record_nested_call(
                contract_identifier@,
                sender_view(invoke_ctx.sender),
                invoke_ctx.contract_context.contract_identifier@,
                function_name@,
                atom_values(function_args@),
                result@,
            ),
            old(self)@.wf() ==> final(self)@.wf(),
    {
        proof {
            if self@.wf() {
                law_record_nested_call_keeps_wf(
                    self@,
                    contract_identifier@,
                    sender_view(invoke_ctx.sender),
                    invoke_ctx.contract_context.contract_identifier@,
                    function_name@,
                    atom_values(function_args@),
                    result@,
                );
            }
        }
        if !self.enabled {
            return;
        }
        let mut args: Vec<&Value> = Vec::new();
        assert(arg_views(args@) =~= atom_values(function_args@.take(0)));
        for i in 0..function_args.len()
            invariant
                arg_views(args@) == atom_values(function_args@.take(i as int)),
        {
            let ghost before = args@;
            assert(function_args@.take(i + 1).drop_last() =~= function_args@.take(i as int));
            if let Some(value) = function_args[i].match_atom_value() {
                args.push(value);
                assert(arg_views(args@) =~= arg_views(before).push(value@));
            }
        }
        assert(function_args@.take(function_args@.len() as int) =~= function_args@);
        let sender: Option<PrincipalData> = match &invoke_ctx.sender {
            Some(principal) => Some(principal.clone()),
            None => None,
        };
        let caller: PrincipalData = PrincipalData::from(
            invoke_ctx.contract_context.contract_identifier.clone(),
        );
        if let Ok(data) = ContractCallEventData::try_from_values(
            contract_identifier,
            sender,
            caller,
            function_name,
            args.as_slice(),
            result,
        ) {
            self.push_event(VmTraceEvent::ContractCall(data));
        }
    }
}

/// Which storage builtin is called, if one is.
fn call_kind(call: &CallHook) -> (kind: Option<PendingKind>)
    ensures
        kind == call.kind(),
{
    let CallHook::Builtin { clarity_name } = call else {
        return None;
    };
    if same_text(clarity_name, "var-set") {
        Some(PendingKind::VarSet)
    } else if same_text(clarity_name, "map-set") {
        Some(PendingKind::MapSet)
    } else if same_text(clarity_name, "map-insert") {
        Some(PendingKind::MapInsert)
    } else if same_text(clarity_name, "map-delete") {
        Some(PendingKind::MapDelete)
    } else {
        None
    }
}

} // verus!
