//! The collector as a mathematical object: its state, and what each operation
//! makes of it.

use vstd::prelude::*;
#[allow(unused_imports)]
use vstd::string::*;
#[allow(unused_imports)]
use crate::consensus::encodable;
#[allow(unused_imports)]
use crate::events::{
    all_encodable, raw_text, raw_texts, ContractCallView, EventView, MapDeleteView,
    MapWriteView, StorageView, VarSetView,
};
#[allow(unused_imports)]
use crate::hooks::{CallArguments, CallHook};
#[allow(unused_imports)]
use crate::principal::{ContractView, PrincipalView};
#[allow(unused_imports)]
use crate::size::saturated;
#[allow(unused_imports)]
use crate::value::ValueView;

verus! {

/// The builtins that change storage.
#[derive(Debug, Clone, Copy, PartialEq, Eq, Structural)]
pub enum PendingKind {
    VarSet,
    MapSet,
    MapInsert,
    MapDelete,
}

/// Which storage builtin a name is, if it is one.
pub open spec fn storage_kind(name: Seq<char>) -> Option<PendingKind> {
    if name == "var-set"@ {
        Some(PendingKind::VarSet)
    } else if name == "map-set"@ {
        Some(PendingKind::MapSet)
    } else if name == "map-insert"@ {
        Some(PendingKind::MapInsert)
    } else if name == "map-delete"@ {
        Some(PendingKind::MapDelete)
    } else {
        None
    }
}

impl<'a> CallHook<'a> {
    /// Which storage builtin is called, if one is.
    pub open spec fn kind(self) -> Option<PendingKind> {
        match self {
            CallHook::Builtin { clarity_name } => storage_kind(clarity_name@),
            CallHook::UserFunction { .. } => None,
        }
    }
}

/// A storage builtin that has begun and not finished.
#[verifier::ext_equal]
pub struct FrameView {
    pub kind: PendingKind,
    /// The variable or map.
    pub name: Seq<char>,
    /// The ids of the argument expressions; empty if the arguments came evaluated.
    pub arg_ids: Seq<u64>,
    /// The arguments, as far as they are known.
    pub values: Seq<Option<ValueView>>,
}

/// Whether `i` is the first place where `id` stands in `ids`.
pub open spec fn first_at(ids: Seq<u64>, id: u64, i: int) -> bool {
    &&& 0 <= i < ids.len()
    &&& ids[i] == id
    &&& forall|j: int| 0 <= j < i ==> ids[j] != id
}

impl FrameView {
    /// A frame whose arguments are all unknown.
    pub open spec fn opened(kind: PendingKind, args: CallArguments) -> Self {
        FrameView {
            kind,
            name: match args.atom_at(0) {
                Some(name) => name,
                None => Seq::empty(),
            },
            arg_ids: args.ids(),
            values: Seq::new(args.count(), |i: int| None),
        }
    }

    /// The argument at `index`, as far as it is known.
    pub open spec fn value_at(self, index: int) -> Option<ValueView> {
        if 0 <= index < self.values.len() {
            self.values[index]
        } else {
            None
        }
    }

    /// The frame with the argument at `index` known; itself if it has no such
    /// argument.
    pub open spec fn with_value(self, index: int, value: ValueView) -> Self {
        if 0 <= index < self.values.len() {
            FrameView { values: self.values.update(index, Some(value)), ..self }
        } else {
            self
        }
    }

    /// The frame after the expression `id` came out as `value`: the first argument
    /// with that id gets the value, unless it is known already.
    pub open spec fn with_evaluated(self, id: u64, value: ValueView) -> Self {
        if exists|i: int| first_at(self.arg_ids, id, i) {
            let index = choose|i: int| first_at(self.arg_ids, id, i);
            if self.value_at(index) is None {
                self.with_value(index, value)
            } else {
                self
            }
        } else {
            self
        }
    }

    /// The trace of the finished call, if it changed storage, what it wrote is known
    /// and can be encoded. Inserting and deleting tell by their result whether they
    /// changed anything.
    pub open spec fn event(self, contract: ContractView, result: ValueView) -> Option<EventView> {
        match self.kind {
            PendingKind::VarSet => match self.value_at(1) {
                Some(value) if encodable(value) => Some(
                    EventView::Storage(
                        StorageView::VarSet(
                            VarSetView {
                                contract,
                                var_name: self.name,
                                raw_value: raw_text(value),
                            },
                        ),
                    ),
                ),
                _ => None,
            },
            PendingKind::MapSet => match self.map_write(contract) {
                Some(data) => Some(EventView::Storage(StorageView::MapSet(data))),
                None => None,
            },
            PendingKind::MapInsert => match self.map_write(contract) {
                Some(data) if result == ValueView::Bool(true) => Some(
                    EventView::Storage(StorageView::MapInsert(data)),
                ),
                _ => None,
            },
            PendingKind::MapDelete => match self.value_at(1) {
                Some(key) if result == ValueView::Bool(true) && encodable(key) => Some(
                    EventView::Storage(
                        StorageView::MapDelete(
                            MapDeleteView {
                                contract,
                                map_name: self.name,
                                raw_key: raw_text(key),
                            },
                        ),
                    ),
                ),
                _ => None,
            },
        }
    }

    /// What a write to a map says, if the key and the value are known and can be
    /// encoded.
    pub open spec fn map_write(self, contract: ContractView) -> Option<MapWriteView> {
        match (self.value_at(1), self.value_at(2)) {
            (Some(key), Some(value)) if encodable(key) && encodable(value) => Some(
                MapWriteView {
                    contract,
                    map_name: self.name,
                    raw_key: raw_text(key),
                    raw_value: raw_text(value),
                },
            ),
            _ => None,
        }
    }

    /// Every argument has an id, or none has.
    pub open spec fn wf(self) -> bool {
        self.arg_ids.len() == 0 || self.arg_ids.len() == self.values.len()
    }
}

/// The sizes of some traces together.
pub open spec fn events_size(events: Seq<EventView>) -> nat
    decreases events.len(),
{
    if events.len() == 0 {
        0
    } else {
        events_size(events.drop_last()) + events.last().size()
    }
}

/// One rollback frame of traces, with its running size.
#[verifier::ext_equal]
pub struct BatchView {
    pub events: Seq<EventView>,
    pub approx_bytes: usize,
}

impl BatchView {
    pub open spec fn empty() -> Self {
        BatchView { events: Seq::empty(), approx_bytes: 0 }
    }

    /// The traces of the batch, and those of a later one behind them.
    pub open spec fn merged(self, later: BatchView) -> Self {
        BatchView {
            events: self.events + later.events,
            approx_bytes: self.approx_bytes.saturating_add(later.approx_bytes),
        }
    }

    /// The batch with one more trace.
    pub open spec fn recorded(self, event: EventView) -> Self {
        BatchView {
            events: self.events.push(event),
            approx_bytes: self.approx_bytes.saturating_add(event.approx_size() as usize),
        }
    }

    /// Whether the batch ends in a truncation marker.
    pub open spec fn is_truncated(self) -> bool {
        self.events.len() > 0 && self.events.last().is_marker()
    }

    /// The batch with one more trace counted by the marker at its end.
    pub open spec fn dropped_one(self) -> Self {
        BatchView {
            events: self.events.drop_last().push(
                EventView::Truncated(self.events.last()->Truncated_0.saturating_add(1)),
            ),
            ..self
        }
    }

    /// The running size is that of the traces, as far as a `usize` can tell it.
    pub open spec fn wf(self) -> bool {
        self.approx_bytes == saturated(events_size(self.events) as int)
    }
}

/// The running sizes of some batches together.
pub open spec fn batches_bytes(batches: Seq<BatchView>) -> nat
    decreases batches.len(),
{
    if batches.len() == 0 {
        0
    } else {
        batches_bytes(batches.drop_last()) + batches.last().approx_bytes as nat
    }
}

/// The state of the collector.
#[verifier::ext_equal]
pub struct CollectorView {
    pub enabled: bool,
    /// The cap on the live traces in bytes; 0 is none.
    pub max_bytes: usize,
    /// The open batches, the innermost last.
    pub batches: Seq<BatchView>,
    /// The traces outside all batches.
    pub committed: BatchView,
    /// The storage builtins that have begun and not finished, the innermost last.
    pub pending: Seq<FrameView>,
}

impl CollectorView {
    /// A collector that was never enabled.
    pub open spec fn initial() -> Self {
        CollectorView {
            enabled: false,
            max_bytes: 0,
            batches: Seq::empty(),
            committed: BatchView::empty(),
            pending: Seq::empty(),
        }
    }

    /// The batch that traces go to.
    pub open spec fn current(self) -> BatchView {
        if self.batches.len() > 0 {
            self.batches.last()
        } else {
            self.committed
        }
    }

    /// The collector with another current batch.
    pub open spec fn with_current(self, batch: BatchView) -> Self {
        if self.batches.len() > 0 {
            CollectorView { batches: self.batches.drop_last().push(batch), ..self }
        } else {
            CollectorView { committed: batch, ..self }
        }
    }

    /// The bytes of all live traces, which the cap is held against.
    pub open spec fn live_bytes(self) -> int {
        saturated((self.committed.approx_bytes + batches_bytes(self.batches)) as int)
    }

    /// Whether one more trace would go past the cap.
    pub open spec fn over_cap(self, event: EventView) -> bool {
        self.max_bytes > 0 && saturated(self.live_bytes() + event.approx_size()) > self.max_bytes
    }

    pub open spec fn set_enabled(self, on: bool) -> Self {
        CollectorView { enabled: on, ..self }
    }

    pub open spec fn set_max_bytes(self, max_bytes: usize) -> Self {
        CollectorView { max_bytes, ..self }
    }

    /// Opens an empty batch.
    pub open spec fn begin_batch(self) -> Self {
        if self.enabled {
            CollectorView { batches: self.batches.push(BatchView::empty()), ..self }
        } else {
            self
        }
    }

    /// Closes the current batch. Its traces stand behind those of the batch around it
    /// or, from the outermost batch, behind the committed ones.
    pub open spec fn commit_batch(self) -> Self {
        if self.enabled && self.batches.len() > 0 {
            let outer = CollectorView { batches: self.batches.drop_last(), ..self };
            outer.with_current(outer.current().merged(self.batches.last()))
        } else {
            self
        }
    }

    /// Closes the current batch. Its traces are gone, unless it was read-only: then
    /// they stand behind those around it.
    pub open spec fn rollback_batch(self, was_read_only: bool) -> Self {
        if self.enabled && self.batches.len() > 0 {
            let outer = CollectorView { batches: self.batches.drop_last(), ..self };
            if was_read_only {
                outer.with_current(outer.current().merged(self.batches.last()))
            } else {
                outer
            }
        } else {
            self
        }
    }

    /// Takes the committed traces: none are left, no batch is open and no call begun.
    pub open spec fn take_committed(self) -> Self {
        if self.enabled {
            CollectorView {
                batches: Seq::empty(),
                committed: BatchView::empty(),
                pending: Seq::empty(),
                ..self
            }
        } else {
            self
        }
    }

    /// Records a trace in the current batch; or counts it, if the batch ends in a
    /// marker; or puts a marker in its place, if it would go past the cap.
    pub open spec fn push_event(self, event: EventView) -> Self {
        if !self.enabled {
            self
        } else if self.current().is_truncated() {
            self.with_current(self.current().dropped_one())
        } else if self.over_cap(event) {
            self.with_current(self.current().recorded(EventView::Truncated(1)))
        } else {
            self.with_current(self.current().recorded(event))
        }
    }

    /// A storage builtin begins.
    pub open spec fn will_begin_call(self, call: CallHook, args: CallArguments) -> Self {
        match call.kind() {
            Some(kind) if self.enabled => CollectorView {
                pending: self.pending.push(FrameView::opened(kind, args)),
                ..self
            },
            _ => self,
        }
    }

    /// The collector with another innermost frame.
    pub open spec fn with_frame(self, frame: FrameView) -> Self {
        CollectorView { pending: self.pending.drop_last().push(frame), ..self }
    }

    /// The argument at an index came out as a value.
    pub open spec fn did_evaluate_call_argument(self, arg_index: int, value: ValueView) -> Self {
        if self.enabled && self.pending.len() > 0 {
            self.with_frame(self.pending.last().with_value(arg_index, value))
        } else {
            self
        }
    }

    /// An expression came out as a value.
    pub open spec fn did_finish_eval(self, id: u64, value: ValueView) -> Self {
        if self.enabled && self.pending.len() > 0 {
            self.with_frame(self.pending.last().with_evaluated(id, value))
        } else {
            self
        }
    }

    /// A call finished, with a result or (`None`) in failure. A storage builtin takes
    /// the innermost frame, and leaves the trace that the frame has for the result.
    pub open spec fn did_finish_call(
        self,
        contract: ContractView,
        call: CallHook,
        result: Option<ValueView>,
    ) -> Self {
        if self.enabled && call.kind() is Some && self.pending.len() > 0 {
            let rest = CollectorView { pending: self.pending.drop_last(), ..self };
            match result {
                Some(value) => match self.pending.last().event(contract, value) {
                    Some(event) => rest.push_event(event),
                    None => rest,
                },
                None => rest,
            }
        } else {
            self
        }
    }

    /// A call between contracts came back.
    pub open spec fn record_nested_call(
        self,
        contract: ContractView,
        sender: Option<PrincipalView>,
        caller: ContractView,
        function_name: Seq<char>,
        args: Seq<ValueView>,
        result: ValueView,
    ) -> Self {
        if all_encodable(args) && encodable(result) {
            self.push_event(
                EventView::ContractCall(
                    ContractCallView {
                        contract,
                        sender,
                        caller: PrincipalView::Contract(caller),
                        function_name,
                        raw_args: raw_texts(args),
                        raw_result: raw_text(result),
                    },
                ),
            )
        } else {
            self
        }
    }

    /// Every running size is right, and every frame well-formed.
    pub open spec fn wf(self) -> bool {
        &&& self.committed.wf()
        &&& forall|i: int| 0 <= i < self.batches.len() ==> (#[trigger] self.batches[i]).wf()
        &&& forall|i: int| 0 <= i < self.pending.len() ==> (#[trigger] self.pending[i]).wf()
    }
}

} // verus!
