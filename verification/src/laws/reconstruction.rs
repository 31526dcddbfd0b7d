//! A complete write log reconstructs the storage.

use vstd::prelude::*;
#[allow(unused_imports)]
use crate::consensus::encodable;
#[allow(unused_imports)]
use crate::events::{raw_text, EventView, StorageView};
#[allow(unused_imports)]
use crate::hooks::{CallArguments, CallHook};
#[allow(unused_imports)]
use crate::laws::cap::{extended, no_markers};
#[allow(unused_imports)]
use crate::laws::encoding::law_raw_text_tells_the_value;
#[allow(unused_imports)]
use crate::laws::runs::{push_option, Step};
#[allow(unused_imports)]
use crate::laws::transactions::{lemma_extended_twice, Ending};
#[allow(unused_imports)]
use crate::model::{
    events_size, first_at, BatchView, CollectorView, FrameView, PendingKind,
};
#[allow(unused_imports)]
use crate::principal::{ContractView, PrincipalView};
#[allow(unused_imports)]
use crate::value::ValueView;

verus! {

/// The variables and maps of all contracts.
pub struct Storage {
    pub vars: Map<(ContractView, Seq<char>), ValueView>,
    pub entries: Map<(ContractView, Seq<char>, ValueView), ValueView>,
}

/// The same, with texts in place of values.
pub struct RawStorage {
    pub vars: Map<(ContractView, Seq<char>), Seq<char>>,
    pub entries: Map<(ContractView, Seq<char>, Seq<char>), Seq<char>>,
}

/// A call of a storage builtin by a contract.
pub enum Write {
    VarSet(ContractView, Seq<char>, ValueView),
    MapSet(ContractView, Seq<char>, ValueView, ValueView),
    MapInsert(ContractView, Seq<char>, ValueView, ValueView),
    MapDelete(ContractView, Seq<char>, ValueView),
}

impl Write {
    pub open spec fn contract(self) -> ContractView {
        match self {
            Write::VarSet(contract, _, _) => contract,
            Write::MapSet(contract, _, _, _) => contract,
            Write::MapInsert(contract, _, _, _) => contract,
            Write::MapDelete(contract, _, _) => contract,
        }
    }

    /// Whether the values in it can be encoded.
    pub open spec fn fits(self) -> bool {
        match self {
            Write::VarSet(_, _, value) => encodable(value),
            Write::MapSet(_, _, key, value) => encodable(key) && encodable(value),
            Write::MapInsert(_, _, key, value) => encodable(key) && encodable(value),
            Write::MapDelete(_, _, key) => encodable(key),
        }
    }

    /// The storage after the call. An insertion leaves a key that is there alone.
    pub open spec fn apply(self, storage: Storage) -> Storage {
        match self {
            Write::VarSet(contract, name, value) => Storage {
                vars: storage.vars.insert((contract, name), value),
                ..storage
            },
            Write::MapSet(contract, name, key, value) => Storage {
                entries: storage.entries.insert((contract, name, key), value),
                ..storage
            },
            Write::MapInsert(contract, name, key, value) => if storage.entries.dom().contains(
                (contract, name, key),
            ) {
                storage
            } else {
                Storage { entries: storage.entries.insert((contract, name, key), value), ..storage }
            },
            Write::MapDelete(contract, name, key) => Storage {
                entries: storage.entries.remove((contract, name, key)),
                ..storage
            },
        }
    }

    /// What the call returns: insertions and deletions tell whether they changed
    /// anything.
    pub open spec fn result(self, storage: Storage) -> ValueView {
        match self {
            Write::VarSet(_, _, _) => ValueView::Bool(true),
            Write::MapSet(_, _, _, _) => ValueView::Bool(true),
            Write::MapInsert(contract, name, key, _) => ValueView::Bool(
                !storage.entries.dom().contains((contract, name, key)),
            ),
            Write::MapDelete(contract, name, key) => ValueView::Bool(
                storage.entries.dom().contains((contract, name, key)),
            ),
        }
    }

    /// The frame of the call once its arguments are known.
    pub open spec fn frame(self) -> FrameView {
        match self {
            Write::VarSet(_, name, value) => FrameView {
                kind: PendingKind::VarSet,
                name,
                arg_ids: Seq::empty(),
                values: seq![None, Some(value)],
            },
            Write::MapSet(_, name, key, value) => FrameView {
                kind: PendingKind::MapSet,
                name,
                arg_ids: Seq::empty(),
                values: seq![None, Some(key), Some(value)],
            },
            Write::MapInsert(_, name, key, value) => FrameView {
                kind: PendingKind::MapInsert,
                name,
                arg_ids: Seq::empty(),
                values: seq![None, Some(key), Some(value)],
            },
            Write::MapDelete(_, name, key) => FrameView {
                kind: PendingKind::MapDelete,
                name,
                arg_ids: Seq::empty(),
                values: seq![None, Some(key)],
            },
        }
    }

    /// The trace that the call leaves, if any.
    pub open spec fn trace(self, storage: Storage) -> Option<EventView> {
        self.frame().event(self.contract(), self.result(storage))
    }
}

impl RawStorage {
    /// The storage after what a trace tells.
    pub open spec fn told(self, event: EventView) -> Self {
        match event {
            EventView::Storage(StorageView::VarSet(data)) => RawStorage {
                vars: self.vars.insert((data.contract, data.var_name), data.raw_value),
                ..self
            },
            EventView::Storage(StorageView::MapSet(data)) => RawStorage {
                entries: self.entries.insert(
                    (data.contract, data.map_name, data.raw_key),
                    data.raw_value,
                ),
                ..self
            },
            EventView::Storage(StorageView::MapInsert(data)) => RawStorage {
                entries: self.entries.insert(
                    (data.contract, data.map_name, data.raw_key),
                    data.raw_value,
                ),
                ..self
            },
            EventView::Storage(StorageView::MapDelete(data)) => RawStorage {
                entries: self.entries.remove((data.contract, data.map_name, data.raw_key)),
                ..self
            },
            _ => self,
        }
    }

    /// The storage after what some traces tell, one after the other.
    pub open spec fn replayed(self, events: Seq<EventView>) -> Self
        decreases events.len(),
    {
        if events.len() == 0 {
            self
        } else {
            self.replayed(events.drop_last()).told(events.last())
        }
    }

    /// Whether each variable and each map entry of a storage stands here as the text of
    /// its value, and nothing else does.
    pub open spec fn represents(self, storage: Storage) -> bool {
        &&& forall|contract: ContractView, name: Seq<char>|
            #![trigger self.vars.dom().contains((contract, name))]
            #![trigger storage.vars.dom().contains((contract, name))]
            self.vars.dom().contains((contract, name)) <==> storage.vars.dom().contains(
                (contract, name),
            )
        &&& forall|contract: ContractView, name: Seq<char>|
            #[trigger] storage.vars.dom().contains((contract, name)) ==> self.vars[(
                contract,
                name,
            )] == raw_text(storage.vars[(contract, name)])
        &&& forall|contract: ContractView, name: Seq<char>, key: ValueView|
            #![trigger self.entries.dom().contains((contract, name, raw_text(key)))]
            #![trigger storage.entries.dom().contains((contract, name, key))]
            encodable(key) ==> (self.entries.dom().contains((contract, name, raw_text(key)))
                <==> storage.entries.dom().contains((contract, name, key)))
        &&& forall|contract: ContractView, name: Seq<char>, key: ValueView|
            encodable(key) && #[trigger] storage.entries.dom().contains((contract, name, key))
                ==> self.entries[(contract, name, raw_text(key))] == raw_text(
                storage.entries[(contract, name, key)],
            )
    }
}

proof fn lemma_trace_tells_the_write(raw: RawStorage, storage: Storage, write: Write)
    requires
        raw.represents(storage),
        write.fits(),
    ensures
        match write.trace(storage) {
            Some(event) => raw.told(event).represents(write.apply(storage)),
            None => raw.represents(write.apply(storage)),
        },
{
    assert forall|a: ValueView, b: ValueView|
        encodable(a) && encodable(b) && #[trigger] raw_text(a) == #[trigger] raw_text(
            b,
        ) implies a == b by {
        law_raw_text_tells_the_value(a, b);
    }
    let after = write.apply(storage);
    match write {
        Write::MapDelete(contract, name, key) => {
            if !storage.entries.dom().contains((contract, name, key)) {
                assert(after.entries =~= storage.entries);
            }
        },
        _ => {},
    }
}

/// How an argument is told: by the id of its expression, or by its index.
pub enum Telling {
    ById,
    ByIndex,
}

impl Telling {
    /// The collector after the argument at `index` is told.
    pub open spec fn tell(
        self,
        c: CollectorView,
        args: CallArguments,
        index: int,
        value: ValueView,
    ) -> CollectorView {
        match self {
            Telling::ById => c.did_finish_eval(args.ids()[index], value),
            Telling::ByIndex => c.did_evaluate_call_argument(index, value),
        }
    }

    /// Whether the argument at `index` can be told so: an id has to be its own.
    pub open spec fn works(self, args: CallArguments, index: int) -> bool {
        self is ById ==> first_at(args.ids(), args.ids()[index], index)
    }
}

/// A call of a storage builtin as the hooks tell it.
pub struct WriteCall<'a> {
    pub write: Write,
    pub call: CallHook<'a>,
    pub args: CallArguments<'a>,
    /// How the argument behind the name is told, and how the one behind that.
    pub first: Telling,
    pub second: Telling,
}

impl<'a> WriteCall<'a> {
    /// The builtin is called by its name, with the variable or map and with enough
    /// arguments, which can be told as they are.
    pub open spec fn wf(self) -> bool {
        let frame = self.write.frame();
        &&& self.write.fits()
        &&& self.call.kind() == Some(frame.kind)
        &&& FrameView::opened(frame.kind, self.args).name == frame.name
        &&& self.args.count() >= frame.values.len()
        &&& self.first.works(self.args, 1)
        &&& frame.values.len() > 2 ==> self.second.works(self.args, 2)
    }

    pub open spec fn tell_first(self, c: CollectorView) -> CollectorView {
        self.first.tell(c, self.args, 1, self.write.frame().values[1]->0)
    }

    /// Only a write to a map has a second value.
    pub open spec fn tell_second(self, c: CollectorView) -> CollectorView {
        if self.write.frame().values.len() > 2 {
            self.second.tell(c, self.args, 2, self.write.frame().values[2]->0)
        } else {
            c
        }
    }
}

/// A call of a storage builtin that fails, as the hooks tell it.
pub struct FailedCall<'a> {
    pub contract: ContractView,
    pub call: CallHook<'a>,
    pub args: CallArguments<'a>,
    /// The evaluations that were told of it, if it came to them.
    pub first: Option<Step<'a>>,
    pub second: Option<Step<'a>>,
}

/// Whether a step, if there is one, tells an evaluation.
pub open spec fn is_evaluation(step: Option<Step>) -> bool {
    match step {
        Some(Step::DidEvaluateCallArgument(_, _)) => true,
        Some(Step::DidFinishEval(_, _)) => true,
        Some(_) => false,
        None => true,
    }
}

/// The collector after a step, if there is one.
pub open spec fn optional_step(c: CollectorView, step: Option<Step>) -> CollectorView {
    match step {
        Some(s) => s.apply(c),
        None => c,
    }
}

impl<'a> FailedCall<'a> {
    /// The builtin is called by its name. Its arguments can be any.
    pub open spec fn wf(self) -> bool {
        self.call.kind() is Some && is_evaluation(self.first) && is_evaluation(self.second)
    }
}

/// The arguments that the innermost storage builtin waits for.
pub struct Awaited {
    pub ids: Seq<u64>,
    pub count: nat,
}

impl Awaited {
    /// What a call with these arguments waits for.
    pub open spec fn arguments(args: CallArguments) -> Self {
        Awaited { ids: args.ids(), count: args.count() }
    }

    /// What a collector waits for; nothing, if no storage builtin has begun.
    pub open spec fn in_collector(c: CollectorView) -> Self {
        if c.pending.len() > 0 {
            Awaited { ids: c.pending.last().arg_ids, count: c.pending.last().values.len() }
        } else {
            Awaited { ids: Seq::empty(), count: 0 }
        }
    }

    /// Whether a step means nothing to an uncapped collector: the hooks of other calls,
    /// evaluations of what is not waited for, and settings that are set already.
    pub open spec fn ignores(self, step: Step) -> bool {
        match step {
            Step::WillBeginCall(call, _) => call.kind() is None,
            Step::DidFinishCall(_, call, _) => call.kind() is None,
            Step::DidFinishEval(id, _) => !self.ids.contains(id),
            Step::DidEvaluateCallArgument(index, _) => !(0 <= index < self.count),
            Step::SetEnabled(on) => on,
            Step::SetMaxBytes(max_bytes) => max_bytes == 0,
            _ => false,
        }
    }
}

/// What happens in a transaction.
pub enum Activity<'a> {
    /// A hook that means nothing to the collector.
    Idle(Step<'a>),
    /// A storage builtin, with what happens while its first and while its second value is
    /// evaluated.
    Write(WriteCall<'a>, Seq<Activity<'a>>, Seq<Activity<'a>>),
    /// A storage builtin that failed, with what happened before its first and before its
    /// second evaluation.
    FailedWrite(FailedCall<'a>, Seq<Activity<'a>>, Seq<Activity<'a>>),
    /// A write that no hook tells, as at deployment: its trace is pushed.
    PushedWrite(Write),
    /// A call of another contract came back.
    NestedCall(
        ContractView,
        Option<PrincipalView>,
        ContractView,
        Seq<char>,
        Seq<ValueView>,
        ValueView,
    ),
    /// A batch, with what happens in it. Rolling it back rolls the storage back too.
    Batch(Seq<Activity<'a>>, Ending),
}

/// The traces that an optional one is.
pub open spec fn optional_trace(event: Option<EventView>) -> Seq<EventView> {
    match event {
        Some(e) => seq![e],
        None => Seq::empty(),
    }
}

/// The step that records a nested call.
pub open spec fn nested_step<'a>(act: Activity<'a>) -> Step<'a>
    recommends
        act is NestedCall,
{
    match act {
        Activity::NestedCall(contract, sender, caller, function_name, args, result) =>
        Step::NestedCall(contract, sender, caller, function_name, args, result),
        _ => arbitrary(),
    }
}

/// Whether an activity leaves the storage alone, but for what is rolled back.
pub open spec fn act_read_only(act: Activity) -> bool
    decreases act,
{
    match act {
        Activity::Idle(_) => true,
        Activity::Write(_, _, _) => false,
        Activity::FailedWrite(_, first, second) => read_only(first) && read_only(second),
        Activity::PushedWrite(_) => false,
        Activity::NestedCall(_, _, _, _, _, _) => true,
        Activity::Batch(_, Ending::Rollback(false)) => true,
        Activity::Batch(inner, _) => read_only(inner),
    }
}

pub open spec fn read_only(acts: Seq<Activity>) -> bool
    decreases acts,
{
    forall|i: int| 0 <= i < acts.len() ==> act_read_only(#[trigger] acts[i])
}

/// Whether the hooks tell an activity as they should, while the collector waits for some
/// arguments, and a batch that is rolled back as a read-only one is one.
pub open spec fn act_wf(awaited: Awaited, act: Activity) -> bool
    decreases act,
{
    match act {
        Activity::Idle(step) => awaited.ignores(step),
        Activity::Write(call, first, second) => {
            let inner = Awaited::arguments(call.args);
            call.wf() && acts_wf(inner, first) && acts_wf(inner, second)
        },
        Activity::FailedWrite(call, first, second) => {
            let inner = Awaited::arguments(call.args);
            call.wf() && acts_wf(inner, first) && acts_wf(inner, second)
        },
        Activity::PushedWrite(write) => write.fits(),
        Activity::NestedCall(_, _, _, _, _, _) => true,
        Activity::Batch(inner, ending) => acts_wf(awaited, inner) && (ending == Ending::Rollback(
            true,
        ) ==> read_only(inner)),
    }
}

pub open spec fn acts_wf(awaited: Awaited, acts: Seq<Activity>) -> bool
    decreases acts,
{
    forall|i: int| 0 <= i < acts.len() ==> act_wf(awaited, #[trigger] acts[i])
}

/// The storage after an activity.
pub open spec fn act_stored(storage: Storage, act: Activity) -> Storage
    decreases act,
{
    match act {
        Activity::Write(call, first, second) => call.write.apply(
            stored(stored(storage, first), second),
        ),
        Activity::Idle(_) => storage,
        Activity::FailedWrite(_, first, second) => stored(stored(storage, first), second),
        Activity::PushedWrite(write) => write.apply(storage),
        Activity::NestedCall(_, _, _, _, _, _) => storage,
        Activity::Batch(inner, Ending::Commit) => stored(storage, inner),
        Activity::Batch(_, Ending::Rollback(_)) => storage,
    }
}

/// The storage after some activities.
pub open spec fn stored(storage: Storage, acts: Seq<Activity>) -> Storage
    decreases acts,
{
    if acts.len() == 0 {
        storage
    } else {
        act_stored(stored(storage, acts.drop_last()), acts.last())
    }
}

/// The collector after the hooks of an activity.
pub open spec fn act_performed(c: CollectorView, storage: Storage, act: Activity) -> CollectorView
    decreases act,
{
    match act {
        Activity::Write(call, first, second) => {
            let begun = c.will_begin_call(call.call, call.args);
            let one = call.tell_first(performed(begun, storage, first));
            let midway = stored(storage, first);
            let two = call.tell_second(performed(one, midway, second));
            two.did_finish_call(
                call.write.contract(),
                call.call,
                Some(call.write.result(stored(midway, second))),
            )
        },
        Activity::Idle(step) => step.apply(c),
        Activity::FailedWrite(call, first, second) => {
            let begun = c.will_begin_call(call.call, call.args);
            let one = optional_step(performed(begun, storage, first), call.first);
            let midway = stored(storage, first);
            let two = optional_step(performed(one, midway, second), call.second);
            two.did_finish_call(call.contract, call.call, None)
        },
        Activity::PushedWrite(write) => push_option(c, write.trace(storage)),
        Activity::NestedCall(_, _, _, _, _, _) => nested_step(act).apply(c),
        Activity::Batch(inner, ending) => ending.step().apply(
            performed(c.begin_batch(), storage, inner),
        ),
    }
}

/// The collector after the hooks of some activities.
pub open spec fn performed(
    c: CollectorView,
    storage: Storage,
    acts: Seq<Activity>,
) -> CollectorView
    decreases acts,
{
    if acts.len() == 0 {
        c
    } else {
        let earlier = acts.drop_last();
        act_performed(performed(c, storage, earlier), stored(storage, earlier), acts.last())
    }
}

/// The traces that an activity leaves.
pub open spec fn act_logged(storage: Storage, act: Activity) -> Seq<EventView>
    decreases act,
{
    match act {
        Activity::Write(call, first, second) => {
            let midway = stored(storage, first);
            logged(storage, first) + logged(midway, second) + optional_trace(
                call.write.trace(stored(midway, second)),
            )
        },
        Activity::Idle(_) => Seq::empty(),
        Activity::FailedWrite(_, first, second) => logged(storage, first) + logged(
            stored(storage, first),
            second,
        ),
        Activity::PushedWrite(write) => optional_trace(write.trace(storage)),
        Activity::NestedCall(_, _, _, _, _, _) => optional_trace(
            nested_step(act).event(Seq::empty()),
        ),
        Activity::Batch(_, Ending::Rollback(false)) => Seq::empty(),
        Activity::Batch(inner, _) => logged(storage, inner),
    }
}

/// The traces that some activities leave.
pub open spec fn logged(storage: Storage, acts: Seq<Activity>) -> Seq<EventView>
    decreases acts,
{
    if acts.len() == 0 {
        Seq::empty()
    } else {
        let earlier = acts.drop_last();
        logged(storage, earlier) + act_logged(stored(storage, earlier), acts.last())
    }
}

/// A collector with some traces more in its current batch.
pub open spec fn with_traces(c: CollectorView, events: Seq<EventView>) -> CollectorView {
    c.with_current(extended(c.current(), events))
}

/// Whether a collector keeps what is recorded: it is enabled and uncapped, and its
/// current batch ends in no marker.
pub open spec fn keeps_all(c: CollectorView) -> bool {
    c.enabled && c.max_bytes == 0 && !c.current().is_truncated()
}

proof fn lemma_with_traces_twice(c: CollectorView, a: Seq<EventView>, b: Seq<EventView>)
    ensures
        with_traces(with_traces(c, a), b) == with_traces(c, a + b),
{
    assert(with_traces(c, a).current() =~= extended(c.current(), a));
    lemma_extended_twice(c.current(), a, b);
    assert(with_traces(with_traces(c, a), b) =~= with_traces(c, a + b));
}

proof fn lemma_with_no_traces(c: CollectorView)
    ensures
        with_traces(c, Seq::empty()) == c,
{
    assert(extended(c.current(), Seq::empty()) =~= c.current());
    assert(c.with_current(c.current()) =~= c);
}

proof fn lemma_still_keeps_all(c: CollectorView, events: Seq<EventView>)
    requires
        keeps_all(c),
        no_markers(events),
    ensures
        keeps_all(with_traces(c, events)),
{
    let after = with_traces(c, events);
    assert(after.current() =~= extended(c.current(), events));
    if events.len() > 0 {
        assert(after.current().events.last() == events[events.len() - 1]);
    } else {
        assert(after.current().events =~= c.current().events);
    }
}

proof fn lemma_push_optional(c: CollectorView, event: Option<EventView>)
    requires
        keeps_all(c),
        no_markers(optional_trace(event)),
    ensures
        push_option(c, event) == with_traces(c, optional_trace(event)),
{
    match event {
        Some(e) => {
            assert(seq![e].drop_last() =~= Seq::empty());
            assert(events_size(seq![e].drop_last()) == 0);
            assert(c.current().recorded(e) =~= extended(c.current(), seq![e]));
        },
        None => {
            lemma_with_no_traces(c);
        },
    }
}

/// Telling an argument makes it known in the innermost frame.
proof fn lemma_tell(
    telling: Telling,
    c: CollectorView,
    args: CallArguments,
    index: int,
    value: ValueView,
)
    requires
        c.enabled,
        c.pending.len() > 0,
        c.pending.last().arg_ids == args.ids(),
        0 <= index < c.pending.last().values.len(),
        c.pending.last().value_at(index) is None,
        telling.works(args, index),
    ensures
        telling.tell(c, args, index, value) == c.with_frame(
            c.pending.last().with_value(index, value),
        ),
{
    if telling is ById {
        let ids = args.ids();
        assert(forall|i: int| first_at(ids, ids[index], i) ==> i == index);
    }
}

/// What is not waited for changes nothing.
proof fn lemma_ignored(c: CollectorView, step: Step)
    requires
        c.enabled,
        c.max_bytes == 0,
        Awaited::in_collector(c).ignores(step),
    ensures
        step.apply(c) == c,
{
    if c.pending.len() > 0 {
        let frame = c.pending.last();
        if let Step::DidFinishEval(id, value) = step {
            assert(forall|i: int| 0 <= i < frame.arg_ids.len() ==> frame.arg_ids.contains(
                #[trigger] frame.arg_ids[i],
            ));
            assert(frame.with_evaluated(id, value) == frame);
        }
        assert(c.with_frame(frame) =~= c);
    }
}

/// Telling an evaluation changes no more than what is known in the innermost frame.
proof fn lemma_evaluation(c: CollectorView, step: Option<Step>)
    requires
        c.enabled,
        c.pending.len() > 0,
        is_evaluation(step),
    ensures
        ({
            let after = optional_step(c, step);
            &&& after == CollectorView { pending: after.pending, ..c }
            &&& after.pending.len() == c.pending.len()
            &&& after.pending.drop_last() == c.pending.drop_last()
            &&& Awaited::in_collector(after) == Awaited::in_collector(c)
        }),
{
    assert(optional_step(c, step).pending.drop_last() =~= c.pending.drop_last());
}

proof fn lemma_no_markers_concat(a: Seq<EventView>, b: Seq<EventView>)
    requires
        no_markers(a),
        no_markers(b),
    ensures
        no_markers(a + b),
{
}

proof fn lemma_hooks_record_a_write(c: CollectorView, storage: Storage, act: Activity)
    requires
        keeps_all(c),
        act_wf(Awaited::in_collector(c), act),
        act is Write,
    ensures
        act_performed(c, storage, act) == with_traces(c, act_logged(storage, act)),
        no_markers(act_logged(storage, act)),
    decreases act, 0int,
{
    if let Activity::Write(call, first, second) = act {
        let frame = FrameView::opened(call.write.frame().kind, call.args);
        let values = call.write.frame().values;
        let begun = c.will_begin_call(call.call, call.args);
        let midway = stored(storage, first);
        let before = stored(midway, second);
        let a = logged(storage, first);
        let b = logged(midway, second);
        let event = call.write.trace(before);
        assert(Awaited::in_collector(begun) =~= Awaited::arguments(call.args));
        law_hooks_record_the_log(begun, storage, first);
        let heard = with_traces(begun, a);
        lemma_tell(call.first, heard, call.args, 1, values[1]->0);
        let one = call.tell_first(heard);
        let frame_one = frame.with_value(1, values[1]->0);
        assert(one.pending =~= c.pending.push(frame_one));
        lemma_still_keeps_all(begun, a);
        assert(keeps_all(one));
        assert(Awaited::in_collector(one) =~= Awaited::arguments(call.args));
        law_hooks_record_the_log(one, midway, second);
        let again = with_traces(one, b);
        if values.len() > 2 {
            lemma_tell(call.second, again, call.args, 2, values[2]->0);
        }
        let two = call.tell_second(again);
        let frame_two = two.pending.last();
        assert(two.pending.drop_last() =~= c.pending);
        assert(frame_two.event(call.write.contract(), call.write.result(before)) == event);
        let rest = CollectorView { pending: two.pending.drop_last(), ..two };
        lemma_with_traces_twice(c, a, b);
        assert(rest =~= with_traces(with_traces(c, a), b));
        lemma_no_markers_concat(a, b);
        lemma_still_keeps_all(c, a + b);
        lemma_push_optional(rest, event);
        lemma_with_traces_twice(c, a + b, optional_trace(event));
        lemma_no_markers_concat(a + b, optional_trace(event));
    }
}

proof fn lemma_hooks_record_a_failed_write(c: CollectorView, storage: Storage, act: Activity)
    requires
        keeps_all(c),
        act_wf(Awaited::in_collector(c), act),
        act is FailedWrite,
    ensures
        act_performed(c, storage, act) == with_traces(c, act_logged(storage, act)),
        no_markers(act_logged(storage, act)),
    decreases act, 0int,
{
    if let Activity::FailedWrite(call, first, second) = act {
        let begun = c.will_begin_call(call.call, call.args);
        let midway = stored(storage, first);
        let a = logged(storage, first);
        let b = logged(midway, second);
        assert(begun.pending.drop_last() =~= c.pending);
        assert(Awaited::in_collector(begun) =~= Awaited::arguments(call.args));
        law_hooks_record_the_log(begun, storage, first);
        let heard = with_traces(begun, a);
        lemma_evaluation(heard, call.first);
        let one = optional_step(heard, call.first);
        lemma_still_keeps_all(begun, a);
        assert(keeps_all(one));
        law_hooks_record_the_log(one, midway, second);
        let again = with_traces(one, b);
        lemma_evaluation(again, call.second);
        let two = optional_step(again, call.second);
        assert(two.pending.drop_last() == c.pending);
        let rest = CollectorView { pending: two.pending.drop_last(), ..two };
        lemma_with_traces_twice(c, a, b);
        assert(rest =~= with_traces(with_traces(c, a), b));
        lemma_no_markers_concat(a, b);
    }
}

/// The hooks of an activity come to recording the traces that it leaves.
pub proof fn law_hooks_record_the_activity(c: CollectorView, storage: Storage, act: Activity)
    requires
        keeps_all(c),
        act_wf(Awaited::in_collector(c), act),
    ensures
        act_performed(c, storage, act) == with_traces(c, act_logged(storage, act)),
        no_markers(act_logged(storage, act)),
    decreases act, 1int,
{
    match act {
        Activity::Write(_, _, _) => {
            lemma_hooks_record_a_write(c, storage, act);
        },
        Activity::Idle(step) => {
            lemma_ignored(c, step);
            lemma_with_no_traces(c);
        },
        Activity::FailedWrite(_, _, _) => {
            lemma_hooks_record_a_failed_write(c, storage, act);
        },
        Activity::PushedWrite(write) => {
            lemma_push_optional(c, write.trace(storage));
        },
        Activity::NestedCall(_, _, _, _, _, _) => {
            let step = nested_step(act);
            assert(step.apply(c) == push_option(c, step.event(Seq::empty())));
            lemma_push_optional(c, step.event(Seq::empty()));
        },
        Activity::Batch(inner, ending) => {
            let opened = c.begin_batch();
            let events = logged(storage, inner);
            assert(opened.current() == BatchView::empty());
            law_hooks_record_the_log(opened, storage, inner);
            let inside = with_traces(opened, events);
            assert(inside.batches.drop_last() =~= c.batches);
            assert(inside.current() =~= extended(BatchView::empty(), events));
            assert(c.current().merged(inside.current()) =~= extended(c.current(), events));
            lemma_with_no_traces(c);
            match ending {
                Ending::Rollback(false) => {
                    assert(inside.rollback_batch(false) =~= c);
                },
                _ => {
                    assert(ending.step().apply(inside) =~= with_traces(c, events));
                },
            }
        },
    }
}

/// The hooks of some activities come to recording the traces that they leave.
pub proof fn law_hooks_record_the_log(c: CollectorView, storage: Storage, acts: Seq<Activity>)
    requires
        keeps_all(c),
        acts_wf(Awaited::in_collector(c), acts),
    ensures
        performed(c, storage, acts) == with_traces(c, logged(storage, acts)),
        no_markers(logged(storage, acts)),
    decreases acts, 1int,
{
    if acts.len() == 0 {
        lemma_with_no_traces(c);
    } else {
        let earlier = acts.drop_last();
        let before = stored(storage, earlier);
        let a = logged(storage, earlier);
        let b = act_logged(before, acts.last());
        assert(act_wf(Awaited::in_collector(c), acts[acts.len() - 1]));
        law_hooks_record_the_log(c, storage, earlier);
        lemma_still_keeps_all(c, a);
        law_hooks_record_the_activity(with_traces(c, a), before, acts.last());
        lemma_with_traces_twice(c, a, b);
        lemma_no_markers_concat(a, b);
    }
}

proof fn lemma_replayed_concat(raw: RawStorage, a: Seq<EventView>, b: Seq<EventView>)
    ensures
        raw.replayed(a + b) == raw.replayed(a).replayed(b),
    decreases b.len(),
{
    if b.len() == 0 {
        assert(a + b =~= a);
    } else {
        lemma_replayed_concat(raw, a, b.drop_last());
        assert((a + b).drop_last() =~= a + b.drop_last());
    }
}

proof fn lemma_replayed_optional(raw: RawStorage, event: Option<EventView>)
    ensures
        raw.replayed(optional_trace(event)) == match event {
            Some(e) => raw.told(e),
            None => raw,
        },
{
    if let Some(e) = event {
        assert(seq![e].drop_last() =~= Seq::empty());
        assert(raw.replayed(seq![e].drop_last()) == raw);
    }
}

/// The traces of what leaves the storage alone tell nothing of it.
proof fn lemma_read_only_act_tells_nothing(raw: RawStorage, storage: Storage, act: Activity)
    requires
        act_read_only(act),
    ensures
        raw.replayed(act_logged(storage, act)) == raw,
    decreases act, 0int,
{
    match act {
        Activity::NestedCall(_, _, _, _, _, _) => {
            lemma_replayed_optional(raw, nested_step(act).event(Seq::empty()));
        },
        Activity::Batch(_, Ending::Rollback(false)) => {},
        Activity::Batch(inner, _) => {
            lemma_read_only_tells_nothing(raw, storage, inner);
        },
        Activity::FailedWrite(_, first, second) => {
            let midway = stored(storage, first);
            lemma_read_only_tells_nothing(raw, storage, first);
            lemma_read_only_tells_nothing(raw, midway, second);
            lemma_replayed_concat(raw, logged(storage, first), logged(midway, second));
        },
        _ => {},
    }
}

proof fn lemma_read_only_tells_nothing(raw: RawStorage, storage: Storage, acts: Seq<Activity>)
    requires
        read_only(acts),
    ensures
        raw.replayed(logged(storage, acts)) == raw,
    decreases acts, 1int,
{
    if acts.len() > 0 {
        let earlier = acts.drop_last();
        let before = stored(storage, earlier);
        assert(act_read_only(acts[acts.len() - 1]));
        lemma_read_only_tells_nothing(raw, storage, earlier);
        lemma_read_only_act_tells_nothing(raw, before, acts.last());
        lemma_replayed_concat(raw, logged(storage, earlier), act_logged(before, acts.last()));
    }
}

proof fn lemma_act_is_told(raw: RawStorage, storage: Storage, awaited: Awaited, act: Activity)
    requires
        raw.represents(storage),
        act_wf(awaited, act),
    ensures
        raw.replayed(act_logged(storage, act)).represents(act_stored(storage, act)),
    decreases act, 0int,
{
    match act {
        Activity::Write(call, first, second) => {
            let midway = stored(storage, first);
            let before = stored(midway, second);
            let a = logged(storage, first);
            let b = logged(midway, second);
            let event = call.write.trace(before);
            let inner = Awaited::arguments(call.args);
            law_log_reconstructs_storage(raw, storage, inner, first);
            law_log_reconstructs_storage(raw.replayed(a), midway, inner, second);
            lemma_replayed_concat(raw, a, b);
            lemma_replayed_concat(raw, a + b, optional_trace(event));
            lemma_replayed_optional(raw.replayed(a + b), event);
            lemma_trace_tells_the_write(raw.replayed(a + b), before, call.write);
        },
        Activity::FailedWrite(call, first, second) => {
            let midway = stored(storage, first);
            let a = logged(storage, first);
            let inner = Awaited::arguments(call.args);
            law_log_reconstructs_storage(raw, storage, inner, first);
            law_log_reconstructs_storage(raw.replayed(a), midway, inner, second);
            lemma_replayed_concat(raw, a, logged(midway, second));
        },
        Activity::PushedWrite(write) => {
            lemma_replayed_optional(raw, write.trace(storage));
            lemma_trace_tells_the_write(raw, storage, write);
        },
        Activity::Idle(_) => {},
        Activity::NestedCall(_, _, _, _, _, _) => {
            lemma_read_only_act_tells_nothing(raw, storage, act);
        },
        Activity::Batch(inner, Ending::Commit) => {
            law_log_reconstructs_storage(raw, storage, awaited, inner);
        },
        Activity::Batch(inner, Ending::Rollback(_)) => {
            lemma_read_only_act_tells_nothing(raw, storage, act);
        },
    }
}

/// Replaying the traces of some activities on a picture of the storage before them gives
/// a picture of the storage after them. Calls that changed nothing or failed, and what was
/// rolled back, are not in the log, and not missed.
pub proof fn law_log_reconstructs_storage(
    raw: RawStorage,
    storage: Storage,
    awaited: Awaited,
    acts: Seq<Activity>,
)
    requires
        raw.represents(storage),
        acts_wf(awaited, acts),
    ensures
        raw.replayed(logged(storage, acts)).represents(stored(storage, acts)),
    decreases acts, 1int,
{
    if acts.len() > 0 {
        let earlier = acts.drop_last();
        let before = stored(storage, earlier);
        let a = logged(storage, earlier);
        assert(act_wf(awaited, acts[acts.len() - 1]));
        law_log_reconstructs_storage(raw, storage, awaited, earlier);
        lemma_act_is_told(raw.replayed(a), before, awaited, acts.last());
        lemma_replayed_concat(raw, a, act_logged(before, acts.last()));
    }
}

/// Without a cap, the committed traces reconstruct the storage: if they did so before a
/// transaction, they do so after it, whether it commits or is rolled back. Among its
/// writes there can be failed ones, writes that are pushed, and the hooks of other calls.
pub proof fn law_committed_traces_reconstruct_storage(
    c: CollectorView,
    raw: RawStorage,
    storage: Storage,
    acts: Seq<Activity>,
)
    requires
        c.enabled,
        c.max_bytes == 0,
        c.batches.len() == 0,
        raw.replayed(c.committed.events).represents(storage),
        acts_wf(Awaited::in_collector(c), acts),
    ensures
        ({
            let inside = performed(c.begin_batch(), storage, acts);
            &&& raw.replayed(inside.commit_batch().committed.events).represents(
                stored(storage, acts),
            )
            &&& raw.replayed(inside.rollback_batch(false).committed.events).represents(storage)
        }),
{
    let opened = c.begin_batch();
    let events = logged(storage, acts);
    law_hooks_record_the_log(opened, storage, acts);
    let inside = with_traces(opened, events);
    assert(opened.current() == BatchView::empty());
    assert(inside.current().events =~= events);
    assert(inside.batches.drop_last() =~= c.batches);
    lemma_replayed_concat(raw, c.committed.events, events);
    let awaited = Awaited::in_collector(c);
    law_log_reconstructs_storage(raw.replayed(c.committed.events), storage, awaited, acts);
}

} // verus!
