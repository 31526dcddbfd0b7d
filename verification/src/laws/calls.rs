//! Which calls leave a trace, and which.

use vstd::prelude::*;
#[allow(unused_imports)]
use crate::consensus::encodable;
#[allow(unused_imports)]
use crate::events::{raw_text, EventView, MapDeleteView, MapWriteView, StorageView, VarSetView};
#[allow(unused_imports)]
use crate::hooks::{CallArguments, CallHook};
#[allow(unused_imports)]
use crate::laws::runs::{
    all_inner, call_depth, calls_nested, lemma_step_records_its_event, run, Step,
};
#[allow(unused_imports)]
use crate::model::{first_at, CollectorView, FrameView, PendingKind};
#[allow(unused_imports)]
use crate::principal::ContractView;
#[allow(unused_imports)]
use crate::value::ValueView;

verus! {

/// A step that leaves more than `floor` calls begun touches none below.
proof fn lemma_step_keeps_frames_below(c: CollectorView, step: Step, floor: nat)
    requires
        c.enabled,
        c.pending.len() > floor,
        c.pending.len() + step.call_change() > floor,
        step.is_inner(),
    ensures
        step.apply(c).enabled,
        step.apply(c).pending.len() == c.pending.len() + step.call_change(),
        step.apply(c).pending.take(floor as int) == c.pending.take(floor as int),
{
    if step.batch_change() == 0 {
        lemma_step_records_its_event(c, step);
    }
    assert(step.apply(c).pending.take(floor as int) =~= c.pending.take(floor as int));
}

proof fn lemma_run_keeps_frames_below(c: CollectorView, steps: Seq<Step>, floor: nat)
    requires
        c.enabled,
        c.pending.len() == floor + 1,
        all_inner(steps),
        forall|k: int| 0 <= k <= steps.len() ==> call_depth(#[trigger] steps.take(k)) >= 0,
    ensures
        run(c, steps).enabled,
        run(c, steps).pending.len() == c.pending.len() + call_depth(steps),
        run(c, steps).pending.take(floor as int) == c.pending.take(floor as int),
    decreases steps.len(),
{
    assert(steps.take(steps.len() as int) =~= steps);
    if steps.len() > 0 {
        let shorter = steps.drop_last();
        assert forall|k: int| 0 <= k <= shorter.len() implies call_depth(
            #[trigger] shorter.take(k),
        ) >= 0 by {
            assert(shorter.take(k) =~= steps.take(k));
        }
        lemma_run_keeps_frames_below(c, shorter, floor);
        assert(steps.take(shorter.len() as int) =~= shorter);
        assert(steps.last() == steps[steps.len() - 1]);
        lemma_step_keeps_frames_below(run(c, shorter), steps.last(), floor);
    }
}

/// A finished call takes the frame that it began with: whatever happened while it ran,
/// calls begun and finished there included, the calls around it are as before.
pub proof fn law_finished_call_takes_its_frame(
    c: CollectorView,
    call: CallHook,
    args: CallArguments,
    steps: Seq<Step>,
    contract: ContractView,
    result: Option<ValueView>,
)
    requires
        c.enabled,
        calls_nested(steps),
    ensures
        call.kind() is Some ==> run(c.will_begin_call(call, args), steps).did_finish_call(
            contract,
            call,
            result,
        ).pending == c.pending,
{
    if call.kind() is Some {
        let begun = c.will_begin_call(call, args);
        let inside = run(begun, steps);
        lemma_run_keeps_frames_below(begun, steps, c.pending.len());
        assert(begun.pending.take(c.pending.len() as int) =~= c.pending);
        assert(inside.pending.drop_last() =~= inside.pending.take(c.pending.len() as int));
    }
}

/// A call that failed leaves no trace.
pub proof fn law_failed_call_leaves_no_trace(
    c: CollectorView,
    contract: ContractView,
    call: CallHook,
)
    ensures
        ({
            let after = c.did_finish_call(contract, call, None);
            after == CollectorView { pending: after.pending, ..c }
        }),
{
}

/// A call of a function that is no storage builtin does nothing.
pub proof fn law_other_calls_do_nothing(
    c: CollectorView,
    call: CallHook,
    args: CallArguments,
    contract: ContractView,
    result: Option<ValueView>,
)
    requires
        call.kind() is None,
    ensures
        c.will_begin_call(call, args) == c,
        c.did_finish_call(contract, call, result) == c,
{
}

/// An insertion or deletion that changed nothing leaves no trace.
pub proof fn law_no_change_leaves_no_trace(
    c: CollectorView,
    contract: ContractView,
    call: CallHook,
    result: ValueView,
)
    requires
        c.pending.len() > 0,
        c.pending.last().kind == PendingKind::MapInsert || c.pending.last().kind
            == PendingKind::MapDelete,
        result != ValueView::Bool(true),
    ensures
        ({
            let after = c.did_finish_call(contract, call, Some(result));
            after == CollectorView { pending: after.pending, ..c }
        }),
{
}

/// An argument told by its index is known from then on, and the other arguments are as
/// before.
pub proof fn law_argument_by_index_is_known(
    c: CollectorView,
    index: int,
    value: ValueView,
    other: int,
)
    requires
        c.enabled,
        c.pending.len() > 0,
        0 <= index < c.pending.last().values.len(),
        other != index,
    ensures
        ({
            let frame = c.did_evaluate_call_argument(index, value).pending.last();
            &&& frame.value_at(index) == Some(value)
            &&& frame.value_at(other) == c.pending.last().value_at(other)
        }),
{
}

/// An argument that is known is not changed by the evaluation of an expression.
pub proof fn law_known_argument_stays(c: CollectorView, index: int, id: u64, value: ValueView)
    requires
        c.pending.len() > 0,
        c.pending.last().value_at(index) is Some,
    ensures
        c.did_finish_eval(id, value).pending.last().value_at(index)
            == c.pending.last().value_at(index),
{
}

/// The frame of a call whose arguments are expressions with ids of their own, after the
/// expressions at `1` and (if `second` is given) at `2` came out as values.
proof fn lemma_evaluated_frame(
    c: CollectorView,
    call: CallHook,
    args: CallArguments,
    kind: PendingKind,
    first: ValueView,
    second: Option<ValueView>,
) -> (told: CollectorView)
    requires
        c.enabled,
        call.kind() == Some(kind),
        distinct_ids(args),
        args.ids().len() >= 2,
        second is Some ==> args.ids().len() >= 3,
    ensures
        second is None ==> told == c.will_begin_call(call, args).did_finish_eval(
            args.ids()[1],
            first,
        ),
        second is Some ==> told == c.will_begin_call(call, args).did_finish_eval(
            args.ids()[1],
            first,
        ).did_finish_eval(args.ids()[2], second->0),
        told.enabled,
        told.pending.len() == c.pending.len() + 1,
        (CollectorView { pending: told.pending.drop_last(), ..told }) == c,
        told.pending.last().kind == kind,
        told.pending.last().name == FrameView::opened(kind, args).name,
        told.pending.last().value_at(1) == Some(first),
        second is Some ==> told.pending.last().value_at(2) == second,
{
    let ids = args.ids();
    let begun = c.will_begin_call(call, args);
    assert(first_at(ids, ids[1], 1));
    assert(forall|i: int| first_at(ids, ids[1], i) ==> i == 1);
    let one = begun.did_finish_eval(ids[1], first);
    assert(one.pending.drop_last() =~= c.pending);
    if second is Some {
        assert(first_at(ids, ids[2], 2));
        assert(forall|i: int| first_at(ids, ids[2], i) ==> i == 2);
        let two = one.did_finish_eval(ids[2], second->0);
        assert(two.pending.drop_last() =~= c.pending);
        two
    } else {
        one
    }
}

/// The arguments are expressions, and no two of them have the same id.
pub open spec fn distinct_ids(args: CallArguments) -> bool {
    &&& args is Expressions
    &&& forall|i: int, j: int|
        0 <= i < j < args.ids().len() ==> args.ids()[i] != args.ids()[j]
}

/// Setting a variable leaves its trace: the variable's name, and the value that the
/// second argument came out as.
pub proof fn law_var_set_is_traced(
    c: CollectorView,
    call: CallHook,
    args: CallArguments,
    var_name: Seq<char>,
    value: ValueView,
    contract: ContractView,
    result: ValueView,
)
    requires
        c.enabled,
        call.kind() == Some(PendingKind::VarSet),
        distinct_ids(args),
        args.ids().len() >= 2,
        args.atom_at(0) == Some(var_name),
        encodable(value),
    ensures
        c.will_begin_call(call, args).did_finish_eval(args.ids()[1], value).did_finish_call(
            contract,
            call,
            Some(result),
        ) == c.push_event(
            EventView::Storage(
                StorageView::VarSet(
                    VarSetView { contract, var_name, raw_value: raw_text(value) },
                ),
            ),
        ),
{
    lemma_evaluated_frame(c, call, args, PendingKind::VarSet, value, None);
}

/// Writing to a map, unconditionally or because the key was new, leaves its trace: the
/// map's name, and what the key and the value came out as.
pub proof fn law_map_write_is_traced(
    c: CollectorView,
    call: CallHook,
    args: CallArguments,
    map_name: Seq<char>,
    key: ValueView,
    value: ValueView,
    contract: ContractView,
)
    requires
        c.enabled,
        distinct_ids(args),
        args.ids().len() >= 3,
        args.atom_at(0) == Some(map_name),
        encodable(key),
        encodable(value),
    ensures
        ({
            let told = c.will_begin_call(call, args).did_finish_eval(
                args.ids()[1],
                key,
            ).did_finish_eval(args.ids()[2], value);
            let data = MapWriteView {
                contract,
                map_name,
                raw_key: raw_text(key),
                raw_value: raw_text(value),
            };
            &&& call.kind() == Some(PendingKind::MapSet) ==> forall|result: ValueView|
                #[trigger] told.did_finish_call(contract, call, Some(result)) == c.push_event(
                    EventView::Storage(StorageView::MapSet(data)),
                )
            &&& call.kind() == Some(PendingKind::MapInsert) ==> told.did_finish_call(
                contract,
                call,
                Some(ValueView::Bool(true)),
            ) == c.push_event(EventView::Storage(StorageView::MapInsert(data)))
        }),
{
    if let Some(kind) = call.kind() {
        lemma_evaluated_frame(c, call, args, kind, key, Some(value));
    }
}

/// Deleting a key that was there leaves its trace: the map's name, and what the key
/// came out as.
pub proof fn law_map_delete_is_traced(
    c: CollectorView,
    call: CallHook,
    args: CallArguments,
    map_name: Seq<char>,
    key: ValueView,
    contract: ContractView,
)
    requires
        c.enabled,
        call.kind() == Some(PendingKind::MapDelete),
        distinct_ids(args),
        args.ids().len() >= 2,
        args.atom_at(0) == Some(map_name),
        encodable(key),
    ensures
        c.will_begin_call(call, args).did_finish_eval(args.ids()[1], key).did_finish_call(
            contract,
            call,
            Some(ValueView::Bool(true)),
        ) == c.push_event(
            EventView::Storage(
                StorageView::MapDelete(
                    MapDeleteView { contract, map_name, raw_key: raw_text(key) },
                ),
            ),
        ),
{
    lemma_evaluated_frame(c, call, args, PendingKind::MapDelete, key, None);
}

} // verus!
