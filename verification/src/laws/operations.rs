//! What each operation changes, and that it changes nothing else.

use vstd::prelude::*;
#[allow(unused_imports)]
use vstd::string::*;
#[allow(unused_imports)]
use crate::consensus::encodable;
#[allow(unused_imports)]
use crate::events::{
    raw_text, raw_texts, ContractCallView, EventView, MapDeleteView, MapWriteView, StorageView,
    VarSetView,
};
#[allow(unused_imports)]
use crate::hooks::{
    atom_values, CallArguments, CallHook, SymbolicExpression, SymbolicExpressionType,
};
#[allow(unused_imports)]
use crate::laws::live::{ends_in_marker, log};
#[allow(unused_imports)]
use crate::laws::views::law_evaluated_arguments_are_all_taken;
#[allow(unused_imports)]
use crate::model::{first_at, BatchView, CollectorView, PendingKind};
#[allow(unused_imports)]
use crate::principal::{ContractView, PrincipalView};
#[allow(unused_imports)]
use crate::value::{Value, ValueView};

verus! {

/// A new collector is off, uncapped and empty.
pub proof fn law_new_collector()
    ensures
        CollectorView::initial() == (CollectorView {
            enabled: false,
            max_bytes: 0,
            batches: Seq::empty(),
            committed: BatchView { events: Seq::empty(), approx_bytes: 0 },
            pending: Seq::empty(),
        }),
{
}

/// The switch and the cap are what they were last set to, and setting them changes nothing
/// else.
pub proof fn law_settings(c: CollectorView, on: bool, max_bytes: usize)
    ensures
        c.set_enabled(on) == (CollectorView {
            enabled: on,
            max_bytes: c.max_bytes,
            batches: c.batches,
            committed: c.committed,
            pending: c.pending,
        }),
        c.set_max_bytes(max_bytes) == (CollectorView {
            enabled: c.enabled,
            max_bytes,
            batches: c.batches,
            committed: c.committed,
            pending: c.pending,
        }),
{
}

/// While collection is off, nothing but the settings changes anything.
pub proof fn law_off_is_off(
    c: CollectorView,
    was_read_only: bool,
    event: EventView,
    call: CallHook,
    args: CallArguments,
    index: int,
    id: u64,
    contract: ContractView,
    value: ValueView,
    result: Option<ValueView>,
)
    requires
        !c.enabled,
    ensures
        c.begin_batch() == c,
        c.commit_batch() == c,
        c.rollback_batch(was_read_only) == c,
        c.take_committed() == c,
        c.push_event(event) == c,
        c.will_begin_call(call, args) == c,
        c.did_evaluate_call_argument(index, value) == c,
        c.did_finish_eval(id, value) == c,
        c.did_finish_call(contract, call, result) == c,
{
}

/// While collection is off, calls between contracts are not recorded.
pub proof fn law_off_records_no_calls(
    c: CollectorView,
    contract: ContractView,
    sender: Option<PrincipalView>,
    caller: ContractView,
    function_name: Seq<char>,
    args: Seq<ValueView>,
    result: ValueView,
)
    requires
        !c.enabled,
    ensures
        c.record_nested_call(contract, sender, caller, function_name, args, result) == c,
{
}

/// A new batch is empty and the innermost.
pub proof fn law_new_batch(c: CollectorView)
    requires
        c.enabled,
    ensures
        c.begin_batch() == (CollectorView {
            enabled: c.enabled,
            max_bytes: c.max_bytes,
            batches: c.batches.push(BatchView { events: Seq::empty(), approx_bytes: 0 }),
            committed: c.committed,
            pending: c.pending,
        }),
{
}

/// The traces of a committed batch stand behind those of the batch around it or, if there is
/// none, behind the committed ones, all of them and in their order; so do those of a
/// read-only batch that is rolled back. Those of another batch that is rolled back are gone.
/// Every other batch is as it was.
pub proof fn law_closed_batch(c: CollectorView, i: int)
    requires
        c.enabled,
        c.batches.len() > 0,
    ensures
        ({
            let n = c.batches.len() - 1;
            let kept = c.commit_batch();
            let gone = c.rollback_batch(false);
            &&& kept == c.rollback_batch(true)
            &&& kept.batches.len() == n && gone.batches.len() == n
            &&& kept.enabled && kept.max_bytes == c.max_bytes && kept.pending == c.pending
            &&& gone.enabled && gone.max_bytes == c.max_bytes && gone.pending == c.pending
            &&& 0 <= i < n ==> gone.batches[i] == c.batches[i]
            &&& gone.committed == c.committed
            &&& 0 <= i < n - 1 ==> kept.batches[i] == c.batches[i]
            &&& n > 0 ==> kept.committed == c.committed && kept.batches[n - 1].events
                == c.batches[n - 1].events + c.batches[n].events
            &&& n == 0 ==> kept.committed.events == c.committed.events + c.batches[0].events
        }),
{
}

/// Without an open batch, closing does nothing.
pub proof fn law_nothing_to_close(c: CollectorView, was_read_only: bool)
    requires
        c.batches.len() == 0,
    ensures
        c.commit_batch() == c,
        c.rollback_batch(was_read_only) == c,
{
}

/// Taking leaves no traces, no batches and no calls, and leaves the settings.
pub proof fn law_taken(c: CollectorView)
    requires
        c.enabled,
    ensures
        c.take_committed() == (CollectorView {
            enabled: true,
            max_bytes: c.max_bytes,
            batches: Seq::empty(),
            committed: BatchView { events: Seq::empty(), approx_bytes: 0 },
            pending: Seq::empty(),
        }),
{
}

/// Recording puts one trace, or one marker, behind those in the log, or counts one more in
/// the marker that the log ends in. Every other batch is as it was.
pub proof fn law_recorded(c: CollectorView, event: EventView, i: int)
    requires
        c.enabled,
    ensures
        ({
            let n = c.batches.len();
            let after = c.push_event(event);
            &&& after.enabled && after.max_bytes == c.max_bytes && after.pending == c.pending
            &&& after.batches.len() == n
            &&& 0 <= i < n - 1 ==> after.batches[i] == c.batches[i]
            &&& n > 0 ==> after.committed == c.committed
            &&& !ends_in_marker(log(c)) ==> log(after) == log(c).push(event) || log(after)
                == log(c).push(EventView::Truncated(1))
            &&& !ends_in_marker(log(c)) && c.max_bytes == 0 ==> log(after) == log(c).push(event)
            &&& ends_in_marker(log(c)) ==> {
                let dropped = log(c).last()->Truncated_0;
                let more = if dropped < u64::MAX {
                    (dropped + 1) as u64
                } else {
                    dropped
                };
                log(after) == log(c).drop_last().push(EventView::Truncated(more))
            }
        }),
{
}

/// The storage builtins are those of the language with the names `var-set`, `map-set`,
/// `map-insert` and `map-delete`, each of its own kind. No other builtin is one, and no
/// function of a contract is, whatever its name.
pub proof fn law_storage_builtins(call: CallHook)
    ensures
        match call {
            CallHook::Builtin { clarity_name } => {
                let name = clarity_name@;
                &&& call.kind() == Some(PendingKind::VarSet) <==> name == "var-set"@
                &&& call.kind() == Some(PendingKind::MapSet) <==> name == "map-set"@
                &&& call.kind() == Some(PendingKind::MapInsert) <==> name == "map-insert"@
                &&& call.kind() == Some(PendingKind::MapDelete) <==> name == "map-delete"@
            },
            CallHook::UserFunction { .. } => call.kind() is None,
        },
{
    reveal_strlit("var-set");
    reveal_strlit("map-set");
    reveal_strlit("map-insert");
    reveal_strlit("map-delete");
    let v = "var-set"@;
    let s = "map-set"@;
    let i = "map-insert"@;
    let d = "map-delete"@;
    assert(v[0] == 'v' && s[0] == 'm');
    assert(i.len() == 10 && d.len() == 10 && v.len() == 7 && s.len() == 7);
    assert(i[4] == 'i' && d[4] == 'd');
}

/// Whether a text is the name of a storage builtin.
pub open spec fn is_storage_name(name: Seq<char>) -> bool {
    ||| name == "var-set"@
    ||| name == "map-set"@
    ||| name == "map-insert"@
    ||| name == "map-delete"@
}

/// Other builtins, and the functions of contracts, do nothing when they begin, nor when they
/// finish.
pub proof fn law_no_other_call_is_traced(
    c: CollectorView,
    call: CallHook,
    args: CallArguments,
    contract: ContractView,
    result: Option<ValueView>,
)
    requires
        call matches CallHook::Builtin { clarity_name } ==> !is_storage_name(clarity_name@),
    ensures
        c.will_begin_call(call, args) == c,
        c.did_finish_call(contract, call, result) == c,
{
    law_storage_builtins(call);
}

/// A storage builtin that begins is the innermost call: of its own kind, with the name that
/// its first argument is, and with arguments that are all unknown, each awaited under the id
/// of its own expression.
pub proof fn law_begun(
    c: CollectorView,
    clarity_name: &str,
    exprs: &[SymbolicExpression],
    i: int,
)
    requires
        c.enabled,
        is_storage_name(clarity_name@),
    ensures
        ({
            let after = c.will_begin_call(
                CallHook::Builtin { clarity_name },
                CallArguments::Expressions(exprs),
            );
            let frame = after.pending.last();
            &&& after == CollectorView {
                enabled: c.enabled,
                max_bytes: c.max_bytes,
                batches: c.batches,
                committed: c.committed,
                pending: c.pending.push(frame),
            }
            &&& clarity_name@ == "var-set"@ ==> frame.kind == PendingKind::VarSet
            &&& clarity_name@ == "map-set"@ ==> frame.kind == PendingKind::MapSet
            &&& clarity_name@ == "map-insert"@ ==> frame.kind == PendingKind::MapInsert
            &&& clarity_name@ == "map-delete"@ ==> frame.kind == PendingKind::MapDelete
            &&& frame.arg_ids.len() == exprs@.len() && frame.values.len() == exprs@.len()
            &&& 0 <= i < exprs@.len() ==> frame.arg_ids[i] == exprs@[i].id && frame.values[i]
                is None
            &&& exprs@.len() > 0 ==> (exprs@[0].expr matches SymbolicExpressionType::Atom(name)
                ==> frame.name == name@)
            &&& exprs@.len() == 0 || !(exprs@[0].expr is Atom) ==> frame.name.len() == 0
        }),
{
    law_storage_builtins(CallHook::Builtin { clarity_name });
}

/// The same of a storage builtin whose arguments came evaluated: it has no name, and its
/// arguments can only be told by their index.
pub proof fn law_begun_with_values(
    c: CollectorView,
    clarity_name: &str,
    vals: &[Value],
    i: int,
)
    requires
        c.enabled,
        is_storage_name(clarity_name@),
    ensures
        ({
            let after = c.will_begin_call(
                CallHook::Builtin { clarity_name },
                CallArguments::Values(vals),
            );
            let frame = after.pending.last();
            &&& after == CollectorView {
                enabled: c.enabled,
                max_bytes: c.max_bytes,
                batches: c.batches,
                committed: c.committed,
                pending: c.pending.push(frame),
            }
            &&& clarity_name@ == "var-set"@ ==> frame.kind == PendingKind::VarSet
            &&& clarity_name@ == "map-set"@ ==> frame.kind == PendingKind::MapSet
            &&& clarity_name@ == "map-insert"@ ==> frame.kind == PendingKind::MapInsert
            &&& clarity_name@ == "map-delete"@ ==> frame.kind == PendingKind::MapDelete
            &&& frame.arg_ids.len() == 0 && frame.values.len() == vals@.len()
            &&& 0 <= i < vals@.len() ==> frame.values[i] is None
            &&& frame.name.len() == 0
        }),
{
    law_storage_builtins(CallHook::Builtin { clarity_name });
}

/// Telling an argument by its index makes it known in the innermost call, also in place of
/// what was known, and changes nothing else.
pub proof fn law_told_by_index(c: CollectorView, index: int, value: ValueView, i: int)
    requires
        c.enabled,
        c.pending.len() > 0,
    ensures
        ({
            let before = c.pending.last();
            let after = c.did_evaluate_call_argument(index, value);
            let frame = after.pending.last();
            &&& after == CollectorView {
                enabled: c.enabled,
                max_bytes: c.max_bytes,
                batches: c.batches,
                committed: c.committed,
                pending: c.pending.drop_last().push(frame),
            }
            &&& frame.kind == before.kind && frame.name == before.name && frame.arg_ids
                == before.arg_ids && frame.values.len() == before.values.len()
            &&& 0 <= i < before.values.len() ==> frame.values[i] == (if i == index {
                Some(value)
            } else {
                before.values[i]
            })
        }),
{
}

/// Telling what an expression came out as makes known the first argument of the innermost
/// call that is awaited under its id, unless it is known already, and changes nothing else.
pub proof fn law_told_by_id(c: CollectorView, id: u64, value: ValueView, i: int)
    requires
        c.enabled,
        c.pending.len() > 0,
    ensures
        ({
            let before = c.pending.last();
            let after = c.did_finish_eval(id, value);
            let frame = after.pending.last();
            &&& after == CollectorView {
                enabled: c.enabled,
                max_bytes: c.max_bytes,
                batches: c.batches,
                committed: c.committed,
                pending: c.pending.drop_last().push(frame),
            }
            &&& frame.kind == before.kind && frame.name == before.name && frame.arg_ids
                == before.arg_ids && frame.values.len() == before.values.len()
            &&& 0 <= i < before.values.len() ==> frame.values[i] == (if i < before.arg_ids.len()
                && before.arg_ids[i] == id && (forall|j: int|
                0 <= j < i ==> before.arg_ids[j] != id) && before.values[i] is None {
                Some(value)
            } else {
                before.values[i]
            })
        }),
{
    let ids = c.pending.last().arg_ids;
    if 0 <= i < ids.len() && ids[i] == id && (forall|j: int| 0 <= j < i ==> ids[j] != id) {
        assert(first_at(ids, id, i));
        assert(forall|k: int| first_at(ids, id, k) ==> k == i);
    }
}

/// Without a begun call, nothing is told.
pub proof fn law_nothing_to_tell(
    c: CollectorView,
    index: int,
    id: u64,
    value: ValueView,
    contract: ContractView,
    call: CallHook,
    result: Option<ValueView>,
)
    requires
        c.pending.len() == 0,
    ensures
        c.did_evaluate_call_argument(index, value) == c,
        c.did_finish_eval(id, value) == c,
        c.did_finish_call(contract, call, result) == c,
{
}

/// A storage builtin that finishes takes the innermost call. If it succeeded, what it wrote
/// is known and can be encoded and, if it inserted or deleted, it says that it did, it leaves
/// one trace: of the kind of the call, with the contract, the name, and the texts of the
/// second argument and, for a write to a map, of the third. Else it leaves none.
pub proof fn law_finished(
    c: CollectorView,
    contract: ContractView,
    clarity_name: &str,
    result: Option<ValueView>,
)
    requires
        c.enabled,
        c.pending.len() > 0,
        is_storage_name(clarity_name@),
    ensures
        ({
            let frame = c.pending.last();
            let rest = CollectorView {
                enabled: c.enabled,
                max_bytes: c.max_bytes,
                batches: c.batches,
                committed: c.committed,
                pending: c.pending.drop_last(),
            };
            let after = c.did_finish_call(contract, CallHook::Builtin { clarity_name }, result);
            let first = frame.values.len() > 1 && frame.values[1] is Some && encodable(
                frame.values[1]->0,
            );
            let second = frame.values.len() > 2 && frame.values[2] is Some && encodable(
                frame.values[2]->0,
            );
            let changed = result == Some(ValueView::Bool(true));
            let write = MapWriteView {
                contract,
                map_name: frame.name,
                raw_key: raw_text(frame.values[1]->0),
                raw_value: raw_text(frame.values[2]->0),
            };
            match frame.kind {
                PendingKind::VarSet => after == if result is Some && first {
                    rest.push_event(
                        EventView::Storage(
                            StorageView::VarSet(
                                VarSetView {
                                    contract,
                                    var_name: frame.name,
                                    raw_value: raw_text(frame.values[1]->0),
                                },
                            ),
                        ),
                    )
                } else {
                    rest
                },
                PendingKind::MapSet => after == if result is Some && first && second {
                    rest.push_event(EventView::Storage(StorageView::MapSet(write)))
                } else {
                    rest
                },
                PendingKind::MapInsert => after == if changed && first && second {
                    rest.push_event(EventView::Storage(StorageView::MapInsert(write)))
                } else {
                    rest
                },
                PendingKind::MapDelete => after == if changed && first {
                    rest.push_event(
                        EventView::Storage(
                            StorageView::MapDelete(
                                MapDeleteView {
                                    contract,
                                    map_name: frame.name,
                                    raw_key: raw_text(frame.values[1]->0),
                                },
                            ),
                        ),
                    )
                } else {
                    rest
                },
            }
        }),
{
    law_storage_builtins(CallHook::Builtin { clarity_name });
}

/// A call of `var-set` with a name and an expression of any form, the evaluation of that
/// expression, and the end of the call come to one trace, with the value that the expression
/// came out as.
pub proof fn law_var_set_leaves_its_trace(
    c: CollectorView,
    clarity_name: &str,
    exprs: &[SymbolicExpression],
    var_name: String,
    value: ValueView,
    contract: ContractView,
    result: ValueView,
)
    requires
        c.enabled,
        clarity_name@ == "var-set"@,
        exprs@.len() >= 2,
        exprs@[0].expr == SymbolicExpressionType::Atom(var_name),
        exprs@[0].id != exprs@[1].id,
        encodable(value),
    ensures
        ({
            let call = CallHook::Builtin { clarity_name };
            c.will_begin_call(call, CallArguments::Expressions(exprs)).did_finish_eval(
                exprs@[1].id,
                value,
            ).did_finish_call(contract, call, Some(result)) == c.push_event(
                EventView::Storage(
                    StorageView::VarSet(
                        VarSetView { contract, var_name: var_name@, raw_value: raw_text(value) },
                    ),
                ),
            )
        }),
{
    let call = CallHook::Builtin { clarity_name };
    let begun = c.will_begin_call(call, CallArguments::Expressions(exprs));
    law_begun(c, clarity_name, exprs, 0);
    law_begun(c, clarity_name, exprs, 1);
    law_told_by_id(begun, exprs@[1].id, value, 1);
    let told = begun.did_finish_eval(exprs@[1].id, value);
    assert(told.pending.drop_last() =~= c.pending);
    law_finished(told, contract, clarity_name, Some(result));
}

/// A call of `map-set`, `map-insert` or `map-delete` with a name and expressions of any form,
/// the evaluation of those, and the end of the call come to one trace, with what the
/// expressions came out as; of an insertion or deletion, only if it says that it changed
/// something.
pub proof fn law_map_calls_leave_their_traces(
    c: CollectorView,
    clarity_name: &str,
    exprs: &[SymbolicExpression],
    map_name: String,
    key: ValueView,
    value: ValueView,
    contract: ContractView,
    result: ValueView,
)
    requires
        c.enabled,
        clarity_name@ == "map-set"@ || clarity_name@ == "map-insert"@ || clarity_name@
            == "map-delete"@,
        exprs@.len() >= 3,
        exprs@[0].expr == SymbolicExpressionType::Atom(map_name),
        exprs@[0].id != exprs@[1].id,
        exprs@[0].id != exprs@[2].id,
        exprs@[1].id != exprs@[2].id,
        encodable(key),
        encodable(value),
    ensures
        ({
            let call = CallHook::Builtin { clarity_name };
            let after = c.will_begin_call(call, CallArguments::Expressions(exprs)).did_finish_eval(
                exprs@[1].id,
                key,
            ).did_finish_eval(exprs@[2].id, value).did_finish_call(contract, call, Some(result));
            let write = MapWriteView {
                contract,
                map_name: map_name@,
                raw_key: raw_text(key),
                raw_value: raw_text(value),
            };
            let changed = result == ValueView::Bool(true);
            &&& clarity_name@ == "map-set"@ ==> after == c.push_event(
                EventView::Storage(StorageView::MapSet(write)),
            )
            &&& clarity_name@ == "map-insert"@ && changed ==> after == c.push_event(
                EventView::Storage(StorageView::MapInsert(write)),
            )
            &&& clarity_name@ == "map-delete"@ && changed ==> after == c.push_event(
                EventView::Storage(
                    StorageView::MapDelete(
                        MapDeleteView { contract, map_name: map_name@, raw_key: raw_text(key) },
                    ),
                ),
            )
            &&& clarity_name@ != "map-set"@ && !changed ==> after == c
        }),
{
    let call = CallHook::Builtin { clarity_name };
    let begun = c.will_begin_call(call, CallArguments::Expressions(exprs));
    let one = begun.did_finish_eval(exprs@[1].id, key);
    let two = one.did_finish_eval(exprs@[2].id, value);
    law_storage_builtins(call);
    law_begun(c, clarity_name, exprs, 0);
    law_begun(c, clarity_name, exprs, 1);
    law_begun(c, clarity_name, exprs, 2);
    law_told_by_id(begun, exprs@[1].id, key, 1);
    law_told_by_id(begun, exprs@[1].id, key, 2);
    law_told_by_id(one, exprs@[2].id, value, 1);
    law_told_by_id(one, exprs@[2].id, value, 2);
    assert(two.pending.drop_last() =~= c.pending);
    law_finished(two, contract, clarity_name, Some(result));
}

/// A call of `map-delete` with a name and one expression of any form that says that it
/// deleted comes to one trace, with the key that the expression came out as.
pub proof fn law_map_delete_leaves_its_trace(
    c: CollectorView,
    clarity_name: &str,
    exprs: &[SymbolicExpression],
    map_name: String,
    key: ValueView,
    contract: ContractView,
)
    requires
        c.enabled,
        clarity_name@ == "map-delete"@,
        exprs@.len() >= 2,
        exprs@[0].expr == SymbolicExpressionType::Atom(map_name),
        exprs@[0].id != exprs@[1].id,
        encodable(key),
    ensures
        ({
            let call = CallHook::Builtin { clarity_name };
            c.will_begin_call(call, CallArguments::Expressions(exprs)).did_finish_eval(
                exprs@[1].id,
                key,
            ).did_finish_call(contract, call, Some(ValueView::Bool(true))) == c.push_event(
                EventView::Storage(
                    StorageView::MapDelete(
                        MapDeleteView { contract, map_name: map_name@, raw_key: raw_text(key) },
                    ),
                ),
            )
        }),
{
    let call = CallHook::Builtin { clarity_name };
    let begun = c.will_begin_call(call, CallArguments::Expressions(exprs));
    law_begun(c, clarity_name, exprs, 0);
    law_begun(c, clarity_name, exprs, 1);
    law_told_by_id(begun, exprs@[1].id, key, 1);
    let told = begun.did_finish_eval(exprs@[1].id, key);
    assert(told.pending.drop_last() =~= c.pending);
    law_finished(told, contract, clarity_name, Some(ValueView::Bool(true)));
}

/// Telling the arguments by their index comes to the same as telling them by the ids of their
/// expressions, where these are their own.
pub proof fn law_index_and_id_tell_the_same(
    c: CollectorView,
    clarity_name: &str,
    exprs: &[SymbolicExpression],
    index: int,
    value: ValueView,
)
    requires
        c.enabled,
        is_storage_name(clarity_name@),
        0 <= index < exprs@.len(),
        forall|j: int| 0 <= j < index ==> (#[trigger] exprs@[j]).id != exprs@[index].id,
    ensures
        ({
            let begun = c.will_begin_call(
                CallHook::Builtin { clarity_name },
                CallArguments::Expressions(exprs),
            );
            begun.did_evaluate_call_argument(index, value) == begun.did_finish_eval(
                exprs@[index].id,
                value,
            )
        }),
{
    let begun = c.will_begin_call(
        CallHook::Builtin { clarity_name },
        CallArguments::Expressions(exprs),
    );
    let ids = begun.pending.last().arg_ids;
    law_begun(c, clarity_name, exprs, index);
    assert forall|j: int| 0 <= j < exprs@.len() implies ids[j] == exprs@[j].id by {
        law_begun(c, clarity_name, exprs, j);
    }
    assert(first_at(ids, exprs@[index].id, index));
    assert(forall|k: int| first_at(ids, exprs@[index].id, k) ==> k == index);
}

/// A call between contracts whose arguments came evaluated leaves one trace: with the callee,
/// the sender, the calling contract, the function, the text of each argument at its place and
/// the text of the result.
pub proof fn law_nested_call_leaves_its_trace(
    c: CollectorView,
    contract: ContractView,
    sender: Option<PrincipalView>,
    caller: ContractView,
    function_name: Seq<char>,
    exprs: Seq<SymbolicExpression>,
    result: ValueView,
)
    requires
        forall|i: int|
            0 <= i < exprs.len() ==> (#[trigger] exprs[i]).expr is AtomValue && encodable(
                exprs[i].expr->AtomValue_0@,
            ),
        encodable(result),
    ensures
        c.record_nested_call(
            contract,
            sender,
            caller,
            function_name,
            atom_values(exprs),
            result,
        ) == c.push_event(
            EventView::ContractCall(
                ContractCallView {
                    contract,
                    sender,
                    caller: PrincipalView::Contract(caller),
                    function_name,
                    raw_args: Seq::new(
                        exprs.len(),
                        |i: int| raw_text(exprs[i].expr->AtomValue_0@),
                    ),
                    raw_result: raw_text(result),
                },
            ),
        ),
{
    law_evaluated_arguments_are_all_taken(exprs);
    let args = atom_values(exprs);
    assert forall|i: int| 0 <= i < args.len() implies encodable(#[trigger] args[i]) by {
        assert(exprs[i].expr is AtomValue);
    }
    assert(Seq::new(args.len(), |i: int| raw_text(args[i])) =~= Seq::new(
        exprs.len(),
        |i: int| raw_text(exprs[i].expr->AtomValue_0@),
    ));
}

/// The same of whatever values the arguments came out as: one trace, with a text for each.
pub proof fn law_nested_call_tells_every_value(
    c: CollectorView,
    contract: ContractView,
    sender: Option<PrincipalView>,
    caller: ContractView,
    function_name: Seq<char>,
    args: Seq<ValueView>,
    result: ValueView,
)
    requires
        forall|i: int| 0 <= i < args.len() ==> encodable(#[trigger] args[i]),
        encodable(result),
    ensures
        c.record_nested_call(contract, sender, caller, function_name, args, result)
            == c.push_event(
            EventView::ContractCall(
                ContractCallView {
                    contract,
                    sender,
                    caller: PrincipalView::Contract(caller),
                    function_name,
                    raw_args: Seq::new(args.len(), |i: int| raw_text(args[i])),
                    raw_result: raw_text(result),
                },
            ),
        ),
{
    assert(raw_texts(args) =~= Seq::new(args.len(), |i: int| raw_text(args[i])));
}

/// A call between contracts is left out only if one of the values in it cannot be encoded.
pub proof fn law_nested_call_is_left_out(
    c: CollectorView,
    contract: ContractView,
    sender: Option<PrincipalView>,
    caller: ContractView,
    function_name: Seq<char>,
    args: Seq<ValueView>,
    result: ValueView,
)
    requires
        !encodable(result) || exists|i: int| 0 <= i < args.len() && !encodable(#[trigger] args[i]),
    ensures
        c.record_nested_call(contract, sender, caller, function_name, args, result) == c,
{
}

} // verus!
