use storage_trace::collector::StorageTraceCollector;
use storage_trace::events::{StorageEvent, VarSetEventData, VmTraceEvent};
use storage_trace::hooks::{
    atom_at, CallArguments, CallHook, ContractContext, InvocationContext, SymbolicExpression,
    SymbolicExpressionType, VmExecutionError,
};
use storage_trace::principal::{
    PrincipalData, QualifiedContractIdentifier, StandardPrincipalData,
};
use storage_trace::value::Value;

fn account() -> StandardPrincipalData {
    StandardPrincipalData { version: 1, hash: [7; 20] }
}

fn contract(name: &str) -> QualifiedContractIdentifier {
    QualifiedContractIdentifier { issuer: account(), name: name.to_string() }
}

fn trace(n: u128) -> VmTraceEvent {
    VmTraceEvent::Storage(StorageEvent::VarSet(
        VarSetEventData::try_from_value(contract("store"), "n".to_string(), &Value::UInt(n))
            .unwrap(),
    ))
}

fn traces(ns: &[u128]) -> Vec<VmTraceEvent> {
    ns.iter().map(|n| trace(*n)).collect()
}

fn enabled() -> StorageTraceCollector {
    let mut c = StorageTraceCollector::default();
    c.set_enabled(true);
    c
}

fn atom(id: u64, name: &str) -> SymbolicExpression {
    SymbolicExpression { expr: SymbolicExpressionType::Atom(name.to_string()), id }
}

fn builtin(name: &str) -> CallHook<'_> {
    CallHook::Builtin { clarity_name: name }
}

fn finish(c: &mut StorageTraceCollector, name: &str, res: Result<Value, VmExecutionError>) {
    let store = ContractContext { contract_identifier: contract("store") };
    let ctx = InvocationContext { contract_context: &store, sender: None };
    c.did_finish_call(&ctx, &builtin(name), &res);
}

fn raw_values(events: &[VmTraceEvent]) -> Vec<String> {
    events
        .iter()
        .map(|e| match e {
            VmTraceEvent::Storage(StorageEvent::VarSet(d)) => d.raw_value.clone(),
            other => panic!("{other:?}"),
        })
        .collect()
}

#[test]
fn starts_disabled_and_empty() {
    let mut c = StorageTraceCollector::default();
    assert!(!c.enabled());
    c.push_event(trace(1));
    assert!(c.committed().is_empty());
    c.set_enabled(true);
    assert!(c.enabled());
}

#[test]
fn disabled_steps_do_nothing() {
    let mut c = enabled();
    c.push_event(trace(1));
    c.begin_batch();
    c.push_event(trace(2));
    let exprs = [atom(1, "n"), atom(2, "x")];
    c.will_begin_call(&builtin("var-set"), CallArguments::Expressions(&exprs));
    c.set_enabled(false);
    c.begin_batch();
    c.push_event(trace(3));
    c.did_finish_eval(&exprs[1], &Value::UInt(9));
    c.did_evaluate_call_argument(1, &Value::UInt(9));
    finish(&mut c, "var-set", Ok(Value::Bool(true)));
    c.commit_batch();
    c.rollback_batch(true);
    assert!(c.take_committed().is_empty());
    assert_eq!(c.committed(), &traces(&[1])[..]);
    c.set_enabled(true);
    c.did_finish_eval(&exprs[1], &Value::UInt(4));
    finish(&mut c, "var-set", Ok(Value::Bool(true)));
    c.commit_batch();
    assert_eq!(c.committed(), &traces(&[1, 2, 4])[..]);
}

#[test]
fn taking_drains() {
    let mut c = enabled();
    c.push_event(trace(1));
    c.push_event(trace(2));
    c.begin_batch();
    c.push_event(trace(3));
    assert_eq!(c.take_committed(), traces(&[1, 2]));
    assert!(c.committed().is_empty());
    assert!(c.take_committed().is_empty());
    // The open batch is forgotten.
    c.commit_batch();
    assert!(c.committed().is_empty());
}

#[test]
fn disabled_taking_does_nothing() {
    let mut c = enabled();
    c.push_event(trace(1));
    c.begin_batch();
    c.push_event(trace(2));
    c.set_enabled(false);
    assert!(c.take_committed().is_empty());
    assert_eq!(c.committed(), &traces(&[1])[..]);
    c.set_enabled(true);
    c.commit_batch();
    assert_eq!(c.take_committed(), traces(&[1, 2]));
}

#[test]
fn cap_can_be_set_while_disabled() {
    let mut c = StorageTraceCollector::default();
    c.set_max_bytes(1);
    c.set_enabled(true);
    c.push_event(trace(1));
    assert_eq!(c.committed(), &[VmTraceEvent::Truncated { dropped: 1 }][..]);
}

#[test]
fn closing_without_a_batch_does_nothing() {
    let mut c = enabled();
    c.push_event(trace(1));
    c.commit_batch();
    c.rollback_batch(false);
    c.rollback_batch(true);
    assert_eq!(c.committed(), &traces(&[1])[..]);
}

#[test]
fn top_commit_merges_into_committed() {
    let mut c = enabled();
    c.push_event(trace(1));
    c.begin_batch();
    c.push_event(trace(2));
    c.commit_batch();
    assert_eq!(c.committed(), &traces(&[1, 2])[..]);
    c.begin_batch();
    c.push_event(trace(3));
    c.push_event(trace(4));
    c.commit_batch();
    assert_eq!(c.committed(), &traces(&[1, 2, 3, 4])[..]);
}

#[test]
fn read_only_rollback_and_commit_leave_the_same() {
    let mut committed = enabled();
    let mut rolled_back = enabled();
    for c in [&mut committed, &mut rolled_back] {
        c.push_event(trace(1));
        c.begin_batch();
        c.push_event(trace(2));
    }
    committed.commit_batch();
    rolled_back.rollback_batch(true);
    assert_eq!(committed.committed(), rolled_back.committed());
    assert_eq!(committed.committed(), &traces(&[1, 2])[..]);
}

#[test]
fn cap_keeps_the_longest_beginning() {
    let size = trace(0).approx_size();
    let mut c = enabled();
    c.set_max_bytes(size * 3 + size - 1);
    for n in 0..7 {
        c.push_event(trace(n));
    }
    assert_eq!(c.committed().len(), 4);
    assert_eq!(&c.committed()[..3], &traces(&[0, 1, 2])[..]);
    assert_eq!(c.committed()[3], VmTraceEvent::Truncated { dropped: 4 });
}

#[test]
fn top_read_only_rollback_appends() {
    let mut c = enabled();
    c.push_event(trace(1));
    c.begin_batch();
    c.push_event(trace(2));
    c.rollback_batch(true);
    assert_eq!(c.committed(), &traces(&[1, 2])[..]);
    c.begin_batch();
    c.push_event(trace(3));
    c.rollback_batch(false);
    assert_eq!(c.committed(), &traces(&[1, 2])[..]);
}

#[test]
fn nested_batches_keep_the_order() {
    let mut c = enabled();
    c.begin_batch();
    c.push_event(trace(1));
    c.begin_batch();
    c.push_event(trace(2));
    c.begin_batch();
    c.push_event(trace(3));
    c.commit_batch();
    c.begin_batch();
    c.push_event(trace(99));
    c.rollback_batch(false);
    c.push_event(trace(4));
    c.rollback_batch(true);
    c.push_event(trace(5));
    c.commit_batch();
    assert_eq!(c.committed(), &traces(&[1, 2, 3, 4, 5])[..]);
}

#[test]
fn rollback_restores_what_was_there() {
    let mut c = enabled();
    c.set_max_bytes(trace(0).approx_size() * 2);
    c.begin_batch();
    c.push_event(trace(1));
    c.begin_batch();
    c.push_event(trace(2));
    c.begin_batch();
    c.push_event(trace(3));
    c.commit_batch();
    c.push_event(trace(4));
    c.rollback_batch(false);
    // What was rolled back does not count against the cap.
    c.push_event(trace(5));
    c.commit_batch();
    assert_eq!(c.committed(), &traces(&[1, 5])[..]);
}

#[test]
fn cap_counts_all_live_batches() {
    let size = trace(0).approx_size();
    let mut c = enabled();
    c.set_max_bytes(size * 2);
    c.push_event(trace(1));
    c.begin_batch();
    c.push_event(trace(2));
    c.begin_batch();
    c.push_event(trace(3));
    c.push_event(trace(4));
    c.rollback_batch(true);
    c.rollback_batch(true);
    assert_eq!(c.committed().len(), 3);
    assert_eq!(c.committed()[0], trace(1));
    assert_eq!(c.committed()[1], trace(2));
    assert_eq!(c.committed()[2], VmTraceEvent::Truncated { dropped: 2 });
}

#[test]
fn cap_that_is_just_met_drops_nothing() {
    let mut c = enabled();
    c.set_max_bytes(trace(0).approx_size());
    c.push_event(trace(1));
    assert_eq!(c.committed(), &traces(&[1])[..]);
    c.push_event(trace(2));
    assert_eq!(c.committed().len(), 2);
    assert_eq!(c.committed()[1], VmTraceEvent::Truncated { dropped: 1 });
}

#[test]
fn marker_counts_even_after_the_cap_is_lifted() {
    let mut c = enabled();
    c.set_max_bytes(1);
    c.push_event(trace(1));
    c.set_max_bytes(0);
    c.push_event(trace(2));
    c.push_event(trace(3));
    assert_eq!(c.committed(), &[VmTraceEvent::Truncated { dropped: 3 }][..]);
    // A batch of its own starts afresh.
    c.begin_batch();
    c.push_event(trace(4));
    c.rollback_batch(true);
    assert_eq!(c.committed().len(), 2);
    assert_eq!(c.committed()[1], trace(4));
}

#[test]
fn marker_counter_stays_at_its_largest() {
    let mut c = enabled();
    c.push_event(VmTraceEvent::Truncated { dropped: u64::MAX });
    c.push_event(trace(1));
    assert_eq!(c.committed(), &[VmTraceEvent::Truncated { dropped: u64::MAX }][..]);
}

#[test]
fn batch_of_its_own_is_transparent() {
    let mut direct = enabled();
    direct.begin_batch();
    let mut nested = enabled();
    nested.begin_batch();
    direct.push_event(trace(1));
    nested.push_event(trace(1));
    nested.begin_batch();
    for n in 2..6 {
        direct.push_event(trace(n));
        nested.push_event(trace(n));
    }
    nested.commit_batch();
    direct.commit_batch();
    nested.commit_batch();
    assert_eq!(direct.committed(), nested.committed());
    assert_eq!(direct.committed().len(), 5);
}

#[test]
fn map_set_holds_key_and_value() {
    let mut c = enabled();
    let exprs = [atom(1, "kv"), atom(2, "k"), atom(3, "v")];
    c.will_begin_call(&builtin("map-set"), CallArguments::Expressions(&exprs));
    c.did_finish_eval(&exprs[1], &Value::UInt(1));
    c.did_finish_eval(&exprs[2], &Value::Bool(true));
    // The result of `map-set` is of no account.
    finish(&mut c, "map-set", Ok(Value::Bool(false)));
    match &c.committed()[0] {
        VmTraceEvent::Storage(StorageEvent::MapSet(d)) => {
            assert_eq!(d.map_name, "kv");
            assert_eq!(d.raw_key, "0x0100000000000000000000000000000001");
            assert_eq!(d.raw_value, "0x03");
            assert_eq!(d.contract_identifier, contract("store"));
        }
        other => panic!("{other:?}"),
    }
}

#[test]
fn failed_calls_leave_no_trace() {
    let mut c = enabled();
    let exprs = [atom(1, "n"), atom(2, "x")];
    c.will_begin_call(&builtin("var-set"), CallArguments::Expressions(&exprs));
    c.did_finish_eval(&exprs[1], &Value::UInt(1));
    finish(&mut c, "var-set", Err(VmExecutionError { message: "cost".to_string() }));
    assert!(c.committed().is_empty());
    // Its frame is gone: finishing again finds none.
    finish(&mut c, "var-set", Ok(Value::Bool(true)));
    assert!(c.committed().is_empty());
}

#[test]
fn unchanged_deletion_leaves_no_trace() {
    let mut c = enabled();
    let exprs = [atom(1, "kv"), atom(2, "k")];
    c.will_begin_call(&builtin("map-delete"), CallArguments::Expressions(&exprs));
    c.did_finish_eval(&exprs[1], &Value::UInt(1));
    finish(&mut c, "map-delete", Ok(Value::Bool(false)));
    assert!(c.committed().is_empty());
    c.will_begin_call(&builtin("map-insert"), CallArguments::Expressions(&exprs));
    c.did_finish_eval(&exprs[1], &Value::UInt(1));
    finish(&mut c, "map-insert", Ok(Value::UInt(1)));
    assert!(c.committed().is_empty());
}

#[test]
fn unknown_arguments_leave_no_trace() {
    let mut c = enabled();
    let exprs = [atom(1, "kv"), atom(2, "k"), atom(3, "v")];
    for name in ["var-set", "map-set", "map-insert", "map-delete"] {
        c.will_begin_call(&builtin(name), CallArguments::Expressions(&exprs));
        c.did_finish_eval(&exprs[2], &Value::UInt(1));
        finish(&mut c, name, Ok(Value::Bool(true)));
    }
    c.will_begin_call(&builtin("map-set"), CallArguments::Expressions(&exprs[..2]));
    c.did_finish_eval(&exprs[1], &Value::UInt(1));
    finish(&mut c, "map-set", Ok(Value::Bool(true)));
    c.will_begin_call(&builtin("var-set"), CallArguments::Expressions(&[]));
    finish(&mut c, "var-set", Ok(Value::Bool(true)));
    assert!(c.committed().is_empty());
}

#[test]
fn values_that_cannot_be_encoded_leave_no_trace() {
    let long = Value::Principal(PrincipalData::Contract(contract(&"n".repeat(256))));
    let mut c = enabled();
    let exprs = [atom(1, "n"), atom(2, "x"), atom(3, "y")];
    for name in ["var-set", "map-set", "map-insert", "map-delete"] {
        c.will_begin_call(&builtin(name), CallArguments::Expressions(&exprs));
        c.did_finish_eval(&exprs[1], &long);
        c.did_finish_eval(&exprs[2], &Value::UInt(1));
        finish(&mut c, name, Ok(Value::Bool(true)));
    }
    let store = ContractContext { contract_identifier: contract("store") };
    let ctx = InvocationContext { contract_context: &store, sender: None };
    c.record_nested_call(&ctx, contract("callee"), "f".to_string(), &[], &long);
    assert!(c.committed().is_empty());
}

#[test]
fn other_functions_are_ignored() {
    let mut c = enabled();
    let exprs = [atom(1, "n"), atom(2, "x")];
    c.will_begin_call(&builtin("var-set"), CallArguments::Expressions(&exprs));
    c.did_finish_eval(&exprs[1], &Value::UInt(1));
    c.will_begin_call(&builtin("var-get"), CallArguments::Expressions(&exprs));
    finish(&mut c, "var-get", Ok(Value::Bool(true)));
    let user = CallHook::UserFunction { name: "var-set" };
    c.will_begin_call(&user, CallArguments::Expressions(&exprs));
    let store = ContractContext { contract_identifier: contract("store") };
    let ctx = InvocationContext { contract_context: &store, sender: None };
    c.did_finish_call(&ctx, &user, &Ok(Value::Bool(true)));
    assert!(c.committed().is_empty());
    finish(&mut c, "var-set", Ok(Value::Bool(true)));
    assert_eq!(c.committed(), &traces(&[1])[..]);
}

#[test]
fn nested_calls_take_their_own_frames() {
    let mut c = enabled();
    let outer = [atom(1, "n"), atom(2, "x")];
    let inner = [atom(3, "n"), atom(4, "y")];
    c.will_begin_call(&builtin("var-set"), CallArguments::Expressions(&outer));
    c.will_begin_call(&builtin("var-set"), CallArguments::Expressions(&inner));
    c.did_finish_eval(&inner[1], &Value::UInt(1));
    // Not an argument of the innermost call.
    c.did_finish_eval(&outer[1], &Value::UInt(77));
    finish(&mut c, "var-set", Ok(Value::Bool(true)));
    c.did_finish_eval(&outer[1], &Value::UInt(2));
    finish(&mut c, "var-set", Ok(Value::Bool(true)));
    assert_eq!(c.committed(), &traces(&[1, 2])[..]);
}

#[test]
fn arguments_by_index_and_by_id() {
    let mut c = enabled();
    let exprs = [atom(1, "n"), atom(2, "x")];
    // By id the first value stands.
    c.will_begin_call(&builtin("var-set"), CallArguments::Expressions(&exprs));
    c.did_finish_eval(&exprs[1], &Value::UInt(1));
    c.did_finish_eval(&exprs[1], &Value::UInt(2));
    finish(&mut c, "var-set", Ok(Value::Bool(true)));
    // By index the last one does, and an index beyond the arguments is ignored.
    c.will_begin_call(&builtin("var-set"), CallArguments::Expressions(&exprs));
    c.did_finish_eval(&exprs[1], &Value::UInt(3));
    c.did_evaluate_call_argument(1, &Value::UInt(4));
    c.did_evaluate_call_argument(2, &Value::UInt(5));
    finish(&mut c, "var-set", Ok(Value::Bool(true)));
    assert_eq!(c.committed(), &traces(&[1, 4])[..]);
}

#[test]
fn equal_ids_fill_the_first_argument() {
    let mut c = enabled();
    let exprs = [atom(1, "kv"), atom(0, "k"), atom(0, "v")];
    c.will_begin_call(&builtin("map-set"), CallArguments::Expressions(&exprs));
    c.did_finish_eval(&exprs[1], &Value::UInt(1));
    c.did_finish_eval(&exprs[2], &Value::UInt(2));
    finish(&mut c, "map-set", Ok(Value::Bool(true)));
    assert!(c.committed().is_empty());
}

#[test]
fn evaluated_arguments_have_no_name_and_no_ids() {
    let mut c = enabled();
    let values = [Value::UInt(0), Value::UInt(0)];
    c.will_begin_call(&builtin("var-set"), CallArguments::Values(&values));
    c.did_finish_eval(&atom(0, "x"), &Value::UInt(9));
    c.did_evaluate_call_argument(1, &Value::UInt(6));
    finish(&mut c, "var-set", Ok(Value::Bool(true)));
    match &c.committed()[0] {
        VmTraceEvent::Storage(StorageEvent::VarSet(d)) => {
            assert_eq!(d.var_name, "");
            assert_eq!(d.raw_value, "0x0100000000000000000000000000000006");
        }
        other => panic!("{other:?}"),
    }
}

#[test]
fn atoms_among_arguments() {
    let exprs = [
        atom(1, "n"),
        SymbolicExpression {
            expr: SymbolicExpressionType::LiteralValue(Value::UInt(1)),
            id: 2,
        },
    ];
    assert_eq!(atom_at(CallArguments::Expressions(&exprs), 0), Some("n".to_string()));
    assert_eq!(atom_at(CallArguments::Expressions(&exprs), 1), None);
    assert_eq!(atom_at(CallArguments::Expressions(&exprs), 2), None);
    assert_eq!(atom_at(CallArguments::Values(&[Value::UInt(1)]), 0), None);
}

#[test]
fn nested_call_holds_evaluated_arguments() {
    let caller = ContractContext { contract_identifier: contract("caller") };
    let ctx = InvocationContext {
        contract_context: &caller,
        sender: Some(PrincipalData::Standard(account())),
    };
    let args = [
        SymbolicExpression { expr: SymbolicExpressionType::AtomValue(Value::Bool(true)), id: 0 },
        atom(0, "skipped"),
        SymbolicExpression {
            expr: SymbolicExpressionType::LiteralValue(Value::Bool(true)),
            id: 0,
        },
        SymbolicExpression { expr: SymbolicExpressionType::AtomValue(Value::Bool(false)), id: 0 },
    ];
    let mut c = enabled();
    c.record_nested_call(&ctx, contract("callee"), "f".to_string(), &args, &Value::UInt(1));
    match &c.committed()[0] {
        VmTraceEvent::ContractCall(d) => {
            assert_eq!(d.contract_identifier, contract("callee"));
            assert_eq!(d.sender, Some(PrincipalData::Standard(account())));
            assert_eq!(d.caller, PrincipalData::Contract(contract("caller")));
            assert_eq!(d.function_name, "f");
            assert_eq!(d.raw_args, vec!["0x03".to_string(), "0x04".to_string()]);
            assert_eq!(d.raw_result, "0x0100000000000000000000000000000001");
        }
        other => panic!("{other:?}"),
    }
}

/// Replays the traces of the map `kv`.
fn replay(events: &[VmTraceEvent]) -> Vec<(String, String)> {
    let mut entries: Vec<(String, String)> = vec![];
    for e in events {
        match e {
            VmTraceEvent::Storage(StorageEvent::MapSet(d))
            | VmTraceEvent::Storage(StorageEvent::MapInsert(d)) => {
                entries.retain(|(k, _)| *k != d.raw_key);
                entries.push((d.raw_key.clone(), d.raw_value.clone()));
            }
            VmTraceEvent::Storage(StorageEvent::MapDelete(d)) => {
                entries.retain(|(k, _)| *k != d.raw_key);
            }
            _ => {}
        }
    }
    entries.sort();
    entries
}

fn map_call(c: &mut StorageTraceCollector, name: &str, values: &[Value], by_index: bool, ok: bool) {
    let exprs = [atom(1, "kv"), atom(2, "k"), atom(3, "v")];
    let exprs = &exprs[..values.len() + 1];
    c.will_begin_call(&builtin(name), CallArguments::Expressions(exprs));
    for (i, value) in values.iter().enumerate() {
        if by_index {
            c.did_evaluate_call_argument(i + 1, value);
        } else {
            c.did_finish_eval(&exprs[i + 1], value);
        }
    }
    finish(c, name, Ok(Value::Bool(ok)));
}

#[test]
fn committed_log_reconstructs_a_map() {
    let mut c = enabled();
    c.begin_batch();
    map_call(&mut c, "map-set", &[Value::UInt(1), Value::Bool(true)], false, true);
    map_call(&mut c, "map-insert", &[Value::UInt(1), Value::Bool(false)], true, false);
    c.begin_batch();
    map_call(&mut c, "map-insert", &[Value::UInt(2), Value::Bool(false)], true, true);
    map_call(&mut c, "map-delete", &[Value::UInt(3)], false, false);
    c.commit_batch();
    c.begin_batch();
    map_call(&mut c, "map-delete", &[Value::UInt(2)], false, true);
    c.rollback_batch(false);
    c.commit_batch();
    c.begin_batch();
    map_call(&mut c, "map-set", &[Value::UInt(4), Value::Bool(true)], false, true);
    map_call(&mut c, "map-delete", &[Value::UInt(1)], true, true);
    c.commit_batch();
    let raw = |n: u128| format!("0x01{n:032x}");
    assert_eq!(
        replay(c.committed()),
        vec![(raw(2), "0x04".to_string()), (raw(4), "0x03".to_string())]
    );
}

#[test]
fn committed_log_reconstructs_a_variable() {
    let mut c = enabled();
    c.begin_batch();
    for n in [3, 1, 4, 1, 5] {
        let exprs = [atom(1, "n"), atom(2, "x")];
        c.will_begin_call(&builtin("var-set"), CallArguments::Expressions(&exprs));
        c.did_finish_eval(&exprs[1], &Value::UInt(n));
        finish(&mut c, "var-set", Ok(Value::Bool(true)));
    }
    c.commit_batch();
    let log = raw_values(c.committed());
    assert_eq!(log.len(), 5);
    assert_eq!(log[4], "0x0100000000000000000000000000000005");
}

#[test]
fn committed_log_reconstructs_amid_other_hooks() {
    let mut c = enabled();
    let other = atom(90, "y");
    c.begin_batch();
    c.push_event(trace(1));
    c.will_begin_call(&builtin("ok"), CallArguments::Values(&[]));
    let outer = [atom(1, "n"), atom(2, "x")];
    c.will_begin_call(&builtin("var-set"), CallArguments::Expressions(&outer));
    c.will_begin_call(&builtin("+"), CallArguments::Values(&[]));
    c.did_finish_eval(&other, &Value::UInt(7));
    c.did_evaluate_call_argument(2, &Value::UInt(8));
    finish(&mut c, "+", Ok(Value::UInt(15)));
    let inner = [atom(3, "n"), atom(4, "x")];
    c.will_begin_call(&builtin("var-set"), CallArguments::Expressions(&inner));
    c.did_finish_eval(&outer[1], &Value::UInt(9));
    c.did_finish_eval(&inner[1], &Value::UInt(10));
    finish(&mut c, "var-set", Err(VmExecutionError { message: "cost".to_string() }));
    c.did_finish_eval(&outer[1], &Value::UInt(2));
    finish(&mut c, "var-set", Ok(Value::Bool(true)));
    c.did_finish_eval(&other, &Value::Bool(true));
    finish(&mut c, "ok", Ok(Value::Bool(true)));
    c.push_event(trace(3));
    c.commit_batch();
    assert_eq!(c.committed(), &traces(&[1, 2, 3])[..]);
}

/// The traces in a log and those that its markers count.
fn tally(events: &[VmTraceEvent]) -> u64 {
    events
        .iter()
        .map(|e| match e {
            VmTraceEvent::Truncated { dropped } => *dropped,
            _ => 1,
        })
        .sum()
}

fn long_trace() -> VmTraceEvent {
    let name = "n".repeat(2000);
    VmTraceEvent::Storage(StorageEvent::VarSet(
        VarSetEventData::try_from_value(contract("store"), name, &Value::UInt(0)).unwrap(),
    ))
}

#[test]
fn fitting_trace_of_an_inner_batch_stands_behind_an_outer_marker() {
    let mut c = enabled();
    c.set_max_bytes(1000);
    c.begin_batch();
    c.push_event(long_trace());
    c.push_event(trace(1));
    c.begin_batch();
    c.push_event(trace(2));
    c.push_event(long_trace());
    c.push_event(trace(3));
    c.commit_batch();
    c.push_event(trace(4));
    c.begin_batch();
    c.push_event(trace(5));
    c.push_event(long_trace());
    c.rollback_batch(false);
    c.commit_batch();
    assert_eq!(c.committed().len(), 3);
    assert_eq!(c.committed()[0], VmTraceEvent::Truncated { dropped: 2 });
    assert_eq!(c.committed()[1], trace(2));
    assert_eq!(c.committed()[2], VmTraceEvent::Truncated { dropped: 3 });
    assert_eq!(tally(c.committed()), 6);
}

#[test]
fn capped_hooks_are_kept_or_counted() {
    let mut c = enabled();
    c.set_max_bytes(trace(0).approx_size() * 2);
    c.begin_batch();
    for n in 0..4 {
        c.begin_batch();
        let exprs = [atom(1, "n"), atom(2, "x")];
        c.will_begin_call(&builtin("var-set"), CallArguments::Expressions(&exprs));
        c.did_finish_eval(&exprs[1], &Value::UInt(n));
        finish(&mut c, "var-set", Ok(Value::Bool(true)));
        c.push_event(trace(n + 10));
        if n == 1 {
            c.rollback_batch(false);
        } else {
            c.commit_batch();
        }
    }
    c.commit_batch();
    assert_eq!(tally(c.committed()), 6);
    assert_eq!(&c.committed()[..2], &traces(&[0, 10])[..]);
}
