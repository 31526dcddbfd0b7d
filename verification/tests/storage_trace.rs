use storage_trace::collector::StorageTraceCollector;
use storage_trace::events::{StorageEvent, VarSetEventData, VmTraceEvent};
use storage_trace::hooks::{
    CallArguments, CallHook, ContractContext, InvocationContext, SymbolicExpression,
    SymbolicExpressionType, VmExecutionError,
};
use storage_trace::principal::{
    PrincipalData, QualifiedContractIdentifier, StandardPrincipalData,
};
use storage_trace::value::{ResponseData, Value};

fn transient() -> StandardPrincipalData {
    StandardPrincipalData { version: 1, hash: [1; 20] }
}

fn local(name: &str) -> QualifiedContractIdentifier {
    QualifiedContractIdentifier { issuer: transient(), name: name.to_string() }
}

fn store_id() -> QualifiedContractIdentifier {
    local("store")
}

fn context(name: &str) -> ContractContext {
    ContractContext { contract_identifier: local(name) }
}

fn invocation(contract: &ContractContext) -> InvocationContext<'_> {
    InvocationContext {
        contract_context: contract,
        sender: Some(PrincipalData::Standard(transient())),
    }
}

fn atom(id: u64, name: &str) -> SymbolicExpression {
    SymbolicExpression { expr: SymbolicExpressionType::Atom(name.to_string()), id }
}

fn builtin(name: &str) -> CallHook<'_> {
    CallHook::Builtin { clarity_name: name }
}

/// The hooks of a storage builtin on `target` whose further arguments are
/// variables, which come out as `values`.
fn storage_call(
    c: &mut StorageTraceCollector,
    contract: &ContractContext,
    name: &str,
    target: &str,
    values: Vec<Value>,
    res: Result<Value, VmExecutionError>,
) {
    let mut exprs = vec![atom(10, target)];
    for i in 0..values.len() {
        exprs.push(atom(11 + i as u64, "x"));
    }
    c.will_begin_call(&builtin(name), CallArguments::Expressions(&exprs));
    for (i, value) in values.iter().enumerate() {
        c.did_finish_eval(&exprs[i + 1], value);
    }
    c.did_finish_call(&invocation(contract), &builtin(name), &res);
}

fn set_n(c: &mut StorageTraceCollector, n: u128) {
    storage_call(
        c,
        &context("store"),
        "var-set",
        "n",
        vec![Value::UInt(n)],
        Ok(Value::Bool(true)),
    );
}

fn ok_true() -> Value {
    Value::Response(ResponseData { committed: true, data: Box::new(Value::Bool(true)) })
}

fn err_one() -> Value {
    Value::Response(ResponseData { committed: false, data: Box::new(Value::UInt(1)) })
}

fn enabled() -> StorageTraceCollector {
    let mut c = StorageTraceCollector::default();
    c.set_enabled(true);
    c
}

fn var_set_trace(n: u128) -> VmTraceEvent {
    VmTraceEvent::Storage(StorageEvent::VarSet(
        VarSetEventData::try_from_value(store_id(), "n".into(), &Value::UInt(n)).unwrap(),
    ))
}

#[test]
fn off_emits_nothing() {
    let mut c = StorageTraceCollector::default();
    c.begin_batch();
    set_n(&mut c, 3);
    c.commit_batch();
    assert!(c.committed().is_empty());
    assert!(c.take_committed().is_empty());
}

#[test]
fn var_set_isolated_from_classic_events() {
    let mut c = enabled();
    c.begin_batch();
    // `print` is a builtin of its own, and leaves no trace here.
    let printed = [atom(5, "x")];
    c.will_begin_call(&builtin("print"), CallArguments::Expressions(&printed));
    c.did_finish_eval(&printed[0], &Value::UInt(4));
    let store = context("store");
    c.did_finish_call(&invocation(&store), &builtin("print"), &Ok(Value::UInt(4)));
    set_n(&mut c, 4);
    c.commit_batch();
    assert_eq!(c.committed().len(), 1);
    match &c.committed()[0] {
        VmTraceEvent::Storage(StorageEvent::VarSet(data)) => {
            assert_eq!(data.var_name, "n");
            assert_eq!(data.raw_value, "0x0100000000000000000000000000000004");
            assert_eq!(data.contract_identifier, store_id());
        }
        other => panic!("expected var_set, got {other:?}"),
    }
}

#[test]
fn map_insert_delete_only_on_change() {
    let mut c = enabled();
    let store = context("store");

    c.begin_batch();
    storage_call(
        &mut c,
        &store,
        "map-insert",
        "kv",
        vec![Value::UInt(1), Value::UInt(2)],
        Ok(Value::Bool(true)),
    );
    c.commit_batch();
    assert_eq!(c.committed().len(), 1);
    assert!(matches!(
        c.committed()[0],
        VmTraceEvent::Storage(StorageEvent::MapInsert(_))
    ));
    assert_eq!(c.take_committed().len(), 1);

    c.begin_batch();
    storage_call(
        &mut c,
        &store,
        "map-insert",
        "kv",
        vec![Value::UInt(1), Value::UInt(3)],
        Ok(Value::Bool(false)),
    );
    c.commit_batch();
    assert!(c.committed().is_empty(), "no-op insert must not emit");
    assert!(c.take_committed().is_empty());

    c.begin_batch();
    storage_call(
        &mut c,
        &store,
        "map-delete",
        "kv",
        vec![Value::UInt(1)],
        Ok(Value::Bool(true)),
    );
    c.commit_batch();
    assert!(matches!(
        c.committed()[0],
        VmTraceEvent::Storage(StorageEvent::MapDelete(_))
    ));
}

#[test]
fn failed_inner_drops_writes_keeps_call_if_caller_commits() {
    let mut c = enabled();
    let callee = context("callee");
    let caller = context("caller");
    c.begin_batch();
    c.begin_batch();
    storage_call(&mut c, &callee, "var-set", "n", vec![Value::UInt(9)], Ok(Value::Bool(true)));
    c.rollback_batch(false);
    c.record_nested_call(
        &invocation(&caller),
        local("callee"),
        "fail-after-set".to_string(),
        &[],
        &err_one(),
    );
    c.commit_batch();
    let traces = c.committed();
    assert!(
        traces.iter().any(|e| matches!(e, VmTraceEvent::ContractCall(_))),
        "nested call kept: {traces:?}"
    );
    assert!(
        traces.iter().all(|e| !matches!(e, VmTraceEvent::Storage(_))),
        "inner writes rolled back: {traces:?}"
    );
}

#[test]
fn nested_call_then_storage_order() {
    let mut c = enabled();
    let callee = context("callee");
    let caller = context("caller");
    c.begin_batch();
    c.begin_batch();
    storage_call(&mut c, &callee, "var-set", "n", vec![Value::UInt(1)], Ok(Value::Bool(true)));
    c.commit_batch();
    c.record_nested_call(
        &invocation(&caller),
        local("callee"),
        "inc".to_string(),
        &[],
        &ok_true(),
    );
    c.commit_batch();
    let traces = c.committed();
    assert_eq!(traces.len(), 2, "{traces:?}");
    assert!(
        matches!(traces[0], VmTraceEvent::Storage(StorageEvent::VarSet(_))),
        "callee write first: {traces:?}"
    );
    assert!(
        matches!(traces[1], VmTraceEvent::ContractCall(_)),
        "enclosing call after inner writes: {traces:?}"
    );
}

#[test]
fn read_only_nested_call_kept() {
    let mut c = enabled();
    let caller = context("caller");
    c.begin_batch();
    c.begin_batch();
    c.record_nested_call(
        &invocation(&caller),
        local("callee"),
        "peek".to_string(),
        &[],
        &Value::UInt(0),
    );
    c.rollback_batch(true);
    c.commit_batch();
    assert!(
        c.committed().iter().any(|e| matches!(e, VmTraceEvent::ContractCall(_))),
        "read-only nested call kept: {:?}",
        c.committed()
    );
}

#[test]
fn define_data_var_init_emits_var_set() {
    let mut c = enabled();
    c.begin_batch();
    c.push_event(var_set_trace(0));
    c.commit_batch();
    let traces = c.committed();
    assert!(
        traces.iter().any(|e| matches!(
            e,
            VmTraceEvent::Storage(StorageEvent::VarSet(d)) if d.var_name == "n"
        )),
        "deploy-time var init: {traces:?}"
    );
}

#[test]
fn failed_public_drops_own_writes() {
    let mut c = enabled();
    c.begin_batch();
    set_n(&mut c, 9);
    c.rollback_batch(false);
    assert!(
        c.committed().is_empty(),
        "aborted public fn drops traces: {:?}",
        c.committed()
    );
}

#[test]
fn unlimited_cap_keeps_every_event() {
    let mut c = StorageTraceCollector::default();
    c.set_enabled(true);
    c.set_max_bytes(0);
    for i in 0..50 {
        c.push_event(var_set_trace(i));
    }
    assert_eq!(c.committed().len(), 50);
    assert!(
        c.committed()
            .iter()
            .all(|e| !matches!(e, VmTraceEvent::Truncated { .. }))
    );
}

#[test]
fn positive_cap_emits_truncated_and_drops_rest() {
    let mut c = StorageTraceCollector::default();
    c.set_enabled(true);
    let first = var_set_trace(1);
    c.set_max_bytes(first.approx_size().saturating_add(8));
    c.push_event(first);
    c.push_event(var_set_trace(2));
    c.push_event(var_set_trace(3));
    assert_eq!(c.committed().len(), 2, "{:?}", c.committed());
    assert!(matches!(
        c.committed()[0],
        VmTraceEvent::Storage(StorageEvent::VarSet(_))
    ));
    assert!(matches!(
        c.committed()[1],
        VmTraceEvent::Truncated { dropped: 2 }
    ));
}

#[test]
fn rolled_back_truncated_batch_does_not_poison_parent() {
    let mut c = StorageTraceCollector::default();
    c.set_enabled(true);
    c.set_max_bytes(1);
    c.begin_batch();
    c.begin_batch();
    c.push_event(var_set_trace(1));
    assert!(c.committed().last().is_none());
    c.rollback_batch(false);
    c.set_max_bytes(0);
    c.push_event(var_set_trace(9));
    c.commit_batch();
    assert_eq!(c.committed().len(), 1);
    assert!(matches!(
        c.committed()[0],
        VmTraceEvent::Storage(StorageEvent::VarSet(_))
    ));
}

#[test]
fn env_unlimited_by_default_records_writes() {
    let mut c = enabled();
    c.set_max_bytes(0);
    c.begin_batch();
    set_n(&mut c, 3);
    c.commit_batch();
    assert!(matches!(
        c.committed()[0],
        VmTraceEvent::Storage(StorageEvent::VarSet(_))
    ));
}

#[test]
fn env_tiny_cap_emits_truncated() {
    let mut c = enabled();
    c.set_max_bytes(1);
    c.begin_batch();
    set_n(&mut c, 3);
    c.commit_batch();
    assert_eq!(c.committed().len(), 1);
    assert!(matches!(
        c.committed()[0],
        VmTraceEvent::Truncated { dropped: 1 }
    ));
}
