//! Models say of a thing all that it holds, and nothing else.

use vstd::prelude::*;
#[allow(unused_imports)]
use crate::collector::{event_views, result_view};
#[allow(unused_imports)]
use crate::events::{
    all_encodable, arg_views, raw_text, raw_texts, sender_view, text_views, EventView,
    MapDeleteEventData, MapWriteEventData, StorageEvent, StorageView, VarSetEventData,
    VmTraceEvent,
};
#[allow(unused_imports)]
use crate::consensus::encodable;
#[allow(unused_imports)]
use crate::hooks::{
    atom_values, CallArguments, SymbolicExpression, SymbolicExpressionType, VmExecutionError,
};
#[allow(unused_imports)]
use crate::principal::{PrincipalData, PrincipalView};
#[allow(unused_imports)]
use crate::value::{entry_views, item_views, Value, ValueView};

verus! {

/// A principal is modelled by its own version, hash and name.
pub proof fn law_principal_is_modelled(principal: PrincipalData)
    ensures
        match principal {
            PrincipalData::Standard(account) => {
                &&& principal@ matches PrincipalView::Standard(view)
                &&& view.version == account.version
                &&& view.hash == account.hash
            },
            PrincipalData::Contract(contract) => {
                &&& principal@ matches PrincipalView::Contract(view)
                &&& view.issuer.version == contract.issuer.version
                &&& view.issuer.hash == contract.issuer.hash
                &&& view.name == contract.name@
                &&& view == contract@
            },
        },
        sender_view(Some(principal)) == Some(principal@),
        sender_view(None) is None,
{
}

/// A value is modelled as a value of its own type with its own contents.
pub proof fn law_value_is_modelled(value: Value)
    ensures
        match value {
            Value::Int(n) => value@ == ValueView::Int(n),
            Value::UInt(n) => value@ == ValueView::UInt(n),
            Value::Bool(b) => value@ == ValueView::Bool(b),
            Value::Buffer(bytes) => value@ == ValueView::Buffer(bytes@),
            Value::StringAscii(bytes) => value@ == ValueView::StringAscii(bytes@),
            Value::StringUtf8(text) => value@ == ValueView::StringUtf8(text@),
            Value::Principal(principal) => value@ == ValueView::Principal(principal@),
            Value::Optional(opt) => match opt.data {
                None => value@ is OptionalNone,
                Some(inner) => value@ matches ValueView::OptionalSome(view) && *view
                    == (*inner)@,
            },
            Value::Response(res) => value@ matches ValueView::Response(committed, view)
                && committed == res.committed && *view == (*res.data)@,
            Value::List(items) => value@ matches ValueView::List(views) && views.len()
                == items@.len() && forall|i: int|
                0 <= i < items@.len() ==> #[trigger] views[i] == items@[i]@,
            Value::Tuple(entries) => value@ matches ValueView::Tuple(views) && views.len()
                == entries@.len() && forall|i: int|
                0 <= i < entries@.len() ==> (#[trigger] views[i]).0 == entries@[i].name@
                    && views[i].1 == entries@[i].value@,
        },
{
    match value {
        Value::List(items) => {
            assert(value@ == ValueView::List(item_views(items@)));
        },
        Value::Tuple(entries) => {
            assert(value@ == ValueView::Tuple(entry_views(entries@)));
        },
        _ => {},
    }
}

/// The result of a call is modelled by its value, and a failure by none.
pub proof fn law_result_is_modelled(res: Result<Value, VmExecutionError>)
    ensures
        res matches Ok(value) ==> result_view(res) == Some(value@),
        res is Err ==> result_view(res) is None,
{
}

/// A storage event is modelled as one of its own kind with its own contents.
pub proof fn law_storage_event_is_modelled(event: StorageEvent)
    ensures
        match event {
            StorageEvent::VarSet(data) => {
                &&& event@ matches StorageView::VarSet(view)
                &&& view.contract == data.contract_identifier@
                &&& view.var_name == data.var_name@
                &&& view.raw_value == data.raw_value@
            },
            StorageEvent::MapSet(data) => {
                &&& event@ matches StorageView::MapSet(view)
                &&& view.contract == data.contract_identifier@
                &&& view.map_name == data.map_name@
                &&& view.raw_key == data.raw_key@
                &&& view.raw_value == data.raw_value@
            },
            StorageEvent::MapInsert(data) => {
                &&& event@ matches StorageView::MapInsert(view)
                &&& view.contract == data.contract_identifier@
                &&& view.map_name == data.map_name@
                &&& view.raw_key == data.raw_key@
                &&& view.raw_value == data.raw_value@
            },
            StorageEvent::MapDelete(data) => {
                &&& event@ matches StorageView::MapDelete(view)
                &&& view.contract == data.contract_identifier@
                &&& view.map_name == data.map_name@
                &&& view.raw_key == data.raw_key@
            },
        },
{
}

/// The data of an event say the same by themselves as in the event.
pub proof fn law_event_data_are_modelled(
    var_set: VarSetEventData,
    map_write: MapWriteEventData,
    map_delete: MapDeleteEventData,
)
    ensures
        StorageEvent::VarSet(var_set)@ == StorageView::VarSet(var_set@),
        StorageEvent::MapSet(map_write)@ == StorageView::MapSet(map_write@),
        StorageEvent::MapInsert(map_write)@ == StorageView::MapInsert(map_write@),
        StorageEvent::MapDelete(map_delete)@ == StorageView::MapDelete(map_delete@),
{
}

/// A trace is modelled as one of its own kind with its own contents.
pub proof fn law_trace_is_modelled(event: VmTraceEvent)
    ensures
        match event {
            VmTraceEvent::Storage(inner) => event@ == EventView::Storage(inner@),
            VmTraceEvent::ContractCall(data) => {
                &&& event@ matches EventView::ContractCall(view)
                &&& view == data@
                &&& view.contract == data.contract_identifier@
                &&& view.sender == (match data.sender {
                    Some(principal) => Some(principal@),
                    None => None,
                })
                &&& view.caller == data.caller@
                &&& view.function_name == data.function_name@
                &&& view.raw_args.len() == data.raw_args@.len()
                &&& forall|i: int|
                    0 <= i < data.raw_args@.len() ==> #[trigger] view.raw_args[i]
                        == data.raw_args@[i]@
                &&& view.raw_result == data.raw_result@
            },
            VmTraceEvent::Truncated { dropped } => event@ == EventView::Truncated(dropped),
        },
        event@.is_marker() <==> event is Truncated,
{
}

/// Several things are modelled one by one.
pub proof fn law_several_are_modelled(
    events: Seq<VmTraceEvent>,
    args: Seq<&Value>,
    values: Seq<ValueView>,
    texts: Seq<String>,
)
    ensures
        event_views(events).len() == events.len(),
        forall|i: int|
            0 <= i < events.len() ==> #[trigger] event_views(events)[i] == events[i]@,
        arg_views(args).len() == args.len(),
        forall|i: int| 0 <= i < args.len() ==> #[trigger] arg_views(args)[i] == args[i]@,
        text_views(texts).len() == texts.len(),
        forall|i: int| 0 <= i < texts.len() ==> #[trigger] text_views(texts)[i] == texts[i]@,
        raw_texts(values).len() == values.len(),
        forall|i: int|
            0 <= i < values.len() ==> #[trigger] raw_texts(values)[i] == raw_text(values[i]),
        all_encodable(values) <==> forall|i: int|
            0 <= i < values.len() ==> encodable(#[trigger] values[i]),
{
}

/// An expression is a name only as an atom, and a value only as an atom value.
pub proof fn law_expression_is_modelled(expr: SymbolicExpression)
    ensures
        match expr.expr {
            SymbolicExpressionType::Atom(name) => expr.atom() == Some(name@)
                && expr.atom_value() is None,
            SymbolicExpressionType::AtomValue(value) => expr.atom() is None && expr.atom_value()
                == Some(value@),
            _ => expr.atom() is None && expr.atom_value() is None,
        },
{
}

/// Arguments that are expressions are awaited one by one, each under the id of its own
/// expression whatever its form; those that are values have no ids and no names.
pub proof fn law_arguments_are_modelled(args: CallArguments, index: int)
    ensures
        match args {
            CallArguments::Expressions(exprs) => {
                &&& args.count() == exprs@.len()
                &&& args.ids().len() == exprs@.len()
                &&& forall|i: int|
                    0 <= i < exprs@.len() ==> #[trigger] args.ids()[i] == exprs@[i].id
                &&& 0 <= index < exprs@.len() ==> args.atom_at(index) == (
                match exprs@[index].expr {
                    SymbolicExpressionType::Atom(name) => Some(name@),
                    _ => None,
                })
                &&& !(0 <= index < exprs@.len()) ==> args.atom_at(index) is None
            },
            CallArguments::Values(vals) => {
                &&& args.count() == vals@.len()
                &&& args.ids().len() == 0
                &&& args.atom_at(index) is None
            },
        },
{
}

/// The values among some expressions are those of the first ones and then those of the
/// others; of a single expression it is its value if it is an atom value, and none else.
pub proof fn law_values_among_expressions(
    a: Seq<SymbolicExpression>,
    b: Seq<SymbolicExpression>,
    expr: SymbolicExpression,
)
    ensures
        atom_values(a + b) == atom_values(a) + atom_values(b),
        atom_values(seq![expr]) == (match expr.expr {
            SymbolicExpressionType::AtomValue(value) => seq![value@],
            _ => Seq::empty(),
        }),
        atom_values(Seq::empty()).len() == 0,
    decreases b.len(),
{
    assert(seq![expr].drop_last() =~= Seq::empty());
    assert(atom_values(seq![expr].drop_last()) =~= Seq::empty());
    assert(seq![expr].last() == expr);
    assert(atom_values(seq![expr]) =~= (match expr.expr {
        SymbolicExpressionType::AtomValue(value) => seq![value@],
        _ => Seq::empty(),
    }));
    if b.len() == 0 {
        assert(a + b =~= a);
        assert(atom_values(a) + atom_values(b) =~= atom_values(a));
    } else {
        law_values_among_expressions(a, b.drop_last(), expr);
        assert((a + b).drop_last() =~= a + b.drop_last());
        assert(atom_values(a + b) =~= atom_values(a) + atom_values(b));
    }
}

/// Arguments that are all atom values are all taken, each at its place.
pub proof fn law_evaluated_arguments_are_all_taken(exprs: Seq<SymbolicExpression>)
    requires
        forall|i: int| 0 <= i < exprs.len() ==> (#[trigger] exprs[i]).expr is AtomValue,
    ensures
        atom_values(exprs).len() == exprs.len(),
        forall|i: int|
            #![trigger exprs[i]]
            0 <= i < exprs.len() ==> atom_values(exprs)[i] == exprs[i].expr->AtomValue_0@,
    decreases exprs.len(),
{
    if exprs.len() > 0 {
        let shorter = exprs.drop_last();
        assert(forall|i: int| 0 <= i < shorter.len() ==> #[trigger] shorter[i] == exprs[i]);
        law_evaluated_arguments_are_all_taken(shorter);
        assert(exprs.last() == exprs[exprs.len() - 1]);
        assert forall|i: int| #![trigger exprs[i]] 0 <= i < exprs.len() implies atom_values(
            exprs,
        )[i] == exprs[i].expr->AtomValue_0@ by {
            if i < shorter.len() {
                assert(shorter[i] == exprs[i]);
            }
        }
    }
}

} // verus!
