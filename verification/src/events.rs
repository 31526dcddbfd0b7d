//! The traces that the collector keeps. Values stand in them as hexadecimal
//! text of their consensus encoding.

use vstd::prelude::*;
#[allow(unused_imports)]
use vstd::string::*;
use crate::consensus::SerializationError;
#[allow(unused_imports)]
use crate::consensus::{encodable, encoding};
use crate::hex::to_hex_text;
#[allow(unused_imports)]
use crate::hex::hex_text;
use crate::principal::{PrincipalData, QualifiedContractIdentifier};
#[allow(unused_imports)]
use crate::principal::{ContractView, PrincipalView};
use crate::value::Value;
#[allow(unused_imports)]
use crate::value::ValueView;

verus! {

/// A data variable got a value.
#[derive(Debug, PartialEq, Eq)]
pub struct VarSetEventData {
    pub contract_identifier: QualifiedContractIdentifier,
    pub var_name: String,
    pub raw_value: String,
}

/// A map got a value for a key.
#[derive(Debug, PartialEq, Eq)]
pub struct MapWriteEventData {
    pub contract_identifier: QualifiedContractIdentifier,
    pub map_name: String,
    pub raw_key: String,
    pub raw_value: String,
}

/// A map lost a key.
#[derive(Debug, PartialEq, Eq)]
pub struct MapDeleteEventData {
    pub contract_identifier: QualifiedContractIdentifier,
    pub map_name: String,
    pub raw_key: String,
}

/// A contract called a function of another one.
#[derive(Debug, PartialEq, Eq)]
pub struct ContractCallEventData {
    pub contract_identifier: QualifiedContractIdentifier,
    pub sender: Option<PrincipalData>,
    pub caller: PrincipalData,
    pub function_name: String,
    pub raw_args: Vec<String>,
    pub raw_result: String,
}

/// A change of a contract's storage.
#[derive(Debug, PartialEq, Eq)]
pub enum StorageEvent {
    VarSet(VarSetEventData),
    MapSet(MapWriteEventData),
    MapInsert(MapWriteEventData),
    MapDelete(MapDeleteEventData),
}

/// A trace.
#[derive(Debug, PartialEq, Eq)]
pub enum VmTraceEvent {
    Storage(StorageEvent),
    ContractCall(ContractCallEventData),
    /// Stands where traces were left out, and counts them.
    Truncated { dropped: u64 },
}

/// The model of [`VarSetEventData`].
#[verifier::ext_equal]
pub struct VarSetView {
    pub contract: ContractView,
    pub var_name: Seq<char>,
    pub raw_value: Seq<char>,
}

/// The model of [`MapWriteEventData`].
#[verifier::ext_equal]
pub struct MapWriteView {
    pub contract: ContractView,
    pub map_name: Seq<char>,
    pub raw_key: Seq<char>,
    pub raw_value: Seq<char>,
}

/// The model of [`MapDeleteEventData`].
#[verifier::ext_equal]
pub struct MapDeleteView {
    pub contract: ContractView,
    pub map_name: Seq<char>,
    pub raw_key: Seq<char>,
}

/// The model of [`ContractCallEventData`].
#[verifier::ext_equal]
pub struct ContractCallView {
    pub contract: ContractView,
    pub sender: Option<PrincipalView>,
    pub caller: PrincipalView,
    pub function_name: Seq<char>,
    pub raw_args: Seq<Seq<char>>,
    pub raw_result: Seq<char>,
}

/// The model of [`StorageEvent`].
#[verifier::ext_equal]
pub enum StorageView {
    VarSet(VarSetView),
    MapSet(MapWriteView),
    MapInsert(MapWriteView),
    MapDelete(MapDeleteView),
}

/// The model of [`VmTraceEvent`].
#[verifier::ext_equal]
pub enum EventView {
    Storage(StorageView),
    ContractCall(ContractCallView),
    Truncated(u64),
}

/// The text that stands for a value in a trace.
pub open spec fn raw_text(value: ValueView) -> Seq<char> {
    hex_text(encoding(value))
}

/// The model of an optional principal.
pub open spec fn sender_view(sender: Option<PrincipalData>) -> Option<PrincipalView> {
    match sender {
        None => None,
        Some(principal) => Some(principal@),
    }
}

/// The contents of several texts.
pub open spec fn text_views(texts: Seq<String>) -> Seq<Seq<char>> {
    Seq::new(texts.len(), |i: int| texts[i]@)
}

impl View for VarSetEventData {
    type V = VarSetView;

    open spec fn view(&self) -> VarSetView {
        VarSetView {
            contract: self.contract_identifier@,
            var_name: self.var_name@,
            raw_value: self.raw_value@,
        }
    }
}

impl View for MapWriteEventData {
    type V = MapWriteView;

    open spec fn view(&self) -> MapWriteView {
        MapWriteView {
            contract: self.contract_identifier@,
            map_name: self.map_name@,
            raw_key: self.raw_key@,
            raw_value: self.raw_value@,
        }
    }
}

impl View for MapDeleteEventData {
    type V = MapDeleteView;

    open spec fn view(&self) -> MapDeleteView {
        MapDeleteView {
            contract: self.contract_identifier@,
            map_name: self.map_name@,
            raw_key: self.raw_key@,
        }
    }
}

impl View for ContractCallEventData {
    type V = ContractCallView;

    open spec fn view(&self) -> ContractCallView {
        ContractCallView {
            contract: self.contract_identifier@,
            sender: sender_view(self.sender),
            caller: self.caller@,
            function_name: self.function_name@,
            raw_args: text_views(self.raw_args@),
            raw_result: self.raw_result@,
        }
    }
}

impl View for StorageEvent {
    type V = StorageView;

    open spec fn view(&self) -> StorageView {
        match self {
            StorageEvent::VarSet(data) => StorageView::VarSet(data@),
            StorageEvent::MapSet(data) => StorageView::MapSet(data@),
            StorageEvent::MapInsert(data) => StorageView::MapInsert(data@),
            StorageEvent::MapDelete(data) => StorageView::MapDelete(data@),
        }
    }
}

impl EventView {
    pub open spec fn is_marker(self) -> bool {
        self is Truncated
    }
}

impl View for VmTraceEvent {
    type V = EventView;

    open spec fn view(&self) -> EventView {
        match self {
            VmTraceEvent::Storage(event) => EventView::Storage(event@),
            VmTraceEvent::ContractCall(data) => EventView::ContractCall(data@),
            VmTraceEvent::Truncated { dropped } => EventView::Truncated(*dropped),
        }
    }
}

/// The text that stands for a value in a trace, if the value can be encoded.
pub fn to_raw_text(value: &Value) -> (res: Result<String, SerializationError>)
    ensures
        match res {
            Ok(text) => encodable(value@) && text@ == raw_text(value@),
            Err(e) => !encodable(value@) && e == SerializationError::LengthOverflow,
        },
{
    let bytes: Vec<u8> = value.serialize_to_vec()?;
    Ok(to_hex_text(bytes.as_slice()))
}

impl VarSetEventData {
    /// The trace of setting a variable, if the value can be encoded.
    pub fn try_from_value(
        contract_identifier: QualifiedContractIdentifier,
        var_name: String,
        value: &Value,
    ) -> (res: Result<Self, SerializationError>)
        ensures
            match res {
                Ok(data) => encodable(value@) && data@ == (VarSetView {
                    contract: contract_identifier@,
                    var_name: var_name@,
                    raw_value: raw_text(value@),
                }),
                Err(e) => !encodable(value@) && e == SerializationError::LengthOverflow,
            },
    {
        let raw_value: String = to_raw_text(value)?;
        Ok(VarSetEventData { contract_identifier, var_name, raw_value })
    }
}

impl MapWriteEventData {
    /// The trace of writing to a map, if the key and the value can be encoded.
    pub fn try_from_values(
        contract_identifier: QualifiedContractIdentifier,
        map_name: String,
        key: &Value,
        value: &Value,
    ) -> (res: Result<Self, SerializationError>)
        ensures
            match res {
                Ok(data) => encodable(key@) && encodable(value@) && data@ == (MapWriteView {
                    contract: contract_identifier@,
                    map_name: map_name@,
                    raw_key: raw_text(key@),
                    raw_value: raw_text(value@),
                }),
                Err(e) => !(encodable(key@) && encodable(value@)) && e
                    == SerializationError::LengthOverflow,
            },
    {
        let raw_key: String = to_raw_text(key)?;
        let raw_value: String = to_raw_text(value)?;
        Ok(MapWriteEventData { contract_identifier, map_name, raw_key, raw_value })
    }
}

impl MapDeleteEventData {
    /// The trace of deleting a key of a map, if the key can be encoded.
    pub fn try_from_value(
        contract_identifier: QualifiedContractIdentifier,
        map_name: String,
        key: &Value,
    ) -> (res: Result<Self, SerializationError>)
        ensures
            match res {
                Ok(data) => encodable(key@) && data@ == (MapDeleteView {
                    contract: contract_identifier@,
                    map_name: map_name@,
                    raw_key: raw_text(key@),
                }),
                Err(e) => !encodable(key@) && e == SerializationError::LengthOverflow,
            },
    {
        let raw_key: String = to_raw_text(key)?;
        Ok(MapDeleteEventData { contract_identifier, map_name, raw_key })
    }
}

/// The models of several values.
pub open spec fn arg_views(args: Seq<&Value>) -> Seq<ValueView> {
    Seq::new(args.len(), |i: int| args[i]@)
}

/// The texts that stand for several values.
pub open spec fn raw_texts(args: Seq<ValueView>) -> Seq<Seq<char>> {
    Seq::new(args.len(), |i: int| raw_text(args[i]))
}

pub open spec fn all_encodable(args: Seq<ValueView>) -> bool {
    forall|i: int| 0 <= i < args.len() ==> encodable(#[trigger] args[i])
}

impl ContractCallEventData {
    /// The trace of a call between contracts, if the arguments and the result can
    /// be encoded.
    pub fn try_from_values(
        contract_identifier: QualifiedContractIdentifier,
        sender: Option<PrincipalData>,
        caller: PrincipalData,
        function_name: String,
        args: &[&Value],
        result: &Value,
    ) -> (res: Result<Self, SerializationError>)
        ensures
            match res {
                Ok(data) => all_encodable(arg_views(args@)) && encodable(result@) && data@ == (
                ContractCallView {
                    contract: contract_identifier@,
                    sender: sender_view(sender),
                    caller: caller@,
                    function_name: function_name@,
                    raw_args: raw_texts(arg_views(args@)),
                    raw_result: raw_text(result@),
                }),
                Err(e) => !(all_encodable(arg_views(args@)) && encodable(result@)) && e
                    == SerializationError::LengthOverflow,
            },
    {
        let ghost views = arg_views(args@);
        let mut raw_args: Vec<String> = Vec::new();
        for i in 0..args.len()
            invariant
                views == arg_views(args@),
                raw_args@.len() == i,
                forall|j: int|
                    #![trigger views[j]]
                    0 <= j < i ==> encodable(views[j]) && raw_args@[j]@ == raw_text(views[j]),
        {
            assert(views[i as int] == args@[i as int]@);
            raw_args.push(to_raw_text(args[i])?);
        }
        assert(text_views(raw_args@) =~= raw_texts(views));
        let raw_result: String = to_raw_text(result)?;
        Ok(
            ContractCallEventData {
                contract_identifier,
                sender,
                caller,
                function_name,
                raw_args,
                raw_result,
            },
        )
    }
}

} // verus!
