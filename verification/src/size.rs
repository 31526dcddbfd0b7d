//! How many bytes a trace counts against the cap.

use vstd::prelude::*;
#[allow(unused_imports)]
use vstd::string::*;
#[allow(unused_imports)]
use crate::events::{text_views, EventView, StorageView};
use crate::events::{StorageEvent, VmTraceEvent};
#[allow(unused_imports)]
use crate::principal::{ContractView, PrincipalView};
use crate::principal::{PrincipalData, QualifiedContractIdentifier};
#[allow(unused_imports)]
use crate::text::text_bytes;

verus! {

/// The largest `usize` in place of a number beyond it.
pub open spec fn saturated(n: int) -> int {
    if n > usize::MAX {
        usize::MAX as int
    } else {
        n
    }
}

/// What an account counts: its version and its hash.
pub const ACCOUNT_SIZE: usize = 21;

/// What the counter of a truncation marker counts.
pub const MARKER_SIZE: usize = 8;

pub open spec fn contract_size(contract: ContractView) -> nat {
    ACCOUNT_SIZE as nat + text_bytes(contract.name)
}

pub open spec fn principal_size(principal: PrincipalView) -> nat {
    match principal {
        PrincipalView::Standard(_) => ACCOUNT_SIZE as nat,
        PrincipalView::Contract(contract) => contract_size(contract),
    }
}

pub open spec fn sender_size(sender: Option<PrincipalView>) -> nat {
    match sender {
        None => 0,
        Some(principal) => principal_size(principal),
    }
}

pub open spec fn texts_size(texts: Seq<Seq<char>>) -> nat
    decreases texts.len(),
{
    if texts.len() == 0 {
        0
    } else {
        texts_size(texts.drop_last()) + text_bytes(texts.last())
    }
}

impl StorageView {
    /// The bytes of the identifiers and texts in the event.
    pub open spec fn size(self) -> nat {
        match self {
            StorageView::VarSet(data) => contract_size(data.contract) + text_bytes(data.var_name)
                + text_bytes(data.raw_value),
            StorageView::MapSet(data) => contract_size(data.contract) + text_bytes(data.map_name)
                + text_bytes(data.raw_key) + text_bytes(data.raw_value),
            StorageView::MapInsert(data) => contract_size(data.contract) + text_bytes(
                data.map_name,
            ) + text_bytes(data.raw_key) + text_bytes(data.raw_value),
            StorageView::MapDelete(data) => contract_size(data.contract) + text_bytes(
                data.map_name,
            ) + text_bytes(data.raw_key),
        }
    }
}

impl EventView {
    /// The bytes of the identifiers and texts in the trace; of a marker, those of
    /// its counter.
    pub open spec fn size(self) -> nat {
        match self {
            EventView::Storage(event) => event.size(),
            EventView::ContractCall(data) => contract_size(data.contract) + sender_size(data.sender)
                + principal_size(data.caller) + text_bytes(data.function_name) + texts_size(
                data.raw_args,
            ) + text_bytes(data.raw_result),
            EventView::Truncated(_) => MARKER_SIZE as nat,
        }
    }

    /// The size as far as a `usize` can tell it.
    pub open spec fn approx_size(self) -> int {
        saturated(self.size() as int)
    }
}

/// The bytes of a text.
fn text_size(text: &String) -> (size: usize)
    ensures
        size == text_bytes(text@),
{
    text.as_str().as_bytes().len()
}

fn contract_id_size(contract: &QualifiedContractIdentifier) -> (size: usize)
    ensures
        size == saturated(contract_size(contract@) as int),
{
    ACCOUNT_SIZE.saturating_add(text_size(&contract.name))
}

fn principal_data_size(principal: &PrincipalData) -> (size: usize)
    ensures
        size == saturated(principal_size(principal@) as int),
{
    match principal {
        PrincipalData::Standard(_) => ACCOUNT_SIZE,
        PrincipalData::Contract(contract) => contract_id_size(contract),
    }
}

fn raw_args_size(texts: &Vec<String>) -> (size: usize)
    ensures
        size == saturated(texts_size(text_views(texts@)) as int),
{
    let ghost views = text_views(texts@);
    let mut size: usize = 0;
    for i in 0..texts.len()
        invariant
            views == text_views(texts@),
            size == saturated(texts_size(views.take(i as int)) as int),
    {
        size = size.saturating_add(text_size(&texts[i]));
        assert(views.take(i + 1).drop_last() =~= views.take(i as int));
    }
    assert(views.take(texts@.len() as int) =~= views);
    size
}

impl StorageEvent {
    /// The bytes of the identifiers and texts in the event.
    pub fn approx_size(&self) -> (size: usize)
        ensures
            size == saturated(self@.size() as int),
    {
        match self {
            StorageEvent::VarSet(data) => contract_id_size(
                &data.contract_identifier,
            ).saturating_add(text_size(&data.var_name)).saturating_add(
                text_size(&data.raw_value),
            ),
            StorageEvent::MapSet(data) => contract_id_size(
                &data.contract_identifier,
            ).saturating_add(text_size(&data.map_name)).saturating_add(
                text_size(&data.raw_key),
            ).saturating_add(text_size(&data.raw_value)),
            StorageEvent::MapInsert(data) => contract_id_size(
                &data.contract_identifier,
            ).saturating_add(text_size(&data.map_name)).saturating_add(
                text_size(&data.raw_key),
            ).saturating_add(text_size(&data.raw_value)),
            StorageEvent::MapDelete(data) => contract_id_size(
                &data.contract_identifier,
            ).saturating_add(text_size(&data.map_name)).saturating_add(text_size(&data.raw_key)),
        }
    }
}

impl VmTraceEvent {
    /// Roughly how many bytes the trace takes, as counted against the cap.
    pub fn approx_size(&self) -> (size: usize)
        ensures
            size == self@.approx_size(),
    {
        match self {
            VmTraceEvent::Storage(event) => event.approx_size(),
            VmTraceEvent::ContractCall(data) => {
                let sender_size: usize = match &data.sender {
                    None => 0,
                    Some(principal) => principal_data_size(principal),
                };
                contract_id_size(&data.contract_identifier).saturating_add(
                    sender_size,
                ).saturating_add(principal_data_size(&data.caller)).saturating_add(
                    text_size(&data.function_name),
                ).saturating_add(raw_args_size(&data.raw_args)).saturating_add(
                    text_size(&data.raw_result),
                )
            },
            VmTraceEvent::Truncated { .. } => MARKER_SIZE,
        }
    }
}

} // verus!
