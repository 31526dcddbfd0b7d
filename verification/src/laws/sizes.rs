//! What a trace counts against the cap.

use vstd::prelude::*;
#[allow(unused_imports)]
use vstd::utf8::encode_utf8;
#[allow(unused_imports)]
use crate::events::{ContractCallView, EventView, StorageView};
#[allow(unused_imports)]
use crate::principal::PrincipalView;
#[allow(unused_imports)]
use crate::size::{contract_size, principal_size};

verus! {

/// A principal counts its version and hash and, if it is a contract, the bytes of its name.
pub proof fn law_principal_size(principal: PrincipalView)
    ensures
        match principal {
            PrincipalView::Standard(account) => principal_size(principal) == 1
                + account.hash@.len(),
            PrincipalView::Contract(contract) => {
                &&& principal_size(principal) == 1 + contract.issuer.hash@.len() + encode_utf8(
                    contract.name,
                ).len()
                &&& principal_size(principal) == contract_size(contract)
            },
        },
{
}

/// A change of storage counts the contract and the bytes of each text in it once.
pub proof fn law_storage_size(event: StorageView)
    ensures
        match event {
            StorageView::VarSet(data) => event.size() == 1 + data.contract.issuer.hash@.len()
                + encode_utf8(data.contract.name).len() + encode_utf8(data.var_name).len()
                + encode_utf8(data.raw_value).len(),
            StorageView::MapSet(data) => event.size() == 1 + data.contract.issuer.hash@.len()
                + encode_utf8(data.contract.name).len() + encode_utf8(data.map_name).len()
                + encode_utf8(data.raw_key).len() + encode_utf8(data.raw_value).len(),
            StorageView::MapInsert(data) => event.size() == StorageView::MapSet(data).size(),
            StorageView::MapDelete(data) => event.size() == 1 + data.contract.issuer.hash@.len()
                + encode_utf8(data.contract.name).len() + encode_utf8(data.map_name).len()
                + encode_utf8(data.raw_key).len(),
        },
        EventView::Storage(event).size() == event.size(),
{
}

/// A call between contracts counts the callee, the sender, the caller and the bytes of each
/// text in it once: one argument more counts its bytes more.
pub proof fn law_call_size(data: ContractCallView, arg: Seq<char>)
    ensures
        EventView::ContractCall(ContractCallView { raw_args: Seq::empty(), ..data }).size()
            == principal_size(PrincipalView::Contract(data.contract)) + (match data.sender {
            Some(sender) => principal_size(sender),
            None => 0,
        }) + principal_size(data.caller) + encode_utf8(data.function_name).len() + encode_utf8(
            data.raw_result,
        ).len(),
        EventView::ContractCall(
            ContractCallView { raw_args: data.raw_args.push(arg), ..data },
        ).size() == EventView::ContractCall(data).size() + encode_utf8(arg).len(),
{
    assert(data.raw_args.push(arg).drop_last() =~= data.raw_args);
}

/// A marker counts the same whatever it counts, and a size is told exactly as far as a
/// `usize` can tell it.
pub proof fn law_told_size(event: EventView, dropped: u64)
    ensures
        EventView::Truncated(dropped).size() == 8,
        event.size() <= usize::MAX ==> event.approx_size() == event.size(),
        event.size() > usize::MAX ==> event.approx_size() == usize::MAX,
{
}

} // verus!
