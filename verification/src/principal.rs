//! Principals: who acts, and which contract is meant.

use vstd::prelude::*;

verus! {

/// An account: an address version and the hash of its key.
#[derive(Debug, Clone, Copy, PartialEq, Eq)]
pub struct StandardPrincipalData {
    pub version: u8,
    pub hash: [u8; 20],
}

/// A contract, by the account that deployed it and its name there.
#[derive(Debug, PartialEq, Eq)]
pub struct QualifiedContractIdentifier {
    pub issuer: StandardPrincipalData,
    pub name: String,
}

/// An account or a contract.
#[derive(Debug, PartialEq, Eq)]
pub enum PrincipalData {
    Standard(StandardPrincipalData),
    Contract(QualifiedContractIdentifier),
}

/// The model of an account.
#[verifier::ext_equal]
pub struct AccountView {
    pub version: u8,
    pub hash: [u8; 20],
}

/// The model of a contract identifier.
#[verifier::ext_equal]
pub struct ContractView {
    pub issuer: AccountView,
    pub name: Seq<char>,
}

/// The model of a principal.
#[verifier::ext_equal]
pub enum PrincipalView {
    Standard(AccountView),
    Contract(ContractView),
}

impl View for StandardPrincipalData {
    type V = AccountView;

    open spec fn view(&self) -> AccountView {
        AccountView { version: self.version, hash: self.hash }
    }
}

impl View for QualifiedContractIdentifier {
    type V = ContractView;

    open spec fn view(&self) -> ContractView {
        ContractView { issuer: self.issuer@, name: self.name@ }
    }
}

impl View for PrincipalData {
    type V = PrincipalView;

    open spec fn view(&self) -> PrincipalView {
        match self {
            PrincipalData::Standard(account) => PrincipalView::Standard(account@),
            PrincipalData::Contract(contract) => PrincipalView::Contract(contract@),
        }
    }
}

impl Clone for QualifiedContractIdentifier {
    fn clone(&self) -> (copy: Self)
        ensures
            copy@ == self@,
    {
        QualifiedContractIdentifier { issuer: self.issuer, name: self.name.clone() }
    }
}

impl Clone for PrincipalData {
    fn clone(&self) -> (copy: Self)
        ensures
            copy@ == self@,
    {
        match self {
            PrincipalData::Standard(account) => PrincipalData::Standard(*account),
            PrincipalData::Contract(contract) => PrincipalData::Contract(contract.clone()),
        }
    }
}

impl From<QualifiedContractIdentifier> for PrincipalData {
    fn from(contract: QualifiedContractIdentifier) -> (principal: Self) {
        PrincipalData::Contract(contract)
    }
}

impl vstd::std_specs::convert::FromSpecImpl<QualifiedContractIdentifier> for PrincipalData {
    open spec fn obeys_from_spec() -> bool {
        true
    }

    open spec fn from_spec(contract: QualifiedContractIdentifier) -> PrincipalData {
        PrincipalData::Contract(contract)
    }
}

} // verus!
