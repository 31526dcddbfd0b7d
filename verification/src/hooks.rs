//! What the evaluation hooks hand to the collector.

use vstd::prelude::*;
use crate::principal::{PrincipalData, QualifiedContractIdentifier};
use crate::value::Value;
#[allow(unused_imports)]
use crate::value::ValueView;

verus! {

/// What is being called.
#[derive(Debug)]
pub enum CallHook<'a> {
    /// A function that the language itself has.
    Builtin { clarity_name: &'a str },
    /// A function that a contract defines.
    UserFunction { name: &'a str },
}

/// The arguments of a call, before or after their evaluation.
#[derive(Debug, Clone, Copy)]
pub enum CallArguments<'a> {
    Expressions(&'a [SymbolicExpression]),
    Values(&'a [Value]),
}

/// An expression of a contract. Within a contract each has an id of its own.
#[derive(Debug)]
pub struct SymbolicExpression {
    pub expr: SymbolicExpressionType,
    pub id: u64,
}

#[derive(Debug)]
pub enum SymbolicExpressionType {
    AtomValue(Value),
    Atom(String),
    List(Vec<SymbolicExpression>),
    LiteralValue(Value),
    Field(TraitIdentifier),
    TraitReference(String),
}

/// A trait, by the contract that defines it and its name there.
#[derive(Debug)]
pub struct TraitIdentifier {
    pub name: String,
    pub contract_identifier: QualifiedContractIdentifier,
}

/// The contract whose code runs.
#[derive(Debug)]
pub struct ContractContext {
    pub contract_identifier: QualifiedContractIdentifier,
}

/// Where a call is made, and for whom.
#[derive(Debug)]
pub struct InvocationContext<'a> {
    pub contract_context: &'a ContractContext,
    pub sender: Option<PrincipalData>,
}

/// Why an evaluation failed.
#[derive(Debug)]
pub struct VmExecutionError {
    pub message: String,
}

impl SymbolicExpression {
    /// The name that the expression is, if it is one.
    pub open spec fn atom(self) -> Option<Seq<char>> {
        match self.expr {
            SymbolicExpressionType::Atom(name) => Some(name@),
            _ => None,
        }
    }

    /// The value that the expression already is, if it is one.
    pub open spec fn atom_value(self) -> Option<ValueView> {
        match self.expr {
            SymbolicExpressionType::AtomValue(value) => Some(value@),
            _ => None,
        }
    }

    /// The name that the expression is, if it is one.
    pub fn match_atom(&self) -> (name: Option<&String>)
        ensures
            match name {
                Some(text) => self.atom() == Some(text@),
                None => self.atom() is None,
            },
    {
        match &self.expr {
            SymbolicExpressionType::Atom(name) => Some(name),
            _ => None,
        }
    }

    /// The value that the expression already is, if it is one.
    pub fn match_atom_value(&self) -> (value: Option<&Value>)
        ensures
            match value {
                Some(v) => self.atom_value() == Some(v@),
                None => self.atom_value() is None,
            },
    {
        match &self.expr {
            SymbolicExpressionType::AtomValue(value) => Some(value),
            _ => None,
        }
    }
}

impl<'a> CallArguments<'a> {
    /// How many arguments there are.
    pub open spec fn count(self) -> nat {
        match self {
            CallArguments::Expressions(exprs) => exprs@.len(),
            CallArguments::Values(vals) => vals@.len(),
        }
    }

    /// The ids of the arguments that are still to be evaluated.
    pub open spec fn ids(self) -> Seq<u64> {
        match self {
            CallArguments::Expressions(exprs) => Seq::new(exprs@.len(), |i: int| exprs@[i].id),
            CallArguments::Values(_) => Seq::empty(),
        }
    }

    /// The name that the argument at `index` is, if it is an expression and a name.
    pub open spec fn atom_at(self, index: int) -> Option<Seq<char>> {
        match self {
            CallArguments::Expressions(exprs) => if 0 <= index < exprs@.len() {
                exprs@[index].atom()
            } else {
                None
            },
            CallArguments::Values(_) => None,
        }
    }
}

/// The name that the argument at `index` is, if it is an expression and a name.
pub fn atom_at(args: CallArguments, index: usize) -> (name: Option<String>)
    ensures
        match name {
            Some(text) => args.atom_at(index as int) == Some(text@),
            None => args.atom_at(index as int) is None,
        },
{
    match args {
        CallArguments::Expressions(exprs) => {
            if index < exprs.len() {
                match exprs[index].match_atom() {
                    Some(name) => Some(name.clone()),
                    None => None,
                }
            } else {
                None
            }
        },
        CallArguments::Values(_) => None,
    }
}

/// The values among the arguments of a call, in their order.
pub open spec fn atom_values(exprs: Seq<SymbolicExpression>) -> Seq<ValueView>
    decreases exprs.len(),
{
    if exprs.len() == 0 {
        Seq::empty()
    } else {
        match exprs.last().atom_value() {
            Some(value) => atom_values(exprs.drop_last()).push(value),
            None => atom_values(exprs.drop_last()),
        }
    }
}

} // verus!
