//! Clarity values.

use vstd::prelude::*;
use crate::principal::PrincipalData;
#[allow(unused_imports)]
use crate::principal::PrincipalView;

verus! {

/// A Clarity value.
#[derive(Debug, PartialEq, Eq)]
pub enum Value {
    Int(i128),
    UInt(u128),
    Bool(bool),
    Buffer(Vec<u8>),
    StringAscii(Vec<u8>),
    StringUtf8(String),
    Principal(PrincipalData),
    Optional(OptionalData),
    Response(ResponseData),
    List(Vec<Value>),
    Tuple(Vec<TupleEntry>),
}

/// `none`, or `some` of a value.
#[derive(Debug, PartialEq, Eq)]
pub struct OptionalData {
    pub data: Option<Box<Value>>,
}

/// `ok` (committed) or `err` of a value.
#[derive(Debug, PartialEq, Eq)]
pub struct ResponseData {
    pub committed: bool,
    pub data: Box<Value>,
}

/// A field of a tuple. A tuple holds its fields in the order of their names.
#[derive(Debug, PartialEq, Eq)]
pub struct TupleEntry {
    pub name: String,
    pub value: Value,
}

/// The model of a value.
#[verifier::ext_equal]
pub enum ValueView {
    Int(i128),
    UInt(u128),
    Bool(bool),
    Buffer(Seq<u8>),
    StringAscii(Seq<u8>),
    StringUtf8(Seq<char>),
    Principal(PrincipalView),
    OptionalNone,
    OptionalSome(Box<ValueView>),
    Response(bool, Box<ValueView>),
    List(Seq<ValueView>),
    Tuple(Seq<(Seq<char>, ValueView)>),
}

impl Value {
    pub open spec fn view(&self) -> ValueView
        decreases self,
    {
        match self {
            Value::Int(n) => ValueView::Int(*n),
            Value::UInt(n) => ValueView::UInt(*n),
            Value::Bool(b) => ValueView::Bool(*b),
            Value::Buffer(bytes) => ValueView::Buffer(bytes@),
            Value::StringAscii(bytes) => ValueView::StringAscii(bytes@),
            Value::StringUtf8(text) => ValueView::StringUtf8(text@),
            Value::Principal(principal) => ValueView::Principal(principal@),
            Value::Optional(opt) => match opt.data {
                None => ValueView::OptionalNone,
                Some(value) => ValueView::OptionalSome(Box::new((*value).view())),
            },
            Value::Response(res) => ValueView::Response(
                res.committed,
                Box::new((*res.data).view()),
            ),
            Value::List(items) => ValueView::List(item_views(items@)),
            Value::Tuple(entries) => ValueView::Tuple(entry_views(entries@)),
        }
    }
}

/// The models of the items of a list.
pub open spec fn item_views(items: Seq<Value>) -> Seq<ValueView>
    decreases items,
{
    Seq::new(
        items.len(),
        |i: int|
            if 0 <= i < items.len() {
                items[i].view()
            } else {
                arbitrary()
            },
    )
}

/// The models of the fields of a tuple.
pub open spec fn entry_views(entries: Seq<TupleEntry>) -> Seq<(Seq<char>, ValueView)>
    decreases entries,
{
    Seq::new(
        entries.len(),
        |i: int|
            if 0 <= i < entries.len() {
                (entries[i].name@, entries[i].value.view())
            } else {
                arbitrary()
            },
    )
}

impl Clone for Value {
    fn clone(&self) -> (copy: Self)
        ensures
            copy@ == self@,
        decreases self,
    {
        match self {
            Value::Int(n) => Value::Int(*n),
            Value::UInt(n) => Value::UInt(*n),
            Value::Bool(b) => Value::Bool(*b),
            Value::Buffer(bytes) => Value::Buffer(bytes.clone()),
            Value::StringAscii(bytes) => Value::StringAscii(bytes.clone()),
            Value::StringUtf8(text) => Value::StringUtf8(text.clone()),
            Value::Principal(principal) => Value::Principal(principal.clone()),
            Value::Optional(opt) => Value::Optional(
                OptionalData {
                    data: match &opt.data {
                        None => None,
                        Some(value) => Some(Box::new((**value).clone())),
                    },
                },
            ),
            Value::Response(res) => Value::Response(
                ResponseData { committed: res.committed, data: Box::new((*res.data).clone()) },
            ),
            Value::List(items) => {
                let mut copies: Vec<Value> = Vec::new();
                for i in 0..items.len()
                    invariant
                        *self == Value::List(*items),
                        copies@.len() == i,
                        forall|j: int|
                            #![trigger copies@[j]]
                            0 <= j < i ==> copies@[j]@ == items@[j]@,
                {
                    assert(decreases_to!(*self => self->List_0));
                    assert(decreases_to!(*items => items@));
                    assert(decreases_to!(items@ => items@[i as int]));
                    copies.push(items[i].clone());
                }
                assert(item_views(copies@) =~= item_views(items@));
                Value::List(copies)
            },
            Value::Tuple(entries) => {
                let mut copies: Vec<TupleEntry> = Vec::new();
                for i in 0..entries.len()
                    invariant
                        *self == Value::Tuple(*entries),
                        copies@.len() == i,
                        forall|j: int|
                            #![trigger copies@[j]]
                            0 <= j < i ==> copies@[j].name@ == entries@[j].name@
                                && copies@[j].value@ == entries@[j].value@,
                {
                    let entry: &TupleEntry = &entries[i];
                    assert(decreases_to!(*self => self->Tuple_0));
                    assert(decreases_to!(*entries => entries@));
                    assert(decreases_to!(entries@ => entries@[i as int]));
                    assert(decreases_to!(entries@[i as int] => entries@[i as int].value));
                    copies.push(
                        TupleEntry { name: entry.name.clone(), value: entry.value.clone() },
                    );
                }
                assert(entry_views(copies@) =~= entry_views(entries@));
                Value::Tuple(copies)
            },
        }
    }
}

} // verus!
