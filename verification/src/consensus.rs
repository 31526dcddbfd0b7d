//! The consensus encoding of values: a type byte, then the contents, with
//! lengths and integers in big-endian order.

use vstd::prelude::*;
#[allow(unused_imports)]
use vstd::string::*;
#[allow(unused_imports)]
use vstd::utf8::*;
use crate::principal::{PrincipalData, StandardPrincipalData};
#[allow(unused_imports)]
use crate::principal::{AccountView, PrincipalView};
use crate::value::{TupleEntry, Value};
#[allow(unused_imports)]
use crate::value::{entry_views, item_views, ValueView};

verus! {

/// Why a value has no consensus encoding.
#[derive(Debug, Clone, Copy, PartialEq, Eq, Structural)]
pub enum SerializationError {
    /// A length does not fit the field that the encoding has for it.
    LengthOverflow,
}

pub const PREFIX_INT: u8 = 0;

pub const PREFIX_UINT: u8 = 1;

pub const PREFIX_BUFFER: u8 = 2;

pub const PREFIX_TRUE: u8 = 3;

pub const PREFIX_FALSE: u8 = 4;

pub const PREFIX_ACCOUNT: u8 = 5;

pub const PREFIX_CONTRACT: u8 = 6;

pub const PREFIX_OK: u8 = 7;

pub const PREFIX_ERR: u8 = 8;

pub const PREFIX_NONE: u8 = 9;

pub const PREFIX_SOME: u8 = 10;

pub const PREFIX_LIST: u8 = 11;

pub const PREFIX_TUPLE: u8 = 12;

pub const PREFIX_ASCII: u8 = 13;

pub const PREFIX_UTF8: u8 = 14;

/// The low `width` bytes of `n`, the most significant first.
pub open spec fn be_bytes(n: nat, width: nat) -> Seq<u8>
    decreases width,
{
    if width == 0 {
        Seq::empty()
    } else {
        be_bytes(n / 256, (width - 1) as nat).push((n % 256) as u8)
    }
}

/// The unsigned number whose 128 bits are the two's complement form of `n`.
pub open spec fn twos_complement(n: i128) -> nat {
    if n >= 0 {
        n as nat
    } else {
        (u128::MAX + 1 + n) as nat
    }
}

/// Bytes behind their number, which takes four bytes.
pub open spec fn sized(bytes: Seq<u8>) -> Seq<u8> {
    be_bytes(bytes.len(), 4) + bytes
}

/// A name behind its length, which takes one byte.
pub open spec fn name_encoding(name: Seq<char>) -> Seq<u8> {
    seq![encode_utf8(name).len() as u8] + encode_utf8(name)
}

pub open spec fn name_fits(name: Seq<char>) -> bool {
    encode_utf8(name).len() <= u8::MAX
}

pub open spec fn account_encoding(account: AccountView) -> Seq<u8> {
    seq![account.version] + account.hash@
}

pub open spec fn principal_encoding(principal: PrincipalView) -> Seq<u8> {
    match principal {
        PrincipalView::Standard(account) => seq![PREFIX_ACCOUNT] + account_encoding(account),
        PrincipalView::Contract(contract) => seq![PREFIX_CONTRACT] + account_encoding(
            contract.issuer,
        ) + name_encoding(contract.name),
    }
}

pub open spec fn principal_fits(principal: PrincipalView) -> bool {
    match principal {
        PrincipalView::Standard(_) => true,
        PrincipalView::Contract(contract) => name_fits(contract.name),
    }
}

/// The consensus encoding of a value.
pub open spec fn encoding(value: ValueView) -> Seq<u8>
    decreases value,
{
    match value {
        ValueView::Int(n) => seq![PREFIX_INT] + be_bytes(twos_complement(n), 16),
        ValueView::UInt(n) => seq![PREFIX_UINT] + be_bytes(n as nat, 16),
        ValueView::Bool(true) => seq![PREFIX_TRUE],
        ValueView::Bool(false) => seq![PREFIX_FALSE],
        ValueView::Buffer(bytes) => seq![PREFIX_BUFFER] + sized(bytes),
        ValueView::StringAscii(bytes) => seq![PREFIX_ASCII] + sized(bytes),
        ValueView::StringUtf8(text) => seq![PREFIX_UTF8] + sized(encode_utf8(text)),
        ValueView::Principal(principal) => principal_encoding(principal),
        ValueView::OptionalNone => seq![PREFIX_NONE],
        ValueView::OptionalSome(inner) => seq![PREFIX_SOME] + encoding(*inner),
        ValueView::Response(true, inner) => seq![PREFIX_OK] + encoding(*inner),
        ValueView::Response(false, inner) => seq![PREFIX_ERR] + encoding(*inner),
        ValueView::List(items) => seq![PREFIX_LIST] + be_bytes(items.len(), 4) + items_encoding(
            items,
        ),
        ValueView::Tuple(entries) => seq![PREFIX_TUPLE] + be_bytes(entries.len(), 4)
            + entries_encoding(entries),
    }
}

/// The encodings of the items of a list, one behind the other.
pub open spec fn items_encoding(items: Seq<ValueView>) -> Seq<u8>
    decreases items,
{
    if items.len() == 0 {
        Seq::empty()
    } else {
        items_encoding(items.drop_last()) + encoding(items.last())
    }
}

/// The fields of a tuple, each as its name and the encoding of its value.
pub open spec fn entries_encoding(entries: Seq<(Seq<char>, ValueView)>) -> Seq<u8>
    decreases entries,
{
    if entries.len() == 0 {
        Seq::empty()
    } else {
        entries_encoding(entries.drop_last()) + name_encoding(entries.last().0) + encoding(
            entries.last().1,
        )
    }
}

/// Whether every length in a value fits the field that the encoding has for it.
pub open spec fn encodable(value: ValueView) -> bool
    decreases value,
{
    match value {
        ValueView::Int(_) => true,
        ValueView::UInt(_) => true,
        ValueView::Bool(_) => true,
        ValueView::Buffer(bytes) => bytes.len() <= u32::MAX,
        ValueView::StringAscii(bytes) => bytes.len() <= u32::MAX,
        ValueView::StringUtf8(text) => encode_utf8(text).len() <= u32::MAX,
        ValueView::Principal(principal) => principal_fits(principal),
        ValueView::OptionalNone => true,
        ValueView::OptionalSome(inner) => encodable(*inner),
        ValueView::Response(_, inner) => encodable(*inner),
        ValueView::List(items) => items.len() <= u32::MAX && forall|i: int|
            0 <= i < items.len() ==> encodable(#[trigger] items[i]),
        ValueView::Tuple(entries) => entries.len() <= u32::MAX && forall|i: int|
            0 <= i < entries.len() ==> name_fits((#[trigger] entries[i]).0) && encodable(
                entries[i].1,
            ),
    }
}

/// Appends the low `width` bytes of `n`.
fn write_be(out: &mut Vec<u8>, n: u128, width: usize)
    ensures
        final(out)@ == old(out)@ + be_bytes(n as nat, width as nat),
    decreases width,
{
    if width > 0 {
        write_be(out, n / 256, width - 1);
        out.push((n % 256) as u8);
    }
    assert(out@ =~= old(out)@ + be_bytes(n as nat, width as nat));
}

/// Appends bytes as they are.
fn write_bytes(out: &mut Vec<u8>, bytes: &[u8])
    ensures
        final(out)@ == old(out)@ + bytes@,
{
    out.extend_from_slice(bytes);
    assert(out@ =~= old(out)@ + bytes@);
}

/// Appends a length in four bytes, if it fits them.
fn write_len(out: &mut Vec<u8>, len: usize) -> (res: Result<(), SerializationError>)
    ensures
        match res {
            Ok(()) => len <= u32::MAX && final(out)@ == old(out)@ + be_bytes(len as nat, 4),
            Err(e) => len > u32::MAX && e == SerializationError::LengthOverflow,
        },
{
    if len > u32::MAX as usize {
        return Err(SerializationError::LengthOverflow);
    }
    write_be(out, len as u128, 4);
    Ok(())
}

/// Appends bytes behind their number.
fn write_sized(out: &mut Vec<u8>, bytes: &[u8]) -> (res: Result<(), SerializationError>)
    ensures
        match res {
            Ok(()) => bytes@.len() <= u32::MAX && final(out)@ == old(out)@ + sized(bytes@),
            Err(e) => bytes@.len() > u32::MAX && e == SerializationError::LengthOverflow,
        },
{
    write_len(out, bytes.len())?;
    write_bytes(out, bytes);
    assert(out@ =~= old(out)@ + sized(bytes@));
    Ok(())
}

/// Appends a name behind its length.
fn write_name(out: &mut Vec<u8>, name: &str) -> (res: Result<(), SerializationError>)
    ensures
        match res {
            Ok(()) => name_fits(name@) && final(out)@ == old(out)@ + name_encoding(name@),
            Err(e) => !name_fits(name@) && e == SerializationError::LengthOverflow,
        },
{
    let bytes: &[u8] = name.as_bytes();
    if bytes.len() > u8::MAX as usize {
        return Err(SerializationError::LengthOverflow);
    }
    out.push(bytes.len() as u8);
    write_bytes(out, bytes);
    assert(out@ =~= old(out)@ + name_encoding(name@));
    Ok(())
}

fn write_account(out: &mut Vec<u8>, account: &StandardPrincipalData)
    ensures
        final(out)@ == old(out)@ + account_encoding(account@),
{
    out.push(account.version);
    for i in 0..20
        invariant
            out@ == old(out)@ + seq![account.version] + account.hash@.take(i as int),
    {
        out.push(account.hash[i]);
        assert(account.hash@.take(i + 1) =~= account.hash@.take(i as int).push(
            account.hash@[i as int],
        ));
    }
    assert(account.hash@.take(20) =~= account.hash@);
    assert(out@ =~= old(out)@ + account_encoding(account@));
}

fn write_principal(out: &mut Vec<u8>, principal: &PrincipalData) -> (res: Result<
    (),
    SerializationError,
>)
    ensures
        match res {
            Ok(()) => principal_fits(principal@) && final(out)@ == old(out)@ + principal_encoding(
                principal@,
            ),
            Err(e) => !principal_fits(principal@) && e == SerializationError::LengthOverflow,
        },
{
    match principal {
        PrincipalData::Standard(account) => {
            out.push(PREFIX_ACCOUNT);
            write_account(out, account);
        },
        PrincipalData::Contract(contract) => {
            out.push(PREFIX_CONTRACT);
            write_account(out, &contract.issuer);
            write_name(out, contract.name.as_str())?;
        },
    }
    assert(out@ =~= old(out)@ + principal_encoding(principal@));
    Ok(())
}

/// Appends the encoding of a value.
fn write_value(out: &mut Vec<u8>, value: &Value) -> (res: Result<(), SerializationError>)
    ensures
        match res {
            Ok(()) => encodable(value@) && final(out)@ == old(out)@ + encoding(value@),
            Err(e) => !encodable(value@) && e == SerializationError::LengthOverflow,
        },
    decreases value, 0int,
{
    match value {
        Value::Int(n) => {
            out.push(PREFIX_INT);
            let bits: u128 = if *n >= 0 {
                *n as u128
            } else {
                u128::MAX - (-(*n + 1)) as u128
            };
            write_be(out, bits, 16);
        },
        Value::UInt(n) => {
            out.push(PREFIX_UINT);
            write_be(out, *n, 16);
        },
        Value::Bool(b) => {
            out.push(
                if *b {
                    PREFIX_TRUE
                } else {
                    PREFIX_FALSE
                },
            );
        },
        Value::Buffer(bytes) => {
            out.push(PREFIX_BUFFER);
            write_sized(out, bytes.as_slice())?;
        },
        Value::StringAscii(bytes) => {
            out.push(PREFIX_ASCII);
            write_sized(out, bytes.as_slice())?;
        },
        Value::StringUtf8(text) => {
            out.push(PREFIX_UTF8);
            write_sized(out, text.as_str().as_bytes())?;
        },
        Value::Principal(principal) => {
            write_principal(out, principal)?;
        },
        Value::Optional(opt) => {
            match &opt.data {
                None => {
                    out.push(PREFIX_NONE);
                },
                Some(inner) => {
                    out.push(PREFIX_SOME);
                    write_value(out, inner)?;
                },
            }
        },
        Value::Response(res) => {
            out.push(
                if res.committed {
                    PREFIX_OK
                } else {
                    PREFIX_ERR
                },
            );
            write_value(out, &res.data)?;
        },
        Value::List(items) => {
            out.push(PREFIX_LIST);
            write_len(out, items.len())?;
            write_items(out, items)?;
        },
        Value::Tuple(entries) => {
            assert(value@ == ValueView::Tuple(entry_views(entries@)));
            out.push(PREFIX_TUPLE);
            write_len(out, entries.len())?;
            write_entries(out, entries)?;
        },
    }
    assert(out@ =~= old(out)@ + encoding(value@));
    Ok(())
}

/// Appends the encodings of the items of a list.
fn write_items(out: &mut Vec<u8>, items: &Vec<Value>) -> (res: Result<(), SerializationError>)
    ensures
        match res {
            Ok(()) => {
                &&& forall|i: int|
                    0 <= i < items@.len() ==> encodable(#[trigger] item_views(items@)[i])
                &&& final(out)@ == old(out)@ + items_encoding(item_views(items@))
            },
            Err(e) => {
                &&& exists|i: int|
                    0 <= i < items@.len() && !encodable(#[trigger] item_views(items@)[i])
                &&& e == SerializationError::LengthOverflow
            },
        },
    decreases items, 1int,
{
    let ghost views = item_views(items@);
    assert(out@ =~= old(out)@ + items_encoding(views.take(0)));
    for i in 0..items.len()
        invariant
            views == item_views(items@),
            forall|j: int| 0 <= j < i ==> encodable(#[trigger] views[j]),
            out@ == old(out)@ + items_encoding(views.take(i as int)),
    {
        assert(decreases_to!(*items => items@));
        assert(decreases_to!(items@ => items@[i as int]));
        assert(views[i as int] == items@[i as int]@);
        assert(views.take(i + 1).drop_last() =~= views.take(i as int));
        write_value(out, &items[i])?;
        assert(out@ =~= old(out)@ + items_encoding(views.take(i + 1)));
    }
    assert(views.take(items@.len() as int) =~= views);
    Ok(())
}

/// Appends the fields of a tuple.
fn write_entries(out: &mut Vec<u8>, entries: &Vec<TupleEntry>) -> (res: Result<
    (),
    SerializationError,
>)
    ensures
        match res {
            Ok(()) => {
                &&& forall|i: int|
                    0 <= i < entries@.len() ==> name_fits(
                        (#[trigger] entry_views(entries@)[i]).0,
                    ) && encodable(entry_views(entries@)[i].1)
                &&& final(out)@ == old(out)@ + entries_encoding(entry_views(entries@))
            },
            Err(e) => {
                &&& exists|i: int|
                    0 <= i < entries@.len() && !(name_fits(
                        (#[trigger] entry_views(entries@)[i]).0,
                    ) && encodable(entry_views(entries@)[i].1))
                &&& e == SerializationError::LengthOverflow
            },
        },
    decreases entries, 1int,
{
    let ghost views = entry_views(entries@);
    assert(out@ =~= old(out)@ + entries_encoding(views.take(0)));
    for i in 0..entries.len()
        invariant
            views == entry_views(entries@),
            forall|j: int|
                0 <= j < i ==> name_fits((#[trigger] views[j]).0) && encodable(views[j].1),
            out@ == old(out)@ + entries_encoding(views.take(i as int)),
    {
        let entry: &TupleEntry = &entries[i];
        assert(decreases_to!(*entries => entries@));
        assert(decreases_to!(entries@ => entries@[i as int]));
        assert(decreases_to!(entries@[i as int] => entries@[i as int].value));
        assert(views[i as int] == (entry.name@, entry.value@));
        assert(views.take(i + 1).drop_last() =~= views.take(i as int));
        write_name(out, entry.name.as_str())?;
        write_value(out, &entry.value)?;
        assert(out@ =~= old(out)@ + entries_encoding(views.take(i + 1)));
    }
    assert(views.take(entries@.len() as int) =~= views);
    Ok(())
}

impl Value {
    /// The consensus encoding of the value, if every length in it fits.
    pub fn serialize_to_vec(&self) -> (res: Result<Vec<u8>, SerializationError>)
        ensures
            match res {
                Ok(bytes) => encodable(self@) && bytes@ == encoding(self@),
                Err(e) => !encodable(self@) && e == SerializationError::LengthOverflow,
            },
    {
        let mut out: Vec<u8> = Vec::new();
        write_value(&mut out, self)?;
        assert(out@ =~= encoding(self@));
        Ok(out)
    }
}

} // verus!
