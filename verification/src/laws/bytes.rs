//! Which bytes and which digits stand for a value.

use vstd::prelude::*;
#[allow(unused_imports)]
use vstd::arithmetic::div_mod::lemma_div_denominator;
#[allow(unused_imports)]
use vstd::arithmetic::power::{lemma_pow_positive, pow};
#[allow(unused_imports)]
use vstd::string::*;
#[allow(unused_imports)]
use vstd::utf8::encode_utf8;
#[allow(unused_imports)]
use crate::consensus::{
    be_bytes, encodable, encoding, entries_encoding, items_encoding, name_encoding,
    twos_complement,
};
#[allow(unused_imports)]
use crate::events::raw_text;
#[allow(unused_imports)]
use crate::hex::{hex_digit, hex_digits, hex_text};
#[allow(unused_imports)]
use crate::laws::decoding::{decoded, law_encoding_reads_back, law_what_reads_is_the_encoding};
#[allow(unused_imports)]
use crate::laws::encoding::lemma_be_bytes_len;
#[allow(unused_imports)]
use crate::principal::{PrincipalData, PrincipalView};
#[allow(unused_imports)]
use crate::value::{Value, ValueView};

verus! {

proof fn lemma_be_bytes_at(n: nat, width: nat, i: int)
    requires
        0 <= i < width,
    ensures
        be_bytes(n, width).len() == width,
        be_bytes(n, width)[i] == (n as int / pow(256, (width - 1 - i) as nat)) % 256,
    decreases width,
{
    let w = (width - 1) as nat;
    lemma_be_bytes_len(n, width);
    lemma_be_bytes_len(n / 256, w);
    if i == width - 1 {
        assert(pow(256, 0) == 1) by {
            reveal(pow);
        }
    } else {
        let e = (w - 1 - i) as nat;
        lemma_be_bytes_at(n / 256, w, i);
        lemma_pow_positive(256, e);
        assert(pow(256, (e + 1) as nat) == 256 * pow(256, e)) by {
            reveal(pow);
        }
        lemma_div_denominator(n as int, 256, pow(256, e));
    }
}

/// An unsigned number stands as its type byte and sixteen bytes, each with its power of 256.
pub proof fn law_uint_bytes(n: u128, i: int)
    requires
        0 <= i < 16,
    ensures
        ({
            let bytes = encoding(Value::UInt(n)@);
            &&& bytes.len() == 17
            &&& bytes[0] == 1
            &&& bytes[1 + i] == (n as int / pow(256, (15 - i) as nat)) % 256
        }),
{
    lemma_be_bytes_at(n as nat, 16, i);
}

/// A signed number stands as its type byte and sixteen bytes: those of the number itself or,
/// if it is negative, of the number that is 256 to the sixteenth above it.
pub proof fn law_int_bytes(n: i128, i: int)
    requires
        0 <= i < 16,
    ensures
        ({
            let bytes = encoding(Value::Int(n)@);
            let m = if n < 0 {
                n + 0x1_0000_0000_0000_0000_0000_0000_0000_0000
            } else {
                n as int
            };
            &&& bytes.len() == 17
            &&& bytes[0] == 0
            &&& bytes[1 + i] == (m / pow(256, (15 - i) as nat)) % 256
        }),
{
    lemma_be_bytes_at(twos_complement(n), 16, i);
}

/// Truth values and `none` stand as their type byte alone.
pub proof fn law_plain_bytes(value: Value)
    ensures
        value == Value::Bool(true) ==> encoding(value@) == seq![3u8],
        value == Value::Bool(false) ==> encoding(value@) == seq![4u8],
        (value matches Value::Optional(opt) && opt.data is None) ==> encoding(value@) == seq![9u8],
{
}

/// Buffers and strings stand behind their type byte and their number of bytes in four.
pub proof fn law_sized_bytes(value: Value, i: int)
    requires
        0 <= i < 4,
    ensures
        ({
            let bytes = encoding(value@);
            let n = bytes.len() - 5;
            let counted = n >= 0 && bytes[1 + i] == (n / pow(256, (3 - i) as nat)) % 256;
            &&& value matches Value::Buffer(part) ==> {
                counted && bytes[0] == 2 && bytes.skip(5) == part@
            }
            &&& value matches Value::StringAscii(part) ==> {
                counted && bytes[0] == 13 && bytes.skip(5) == part@
            }
            &&& value matches Value::StringUtf8(text) ==> {
                counted && bytes[0] == 14 && bytes.skip(5) == encode_utf8(text@)
            }
        }),
{
    let bytes = encoding(value@);
    match value {
        Value::Buffer(part) => {
            lemma_be_bytes_at(part@.len(), 4, i);
            assert(bytes.skip(5) =~= part@);
        },
        Value::StringAscii(part) => {
            lemma_be_bytes_at(part@.len(), 4, i);
            assert(bytes.skip(5) =~= part@);
        },
        Value::StringUtf8(text) => {
            lemma_be_bytes_at(encode_utf8(text@).len(), 4, i);
            assert(bytes.skip(5) =~= encode_utf8(text@));
        },
        _ => {},
    }
}

/// `some`, `ok` and `err` stand as their type byte and the encoding of what is in them.
pub proof fn law_wrapped_bytes(value: Value)
    ensures
        value matches Value::Optional(opt) ==> (opt.data matches Some(inner) ==> encoding(value@)
            == seq![10u8] + encoding((*inner)@)),
        value matches Value::Response(res) ==> encoding(value@) == (if res.committed {
            seq![7u8]
        } else {
            seq![8u8]
        }) + encoding((*res.data)@),
{
}

/// A principal stands as its type byte, the version, the hash and, of a contract, the length
/// of its name in one byte and the name.
pub proof fn law_principal_bytes(value: Value)
    ensures
        value matches Value::Principal(PrincipalData::Standard(account)) ==> encoding(value@)
            == seq![5u8, account.version] + account.hash@,
        value matches Value::Principal(PrincipalData::Contract(contract)) ==> {
            let name = encode_utf8(contract.name@);
            encoding(value@) == seq![6u8, contract.issuer.version] + contract.issuer.hash@ + seq![
                name.len() as u8,
            ] + name
        },
{
    match value {
        Value::Principal(PrincipalData::Standard(account)) => {
            assert(encoding(value@) =~= seq![5u8, account.version] + account.hash@);
        },
        Value::Principal(PrincipalData::Contract(contract)) => {
            let name = encode_utf8(contract.name@);
            assert(encoding(value@) =~= seq![6u8, contract.issuer.version] + contract.issuer.hash@
                + seq![name.len() as u8] + name);
        },
        _ => {},
    }
}

proof fn lemma_items_concat(a: Seq<ValueView>, b: Seq<ValueView>)
    ensures
        items_encoding(a + b) == items_encoding(a) + items_encoding(b),
    decreases b.len(),
{
    if b.len() == 0 {
        assert(a + b =~= a);
        assert(items_encoding(a) + items_encoding(b) =~= items_encoding(a));
    } else {
        lemma_items_concat(a, b.drop_last());
        assert((a + b).drop_last() =~= a + b.drop_last());
        assert(items_encoding(a + b) =~= items_encoding(a) + items_encoding(b));
    }
}

/// A list stands as its type byte, its length in four bytes and the encodings of its items,
/// one behind the other: those of two lists put together are those of the first and then
/// those of the second, and that of one item is its own.
pub proof fn law_list_bytes(a: Seq<ValueView>, b: Seq<ValueView>, item: ValueView, i: int)
    requires
        0 <= i < 4,
    ensures
        encoding(ValueView::List(a))[0] == 11,
        encoding(ValueView::List(a)).len() >= 5,
        encoding(ValueView::List(a))[1 + i] == (a.len() as int / pow(256, (3 - i) as nat)) % 256,
        encoding(ValueView::List(a + b)).skip(5) == encoding(ValueView::List(a)).skip(5)
            + encoding(ValueView::List(b)).skip(5),
        encoding(ValueView::List(seq![item])).skip(5) == encoding(item),
        encoding(ValueView::List(Seq::empty())).len() == 5,
{
    lemma_be_bytes_at(a.len(), 4, i);
    lemma_be_bytes_len(b.len(), 4);
    lemma_be_bytes_len(1, 4);
    lemma_be_bytes_len(0, 4);
    lemma_be_bytes_len((a + b).len(), 4);
    lemma_items_concat(a, b);
    assert(encoding(ValueView::List(a)).skip(5) =~= items_encoding(a));
    assert(encoding(ValueView::List(b)).skip(5) =~= items_encoding(b));
    assert(encoding(ValueView::List(a + b)).skip(5) =~= items_encoding(a + b));
    assert(seq![item].drop_last() =~= Seq::empty());
    assert(items_encoding(seq![item].drop_last()) =~= Seq::empty());
    assert(items_encoding(seq![item]) =~= encoding(item));
    assert(encoding(ValueView::List(seq![item])).skip(5) =~= items_encoding(seq![item]));
}

proof fn lemma_entries_concat(a: Seq<(Seq<char>, ValueView)>, b: Seq<(Seq<char>, ValueView)>)
    ensures
        entries_encoding(a + b) == entries_encoding(a) + entries_encoding(b),
    decreases b.len(),
{
    if b.len() == 0 {
        assert(a + b =~= a);
        assert(entries_encoding(a) + entries_encoding(b) =~= entries_encoding(a));
    } else {
        lemma_entries_concat(a, b.drop_last());
        assert((a + b).drop_last() =~= a + b.drop_last());
        assert(entries_encoding(a + b) =~= entries_encoding(a) + entries_encoding(b));
    }
}

/// A tuple stands as its type byte, the number of its fields in four bytes and the fields, one
/// behind the other; a field is the length of its name in one byte, the name and the encoding
/// of its value.
pub proof fn law_tuple_bytes(
    a: Seq<(Seq<char>, ValueView)>,
    b: Seq<(Seq<char>, ValueView)>,
    name: Seq<char>,
    value: ValueView,
    i: int,
)
    requires
        0 <= i < 4,
    ensures
        encoding(ValueView::Tuple(a))[0] == 12,
        encoding(ValueView::Tuple(a)).len() >= 5,
        encoding(ValueView::Tuple(a))[1 + i] == (a.len() as int / pow(256, (3 - i) as nat)) % 256,
        encoding(ValueView::Tuple(a + b)).skip(5) == encoding(ValueView::Tuple(a)).skip(5)
            + encoding(ValueView::Tuple(b)).skip(5),
        encoding(ValueView::Tuple(seq![(name, value)])).skip(5) == seq![
            encode_utf8(name).len() as u8,
        ] + encode_utf8(name) + encoding(value),
        encoding(ValueView::Tuple(Seq::empty())).len() == 5,
{
    lemma_be_bytes_at(a.len(), 4, i);
    lemma_be_bytes_len(b.len(), 4);
    lemma_be_bytes_len(1, 4);
    lemma_be_bytes_len(0, 4);
    lemma_be_bytes_len((a + b).len(), 4);
    lemma_entries_concat(a, b);
    assert(encoding(ValueView::Tuple(a)).skip(5) =~= entries_encoding(a));
    assert(encoding(ValueView::Tuple(b)).skip(5) =~= entries_encoding(b));
    assert(encoding(ValueView::Tuple(a + b)).skip(5) =~= entries_encoding(a + b));
    let one = seq![(name, value)];
    assert(one.drop_last() =~= Seq::empty());
    assert(entries_encoding(one.drop_last()) =~= Seq::empty());
    assert(entries_encoding(one) =~= name_encoding(name) + encoding(value));
    assert(encoding(ValueView::Tuple(one)).skip(5) =~= entries_encoding(one));
}

/// Which values can be encoded: all but those in which a length is too large for its field.
pub proof fn law_encodable_values(value: ValueView)
    ensures
        value is Int || value is UInt || value is Bool || value is OptionalNone ==> encodable(
            value,
        ),
        value matches ValueView::Buffer(part) ==> (encodable(value) <==> part.len()
            <= 0xffff_ffff),
        value matches ValueView::StringAscii(part) ==> (encodable(value) <==> part.len()
            <= 0xffff_ffff),
        value matches ValueView::StringUtf8(text) ==> (encodable(value) <==> encode_utf8(
            text,
        ).len() <= 0xffff_ffff),
        value matches ValueView::Principal(PrincipalView::Standard(_)) ==> encodable(value),
        value matches ValueView::Principal(PrincipalView::Contract(contract)) ==> (encodable(value)
            <==> encode_utf8(contract.name).len() <= 255),
        value matches ValueView::OptionalSome(inner) ==> (encodable(value) <==> encodable(*inner)),
        value matches ValueView::Response(_, inner) ==> (encodable(value) <==> encodable(*inner)),
        value matches ValueView::List(items) ==> (encodable(value) <==> items.len() <= 0xffff_ffff
            && forall|i: int| 0 <= i < items.len() ==> encodable(#[trigger] items[i])),
        value matches ValueView::Tuple(entries) ==> (encodable(value) <==> entries.len()
            <= 0xffff_ffff && forall|i: int|
            0 <= i < entries.len() ==> encode_utf8((#[trigger] entries[i]).0).len() <= 255
                && encodable(entries[i].1)),
{
}

/// A value can be encoded if and only if some bytes read as it, and then those are its
/// encoding.
pub proof fn law_encoding_is_what_reads(value: ValueView, bytes: Seq<u8>)
    ensures
        decoded(bytes) == Some((value, Seq::<u8>::empty())) <==> encodable(value) && bytes
            == encoding(value),
{
    let none = Seq::<u8>::empty();
    assert(encoding(value) + none =~= encoding(value));
    if encodable(value) {
        law_encoding_reads_back(value, none);
    }
    if decoded(bytes) == Some((value, none)) {
        law_what_reads_is_the_encoding(bytes, value, none);
    }
}

/// A text in a trace is `0x` and two digits for each byte of the encoding, in lower case, the
/// high half first.
pub proof fn law_hex_digits(bytes: Seq<u8>, i: int)
    requires
        0 <= i < bytes.len(),
    ensures
        ({
            let text = hex_text(bytes);
            let digits = "0123456789abcdef"@;
            &&& text.len() == 2 + 2 * bytes.len()
            &&& text[0] == '0'
            &&& text[1] == 'x'
            &&& text[2 + 2 * i] == digits[bytes[i] as int / 16]
            &&& text[3 + 2 * i] == digits[bytes[i] as int % 16]
        }),
{
    assert(hex_text(bytes)[2 + 2 * i] == hex_digits(bytes)[2 * i]);
    assert(hex_text(bytes)[3 + 2 * i] == hex_digits(bytes)[2 * i + 1]);
    lemma_digit(bytes[i] as int / 16);
    lemma_digit(bytes[i] as int % 16);
}

proof fn lemma_digit(d: int)
    requires
        0 <= d < 16,
    ensures
        hex_digit(d) == "0123456789abcdef"@[d],
{
    reveal_strlit("0123456789abcdef");
}

/// The number that a lower-case hexadecimal digit writes, if it is one.
pub open spec fn digit_value(c: char) -> Option<int> {
    if '0' <= c && c <= '9' {
        Some(c as int - '0' as int)
    } else if 'a' <= c && c <= 'f' {
        Some(10 + (c as int - 'a' as int))
    } else {
        None
    }
}

/// Whether a text is `0x` and the digits of some bytes.
pub open spec fn text_of(text: Seq<char>, bytes: Seq<u8>) -> bool {
    &&& text.len() == 2 + 2 * bytes.len()
    &&& text[0] == '0'
    &&& text[1] == 'x'
    &&& forall|i: int|
        #![trigger bytes[i]]
        0 <= i < bytes.len() ==> match (
            digit_value(text[2 + 2 * i]),
            digit_value(text[3 + 2 * i]),
        ) {
            (Some(high), Some(low)) => bytes[i] == 16 * high + low,
            _ => false,
        }
}

proof fn lemma_digit_value(d: int)
    requires
        0 <= d < 16,
    ensures
        digit_value(hex_digit(d)) == Some(d),
{
}

/// The text of a value in a trace is the digits of bytes that read as the value, and no text
/// is those of two values.
pub proof fn law_text_reads_back(value: ValueView, other: ValueView, bytes: Seq<u8>)
    requires
        encodable(value),
    ensures
        text_of(raw_text(value), encoding(value)),
        decoded(encoding(value)) == Some((value, Seq::<u8>::empty())),
        text_of(raw_text(value), bytes) && decoded(bytes) == Some((other, Seq::<u8>::empty()))
            ==> other == value,
{
    let own = encoding(value);
    law_encoding_is_what_reads(value, own);
    assert forall|i: int| #![trigger own[i]] 0 <= i < own.len() implies match (
        digit_value(raw_text(value)[2 + 2 * i]),
        digit_value(raw_text(value)[3 + 2 * i]),
    ) {
        (Some(high), Some(low)) => own[i] == 16 * high + low,
        _ => false,
    } by {
        assert(raw_text(value)[2 + 2 * i] == hex_digits(own)[2 * i]);
        assert(raw_text(value)[3 + 2 * i] == hex_digits(own)[2 * i + 1]);
        lemma_digit_value(own[i] as int / 16);
        lemma_digit_value(own[i] as int % 16);
    }
    if text_of(raw_text(value), bytes) {
        assert forall|i: int| 0 <= i < bytes.len() implies bytes[i] == own[i] by {
            assert(own[i] == own[i]);
        }
        assert(bytes =~= own);
    }
}

} // verus!
