//! Reading encodings back: a value has exactly one encoding, and it can be read off.

use vstd::prelude::*;
#[allow(unused_imports)]
use vstd::array::{spec_array_fill_for_copy_type, spec_array_update};
#[allow(unused_imports)]
use vstd::utf8::{
    decode_utf8, decode_utf8_encode_utf8, encode_utf8, encode_utf8_decode_utf8,
    encode_utf8_valid_utf8, valid_utf8,
};
#[allow(unused_imports)]
use crate::consensus::{
    account_encoding, be_bytes, encodable, encoding, entries_encoding, items_encoding,
    name_encoding, name_fits, sized, twos_complement,
};
#[allow(unused_imports)]
use crate::laws::encoding::{
    capacity, lemma_be_bytes_len, lemma_capacities, lemma_entries_front, lemma_items_front,
};
#[allow(unused_imports)]
use crate::principal::{AccountView, ContractView, PrincipalView};
#[allow(unused_imports)]
use crate::value::ValueView;

verus! {

/// The number that some bytes write, the most significant first.
pub open spec fn number(bytes: Seq<u8>) -> nat
    decreases bytes.len(),
{
    if bytes.len() == 0 {
        0
    } else {
        256 * number(bytes.drop_last()) + bytes.last() as nat
    }
}

/// The signed number that sixteen bytes write in two's complement.
pub open spec fn signed(bytes: Seq<u8>) -> int {
    if bytes[0] < 128 {
        number(bytes) as int
    } else {
        number(bytes) - 0x1_0000_0000_0000_0000_0000_0000_0000_0000
    }
}

/// Bytes behind a length in four bytes, and what follows them.
pub open spec fn sized_part(bytes: Seq<u8>) -> Option<(Seq<u8>, Seq<u8>)> {
    if bytes.len() >= 4 && bytes.len() >= 4 + number(bytes.take(4)) {
        let n = number(bytes.take(4)) as int;
        Some((bytes.skip(4).take(n), bytes.skip(4).skip(n)))
    } else {
        None
    }
}

/// A name behind its length in one byte, and what follows it.
pub open spec fn name_part(bytes: Seq<u8>) -> Option<(Seq<char>, Seq<u8>)> {
    if bytes.len() >= 1 && bytes.len() >= 1 + bytes[0] && valid_utf8(
        bytes.skip(1).take(bytes[0] as int),
    ) {
        let n = bytes[0] as int;
        Some((decode_utf8(bytes.skip(1).take(n)), bytes.skip(1).skip(n)))
    } else {
        None
    }
}

/// An account, and what follows it.
pub open spec fn account_part(bytes: Seq<u8>) -> Option<(AccountView, Seq<u8>)> {
    if bytes.len() >= 21 {
        let hash = choose|hash: [u8; 20]| hash@ == bytes.skip(1).take(20);
        Some((AccountView { version: bytes[0], hash }, bytes.skip(1).skip(20)))
    } else {
        None
    }
}

/// The value without values in it that stands behind a type byte, and what follows it.
pub open spec fn flat_part(tag: u8, bytes: Seq<u8>) -> Option<(ValueView, Seq<u8>)> {
    if tag == 0 && bytes.len() >= 16 {
        Some((ValueView::Int(signed(bytes.take(16)) as i128), bytes.skip(16)))
    } else if tag == 1 && bytes.len() >= 16 {
        Some((ValueView::UInt(number(bytes.take(16)) as u128), bytes.skip(16)))
    } else if tag == 2 {
        match sized_part(bytes) {
            Some((part, end)) => Some((ValueView::Buffer(part), end)),
            None => None,
        }
    } else if tag == 3 {
        Some((ValueView::Bool(true), bytes))
    } else if tag == 4 {
        Some((ValueView::Bool(false), bytes))
    } else if tag == 5 {
        match account_part(bytes) {
            Some((account, end)) => Some(
                (ValueView::Principal(PrincipalView::Standard(account)), end),
            ),
            None => None,
        }
    } else if tag == 6 {
        match account_part(bytes) {
            Some((issuer, more)) => match name_part(more) {
                Some((name, end)) => Some(
                    (
                        ValueView::Principal(
                            PrincipalView::Contract(ContractView { issuer, name }),
                        ),
                        end,
                    ),
                ),
                None => None,
            },
            None => None,
        }
    } else if tag == 9 {
        Some((ValueView::OptionalNone, bytes))
    } else if tag == 13 {
        match sized_part(bytes) {
            Some((part, end)) => Some((ValueView::StringAscii(part), end)),
            None => None,
        }
    } else if tag == 14 {
        match sized_part(bytes) {
            Some((part, end)) => if valid_utf8(part) {
                Some((ValueView::StringUtf8(decode_utf8(part)), end))
            } else {
                None
            },
            None => None,
        }
    } else {
        None
    }
}

/// The value that some bytes begin with, and the bytes behind it.
pub open spec fn decoded(bytes: Seq<u8>) -> Option<(ValueView, Seq<u8>)>
    decreases bytes.len(), 0int,
{
    if bytes.len() == 0 {
        None
    } else {
        let tag = bytes[0];
        let rest = bytes.skip(1);
        if tag == 7 || tag == 8 {
            match decoded(rest) {
                Some((inner, end)) => Some((ValueView::Response(tag == 7, Box::new(inner)), end)),
                None => None,
            }
        } else if tag == 10 {
            match decoded(rest) {
                Some((inner, end)) => Some((ValueView::OptionalSome(Box::new(inner)), end)),
                None => None,
            }
        } else if tag == 11 && rest.len() >= 4 {
            match decoded_items(number(rest.take(4)), rest.skip(4)) {
                Some((items, end)) => Some((ValueView::List(items), end)),
                None => None,
            }
        } else if tag == 12 && rest.len() >= 4 {
            match decoded_entries(number(rest.take(4)), rest.skip(4)) {
                Some((entries, end)) => Some((ValueView::Tuple(entries), end)),
                None => None,
            }
        } else {
            flat_part(tag, rest)
        }
    }
}

/// Several values, one behind the other.
pub open spec fn decoded_items(count: nat, bytes: Seq<u8>) -> Option<(Seq<ValueView>, Seq<u8>)>
    decreases bytes.len(), 1int,
{
    if count == 0 {
        Some((Seq::empty(), bytes))
    } else {
        match decoded(bytes) {
            Some((first, rest)) => if rest.len() < bytes.len() {
                match decoded_items((count - 1) as nat, rest) {
                    Some((others, end)) => Some((seq![first] + others, end)),
                    None => None,
                }
            } else {
                None
            },
            None => None,
        }
    }
}

/// Several fields of a tuple, one behind the other.
pub open spec fn decoded_entries(count: nat, bytes: Seq<u8>) -> Option<
    (Seq<(Seq<char>, ValueView)>, Seq<u8>),
>
    decreases bytes.len(), 1int,
{
    if count == 0 {
        Some((Seq::empty(), bytes))
    } else {
        match name_part(bytes) {
            Some((name, more)) => if more.len() < bytes.len() {
                match decoded(more) {
                    Some((value, rest)) => if rest.len() < bytes.len() {
                        match decoded_entries((count - 1) as nat, rest) {
                            Some((others, end)) => Some((seq![(name, value)] + others, end)),
                            None => None,
                        }
                    } else {
                        None
                    },
                    None => None,
                }
            } else {
                None
            },
            None => None,
        }
    }
}

/// Written bytes read back as the number.
proof fn lemma_number_of_be_bytes(n: nat, width: nat)
    requires
        n < capacity(width),
    ensures
        number(be_bytes(n, width)) == n,
    decreases width,
{
    if width > 0 {
        let w = (width - 1) as nat;
        lemma_number_of_be_bytes(n / 256, w);
        assert(be_bytes(n, width).drop_last() =~= be_bytes(n / 256, w));
    }
}

/// Bytes are those of the number that they write.
proof fn lemma_be_bytes_of_number(bytes: Seq<u8>)
    ensures
        be_bytes(number(bytes), bytes.len()) == bytes,
        number(bytes) < capacity(bytes.len()),
    decreases bytes.len(),
{
    if bytes.len() > 0 {
        let shorter = bytes.drop_last();
        lemma_be_bytes_of_number(shorter);
        let n = number(bytes);
        assert(n / 256 == number(shorter));
        assert(n % 256 == bytes.last());
        assert(be_bytes(n, bytes.len()) =~= shorter.push(bytes.last()));
        assert(shorter.push(bytes.last()) =~= bytes);
    } else {
        assert(be_bytes(0, 0) =~= bytes);
    }
}

/// The first byte tells in which half a number lies.
proof fn lemma_first_byte(bytes: Seq<u8>)
    requires
        bytes.len() > 0,
    ensures
        bytes[0] * capacity((bytes.len() - 1) as nat) <= number(bytes),
        number(bytes) < (bytes[0] + 1) * capacity((bytes.len() - 1) as nat),
    decreases bytes.len(),
{
    let w = (bytes.len() - 1) as nat;
    if bytes.len() == 1 {
        assert(number(bytes.drop_last()) == 0);
        assert(capacity(0) == 1);
    } else {
        let shorter = bytes.drop_last();
        let v = (w - 1) as nat;
        let a = bytes[0] as int;
        let k = capacity(v) as int;
        let m = number(shorter) as int;
        lemma_first_byte(shorter);
        assert(capacity(w) == 256 * capacity(v));
        assert(a * (256 * k) == 256 * (a * k)) by (nonlinear_arith);
        assert((a + 1) * (256 * k) == 256 * ((a + 1) * k)) by (nonlinear_arith);
    }
}

/// Any twenty bytes are those of an array.
proof fn lemma_array_of(bytes: Seq<u8>, n: nat) -> (array: [u8; 20])
    requires
        bytes.len() == 20,
        n <= 20,
    ensures
        forall|i: int| 0 <= i < n ==> array@[i] == bytes[i],
    decreases n,
{
    if n == 0 {
        spec_array_fill_for_copy_type::<u8, 20>(0)
    } else {
        let before = lemma_array_of(bytes, (n - 1) as nat);
        let after = spec_array_update(before, n - 1, bytes[n - 1]);
        assert(after@ == before@.update(n - 1, bytes[n - 1]));
        after
    }
}

proof fn lemma_sized_part(part: Seq<u8>, x: Seq<u8>)
    requires
        part.len() <= u32::MAX,
    ensures
        sized_part(sized(part) + x) == Some((part, x)),
{
    let bytes = sized(part) + x;
    lemma_capacities();
    lemma_be_bytes_len(part.len(), 4);
    lemma_number_of_be_bytes(part.len(), 4);
    assert(bytes.take(4) =~= be_bytes(part.len(), 4));
    assert(bytes.skip(4).take(part.len() as int) =~= part);
    assert(bytes.skip(4).skip(part.len() as int) =~= x);
}

proof fn lemma_sized_part_back(bytes: Seq<u8>, part: Seq<u8>, x: Seq<u8>)
    requires
        sized_part(bytes) == Some((part, x)),
    ensures
        part.len() <= u32::MAX,
        bytes == sized(part) + x,
{
    lemma_capacities();
    lemma_be_bytes_of_number(bytes.take(4));
    assert(bytes =~= bytes.take(4) + part + x);
}

proof fn lemma_name_part(name: Seq<char>, x: Seq<u8>)
    requires
        name_fits(name),
    ensures
        name_part(name_encoding(name) + x) == Some((name, x)),
{
    let part = encode_utf8(name);
    let bytes = name_encoding(name) + x;
    encode_utf8_valid_utf8(name);
    encode_utf8_decode_utf8(name);
    assert(bytes[0] == part.len() as u8);
    assert(bytes.skip(1).take(part.len() as int) =~= part);
    assert(bytes.skip(1).skip(part.len() as int) =~= x);
}

proof fn lemma_name_part_back(bytes: Seq<u8>, name: Seq<char>, x: Seq<u8>)
    requires
        name_part(bytes) == Some((name, x)),
    ensures
        name_fits(name),
        bytes == name_encoding(name) + x,
        x.len() < bytes.len(),
{
    let part = bytes.skip(1).take(bytes[0] as int);
    decode_utf8_encode_utf8(part);
    assert(bytes =~= seq![bytes[0]] + part + x);
}

proof fn lemma_account_part(account: AccountView, x: Seq<u8>)
    ensures
        account_part(account_encoding(account) + x) == Some((account, x)),
{
    let bytes = account_encoding(account) + x;
    assert(bytes.skip(1).take(20) =~= account.hash@);
    assert(bytes.skip(1).skip(20) =~= x);
    let hash = choose|hash: [u8; 20]| hash@ == bytes.skip(1).take(20);
    assert(hash =~= account.hash);
}

proof fn lemma_account_part_back(bytes: Seq<u8>, account: AccountView, x: Seq<u8>)
    requires
        account_part(bytes) == Some((account, x)),
    ensures
        bytes == account_encoding(account) + x,
{
    let part = bytes.skip(1).take(20);
    let array = lemma_array_of(part, 20);
    assert(array@ =~= part);
    assert(account.hash@ == part);
    assert(bytes =~= seq![bytes[0]] + part + x);
}

/// Sixteen bytes write a number of the upper half if and only if the first is at least 128.
proof fn lemma_upper_half(bytes: Seq<u8>)
    requires
        bytes.len() == 16,
    ensures
        bytes[0] < 128 <==> number(bytes) <= i128::MAX,
        number(bytes) <= u128::MAX,
{
    lemma_capacities();
    lemma_be_bytes_of_number(bytes);
    lemma_first_byte(bytes);
    let k = capacity(15) as int;
    let a = bytes[0] as int;
    assert(256 * k == capacity(16));
    if a < 128 {
        assert((a + 1) * k <= 128 * k) by (nonlinear_arith)
            requires
                a < 128,
                k >= 0,
        ;
    } else {
        assert(a * k >= 128 * k) by (nonlinear_arith)
            requires
                a >= 128,
                k >= 0,
        ;
    }
}

proof fn lemma_signed(n: i128)
    ensures
        signed(be_bytes(twos_complement(n), 16)) == n,
{
    lemma_capacities();
    lemma_be_bytes_len(twos_complement(n), 16);
    lemma_number_of_be_bytes(twos_complement(n), 16);
    lemma_upper_half(be_bytes(twos_complement(n), 16));
}

proof fn lemma_signed_back(bytes: Seq<u8>)
    requires
        bytes.len() == 16,
    ensures
        i128::MIN <= signed(bytes) <= i128::MAX,
        be_bytes(twos_complement(signed(bytes) as i128), 16) == bytes,
{
    lemma_be_bytes_of_number(bytes);
    lemma_upper_half(bytes);
}

/// Whether no values stand in a value.
spec fn is_flat(value: ValueView) -> bool {
    match value {
        ValueView::OptionalSome(_) => false,
        ValueView::Response(_, _) => false,
        ValueView::List(_) => false,
        ValueView::Tuple(_) => false,
        _ => true,
    }
}

proof fn lemma_flat_reads_back(value: ValueView, x: Seq<u8>)
    requires
        is_flat(value),
        encodable(value),
    ensures
        ({
            let bytes = encoding(value) + x;
            &&& bytes[0] != 7 && bytes[0] != 8 && bytes[0] != 10 && bytes[0] != 11 && bytes[0]
                != 12
            &&& flat_part(bytes[0], bytes.skip(1)) == Some((value, x))
        }),
{
    let rest = (encoding(value) + x).skip(1);
    match value {
        ValueView::Int(n) => {
            lemma_signed(n);
            lemma_be_bytes_len(twos_complement(n), 16);
            assert(rest.take(16) =~= be_bytes(twos_complement(n), 16));
            assert(rest.skip(16) =~= x);
        },
        ValueView::UInt(n) => {
            lemma_capacities();
            lemma_be_bytes_len(n as nat, 16);
            lemma_number_of_be_bytes(n as nat, 16);
            assert(rest.take(16) =~= be_bytes(n as nat, 16));
            assert(rest.skip(16) =~= x);
        },
        ValueView::Buffer(part) => {
            lemma_sized_part(part, x);
            assert(rest =~= sized(part) + x);
        },
        ValueView::StringAscii(part) => {
            lemma_sized_part(part, x);
            assert(rest =~= sized(part) + x);
        },
        ValueView::StringUtf8(text) => {
            encode_utf8_valid_utf8(text);
            encode_utf8_decode_utf8(text);
            lemma_sized_part(encode_utf8(text), x);
            assert(rest =~= sized(encode_utf8(text)) + x);
        },
        ValueView::Principal(PrincipalView::Standard(account)) => {
            lemma_account_part(account, x);
            assert(rest =~= account_encoding(account) + x);
        },
        ValueView::Principal(PrincipalView::Contract(contract)) => {
            let more = name_encoding(contract.name) + x;
            lemma_account_part(contract.issuer, more);
            lemma_name_part(contract.name, x);
            assert(rest =~= account_encoding(contract.issuer) + more);
        },
        _ => {
            assert(rest =~= x);
        },
    }
}

proof fn lemma_flat_is_encoding(tag: u8, bytes: Seq<u8>, value: ValueView, x: Seq<u8>)
    requires
        flat_part(tag, bytes) == Some((value, x)),
    ensures
        encodable(value),
        seq![tag] + bytes == encoding(value) + x,
{
    match value {
        ValueView::Int(_) => {
            lemma_signed_back(bytes.take(16));
            assert(bytes =~= bytes.take(16) + x);
        },
        ValueView::UInt(_) => {
            lemma_capacities();
            lemma_be_bytes_of_number(bytes.take(16));
            assert(bytes =~= bytes.take(16) + x);
        },
        ValueView::Buffer(part) => {
            lemma_sized_part_back(bytes, part, x);
        },
        ValueView::StringAscii(part) => {
            lemma_sized_part_back(bytes, part, x);
        },
        ValueView::StringUtf8(_) => {
            let part = (sized_part(bytes)->0).0;
            lemma_sized_part_back(bytes, part, x);
            decode_utf8_encode_utf8(part);
        },
        ValueView::Principal(PrincipalView::Standard(account)) => {
            lemma_account_part_back(bytes, account, x);
        },
        ValueView::Principal(PrincipalView::Contract(contract)) => {
            let more = (account_part(bytes)->0).1;
            lemma_account_part_back(bytes, contract.issuer, more);
            lemma_name_part_back(more, contract.name, x);
        },
        _ => {},
    }
    assert(seq![tag] + bytes =~= encoding(value) + x);
}

/// An encoding reads back as the value, whatever follows it.
pub proof fn law_encoding_reads_back(value: ValueView, x: Seq<u8>)
    requires
        encodable(value),
    ensures
        decoded(encoding(value) + x) == Some((value, x)),
    decreases value, 0int,
{
    let bytes = encoding(value) + x;
    let rest = bytes.skip(1);
    if is_flat(value) {
        lemma_flat_reads_back(value, x);
    } else {
        lemma_capacities();
        match value {
            ValueView::OptionalSome(inner) => {
                law_encoding_reads_back(*inner, x);
                assert(rest =~= encoding(*inner) + x);
            },
            ValueView::Response(_, inner) => {
                law_encoding_reads_back(*inner, x);
                assert(rest =~= encoding(*inner) + x);
            },
            ValueView::List(items) => {
                lemma_be_bytes_len(items.len(), 4);
                lemma_number_of_be_bytes(items.len(), 4);
                lemma_items_read_back(items, x);
                assert(rest.take(4) =~= be_bytes(items.len(), 4));
                assert(rest.skip(4) =~= items_encoding(items) + x);
            },
            ValueView::Tuple(entries) => {
                lemma_be_bytes_len(entries.len(), 4);
                lemma_number_of_be_bytes(entries.len(), 4);
                lemma_entries_read_back(entries, x);
                assert(rest.take(4) =~= be_bytes(entries.len(), 4));
                assert(rest.skip(4) =~= entries_encoding(entries) + x);
            },
            _ => {},
        }
    }
}

proof fn lemma_items_read_back(items: Seq<ValueView>, x: Seq<u8>)
    requires
        forall|i: int| 0 <= i < items.len() ==> encodable(#[trigger] items[i]),
    ensures
        decoded_items(items.len(), items_encoding(items) + x) == Some((items, x)),
    decreases items, 1int,
{
    let bytes = items_encoding(items) + x;
    if items.len() == 0 {
        assert(bytes =~= x);
        assert(items =~= Seq::empty());
    } else {
        let others = items.drop_first();
        lemma_items_front(items);
        let rest = items_encoding(others) + x;
        assert(bytes =~= encoding(items[0]) + rest);
        law_encoding_reads_back(items[0], rest);
        lemma_items_read_back(others, x);
        assert(items =~= seq![items[0]] + others);
        assert(encoding(items[0]).len() > 0);
    }
}

proof fn lemma_entries_read_back(entries: Seq<(Seq<char>, ValueView)>, x: Seq<u8>)
    requires
        forall|i: int|
            0 <= i < entries.len() ==> name_fits((#[trigger] entries[i]).0) && encodable(
                entries[i].1,
            ),
    ensures
        decoded_entries(entries.len(), entries_encoding(entries) + x) == Some((entries, x)),
    decreases entries, 1int,
{
    let bytes = entries_encoding(entries) + x;
    if entries.len() == 0 {
        assert(bytes =~= x);
        assert(entries =~= Seq::empty());
    } else {
        let others = entries.drop_first();
        lemma_entries_front(entries);
        let rest = entries_encoding(others) + x;
        let more = encoding(entries[0].1) + rest;
        assert(bytes =~= name_encoding(entries[0].0) + more);
        lemma_name_part(entries[0].0, more);
        law_encoding_reads_back(entries[0].1, rest);
        lemma_entries_read_back(others, x);
        assert(entries =~= seq![entries[0]] + others);
    }
}

/// What reads as a value is its encoding: there is no other, and a value that can be read
/// can be encoded.
pub proof fn law_what_reads_is_the_encoding(bytes: Seq<u8>, value: ValueView, x: Seq<u8>)
    requires
        decoded(bytes) == Some((value, x)),
    ensures
        encodable(value),
        bytes == encoding(value) + x,
        x.len() < bytes.len(),
    decreases bytes.len(), 0int,
{
    let tag = bytes[0];
    let rest = bytes.skip(1);
    assert(bytes =~= seq![tag] + rest);
    if tag == 7 || tag == 8 || tag == 10 {
        let inner = (decoded(rest)->0).0;
        law_what_reads_is_the_encoding(rest, inner, x);
        assert(bytes =~= encoding(value) + x);
    } else if tag == 11 && rest.len() >= 4 {
        let items = (decoded_items(number(rest.take(4)), rest.skip(4))->0).0;
        lemma_capacities();
        lemma_be_bytes_of_number(rest.take(4));
        lemma_items_are_encodings(number(rest.take(4)), rest.skip(4), items, x);
        assert(rest =~= rest.take(4) + rest.skip(4));
        assert(bytes =~= encoding(value) + x);
    } else if tag == 12 && rest.len() >= 4 {
        let entries = (decoded_entries(number(rest.take(4)), rest.skip(4))->0).0;
        lemma_capacities();
        lemma_be_bytes_of_number(rest.take(4));
        lemma_entries_are_encodings(number(rest.take(4)), rest.skip(4), entries, x);
        assert(rest =~= rest.take(4) + rest.skip(4));
        assert(bytes =~= encoding(value) + x);
    } else {
        lemma_flat_is_encoding(tag, rest, value, x);
        assert(encoding(value).len() > 0);
    }
}

proof fn lemma_items_are_encodings(
    count: nat,
    bytes: Seq<u8>,
    items: Seq<ValueView>,
    x: Seq<u8>,
)
    requires
        decoded_items(count, bytes) == Some((items, x)),
    ensures
        items.len() == count,
        forall|i: int| 0 <= i < items.len() ==> encodable(#[trigger] items[i]),
        bytes == items_encoding(items) + x,
    decreases bytes.len(), 1int,
{
    if count == 0 {
        assert(bytes =~= items_encoding(items) + x);
    } else {
        let first = (decoded(bytes)->0).0;
        let rest = (decoded(bytes)->0).1;
        let others = (decoded_items((count - 1) as nat, rest)->0).0;
        law_what_reads_is_the_encoding(bytes, first, rest);
        lemma_items_are_encodings((count - 1) as nat, rest, others, x);
        assert(items =~= seq![first] + others);
        assert(items.drop_first() =~= others);
        lemma_items_front(items);
        assert(bytes =~= items_encoding(items) + x);
        assert forall|i: int| 0 <= i < items.len() implies encodable(#[trigger] items[i]) by {
            if i > 0 {
                assert(items[i] == others[i - 1]);
            }
        }
    }
}

proof fn lemma_entries_are_encodings(
    count: nat,
    bytes: Seq<u8>,
    entries: Seq<(Seq<char>, ValueView)>,
    x: Seq<u8>,
)
    requires
        decoded_entries(count, bytes) == Some((entries, x)),
    ensures
        entries.len() == count,
        forall|i: int|
            0 <= i < entries.len() ==> name_fits((#[trigger] entries[i]).0) && encodable(
                entries[i].1,
            ),
        bytes == entries_encoding(entries) + x,
    decreases bytes.len(), 1int,
{
    if count == 0 {
        assert(bytes =~= entries_encoding(entries) + x);
    } else {
        let name = (name_part(bytes)->0).0;
        let more = (name_part(bytes)->0).1;
        let value = (decoded(more)->0).0;
        let rest = (decoded(more)->0).1;
        let others = (decoded_entries((count - 1) as nat, rest)->0).0;
        lemma_name_part_back(bytes, name, more);
        law_what_reads_is_the_encoding(more, value, rest);
        lemma_entries_are_encodings((count - 1) as nat, rest, others, x);
        assert(entries =~= seq![(name, value)] + others);
        assert(entries.drop_first() =~= others);
        lemma_entries_front(entries);
        assert(bytes =~= entries_encoding(entries) + x);
        assert forall|i: int| 0 <= i < entries.len() implies name_fits(
            (#[trigger] entries[i]).0,
        ) && encodable(entries[i].1) by {
            if i > 0 {
                assert(entries[i] == others[i - 1]);
            }
        }
    }
}

} // verus!
