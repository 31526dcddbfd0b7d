//! A trace tells the values in it: no two values have the same text.

use vstd::prelude::*;
#[allow(unused_imports)]
use vstd::utf8::encode_utf8;
#[allow(unused_imports)]
use crate::consensus::{
    account_encoding, be_bytes, encodable, encoding, entries_encoding, items_encoding,
    name_encoding, name_fits, sized, twos_complement,
    PREFIX_ACCOUNT, PREFIX_ASCII, PREFIX_BUFFER, PREFIX_CONTRACT, PREFIX_ERR, PREFIX_FALSE,
    PREFIX_INT, PREFIX_LIST, PREFIX_NONE, PREFIX_OK, PREFIX_SOME, PREFIX_TRUE, PREFIX_TUPLE,
    PREFIX_UINT, PREFIX_UTF8,
};
#[allow(unused_imports)]
use crate::events::raw_text;
#[allow(unused_imports)]
use crate::hex::lemma_hex_text_injective;
#[allow(unused_imports)]
use crate::principal::{AccountView, PrincipalView};
#[allow(unused_imports)]
use crate::text::lemma_utf8_injective;
#[allow(unused_imports)]
use crate::value::ValueView;

verus! {

/// Equal byte strings whose first parts have the same length have equal parts.
proof fn lemma_split(p: Seq<u8>, s: Seq<u8>, q: Seq<u8>, t: Seq<u8>)
    requires
        p + s == q + t,
        p.len() == q.len(),
    ensures
        p == q,
        s == t,
{
    let whole = p + s;
    let n = p.len() as int;
    assert(p =~= whole.take(n));
    assert(s =~= whole.skip(n));
    assert(q =~= (q + t).take(n));
    assert(t =~= (q + t).skip(n));
}

/// How many numbers some bytes can tell apart.
pub open spec fn capacity(width: nat) -> nat
    decreases width,
{
    if width == 0 {
        1
    } else {
        256 * capacity((width - 1) as nat)
    }
}

pub proof fn lemma_be_bytes_len(n: nat, width: nat)
    ensures
        be_bytes(n, width).len() == width,
    decreases width,
{
    if width > 0 {
        lemma_be_bytes_len(n / 256, (width - 1) as nat);
    }
}

proof fn lemma_be_bytes_injective(a: nat, b: nat, width: nat)
    requires
        a < capacity(width),
        b < capacity(width),
        be_bytes(a, width) == be_bytes(b, width),
    ensures
        a == b,
    decreases width,
{
    if width > 0 {
        let w = (width - 1) as nat;
        let p = be_bytes(a / 256, w);
        let q = be_bytes(b / 256, w);
        let x = (a % 256) as u8;
        let y = (b % 256) as u8;
        assert(p.push(x).last() == x && q.push(y).last() == y);
        assert(p.push(x).drop_last() =~= p && q.push(y).drop_last() =~= q);
        lemma_be_bytes_injective(a / 256, b / 256, w);
    }
}

proof fn lemma_be_prefix(a: nat, b: nat, width: nat, x: Seq<u8>, y: Seq<u8>)
    requires
        a < capacity(width),
        b < capacity(width),
        be_bytes(a, width) + x == be_bytes(b, width) + y,
    ensures
        a == b,
        x == y,
{
    lemma_be_bytes_len(a, width);
    lemma_be_bytes_len(b, width);
    lemma_split(be_bytes(a, width), x, be_bytes(b, width), y);
    lemma_be_bytes_injective(a, b, width);
}

pub proof fn lemma_capacities()
    ensures
        capacity(4) == u32::MAX + 1,
        capacity(16) == u128::MAX + 1,
{
    reveal_with_fuel(capacity, 17);
}

proof fn lemma_sized_prefix(a: Seq<u8>, b: Seq<u8>, x: Seq<u8>, y: Seq<u8>)
    requires
        a.len() <= u32::MAX,
        b.len() <= u32::MAX,
        sized(a) + x == sized(b) + y,
    ensures
        a == b,
        x == y,
{
    lemma_capacities();
    assert(sized(a) + x =~= be_bytes(a.len(), 4) + (a + x));
    assert(sized(b) + y =~= be_bytes(b.len(), 4) + (b + y));
    lemma_be_prefix(a.len(), b.len(), 4, a + x, b + y);
    lemma_split(a, x, b, y);
}

proof fn lemma_name_prefix(a: Seq<char>, b: Seq<char>, x: Seq<u8>, y: Seq<u8>)
    requires
        name_fits(a),
        name_fits(b),
        name_encoding(a) + x == name_encoding(b) + y,
    ensures
        a == b,
        x == y,
{
    let p = encode_utf8(a);
    let q = encode_utf8(b);
    assert(name_encoding(a) + x =~= seq![p.len() as u8] + (p + x));
    assert(name_encoding(b) + y =~= seq![q.len() as u8] + (q + y));
    lemma_split(seq![p.len() as u8], p + x, seq![q.len() as u8], q + y);
    assert(seq![p.len() as u8][0] == seq![q.len() as u8][0]);
    lemma_split(p, x, q, y);
    lemma_utf8_injective(a, b);
}

proof fn lemma_account_prefix(a: AccountView, b: AccountView, x: Seq<u8>, y: Seq<u8>)
    requires
        account_encoding(a) + x == account_encoding(b) + y,
    ensures
        a == b,
        x == y,
{
    lemma_split(account_encoding(a), x, account_encoding(b), y);
    lemma_split(seq![a.version], a.hash@, seq![b.version], b.hash@);
    assert(seq![a.version][0] == seq![b.version][0]);
    assert(a.hash =~= b.hash);
}

/// The type byte of a value.
spec fn tag(value: ValueView) -> u8 {
    match value {
        ValueView::Int(_) => PREFIX_INT,
        ValueView::UInt(_) => PREFIX_UINT,
        ValueView::Bool(true) => PREFIX_TRUE,
        ValueView::Bool(false) => PREFIX_FALSE,
        ValueView::Buffer(_) => PREFIX_BUFFER,
        ValueView::StringAscii(_) => PREFIX_ASCII,
        ValueView::StringUtf8(_) => PREFIX_UTF8,
        ValueView::Principal(PrincipalView::Standard(_)) => PREFIX_ACCOUNT,
        ValueView::Principal(PrincipalView::Contract(_)) => PREFIX_CONTRACT,
        ValueView::OptionalNone => PREFIX_NONE,
        ValueView::OptionalSome(_) => PREFIX_SOME,
        ValueView::Response(true, _) => PREFIX_OK,
        ValueView::Response(false, _) => PREFIX_ERR,
        ValueView::List(_) => PREFIX_LIST,
        ValueView::Tuple(_) => PREFIX_TUPLE,
    }
}

/// What stands behind the type byte of a value.
spec fn body(value: ValueView) -> Seq<u8> {
    match value {
        ValueView::Int(n) => be_bytes(twos_complement(n), 16),
        ValueView::UInt(n) => be_bytes(n as nat, 16),
        ValueView::Bool(_) => Seq::empty(),
        ValueView::Buffer(bytes) => sized(bytes),
        ValueView::StringAscii(bytes) => sized(bytes),
        ValueView::StringUtf8(text) => sized(encode_utf8(text)),
        ValueView::Principal(PrincipalView::Standard(account)) => account_encoding(account),
        ValueView::Principal(PrincipalView::Contract(contract)) => account_encoding(
            contract.issuer,
        ) + name_encoding(contract.name),
        ValueView::OptionalNone => Seq::empty(),
        ValueView::OptionalSome(inner) => encoding(*inner),
        ValueView::Response(_, inner) => encoding(*inner),
        ValueView::List(items) => be_bytes(items.len(), 4) + items_encoding(items),
        ValueView::Tuple(entries) => be_bytes(entries.len(), 4) + entries_encoding(entries),
    }
}

proof fn lemma_tag_and_body(value: ValueView)
    ensures
        encoding(value) == seq![tag(value)] + body(value),
{
    assert(encoding(value) =~= seq![tag(value)] + body(value));
}

pub proof fn lemma_items_front(items: Seq<ValueView>)
    requires
        items.len() > 0,
    ensures
        items_encoding(items) == encoding(items[0]) + items_encoding(items.drop_first()),
    decreases items.len(),
{
    if items.len() == 1 {
        assert(items.drop_last() =~= Seq::empty());
        assert(items.drop_first() =~= Seq::empty());
        assert(items_encoding(items) =~= encoding(items[0]) + items_encoding(items.drop_first()));
    } else {
        lemma_items_front(items.drop_last());
        assert(items.drop_first().drop_last() =~= items.drop_last().drop_first());
        assert(items_encoding(items) =~= encoding(items[0]) + items_encoding(items.drop_first()));
    }
}

pub proof fn lemma_entries_front(entries: Seq<(Seq<char>, ValueView)>)
    requires
        entries.len() > 0,
    ensures
        entries_encoding(entries) == name_encoding(entries[0].0) + (encoding(entries[0].1)
            + entries_encoding(entries.drop_first())),
    decreases entries.len(),
{
    let front = name_encoding(entries[0].0) + (encoding(entries[0].1) + entries_encoding(
        entries.drop_first(),
    ));
    if entries.len() == 1 {
        assert(entries.drop_last() =~= Seq::empty());
        assert(entries.drop_first() =~= Seq::empty());
        assert(entries_encoding(entries) =~= front);
    } else {
        lemma_entries_front(entries.drop_last());
        assert(entries.drop_first().drop_last() =~= entries.drop_last().drop_first());
        assert(entries_encoding(entries) =~= front);
    }
}

/// No encoding of a value is the beginning of that of another one.
pub proof fn law_encoding_is_prefix_free(a: ValueView, b: ValueView, x: Seq<u8>, y: Seq<u8>)
    requires
        encodable(a),
        encodable(b),
        encoding(a) + x == encoding(b) + y,
    ensures
        a == b,
        x == y,
    decreases a, 0int,
{
    lemma_tag_and_body(a);
    lemma_tag_and_body(b);
    lemma_capacities();
    assert(encoding(a) + x =~= seq![tag(a)] + (body(a) + x));
    assert(encoding(b) + y =~= seq![tag(b)] + (body(b) + y));
    lemma_split(seq![tag(a)], body(a) + x, seq![tag(b)], body(b) + y);
    assert(seq![tag(a)][0] == seq![tag(b)][0]);
    match (a, b) {
        (ValueView::Int(m), ValueView::Int(n)) => {
            lemma_be_prefix(twos_complement(m), twos_complement(n), 16, x, y);
        },
        (ValueView::UInt(m), ValueView::UInt(n)) => {
            lemma_be_prefix(m as nat, n as nat, 16, x, y);
        },
        (ValueView::Buffer(s), ValueView::Buffer(t)) => {
            lemma_sized_prefix(s, t, x, y);
        },
        (ValueView::StringAscii(s), ValueView::StringAscii(t)) => {
            lemma_sized_prefix(s, t, x, y);
        },
        (ValueView::StringUtf8(s), ValueView::StringUtf8(t)) => {
            lemma_sized_prefix(encode_utf8(s), encode_utf8(t), x, y);
            lemma_utf8_injective(s, t);
        },
        (ValueView::Principal(PrincipalView::Standard(s)), ValueView::Principal(
            PrincipalView::Standard(t),
        )) => {
            lemma_account_prefix(s, t, x, y);
        },
        (ValueView::Principal(PrincipalView::Contract(s)), ValueView::Principal(
            PrincipalView::Contract(t),
        )) => {
            assert(body(a) + x =~= account_encoding(s.issuer) + (name_encoding(s.name) + x));
            assert(body(b) + y =~= account_encoding(t.issuer) + (name_encoding(t.name) + y));
            lemma_account_prefix(
                s.issuer,
                t.issuer,
                name_encoding(s.name) + x,
                name_encoding(t.name) + y,
            );
            lemma_name_prefix(s.name, t.name, x, y);
        },
        (ValueView::OptionalSome(s), ValueView::OptionalSome(t)) => {
            law_encoding_is_prefix_free(*s, *t, x, y);
        },
        (ValueView::Response(_, s), ValueView::Response(_, t)) => {
            law_encoding_is_prefix_free(*s, *t, x, y);
        },
        (ValueView::List(s), ValueView::List(t)) => {
            assert(body(a) + x =~= be_bytes(s.len(), 4) + (items_encoding(s) + x));
            assert(body(b) + y =~= be_bytes(t.len(), 4) + (items_encoding(t) + y));
            lemma_be_prefix(s.len(), t.len(), 4, items_encoding(s) + x, items_encoding(t) + y);
            lemma_items_prefix(s, t, x, y);
        },
        (ValueView::Tuple(s), ValueView::Tuple(t)) => {
            assert(body(a) + x =~= be_bytes(s.len(), 4) + (entries_encoding(s) + x));
            assert(body(b) + y =~= be_bytes(t.len(), 4) + (entries_encoding(t) + y));
            lemma_be_prefix(s.len(), t.len(), 4, entries_encoding(s) + x, entries_encoding(t) + y);
            lemma_entries_prefix(s, t, x, y);
        },
        _ => {
            assert(Seq::<u8>::empty() + x =~= x);
            assert(Seq::<u8>::empty() + y =~= y);
        },
    }
}

proof fn lemma_items_prefix(a: Seq<ValueView>, b: Seq<ValueView>, x: Seq<u8>, y: Seq<u8>)
    requires
        a.len() == b.len(),
        forall|i: int| 0 <= i < a.len() ==> encodable(#[trigger] a[i]),
        forall|i: int| 0 <= i < b.len() ==> encodable(#[trigger] b[i]),
        items_encoding(a) + x == items_encoding(b) + y,
    ensures
        a == b,
        x == y,
    decreases a, 1int,
{
    if a.len() == 0 {
        assert(items_encoding(a) + x =~= x);
        assert(items_encoding(b) + y =~= y);
        assert(a =~= b);
    } else {
        let c = a.drop_first();
        let d = b.drop_first();
        lemma_items_front(a);
        lemma_items_front(b);
        assert(items_encoding(a) + x =~= encoding(a[0]) + (items_encoding(c) + x));
        assert(items_encoding(b) + y =~= encoding(b[0]) + (items_encoding(d) + y));
        law_encoding_is_prefix_free(a[0], b[0], items_encoding(c) + x, items_encoding(d) + y);
        lemma_items_prefix(c, d, x, y);
        assert(a =~= seq![a[0]] + c);
        assert(b =~= seq![b[0]] + d);
    }
}

proof fn lemma_entries_prefix(
    a: Seq<(Seq<char>, ValueView)>,
    b: Seq<(Seq<char>, ValueView)>,
    x: Seq<u8>,
    y: Seq<u8>,
)
    requires
        a.len() == b.len(),
        forall|i: int|
            0 <= i < a.len() ==> name_fits((#[trigger] a[i]).0) && encodable(a[i].1),
        forall|i: int|
            0 <= i < b.len() ==> name_fits((#[trigger] b[i]).0) && encodable(b[i].1),
        entries_encoding(a) + x == entries_encoding(b) + y,
    ensures
        a == b,
        x == y,
    decreases a, 1int,
{
    if a.len() == 0 {
        assert(entries_encoding(a) + x =~= x);
        assert(entries_encoding(b) + y =~= y);
        assert(a =~= b);
    } else {
        let c = a.drop_first();
        let d = b.drop_first();
        let p = encoding(a[0].1) + (entries_encoding(c) + x);
        let q = encoding(b[0].1) + (entries_encoding(d) + y);
        lemma_entries_front(a);
        lemma_entries_front(b);
        assert(entries_encoding(a) + x =~= name_encoding(a[0].0) + p);
        assert(entries_encoding(b) + y =~= name_encoding(b[0].0) + q);
        lemma_name_prefix(a[0].0, b[0].0, p, q);
        law_encoding_is_prefix_free(
            a[0].1,
            b[0].1,
            entries_encoding(c) + x,
            entries_encoding(d) + y,
        );
        lemma_entries_prefix(c, d, x, y);
        assert(a =~= seq![a[0]] + c);
        assert(b =~= seq![b[0]] + d);
    }
}

/// The text of a value in a trace tells which value it is, so that a complete log
/// determines every value that was written.
pub proof fn law_raw_text_tells_the_value(a: ValueView, b: ValueView)
    requires
        encodable(a),
        encodable(b),
        raw_text(a) == raw_text(b),
    ensures
        a == b,
{
    lemma_hex_text_injective(encoding(a), encoding(b));
    law_encoding_is_prefix_free(a, b, Seq::empty(), Seq::empty());
}

} // verus!
