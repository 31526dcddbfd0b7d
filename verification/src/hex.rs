//! Hexadecimal text of byte strings.

use vstd::prelude::*;
#[allow(unused_imports)]
use vstd::string::*;

verus! {

/// The lower-case hexadecimal digit of a number below sixteen.
pub open spec fn hex_digit(d: int) -> char {
    if d < 10 {
        ('0' as int + d) as char
    } else {
        ('a' as int + d - 10) as char
    }
}

/// Two digits for each byte, the high half first.
pub open spec fn hex_digits(bytes: Seq<u8>) -> Seq<char> {
    Seq::new(
        2 * bytes.len(),
        |i: int|
            if i % 2 == 0 {
                hex_digit(bytes[i / 2] as int / 16)
            } else {
                hex_digit(bytes[i / 2] as int % 16)
            },
    )
}

/// The digits of `bytes` behind the prefix `0x`.
pub open spec fn hex_text(bytes: Seq<u8>) -> Seq<char> {
    seq!['0', 'x'] + hex_digits(bytes)
}

/// The text of one hexadecimal digit.
fn digit_text(d: u8) -> (text: &'static str)
    requires
        d < 16,
    ensures
        text@ == seq![hex_digit(d as int)],
{
    proof {
        reveal_strlit("0");
        reveal_strlit("1");
        reveal_strlit("2");
        reveal_strlit("3");
        reveal_strlit("4");
        reveal_strlit("5");
        reveal_strlit("6");
        reveal_strlit("7");
        reveal_strlit("8");
        reveal_strlit("9");
        reveal_strlit("a");
        reveal_strlit("b");
        reveal_strlit("c");
        reveal_strlit("d");
        reveal_strlit("e");
        reveal_strlit("f");
    }
    match d {
        0 => "0",
        1 => "1",
        2 => "2",
        3 => "3",
        4 => "4",
        5 => "5",
        6 => "6",
        7 => "7",
        8 => "8",
        9 => "9",
        10 => "a",
        11 => "b",
        12 => "c",
        13 => "d",
        14 => "e",
        _ => "f",
    }
}

/// Writes `bytes` as hexadecimal text with the prefix `0x`.
pub fn to_hex_text(bytes: &[u8]) -> (text: String)
    ensures
        text@ == hex_text(bytes@),
{
    proof {
        reveal_strlit("0x");
    }
    let mut text: String = "0x".to_owned();
    assert(text@ =~= hex_text(bytes@.take(0)));
    for i in 0..bytes.len()
        invariant
            text@ == hex_text(bytes@.take(i as int)),
    {
        let b: u8 = bytes[i];
        text.append(digit_text(b / 16));
        text.append(digit_text(b % 16));
        assert(text@ =~= hex_text(bytes@.take(i + 1)));
    }
    assert(bytes@.take(bytes@.len() as int) =~= bytes@);
    text
}

/// The text of a byte string determines the byte string.
pub proof fn lemma_hex_text_injective(a: Seq<u8>, b: Seq<u8>)
    requires
        hex_text(a) == hex_text(b),
    ensures
        a == b,
{
    assert(hex_text(a).len() == 2 + 2 * a.len());
    assert(hex_text(b).len() == 2 + 2 * b.len());
    assert forall|i: int| 0 <= i < a.len() implies a[i] == b[i] by {
        lemma_hex_text_at(a, i);
        lemma_hex_text_at(b, i);
    }
    assert(a =~= b);
}

/// Where the two digits of the byte at `i` stand.
proof fn lemma_hex_text_at(bytes: Seq<u8>, i: int)
    requires
        0 <= i < bytes.len(),
    ensures
        hex_text(bytes)[2 + 2 * i] == hex_digit(bytes[i] as int / 16),
        hex_text(bytes)[3 + 2 * i] == hex_digit(bytes[i] as int % 16),
{
    assert(hex_text(bytes)[2 + 2 * i] == hex_digits(bytes)[2 * i]);
    assert(hex_text(bytes)[3 + 2 * i] == hex_digits(bytes)[2 * i + 1]);
}

} // verus!
