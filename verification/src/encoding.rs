//! Keys as text: the lowercase hexadecimal form in which a store holds its
//! keys, two digits for each byte.

use crate::order::precedes_from;
use crate::text::{ascii_text, is_ascii_bytes};
use vstd::prelude::*;

verus! {

/// The digit, as a byte, that stands for a value below sixteen: `0` to `9`,
/// then `a` to `f`.
pub open spec fn hex_digit(nibble: int) -> u8 {
    if nibble < 10 {
        (48 + nibble) as u8
    } else {
        (87 + nibble) as u8
    }
}

/// The hexadecimal form of `bytes` as ASCII bytes: for each byte the digit
/// of its upper half, then the digit of its lower half.
pub open spec fn hex_ascii(bytes: Seq<u8>) -> Seq<u8> {
    Seq::new(
        2 * bytes.len(),
        |i: int|
            if i % 2 == 0 {
                hex_digit(bytes[i / 2] as int / 16)
            } else {
                hex_digit(bytes[i / 2] as int % 16)
            },
    )
}

/// The hexadecimal form of `bytes` as text.
pub open spec fn hex_text(bytes: Seq<u8>) -> Seq<char> {
    ascii_text(hex_ascii(bytes))
}

/// The value of a hexadecimal digit of either case, `None` for any other
/// character.
pub open spec fn nibble_of(digit: char) -> Option<int> {
    let code = digit as int;
    if 48 <= code <= 57 {
        Some(code - 48)
    } else if 97 <= code <= 102 {
        Some(code - 87)
    } else if 65 <= code <= 70 {
        Some(code - 55)
    } else {
        None
    }
}

/// Whether `text` is the hexadecimal form of some bytes: an even number of
/// hexadecimal digits.
pub open spec fn is_hex(text: Seq<char>) -> bool {
    &&& text.len() % 2 == 0
    &&& forall|i: int| 0 <= i < text.len() ==> (#[trigger] nibble_of(text[i])) is Some
}

/// The bytes that hexadecimal text stands for.
pub open spec fn hex_bytes(text: Seq<char>) -> Seq<u8> {
    Seq::new(
        text.len() / 2,
        |i: int| (nibble_of(text[2 * i])->Some_0 * 16 + nibble_of(text[2 * i + 1])->Some_0) as u8,
    )
}

/// The error of `hex::decode`, which is carried through unopened.
#[verifier::external_type_specification]
#[verifier::external_body]
pub struct ExFromHexError(hex::FromHexError);

/// Calls `hex::encode`. Trusted: the text holds two lowercase hexadecimal
/// digits for each byte of `data`, in order, the upper half of a byte
/// first.
#[verifier::external_body]
pub(crate) fn hex_encode(data: &Vec<u8>) -> (text: String)
    ensures
        text@ == hex_text(data@),
{
    hex::encode(data)
}

/// Calls `hex::decode`. Trusted: the call succeeds exactly on an even
/// number of hexadecimal digits, of either case, and gives the byte that
/// each pair of digits stands for.
#[verifier::external_body]
pub(crate) fn hex_decode(text: &str) -> (r: Result<Vec<u8>, hex::FromHexError>)
    ensures
        r is Ok <==> is_hex(text@),
        r matches Ok(bytes) ==> bytes@ == hex_bytes(text@),
{
    hex::decode(text)
}

/// Hexadecimal digits are ASCII.
pub proof fn lemma_hex_is_ascii(bytes: Seq<u8>)
    ensures
        is_ascii_bytes(hex_ascii(bytes)),
        crate::text::utf8(hex_text(bytes)) == hex_ascii(bytes),
{
    assert forall|i: int| 0 <= i < hex_ascii(bytes).len() implies #[trigger] hex_ascii(bytes)[i]
        < 128 by {
        let b = bytes[i / 2];
        assert(0 <= b as int / 16 < 16);
        assert(0 <= b as int % 16 < 16);
    }
    crate::text::lemma_ascii_bytes_are_text(hex_ascii(bytes));
}

/// Decoding inverts encoding: the hexadecimal text of bytes is hexadecimal,
/// and stands for those bytes.
pub proof fn lemma_hex_round_trip(bytes: Seq<u8>)
    ensures
        is_hex(hex_text(bytes)),
        hex_bytes(hex_text(bytes)) == bytes,
{
    let text = hex_text(bytes);
    assert forall|i: int| 0 <= i < text.len() implies (#[trigger] nibble_of(text[i])) is Some by {
        lemma_digit_value(bytes[i / 2] as int / 16);
        lemma_digit_value(bytes[i / 2] as int % 16);
    }
    assert forall|i: int| 0 <= i < bytes.len() implies hex_bytes(text)[i] == bytes[i] by {
        lemma_digit_value(bytes[i] as int / 16);
        lemma_digit_value(bytes[i] as int % 16);
        assert((2 * i) / 2 == i);
        assert((2 * i + 1) / 2 == i);
        assert(text[2 * i] == hex_digit(bytes[i] as int / 16) as char);
        assert(text[2 * i + 1] == hex_digit(bytes[i] as int % 16) as char);
    }
    assert(hex_bytes(text) =~= bytes);
}

/// The digit of a value below sixteen is a hexadecimal digit of that value.
proof fn lemma_digit_value(nibble: int)
    requires
        0 <= nibble < 16,
    ensures
        nibble_of(hex_digit(nibble) as char) == Some(nibble),
{
}

/// Two texts that are hexadecimal forms are the same only for the same
/// bytes.
pub proof fn lemma_hex_injective(a: Seq<u8>, b: Seq<u8>)
    requires
        hex_text(a) == hex_text(b),
    ensures
        a == b,
{
    lemma_hex_round_trip(a);
    lemma_hex_round_trip(b);
}

/// The hexadecimal forms of keys stand in the order of the keys.
pub proof fn lemma_hex_keeps_order(a: Seq<u8>, b: Seq<u8>, from: int)
    requires
        0 <= from,
    ensures
        precedes_from(hex_ascii(a), hex_ascii(b), 2 * from) == precedes_from(a, b, from),
    decreases a.len() - from,
{
    reveal_with_fuel(precedes_from, 2);
    if from < a.len() && from < b.len() {
        let x = a[from] as int;
        let y = b[from] as int;
        assert((2 * from) / 2 == from);
        assert((2 * from + 1) / 2 == from);
        assert(hex_ascii(a)[2 * from] == hex_digit(x / 16));
        assert(hex_ascii(a)[2 * from + 1] == hex_digit(x % 16));
        assert(hex_ascii(b)[2 * from] == hex_digit(y / 16));
        assert(hex_ascii(b)[2 * from + 1] == hex_digit(y % 16));
        if x == y {
            lemma_hex_keeps_order(a, b, from + 1);
        }
    }
}

} // verus!
