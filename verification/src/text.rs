//! Text and its bytes.
//!
//! Text is held as `str` and `String`, whose bytes are its UTF-8 encoding.
//! The two operations of the standard library that this crate trusts on
//! text are declared here.

use vstd::prelude::*;
use vstd::utf8::*;

verus! {

/// The bytes of `text`: its UTF-8 encoding.
pub open spec fn utf8(text: Seq<char>) -> Seq<u8> {
    encode_utf8(text)
}

/// The characters that ASCII bytes stand for, one for each byte.
pub open spec fn ascii_text(bytes: Seq<u8>) -> Seq<char> {
    Seq::new(bytes.len(), |i: int| bytes[i] as char)
}

/// Whether every byte is below 128.
pub open spec fn is_ascii_bytes(bytes: Seq<u8>) -> bool {
    forall|i: int| 0 <= i < bytes.len() ==> #[trigger] bytes[i] < 128
}

/// The lowercase form of `text` as `str::to_lowercase` of the standard
/// library gives it. It follows the Unicode tables and is not written out
/// here.
pub uninterp spec fn lowercase(text: Seq<char>) -> Seq<char>;

/// Calls `str::to_lowercase`. Trusted: the result is the lowercase form of
/// the argument, a function of the argument alone.
#[verifier::external_body]
pub(crate) fn to_lowercase(text: &str) -> (lower: String)
    ensures
        lower@ == lowercase(text@),
{
    text.to_lowercase()
}

/// Calls `String::from_utf8`. Trusted: the call succeeds exactly on valid
/// UTF-8, and the text it gives is what the bytes decode to.
#[verifier::external_body]
pub(crate) fn string_from_utf8(bytes: Vec<u8>) -> (text: Option<String>)
    ensures
        text is Some <==> valid_utf8(bytes@),
        text matches Some(t) ==> t@ == decode_utf8(bytes@),
{
    String::from_utf8(bytes).ok()
}

/// ASCII bytes are valid UTF-8: they decode to one character each, and the
/// characters encode to the same bytes.
pub proof fn lemma_ascii_bytes_are_text(bytes: Seq<u8>)
    requires
        is_ascii_bytes(bytes),
    ensures
        valid_utf8(bytes),
        decode_utf8(bytes) == ascii_text(bytes),
        utf8(ascii_text(bytes)) == bytes,
{
    let chars = ascii_text(bytes);
    assert(is_ascii_chars(chars)) by {
        assert forall|i: int| 0 <= i < chars.len() implies '\0' <= #[trigger] chars[i]
            <= '\u{7f}' by {
            assert(bytes[i] < 128);
        }
    }
    is_ascii_chars_encode_utf8(chars);
    assert(encode_utf8(chars) =~= bytes) by {
        assert forall|i: int| 0 <= i < bytes.len() implies encode_utf8(chars)[i] == bytes[i] by {
            assert(chars[i] as u8 == encode_utf8(chars)[i]);
            assert(bytes[i] < 128);
        }
    }
    encode_utf8_valid_utf8(chars);
    encode_utf8_decode_utf8(chars);
}

/// The encoding of a character other than the null character holds no zero
/// byte, and at least one byte.
proof fn lemma_scalar_zero_free(scalar: u32)
    requires
        scalar != 0,
    ensures
        encode_scalar(scalar).len() >= 1,
        forall|k: int| 0 <= k < encode_scalar(scalar).len() ==> encode_scalar(scalar)[k] != 0,
{
    if has_width_1_encoding(scalar) {
        assert((scalar & 0x7F) as u8 != 0) by (bit_vector)
            requires
                0 < scalar <= 0x7F,
        ;
    }
    let a = ((scalar >> 6) & 0x1F) as u8;
    let b = ((scalar >> 12) & 0x0F) as u8;
    let c = ((scalar >> 18) & 0x7) as u8;
    let d = (scalar & 0x3F) as u8;
    let e = ((scalar >> 6) & 0x3F) as u8;
    let f = ((scalar >> 12) & 0x3F) as u8;
    assert(0xC0u8 | a != 0) by (bit_vector);
    assert(0xE0u8 | b != 0) by (bit_vector);
    assert(0xF0u8 | c != 0) by (bit_vector);
    assert(0x80u8 | d != 0) by (bit_vector);
    assert(0x80u8 | e != 0) by (bit_vector);
    assert(0x80u8 | f != 0) by (bit_vector);
}

/// Text takes at least one byte for each of its characters.
pub proof fn lemma_utf8_len(text: Seq<char>)
    ensures
        utf8(text).len() >= text.len(),
    decreases text.len(),
{
    if text.len() > 0 {
        lemma_utf8_len(text.drop_first());
    }
}

/// Text without a null character has no zero byte.
pub proof fn lemma_utf8_zero_free(text: Seq<char>)
    requires
        forall|i: int| 0 <= i < text.len() ==> text[i] != '\0',
    ensures
        forall|k: int| 0 <= k < utf8(text).len() ==> utf8(text)[k] != 0,
    decreases text.len(),
{
    if text.len() > 0 {
        let first = encode_scalar(text[0] as u32);
        let rest = text.drop_first();
        assert(text[0] as u32 != 0) by {
            char_u32_cast(text[0], text[0] as u32);
            char_u32_cast('\0', 0u32);
        }
        lemma_scalar_zero_free(text[0] as u32);
        assert forall|i: int| 0 <= i < rest.len() implies rest[i] != '\0' by {
            assert(rest[i] == text[i + 1]);
        }
        lemma_utf8_zero_free(rest);
        assert forall|k: int| 0 <= k < utf8(text).len() implies utf8(text)[k] != 0 by {
            if k < first.len() {
                assert(utf8(text)[k] == first[k]);
            } else {
                assert(utf8(text)[k] == utf8(rest)[k - first.len()]);
            }
        }
    }
}

} // verus!
