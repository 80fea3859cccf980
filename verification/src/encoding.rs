//! Tags as hexadecimal text.
//!
//! A tag travels as text: two hexadecimal digits for each byte of the
//! authentication code, the high half first. Writing uses lower-case digits;
//! reading accepts both cases.

use crate::error::RegistryError;
use vstd::prelude::*;
use vstd::utf8::*;

verus! {

/// The lower-case hexadecimal digit for `value`, as a character.
pub open spec fn hex_digit(value: int) -> char
    recommends
        0 <= value < 16,
{
    if value < 10 {
        (value + 48) as u8 as char
    } else {
        (value + 87) as u8 as char
    }
}

/// The hexadecimal text of `bytes`: the digit of the high half of each byte,
/// then the digit of its low half.
pub open spec fn hex_text(bytes: Seq<u8>) -> Seq<char> {
    Seq::new(
        2 * bytes.len(),
        |i: int|
            if i % 2 == 0 {
                hex_digit(bytes[i / 2] as int / 16)
            } else {
                hex_digit(bytes[i / 2] as int % 16)
            },
    )
}

/// The value of the hexadecimal digit whose ASCII code is `code`, in either
/// case; `None` for every other byte.
pub open spec fn hex_value(code: u8) -> Option<int> {
    if 48 <= code <= 57 {
        Some(code - 48)
    } else if 97 <= code <= 102 {
        Some(code - 87)
    } else if 65 <= code <= 70 {
        Some(code - 55)
    } else {
        None
    }
}

/// Whether `text` is an even number of hexadecimal digits.
pub open spec fn is_hex(text: Seq<u8>) -> bool {
    &&& text.len() % 2 == 0
    &&& forall|i: int| 0 <= i < text.len() ==> hex_value(#[trigger] text[i]) is Some
}

/// The bytes that the hexadecimal digits of `text` denote, two digits to a
/// byte. Meaningful where `is_hex(text)`.
pub open spec fn hex_bytes(text: Seq<u8>) -> Seq<u8>
    recommends
        is_hex(text),
{
    Seq::new(
        text.len() / 2,
        |i: int| (hex_value(text[2 * i]).unwrap() * 16 + hex_value(text[2 * i + 1]).unwrap()) as u8,
    )
}

/// The authentication code that the text `tag` denotes: its UTF-8 bytes read
/// as hexadecimal digits, or `None` where they are not an even number of
/// hexadecimal digits.
pub open spec fn tag_code(tag: Seq<char>) -> Option<Seq<u8>> {
    if is_hex(encode_utf8(tag)) {
        Some(hex_bytes(encode_utf8(tag)))
    } else {
        None
    }
}

/// Whether `c` is a hexadecimal digit, of either case.
pub open spec fn is_hex_digit(c: char) -> bool {
    ||| '0' <= c <= '9'
    ||| 'a' <= c <= 'f'
    ||| 'A' <= c <= 'F'
}

/// Whether the text `tag` is well-formed: an even number of hexadecimal
/// digits.
pub open spec fn is_well_formed(tag: Seq<char>) -> bool {
    &&& tag.len() % 2 == 0
    &&& forall|i: int| 0 <= i < tag.len() ==> is_hex_digit(#[trigger] tag[i])
}

/// Every digit that `hex_digit` gives is an ASCII character that reads back as
/// the value it was made from.
pub proof fn lemma_hex_digit_value(value: int)
    requires
        0 <= value < 16,
    ensures
        hex_digit(value) as u32 <= 0x7f,
        hex_value(hex_digit(value) as u8) == Some(value),
{
}

/// Reading back what was written gives the bytes that were written: the text
/// of any byte sequence is a well-formed tag, twice as long as the sequence,
/// and denotes that sequence.
pub proof fn lemma_hex_text_round_trip(bytes: Seq<u8>)
    ensures
        hex_text(bytes).len() == 2 * bytes.len(),
        is_ascii_chars(hex_text(bytes)),
        tag_code(hex_text(bytes)) == Some(bytes),
{
    let text = hex_text(bytes);
    assert forall|i: int| 0 <= i < text.len() implies '\0' <= #[trigger] text[i] <= '\u{7f}' by {
        lemma_hex_digit_value(bytes[i / 2] as int / 16);
        lemma_hex_digit_value(bytes[i / 2] as int % 16);
    }
    is_ascii_chars_encode_utf8(text);
    let raw = encode_utf8(text);
    assert forall|i: int| 0 <= i < raw.len() implies hex_value(#[trigger] raw[i]) is Some by {
        lemma_hex_digit_value(bytes[i / 2] as int / 16);
        lemma_hex_digit_value(bytes[i / 2] as int % 16);
        assert(raw[i] == text[i] as u8);
    }
    assert(is_hex(raw));
    assert forall|k: int| 0 <= k < bytes.len() implies (#[trigger] hex_bytes(raw)[k]) == bytes[k] by {
        lemma_hex_digit_value(bytes[k] as int / 16);
        lemma_hex_digit_value(bytes[k] as int % 16);
        assert(raw[2 * k] == text[2 * k] as u8);
        assert(raw[2 * k + 1] == text[2 * k + 1] as u8);
        assert((2 * k) / 2 == k && (2 * k) % 2 == 0);
        assert((2 * k + 1) / 2 == k && (2 * k + 1) % 2 == 1);
    }
    assert(hex_bytes(raw) =~= bytes);
}

/// An ASCII character whose code is that of a hexadecimal digit is that
/// digit.
proof fn lemma_digit_behind_digit_code(c: char)
    requires
        c as u32 <= 0x7f,
        hex_value(c as u32 as u8) is Some,
    ensures
        is_hex_digit(c),
{
}

/// A text whose UTF-8 bytes are all codes of hexadecimal digits is made of
/// hexadecimal digits: a character outside ASCII has a byte that is no such
/// code.
proof fn lemma_digits_behind_digit_codes(text: Seq<char>)
    requires
        forall|i: int|
            0 <= i < encode_utf8(text).len() ==> hex_value(#[trigger] encode_utf8(text)[i]) is Some,
    ensures
        forall|i: int| 0 <= i < text.len() ==> is_hex_digit(#[trigger] text[i]),
    decreases text.len(),
{
    if text.len() > 0 {
        char_is_scalar(text[0]);
        let scalar = text[0] as u32;
        let head = encode_scalar(scalar);
        let rest = text.drop_first();
        let raw = encode_utf8(text);
        assert(raw == head + encode_utf8(rest));
        assert(raw[0] == head[0]);
        assert forall|low: u8| (0xC0u8 | low) >= 0xC0 && (0xE0u8 | low) >= 0xC0 && (0xF0u8 | low)
            >= 0xC0 by {
            assert((0xC0u8 | low) >= 0xC0 && (0xE0u8 | low) >= 0xC0 && (0xF0u8 | low) >= 0xC0)
                by (bit_vector);
        }
        assert(has_width_1_encoding(scalar));
        assert(scalar as u8 == leading_byte_width_1(scalar)) by (bit_vector)
            requires
                has_width_1_encoding(scalar),
        ;
        assert(hex_value(raw[0]) is Some);
        assert(raw[0] == scalar as u8);
        lemma_digit_behind_digit_code(text[0]);
        assert forall|i: int| 0 <= i < encode_utf8(rest).len() implies hex_value(
            #[trigger] encode_utf8(rest)[i],
        ) is Some by {
            assert(raw[head.len() + i] == encode_utf8(rest)[i]);
        }
        lemma_digits_behind_digit_codes(rest);
        assert forall|i: int| 0 <= i < text.len() implies is_hex_digit(#[trigger] text[i]) by {
            if i > 0 {
                assert(text[i] == rest[i - 1]);
            }
        }
    }
}

/// A text denotes a code exactly where it is well-formed, and the code then
/// has one byte for every two characters of the text.
pub proof fn lemma_well_formed_tags_denote_codes(tag: Seq<char>)
    ensures
        tag_code(tag) is Some <==> is_well_formed(tag),
        tag_code(tag) matches Some(code) ==> 2 * code.len() == tag.len(),
{
    if is_well_formed(tag) {
        assert(is_ascii_chars(tag));
        is_ascii_chars_encode_utf8(tag);
        assert forall|i: int| 0 <= i < encode_utf8(tag).len() implies hex_value(
            #[trigger] encode_utf8(tag)[i],
        ) is Some by {
            assert(is_hex_digit(tag[i]));
            assert(encode_utf8(tag)[i] == tag[i] as u8);
        }
    }
    if is_hex(encode_utf8(tag)) {
        lemma_digits_behind_digit_codes(tag);
        assert(is_ascii_chars(tag));
        is_ascii_chars_encode_utf8(tag);
    }
}

#[verifier::external_type_specification]
#[verifier::external_body]
pub struct ExFromHexError(hex::FromHexError);

/// `hex::encode`: writes each byte as two lower-case hexadecimal digits, the
/// high half first, and nothing else.
#[verifier::external_body]
fn hex_encode(bytes: &[u8]) -> (text: String)
    ensures
        text@ == hex_text(bytes@),
{
    hex::encode(bytes)
}

/// `hex::decode`: succeeds exactly on an even number of hexadecimal digits of
/// either case, and then gives one byte for each pair of digits, the first
/// digit of a pair being the high half.
#[verifier::external_body]
fn hex_decode(text: &[u8]) -> (decoded: Result<Vec<u8>, hex::FromHexError>)
    ensures
        decoded is Ok <==> is_hex(text@),
        decoded matches Ok(bytes) ==> bytes@ == hex_bytes(text@),
{
    hex::decode(text)
}

/// Writes an authentication code as a tag.
pub fn encode_tag(code: &[u8]) -> (tag: String)
    ensures
        tag@ == hex_text(code@),
        tag_code(tag@) == Some(code@),
{
    proof {
        lemma_hex_text_round_trip(code@);
    }
    hex_encode(code)
}

/// Reads the authentication code that a tag denotes. Fails with
/// `MalformedTag`, and with no other error, exactly where the tag is not an
/// even number of hexadecimal digits.
pub fn decode_tag(tag: &str) -> (decoded: Result<Vec<u8>, RegistryError>)
    ensures
        match decoded {
            Ok(code) => tag_code(tag@) == Some(code@),
            Err(e) => e == RegistryError::MalformedTag && tag_code(tag@) is None,
        },
        decoded is Ok <==> is_well_formed(tag@),
{
    proof {
        lemma_well_formed_tags_denote_codes(tag@);
    }
    match hex_decode(tag.as_bytes()) {
        Ok(code) => Ok(code),
        Err(_) => Err(RegistryError::MalformedTag),
    }
}

} // verus!
