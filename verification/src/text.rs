//! The two text encodings of a string pool: what UTF-16 is, and the calls
//! that decode and encode text.

use encoding::codec::utf_16::{Little, UTF16Decoder, UTF_16LE_ENCODING};
use encoding::codec::utf_8::UTF8Decoder;
use encoding::types::Encoding;
use vstd::prelude::*;
use vstd::utf8::{
    char_is_scalar, char_u32_cast, decode_utf8, encode_scalar, encode_utf8, valid_utf8,
};

use crate::wire::le_u16;

verus! {

/// A code unit that starts a surrogate pair.
pub open spec fn is_high_surrogate(unit: u16) -> bool {
    0xD800 <= unit <= 0xDBFF
}

/// A code unit that ends a surrogate pair.
pub open spec fn is_low_surrogate(unit: u16) -> bool {
    0xDC00 <= unit <= 0xDFFF
}

/// How many code units the first character of `units` takes: one for a unit
/// that is no surrogate, two for a high surrogate with a low one behind it,
/// and none where `units` starts with no character.
pub open spec fn first_width(units: Seq<u16>) -> int {
    if units.len() == 0 || is_low_surrogate(units[0]) {
        0
    } else if !is_high_surrogate(units[0]) {
        1
    } else if units.len() >= 2 && is_low_surrogate(units[1]) {
        2
    } else {
        0
    }
}

/// The scalar value of the first character of `units`.
pub open spec fn first_scalar(units: Seq<u16>) -> u32
    recommends
        first_width(units) > 0,
{
    if first_width(units) == 2 {
        (0x1_0000 + (units[0] - 0xD800) * 0x400 + (units[1] - 0xDC00)) as u32
    } else {
        units[0] as u32
    }
}

/// Whether `units` is well-formed UTF-16: every surrogate stands in a pair,
/// the high one first.
pub open spec fn valid_utf16(units: Seq<u16>) -> bool
    decreases units.len(),
{
    units.len() != 0 ==> first_width(units) > 0 && valid_utf16(units.skip(first_width(units)))
}

/// The characters that well-formed UTF-16 spells.
pub open spec fn decode_utf16(units: Seq<u16>) -> Seq<char>
    decreases units.len(),
{
    if units.len() == 0 || first_width(units) <= 0 {
        Seq::empty()
    } else {
        seq![first_scalar(units) as char] + decode_utf16(units.skip(first_width(units)))
    }
}

/// The code units of one scalar value: the value itself below 2^16, else a
/// surrogate pair that holds ten bits each of the value less 2^16.
pub open spec fn utf16_units_of(scalar: u32) -> Seq<u16> {
    if scalar < 0x1_0000 {
        seq![scalar as u16]
    } else {
        seq![
            (0xD800 + (scalar - 0x1_0000) / 0x400) as u16,
            (0xDC00 + (scalar - 0x1_0000) % 0x400) as u16,
        ]
    }
}

/// The code units that spell `chars` in UTF-16.
pub open spec fn encode_utf16(chars: Seq<char>) -> Seq<u16>
    decreases chars.len(),
{
    if chars.len() == 0 {
        Seq::empty()
    } else {
        utf16_units_of(chars[0] as u32) + encode_utf16(chars.drop_first())
    }
}

/// The code units that `bytes` hold, two bytes a unit, least significant
/// byte first. A last odd byte belongs to no unit.
pub open spec fn le_units(bytes: Seq<u8>) -> Seq<u16> {
    Seq::new(bytes.len() / 2, |i: int| le_u16(bytes, 2 * i) as u16)
}

/// The bytes of `units`, two bytes a unit, least significant byte first.
pub open spec fn units_le_bytes(units: Seq<u16>) -> Seq<u8> {
    Seq::new(
        2 * units.len(),
        |k: int|
            if k % 2 == 0 {
                (units[k / 2] % 0x100) as u8
            } else {
                (units[k / 2] / 0x100) as u8
            },
    )
}

/// The bytes that spell `chars` in UTF-16, little-endian.
pub open spec fn utf16le_bytes(chars: Seq<char>) -> Seq<u8> {
    units_le_bytes(encode_utf16(chars))
}

/// Reading the bytes of code units gives the code units back.
pub proof fn lemma_units_bytes_read_back(units: Seq<u16>)
    ensures
        units_le_bytes(units).len() == 2 * units.len(),
        le_units(units_le_bytes(units)) == units,
{
    let bytes = units_le_bytes(units);
    assert forall|i: int| 0 <= i < units.len() implies le_units(bytes)[i] == units[i] by {
        assert((2 * i) % 2 == 0 && (2 * i) / 2 == i);
        assert((2 * i + 1) % 2 == 1 && (2 * i + 1) / 2 == i);
    }
    assert(le_units(bytes) =~= units);
}

/// The code units of a character start with that character and go on with
/// whatever follows.
proof fn lemma_first_of_encoded(c: char, rest: Seq<u16>)
    ensures
        first_width(utf16_units_of(c as u32) + rest) == utf16_units_of(c as u32).len(),
        first_width(utf16_units_of(c as u32) + rest) > 0,
        first_scalar(utf16_units_of(c as u32) + rest) == c as u32,
        (utf16_units_of(c as u32) + rest).skip(utf16_units_of(c as u32).len() as int) == rest,
{
    char_is_scalar(c);
    let own = utf16_units_of(c as u32);
    let all = own + rest;
    assert(all[0] == own[0]);
    if own.len() == 2 {
        assert(all[1] == own[1]);
    }
    assert(all.skip(own.len() as int) =~= rest);
}

/// What UTF-16 spells a text as is well-formed and spells that text.
pub proof fn lemma_utf16_read_back(chars: Seq<char>)
    ensures
        valid_utf16(encode_utf16(chars)),
        decode_utf16(encode_utf16(chars)) == chars,
    decreases chars.len(),
{
    if chars.len() > 0 {
        let rest = encode_utf16(chars.drop_first());
        lemma_first_of_encoded(chars[0], rest);
        lemma_utf16_read_back(chars.drop_first());
        char_u32_cast(chars[0], first_scalar(encode_utf16(chars)));
        assert(decode_utf16(encode_utf16(chars)) =~= chars);
    }
}

/// No character but NUL has a zero byte in its UTF-8 form.
proof fn lemma_scalar_bytes_nonzero(scalar: u32)
    by (bit_vector)
    requires
        0 < scalar <= 0x10FFFF,
    ensures
        scalar <= 0x7F ==> (scalar & 0x7F) as u8 != 0,
        0xC0u8 | ((scalar >> 6) & 0x1F) as u8 != 0,
        0xE0u8 | ((scalar >> 12) & 0x0F) as u8 != 0,
        0xF0u8 | ((scalar >> 18) & 0x7) as u8 != 0,
        0x80u8 | (scalar & 0x3F) as u8 != 0,
        0x80u8 | ((scalar >> 6) & 0x3F) as u8 != 0,
        0x80u8 | ((scalar >> 12) & 0x3F) as u8 != 0,
{
}

/// The UTF-8 form of NUL is one zero byte.
proof fn lemma_nul_byte()
    ensures
        encode_scalar(0) == seq![0u8],
{
    assert(0u32 & 0x7F == 0) by (bit_vector);
}

/// The UTF-8 form of a text holds a zero byte exactly where the text holds a
/// NUL character.
pub proof fn lemma_utf8_zero_bytes(chars: Seq<char>)
    ensures
        encode_utf8(chars).contains(0u8) <==> chars.contains('\0'),
    decreases chars.len(),
{
    let bytes = encode_utf8(chars);
    if chars.len() == 0 {
    } else {
        let first = encode_scalar(chars[0] as u32);
        let rest = chars.drop_first();
        lemma_utf8_zero_bytes(rest);
        char_is_scalar(chars[0]);
        if chars[0] as u32 == 0 {
            lemma_nul_byte();
            char_u32_cast(chars[0], 0u32);
            assert(chars[0] == '\0');
            assert(bytes[0] == 0u8);
        } else {
            lemma_scalar_bytes_nonzero(chars[0] as u32);
            assert(!first.contains(0u8));
            assert(chars[0] != '\0');
        }
        if bytes.contains(0u8) {
            let k = choose|k: int| 0 <= k < bytes.len() && bytes[k] == 0u8;
            if k >= first.len() {
                assert(encode_utf8(rest)[k - first.len()] == 0u8);
                let j = choose|j: int| 0 <= j < rest.len() && rest[j] == '\0';
                assert(chars[j + 1] == '\0');
            } else {
                assert(first[k] == 0u8);
            }
        }
        if chars.contains('\0') {
            let j = choose|j: int| 0 <= j < chars.len() && chars[j] == '\0';
            if j > 0 {
                assert(rest[j - 1] == '\0');
                let tail = encode_utf8(rest);
                let k = choose|k: int| 0 <= k < tail.len() && tail[k] == 0u8;
                assert(bytes[first.len() + k] == 0u8);
            }
        }
    }
}

/// `encoding::codec::utf_8::UTF8Decoder`: a new decoder, one `raw_feed` of
/// `bytes`, then `raw_finish`. The two calls report no error exactly on
/// well-formed UTF-8 (no overlong form, no surrogate, nothing behind
/// U+10FFFF, no sequence cut short), and the decoder has then written the
/// text that the bytes spell.
#[verifier::external_body]
pub(crate) fn utf8_raw_decode(bytes: &[u8]) -> (r: Option<String>)
    ensures
        match r {
            Some(text) => valid_utf8(bytes@) && text@ == decode_utf8(bytes@),
            None => !valid_utf8(bytes@),
        },
{
    let mut decoder = UTF8Decoder::new();
    let mut text = String::new();
    let (_, fed) = decoder.raw_feed(bytes, &mut text);
    let finished = decoder.raw_finish(&mut text);
    match (fed, finished) {
        (None, None) => Some(text),
        _ => None,
    }
}

/// `encoding::codec::utf_16::UTF16Decoder::<Little>`: a new decoder, one
/// `raw_feed` of `bytes`, then `raw_finish`. The two calls report no error
/// exactly on an even number of bytes whose code units, least significant
/// byte first, are well-formed UTF-16, and the decoder has then written the
/// text that they spell.
#[verifier::external_body]
pub(crate) fn utf16le_raw_decode(bytes: &[u8]) -> (r: Option<String>)
    ensures
        match r {
            Some(text) => bytes@.len() % 2 == 0 && valid_utf16(le_units(bytes@)) && text@
                == decode_utf16(le_units(bytes@)),
            None => !(bytes@.len() % 2 == 0 && valid_utf16(le_units(bytes@))),
        },
{
    let mut decoder = UTF16Decoder::<Little>::new();
    let mut text = String::new();
    let (_, fed) = decoder.raw_feed(bytes, &mut text);
    let finished = decoder.raw_finish(&mut text);
    match (fed, finished) {
        (None, None) => Some(text),
        _ => None,
    }
}

/// The encoder that `encoding::codec::utf_16::UTF_16LE_ENCODING` gives by
/// `raw_encoder`, with one `raw_feed` of `text`: it writes the code units of
/// each character, least significant byte first, and reports no error on
/// any text.
#[verifier::external_body]
pub(crate) fn utf16le_raw_encode(text: &str) -> (bytes: Vec<u8>)
    ensures
        bytes@ == utf16le_bytes(text@),
{
    let mut encoder = UTF_16LE_ENCODING.raw_encoder();
    let mut bytes: Vec<u8> = Vec::new();
    encoder.raw_feed(text, &mut bytes);
    bytes
}

} // verus!
