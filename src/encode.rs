//! Classification of a 32-bit code point into its UTF-8 form.
use vstd::prelude::*;
use crate::decode::REPLACE_UTF32;

verus! {

/// Byte 1 of the replacement character in UTF-8.
pub const REPLACE_PART1: u8 = 0xEFu8;

/// Byte 2 of the replacement character in UTF-8.
pub const REPLACE_PART2: u8 = 0xBFu8;

/// Byte 3 of the replacement character in UTF-8.
pub const REPLACE_PART3: u8 = 0xBDu8;

/// The UTF-8 form of a code point, by length; `Type0` is an invalid code
/// point, carrying the bytes of the replacement character.
#[derive(Debug, PartialEq, Eq, Clone, Copy)]
pub enum Utf8TypeEnum {
    /// 1 byte form
    Type1(u8),
    /// 2 byte form
    Type2((u8, u8)),
    /// 3 byte form
    Type3((u8, u8, u8)),
    /// 4 byte form
    Type4((u8, u8, u8, u8)),
    /// invalid code point, replaced by the replacement character
    Type0((u8, u8, u8)),
}

/// Whether `code` is encoded at all: a scalar value other than the
/// replacement character, which is treated as the trace of an earlier error.
pub open spec fn encodable(code: int) -> bool {
    ((0 <= code < 0xD800) || (0xE000 <= code < 0x110000)) && code != REPLACE_UTF32
}

/// The classification of `code`.
pub open spec fn classify_spec(code: u32) -> Utf8TypeEnum {
    if code < 0x80 {
        Utf8TypeEnum::Type1(code as u8)
    } else if code < 0x800 {
        Utf8TypeEnum::Type2(((0xC0 + code / 64) as u8, (0x80 + code % 64) as u8))
    } else if !encodable(code as int) || code >= 0x110000 {
        Utf8TypeEnum::Type0((REPLACE_PART1, REPLACE_PART2, REPLACE_PART3))
    } else if code < 0x10000 {
        Utf8TypeEnum::Type3(
            (
                (0xE0 + code / 4096) as u8,
                (0x80 + (code / 64) % 64) as u8,
                (0x80 + code % 64) as u8,
            ),
        )
    } else {
        Utf8TypeEnum::Type4(
            (
                (0xF0 + code / 262144) as u8,
                (0x80 + (code / 4096) % 64) as u8,
                (0x80 + (code / 64) % 64) as u8,
                (0x80 + code % 64) as u8,
            ),
        )
    }
}

/// The bytes of a classification, in emission order.
pub open spec fn type_bytes(t: Utf8TypeEnum) -> Seq<u8> {
    match t {
        Utf8TypeEnum::Type1(a) => seq![a],
        Utf8TypeEnum::Type2((a, b)) => seq![a, b],
        Utf8TypeEnum::Type3((a, b, c)) => seq![a, b, c],
        Utf8TypeEnum::Type4((a, b, c, d)) => seq![a, b, c, d],
        Utf8TypeEnum::Type0((a, b, c)) => seq![a, b, c],
    }
}

/// The UTF-8 bytes emitted for the code point `code`.
pub open spec fn utf8_of(code: u32) -> Seq<u8> {
    type_bytes(classify_spec(code))
}

proof fn lemma_pack2(code: u32)
    by (bit_vector)
    requires
        code < 0x800,
    ensures
        code >> 6u32 < 32,
        code & 0x3f < 64,
        ((code >> 6u32) + 0xC0) as u8 == (0xC0 + code / 64) as u8,
        ((code & 0x3f) + 0x80) as u8 == (0x80 + code % 64) as u8,
{
}

proof fn lemma_pack3(code: u32)
    by (bit_vector)
    requires
        code < 0x10000,
    ensures
        code >> 12u32 < 16,
        (code & 0xfc0) >> 6u32 < 64,
        code & 0x3f < 64,
        ((code >> 12u32) + 0xE0) as u8 == (0xE0 + code / 4096) as u8,
        (((code & 0xfc0) >> 6u32) + 0x80) as u8 == (0x80 + (code / 64) % 64) as u8,
        ((code & 0x3f) + 0x80) as u8 == (0x80 + code % 64) as u8,
{
}

proof fn lemma_pack4(code: u32)
    by (bit_vector)
    requires
        code < 0x110000,
    ensures
        code >> 18u32 < 8,
        (code >> 12u32) & 0x3f < 64,
        (code & 0xfc0) >> 6u32 < 64,
        code & 0x3f < 64,
        ((code >> 18u32) + 0xF0) as u8 == (0xF0 + code / 262144) as u8,
        (((code >> 12u32) & 0x3f) + 0x80) as u8 == (0x80 + (code / 4096) % 64) as u8,
        (((code & 0xfc0) >> 6u32) + 0x80) as u8 == (0x80 + (code / 64) % 64) as u8,
        ((code & 0x3f) + 0x80) as u8 == (0x80 + code % 64) as u8,
{
}

/// Classifies a UTF-32 value by the length of its UTF-8 form and computes
/// that form. Surrogates, values past `10FFFF` and the replacement
/// character itself give `Type0`.
pub fn classify_utf32(code: u32) -> (r: Utf8TypeEnum)
    ensures
        r == classify_spec(code),
{
    if code < 0x80u32 {
        Utf8TypeEnum::Type1(code as u8)
    } else if code < 0x800u32 {
        proof {
            lemma_pack2(code);
        }
        let v1: u8 = ((code >> 6u32) + 0xC0) as u8;
        let v2: u8 = ((code & 0x3f) + 0x80) as u8;
        Utf8TypeEnum::Type2((v1, v2))
    } else if code >= 0xD800u32 && code < 0xE000u32 {
        // surrogates are no scalar values
        Utf8TypeEnum::Type0((REPLACE_PART1, REPLACE_PART2, REPLACE_PART3))
    } else if code < 0x10000u32 {
        if code == REPLACE_UTF32 {
            // a replacement character is encoded as a fresh error
            Utf8TypeEnum::Type0((REPLACE_PART1, REPLACE_PART2, REPLACE_PART3))
        } else {
            proof {
                lemma_pack3(code);
            }
            let v1: u8 = ((code >> 12u32) + 0xE0) as u8;
            let v2: u8 = (((code & 0xfc0) >> 6u32) + 0x80) as u8;
            let v3: u8 = ((code & 0x3f) + 0x80) as u8;
            Utf8TypeEnum::Type3((v1, v2, v3))
        }
    } else if code < 0x110000u32 {
        proof {
            lemma_pack4(code);
        }
        let v1: u8 = ((code >> 18u32) + 0xF0) as u8;
        let v2: u8 = (((code >> 12u32) & 0x3f) + 0x80) as u8;
        let v3: u8 = (((code & 0xfc0) >> 6u32) + 0x80) as u8;
        let v4: u8 = ((code & 0x3f) + 0x80) as u8;
        Utf8TypeEnum::Type4((v1, v2, v3, v4))
    } else {
        // past the last scalar value
        Utf8TypeEnum::Type0((REPLACE_PART1, REPLACE_PART2, REPLACE_PART3))
    }
}

} // verus!
