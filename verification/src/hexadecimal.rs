//! Hexadecimal text, taken from the `hex` crate.

use vstd::prelude::*;

verus! {

/// The value of a hexadecimal digit, in either case.
pub open spec fn spec_hex_value(c: char) -> Option<u8> {
    let v = c as u32;
    if 48 <= v <= 57 {
        Some((v - 48) as u8)
    } else if 97 <= v <= 102 {
        Some((v - 97 + 10) as u8)
    } else if 65 <= v <= 70 {
        Some((v - 65 + 10) as u8)
    } else {
        None
    }
}

/// The digit of a value below 16, in small letters.
pub open spec fn spec_hex_digit(value: u8) -> char {
    if value < 10 {
        (48 + value) as char
    } else {
        (97 + (value - 10)) as char
    }
}

/// Every character is a hexadecimal digit, and their number is even.
pub open spec fn is_hex(text: Seq<char>) -> bool {
    text.len() % 2 == 0 && forall|i: int|
        0 <= i < text.len() ==> (#[trigger] spec_hex_value(text[i])) is Some
}

/// The bytes that hexadecimal text spells: each pair of digits one byte.
pub open spec fn spec_hex_decode(text: Seq<char>) -> Option<Seq<u8>> {
    if is_hex(text) {
        Some(
            Seq::new(
                text.len() / 2,
                |i: int|
                    (16 * spec_hex_value(text[2 * i])->0 + spec_hex_value(text[2 * i + 1])->0) as u8,
            ),
        )
    } else {
        None
    }
}

/// The hexadecimal text of bytes, in small letters, two digits a byte.
pub open spec fn spec_hex_encode(bytes: Seq<u8>) -> Seq<char> {
    Seq::new(
        2 * bytes.len(),
        |i: int|
            if i % 2 == 0 {
                spec_hex_digit(bytes[i / 2] / 16)
            } else {
                spec_hex_digit(bytes[i / 2] % 16)
            },
    )
}

/// Calls `hex::decode`. The claim: text of an even number of hexadecimal
/// digits, in either case, gives the bytes that the pairs of digits spell,
/// and no other text gives anything.
#[verifier::external_body]
pub(crate) fn hex_decode(text: &str) -> (bytes: Option<Vec<u8>>)
    ensures
        match (bytes, spec_hex_decode(text@)) {
            (Some(got), Some(want)) => got@ == want,
            (None, None) => true,
            _ => false,
        },
{
    hex::decode(text).ok()
}

/// Calls `hex::encode`. The claim: the text holds two digits for each
/// byte, the high one first, in small letters.
#[verifier::external_body]
pub(crate) fn hex_encode(bytes: &[u8]) -> (text: String)
    ensures
        text@ == spec_hex_encode(bytes@),
{
    hex::encode(bytes)
}

} // verus!
