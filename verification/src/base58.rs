//! Base58 and Base58Check.
//!
//! A byte string is read as a number in base 256 and written in base 58,
//! each leading zero byte as one leading `1`. Base58Check appends the first
//! four bytes of the double SHA-256 of the payload before encoding.

use crate::hash::{sha256d, spec_sha256d};
use crate::radix::{all_below, lemma_transcode_round_trip, spec_transcode, transcode};
use vstd::prelude::*;

verus! {

/// Why a text is no Base58Check text.
#[derive(Clone, Copy, PartialEq, Eq, Debug, Structural)]
pub enum CheckError {
    /// A character outside the 58-character alphabet.
    InvalidCharacter,
    /// Fewer than four bytes, or the last four are not the checksum of the rest.
    Checksum,
}

/// The character of a digit: `1`-`9`, `A`-`H`, `J`-`N`, `P`-`Z`, `a`-`k`, `m`-`z`.
pub open spec fn spec_digit_char(digit: u8) -> char {
    if digit < 9 {
        (49 + digit) as char
    } else if digit < 17 {
        (65 + (digit - 9)) as char
    } else if digit < 22 {
        (74 + (digit - 17)) as char
    } else if digit < 33 {
        (80 + (digit - 22)) as char
    } else if digit < 44 {
        (97 + (digit - 33)) as char
    } else {
        (109 + (digit - 44)) as char
    }
}

/// The digit of a character, if it is in the alphabet.
pub open spec fn spec_char_digit(c: char) -> Option<u8> {
    let v = c as u32;
    if 49 <= v <= 57 {
        Some((v - 49) as u8)
    } else if 65 <= v <= 72 {
        Some((v - 65 + 9) as u8)
    } else if 74 <= v <= 78 {
        Some((v - 74 + 17) as u8)
    } else if 80 <= v <= 90 {
        Some((v - 80 + 22) as u8)
    } else if 97 <= v <= 107 {
        Some((v - 97 + 33) as u8)
    } else if 109 <= v <= 122 {
        Some((v - 109 + 44) as u8)
    } else {
        None
    }
}

/// The two tables are inverse to each other.
pub proof fn lemma_digit_tables(digit: u8, c: char)
    ensures
        digit < 58 ==> spec_char_digit(spec_digit_char(digit)) == Some(digit),
        spec_char_digit(c) == Some(digit) ==> digit < 58 && spec_digit_char(digit) == c,
{
}

/// The character of a digit.
pub fn digit_char(digit: u8) -> (c: char)
    requires
        digit < 58,
    ensures
        c == spec_digit_char(digit),
{
    if digit < 9 {
        (49 + digit) as char
    } else if digit < 17 {
        (65 + (digit - 9)) as char
    } else if digit < 22 {
        (74 + (digit - 17)) as char
    } else if digit < 33 {
        (80 + (digit - 22)) as char
    } else if digit < 44 {
        (97 + (digit - 33)) as char
    } else {
        (109 + (digit - 44)) as char
    }
}

/// The digit of a character, if it is in the alphabet.
pub fn char_digit(c: char) -> (digit: Option<u8>)
    ensures
        digit == spec_char_digit(c),
{
    let v = c as u32;
    if 49 <= v && v <= 57 {
        Some((v - 49) as u8)
    } else if 65 <= v && v <= 72 {
        Some((v - 65 + 9) as u8)
    } else if 74 <= v && v <= 78 {
        Some((v - 74 + 17) as u8)
    } else if 80 <= v && v <= 90 {
        Some((v - 80 + 22) as u8)
    } else if 97 <= v && v <= 107 {
        Some((v - 97 + 33) as u8)
    } else if 109 <= v && v <= 122 {
        Some((v - 109 + 44) as u8)
    } else {
        None
    }
}

/// The characters of a digit sequence.
pub open spec fn digits_text(digits: Seq<u8>) -> Seq<char> {
    Seq::new(digits.len(), |i: int| spec_digit_char(digits[i]))
}

/// The digits of a text, if every character is in the alphabet.
pub open spec fn text_digits(text: Seq<char>) -> Option<Seq<u8>> {
    if forall|i: int| 0 <= i < text.len() ==> (#[trigger] spec_char_digit(text[i])) is Some {
        Some(Seq::new(text.len(), |i: int| spec_char_digit(text[i])->0))
    } else {
        None
    }
}

/// The Base58 text of a byte string.
pub open spec fn spec_encode(bytes: Seq<u8>) -> Seq<char> {
    digits_text(spec_transcode(bytes, 256, 58))
}

/// The byte string of a Base58 text.
pub open spec fn spec_decode(text: Seq<char>) -> Option<Seq<u8>> {
    match text_digits(text) {
        Some(digits) => Some(spec_transcode(digits, 58, 256)),
        None => None,
    }
}

/// The four checksum bytes of a payload.
pub open spec fn spec_checksum(payload: Seq<u8>) -> Seq<u8> {
    spec_sha256d(payload).take(4)
}

/// The Base58Check text of a payload.
pub open spec fn spec_check_encode(payload: Seq<u8>) -> Seq<char> {
    spec_encode(payload + spec_checksum(payload))
}

/// The payload of a Base58Check text.
pub open spec fn spec_check_decode(text: Seq<char>) -> Result<Seq<u8>, CheckError> {
    match spec_decode(text) {
        None => Err(CheckError::InvalidCharacter),
        Some(bytes) => {
            if bytes.len() < 4 {
                Err(CheckError::Checksum)
            } else {
                let payload = bytes.take(bytes.len() - 4);
                if spec_checksum(payload) == bytes.skip(bytes.len() - 4) {
                    Ok(payload)
                } else {
                    Err(CheckError::Checksum)
                }
            }
        },
    }
}

/// Every byte is a digit of base 256.
pub(crate) proof fn lemma_bytes_below(bytes: Seq<u8>)
    ensures
        all_below(bytes, 256),
{
}

proof fn lemma_text_digits(digits: Seq<u8>)
    requires
        all_below(digits, 58),
    ensures
        text_digits(digits_text(digits)) == Some(digits),
{
    let text = digits_text(digits);
    assert forall|i: int| 0 <= i < text.len() implies (#[trigger] spec_char_digit(text[i]))
        == Some(digits[i]) by {
        assert((digits[i] as nat) < 58);
        lemma_digit_tables(digits[i], text[i]);
    }
    assert(text_digits(text)->0 =~= digits);
}

/// Decoding an encoded byte string returns it.
pub proof fn lemma_decode_encode(bytes: Seq<u8>)
    ensures
        spec_decode(spec_encode(bytes)) == Some(bytes),
{
    lemma_transcode_round_trip(bytes, 256, 58);
    lemma_text_digits(spec_transcode(bytes, 256, 58));
}

/// Decoding a Base58Check text made from a payload returns the payload.
pub proof fn lemma_check_decode_encode(payload: Seq<u8>)
    requires
        spec_sha256d(payload).len() == 32,
    ensures
        spec_check_decode(spec_check_encode(payload)) == Ok::<Seq<u8>, CheckError>(payload),
{
    let bytes = payload + spec_checksum(payload);
    lemma_decode_encode(bytes);
    assert(bytes.take(bytes.len() - 4) =~= payload);
    assert(bytes.skip(bytes.len() - 4) =~= spec_checksum(payload));
}

/// The Base58 text of `bytes`.
pub fn encode(bytes: &[u8]) -> (text: Vec<char>)
    ensures
        text@ == spec_encode(bytes@),
{
    proof {
        lemma_transcode_round_trip(bytes@, 256, 58);
    }
    let digits = transcode(bytes, 256, 58);
    let mut text: Vec<char> = Vec::new();
    let mut i: usize = 0;
    while i < digits.len()
        invariant
            i <= digits.len(),
            all_below(digits@, 58),
            text@ == digits_text(digits@.take(i as int)),
        decreases digits.len() - i,
    {
        assert((digits@[i as int] as nat) < 58);
        text.push(digit_char(digits[i]));
        i += 1;
        assert(text@ =~= digits_text(digits@.take(i as int)));
    }
    assert(digits@.take(digits@.len() as int) =~= digits@);
    text
}

/// The byte string of a Base58 text, if every character is in the alphabet.
pub fn decode(text: &[char]) -> (bytes: Option<Vec<u8>>)
    ensures
        match (bytes, spec_decode(text@)) {
            (Some(got), Some(want)) => got@ == want,
            (None, None) => true,
            _ => false,
        },
{
    let mut digits: Vec<u8> = Vec::new();
    let mut i: usize = 0;
    while i < text.len()
        invariant
            i <= text.len(),
            digits@.len() == i,
            forall|j: int| 0 <= j < i ==> (#[trigger] spec_char_digit(text@[j])) == Some(digits@[j]),
        decreases text.len() - i,
    {
        match char_digit(text[i]) {
            Some(d) => {
                digits.push(d);
            },
            None => {
                assert(spec_char_digit(text@[i as int]) is None);
                return None;
            },
        }
        i += 1;
    }
    proof {
        assert(text_digits(text@)->0 =~= digits@);
        assert forall|j: int| 0 <= j < digits@.len() implies (#[trigger] digits@[j] as nat)
            < 58 by {
            lemma_digit_tables(digits@[j], text@[j]);
        }
    }
    Some(transcode(digits.as_slice(), 58, 256))
}

/// The Base58Check text of `payload`.
pub fn check_encode(payload: &[u8]) -> (text: Vec<char>)
    ensures
        text@ == spec_check_encode(payload@),
        spec_sha256d(payload@).len() == 32,
{
    let digest = sha256d(payload);
    let mut bytes: Vec<u8> = Vec::new();
    let mut i: usize = 0;
    while i < payload.len()
        invariant
            i <= payload.len(),
            bytes@ == payload@.take(i as int),
        decreases payload.len() - i,
    {
        bytes.push(payload[i]);
        i += 1;
        assert(bytes@ =~= payload@.take(i as int));
    }
    assert(payload@.take(payload@.len() as int) =~= payload@);
    bytes.push(digest[0]);
    bytes.push(digest[1]);
    bytes.push(digest[2]);
    bytes.push(digest[3]);
    assert(bytes@ =~= payload@ + spec_checksum(payload@));
    encode(bytes.as_slice())
}

/// The payload of a Base58Check text.
pub fn check_decode(text: &[char]) -> (result: Result<Vec<u8>, CheckError>)
    ensures
        match (result, spec_check_decode(text@)) {
            (Ok(got), Ok(want)) => got@ == want,
            (Err(got), Err(want)) => got == want,
            _ => false,
        },
{
    let bytes = match decode(text) {
        Some(bytes) => bytes,
        None => {
            return Err(CheckError::InvalidCharacter);
        },
    };
    if bytes.len() < 4 {
        return Err(CheckError::Checksum);
    }
    let keep = bytes.len() - 4;
    let mut payload: Vec<u8> = Vec::new();
    let mut i: usize = 0;
    while i < keep
        invariant
            i <= keep,
            keep + 4 == bytes.len(),
            payload@ == bytes@.take(i as int),
        decreases keep - i,
    {
        payload.push(bytes[i]);
        i += 1;
        assert(payload@ =~= bytes@.take(i as int));
    }
    let digest = sha256d(payload.as_slice());
    let same = digest[0] == bytes[keep] && digest[1] == bytes[keep + 1] && digest[2] == bytes[keep
        + 2] && digest[3] == bytes[keep + 3];
    proof {
        let want = spec_checksum(payload@);
        let got = bytes@.skip(keep as int);
        if same {
            assert(want =~= got);
        } else {
            assert(want[0] != got[0] || want[1] != got[1] || want[2] != got[2] || want[3]
                != got[3]);
        }
    }
    if same {
        Ok(payload)
    } else {
        Err(CheckError::Checksum)
    }
}

} // verus!
