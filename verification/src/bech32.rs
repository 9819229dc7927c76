//! Bech32 and Bech32m: the symbol alphabet, the checksum, and the text form
//! `prefix 1 symbols checksum`.
//!
//! Symbols are numbers below 32. A text is checked under both checksum
//! constants at once: the residue of its polynomial decides the variant.

use crate::bytes::append;
use vstd::prelude::*;

verus! {

/// Which of the two checksum constants a text carries.
#[derive(Clone, Copy, PartialEq, Eq, Debug, Structural)]
pub enum Variant {
    Bech32,
    Bech32m,
}

/// Why a data part is no Bech32 or Bech32m data part.
#[derive(Clone, Copy, PartialEq, Eq, Debug, Structural)]
pub enum DataError {
    /// A character outside the 32-symbol alphabet.
    InvalidCharacter,
    /// The residue is neither constant, or there is no room for a checksum.
    Checksum,
}

/// The residue of a text with a Bech32 checksum.
pub const BECH32_CONSTANT: u32 = 1;

/// The residue of a text with a Bech32m checksum.
pub const BECH32M_CONSTANT: u32 = 0x2bc830a3;

/// The residue that a valid text of the variant leaves.
pub open spec fn variant_constant(variant: Variant) -> u32 {
    match variant {
        Variant::Bech32 => BECH32_CONSTANT,
        Variant::Bech32m => BECH32M_CONSTANT,
    }
}

/// The character that stands for a symbol.
pub open spec fn spec_symbol_char(symbol: u8) -> char {
    if symbol == 0 { 'q' } else if symbol == 1 { 'p' } else if symbol == 2 { 'z' }
    else if symbol == 3 { 'r' } else if symbol == 4 { 'y' } else if symbol == 5 { '9' }
    else if symbol == 6 { 'x' } else if symbol == 7 { '8' } else if symbol == 8 { 'g' }
    else if symbol == 9 { 'f' } else if symbol == 10 { '2' } else if symbol == 11 { 't' }
    else if symbol == 12 { 'v' } else if symbol == 13 { 'd' } else if symbol == 14 { 'w' }
    else if symbol == 15 { '0' } else if symbol == 16 { 's' } else if symbol == 17 { '3' }
    else if symbol == 18 { 'j' } else if symbol == 19 { 'n' } else if symbol == 20 { '5' }
    else if symbol == 21 { '4' } else if symbol == 22 { 'k' } else if symbol == 23 { 'h' }
    else if symbol == 24 { 'c' } else if symbol == 25 { 'e' } else if symbol == 26 { '6' }
    else if symbol == 27 { 'm' } else if symbol == 28 { 'u' } else if symbol == 29 { 'a' }
    else if symbol == 30 { '7' } else { 'l' }
}

/// The symbol that a character stands for, if it is in the alphabet.
pub open spec fn spec_symbol_value(c: char) -> Option<u8> {
    if c == 'q' { Some(0u8) } else if c == 'p' { Some(1u8) } else if c == 'z' { Some(2u8) }
    else if c == 'r' { Some(3u8) } else if c == 'y' { Some(4u8) } else if c == '9' { Some(5u8) }
    else if c == 'x' { Some(6u8) } else if c == '8' { Some(7u8) } else if c == 'g' { Some(8u8) }
    else if c == 'f' { Some(9u8) } else if c == '2' { Some(10u8) } else if c == 't' { Some(11u8) }
    else if c == 'v' { Some(12u8) } else if c == 'd' { Some(13u8) } else if c == 'w' { Some(14u8) }
    else if c == '0' { Some(15u8) } else if c == 's' { Some(16u8) } else if c == '3' { Some(17u8) }
    else if c == 'j' { Some(18u8) } else if c == 'n' { Some(19u8) } else if c == '5' { Some(20u8) }
    else if c == '4' { Some(21u8) } else if c == 'k' { Some(22u8) } else if c == 'h' { Some(23u8) }
    else if c == 'c' { Some(24u8) } else if c == 'e' { Some(25u8) } else if c == '6' { Some(26u8) }
    else if c == 'm' { Some(27u8) } else if c == 'u' { Some(28u8) } else if c == 'a' { Some(29u8) }
    else if c == '7' { Some(30u8) } else if c == 'l' { Some(31u8) } else { None }
}

/// The two tables are inverse to each other.
pub proof fn lemma_symbol_tables(symbol: u8, c: char)
    ensures
        symbol < 32 ==> spec_symbol_value(spec_symbol_char(symbol)) == Some(symbol),
        spec_symbol_value(c) == Some(symbol) ==> symbol < 32 && spec_symbol_char(symbol) == c,
        spec_symbol_char(symbol) != '1',
        !('A' <= spec_symbol_char(symbol) <= 'Z'),
{
}

/// The character that stands for a symbol.
pub fn symbol_char(symbol: u8) -> (c: char)
    requires
        symbol < 32,
    ensures
        c == spec_symbol_char(symbol),
{
    if symbol == 0 { 'q' } else if symbol == 1 { 'p' } else if symbol == 2 { 'z' }
    else if symbol == 3 { 'r' } else if symbol == 4 { 'y' } else if symbol == 5 { '9' }
    else if symbol == 6 { 'x' } else if symbol == 7 { '8' } else if symbol == 8 { 'g' }
    else if symbol == 9 { 'f' } else if symbol == 10 { '2' } else if symbol == 11 { 't' }
    else if symbol == 12 { 'v' } else if symbol == 13 { 'd' } else if symbol == 14 { 'w' }
    else if symbol == 15 { '0' } else if symbol == 16 { 's' } else if symbol == 17 { '3' }
    else if symbol == 18 { 'j' } else if symbol == 19 { 'n' } else if symbol == 20 { '5' }
    else if symbol == 21 { '4' } else if symbol == 22 { 'k' } else if symbol == 23 { 'h' }
    else if symbol == 24 { 'c' } else if symbol == 25 { 'e' } else if symbol == 26 { '6' }
    else if symbol == 27 { 'm' } else if symbol == 28 { 'u' } else if symbol == 29 { 'a' }
    else if symbol == 30 { '7' } else { 'l' }
}

/// The symbol that a character stands for, if it is in the alphabet.
pub fn symbol_value(c: char) -> (symbol: Option<u8>)
    ensures
        symbol == spec_symbol_value(c),
{
    if c == 'q' { Some(0u8) } else if c == 'p' { Some(1u8) } else if c == 'z' { Some(2u8) }
    else if c == 'r' { Some(3u8) } else if c == 'y' { Some(4u8) } else if c == '9' { Some(5u8) }
    else if c == 'x' { Some(6u8) } else if c == '8' { Some(7u8) } else if c == 'g' { Some(8u8) }
    else if c == 'f' { Some(9u8) } else if c == '2' { Some(10u8) } else if c == 't' { Some(11u8) }
    else if c == 'v' { Some(12u8) } else if c == 'd' { Some(13u8) } else if c == 'w' { Some(14u8) }
    else if c == '0' { Some(15u8) } else if c == 's' { Some(16u8) } else if c == '3' { Some(17u8) }
    else if c == 'j' { Some(18u8) } else if c == 'n' { Some(19u8) } else if c == '5' { Some(20u8) }
    else if c == '4' { Some(21u8) } else if c == 'k' { Some(22u8) } else if c == 'h' { Some(23u8) }
    else if c == 'c' { Some(24u8) } else if c == 'e' { Some(25u8) } else if c == '6' { Some(26u8) }
    else if c == 'm' { Some(27u8) } else if c == 'u' { Some(28u8) } else if c == 'a' { Some(29u8) }
    else if c == '7' { Some(30u8) } else if c == 'l' { Some(31u8) } else { None }
}

/// One step of the checksum polynomial: the state takes in one symbol.
pub open spec fn polymod_step(state: u32, symbol: u8) -> u32 {
    let top = state >> 25;
    ((state & 0x1ffffff) << 5) ^ (symbol as u32)
        ^ (if top & 1 != 0 { 0x3b6a57b2u32 } else { 0u32 })
        ^ (if top & 2 != 0 { 0x26508e6du32 } else { 0u32 })
        ^ (if top & 4 != 0 { 0x1ea119fau32 } else { 0u32 })
        ^ (if top & 8 != 0 { 0x3d4233ddu32 } else { 0u32 })
        ^ (if top & 16 != 0 { 0x2a1462b3u32 } else { 0u32 })
}

/// The residue of a symbol sequence.
pub open spec fn polymod(symbols: Seq<u8>) -> u32
    decreases symbols.len(),
{
    if symbols.len() == 0 {
        1
    } else {
        polymod_step(polymod(symbols.drop_last()), symbols.last())
    }
}

/// A prefix is made of printable ASCII characters, at least one.
pub open spec fn prefix_ok(prefix: Seq<char>) -> bool {
    &&& prefix.len() > 0
    &&& forall|i: int| 0 <= i < prefix.len() ==> 33 <= #[trigger] (prefix[i] as u32) <= 126
}

/// The prefix as it enters the checksum: high bits, a zero, low bits.
pub open spec fn expand_prefix(prefix: Seq<char>) -> Seq<u8> {
    Seq::new(prefix.len(), |i: int| ((prefix[i] as u32) >> 5) as u8) + seq![0u8] + Seq::new(
        prefix.len(),
        |i: int| ((prefix[i] as u32) & 31) as u8,
    )
}

/// The six symbols that spell the low 30 bits of a residue.
pub open spec fn residue_symbols(residue: u32) -> Seq<u8> {
    seq![
        ((residue >> 25) & 31) as u8,
        ((residue >> 20) & 31) as u8,
        ((residue >> 15) & 31) as u8,
        ((residue >> 10) & 31) as u8,
        ((residue >> 5) & 31) as u8,
        (residue & 31) as u8,
    ]
}

/// The checksum of `data` under `prefix` for the variant.
pub open spec fn spec_checksum(prefix: Seq<char>, data: Seq<u8>, variant: Variant) -> Seq<u8> {
    residue_symbols(
        polymod(expand_prefix(prefix) + data + seq![0u8, 0u8, 0u8, 0u8, 0u8, 0u8])
            ^ variant_constant(variant),
    )
}

/// All symbols are below 32.
pub open spec fn symbols_ok(data: Seq<u8>) -> bool {
    forall|i: int| 0 <= i < data.len() ==> #[trigger] data[i] < 32
}

/// The characters of a symbol sequence.
pub open spec fn symbols_text(data: Seq<u8>) -> Seq<char> {
    Seq::new(data.len(), |i: int| spec_symbol_char(data[i]))
}

/// The symbols of a text, if every character is in the alphabet.
pub open spec fn text_symbols(text: Seq<char>) -> Option<Seq<u8>> {
    if forall|i: int| 0 <= i < text.len() ==> (#[trigger] spec_symbol_value(text[i])) is Some {
        Some(Seq::new(text.len(), |i: int| spec_symbol_value(text[i])->0))
    } else {
        None
    }
}

/// The full text: prefix, separator, data symbols, checksum.
pub open spec fn spec_encode(prefix: Seq<char>, data: Seq<u8>, variant: Variant) -> Seq<char> {
    prefix + seq!['1'] + symbols_text(data + spec_checksum(prefix, data, variant))
}

/// What the part after the separator holds: the data symbols without the
/// checksum, and the variant under which the checksum is right.
pub open spec fn spec_decode_data(prefix: Seq<char>, data_text: Seq<char>) -> Result<
    (Seq<u8>, Variant),
    DataError,
> {
    match text_symbols(data_text) {
        None => Err(DataError::InvalidCharacter),
        Some(symbols) => {
            let residue = polymod(expand_prefix(prefix) + symbols);
            if symbols.len() < 6 {
                Err(DataError::Checksum)
            } else if residue == BECH32_CONSTANT {
                Ok((symbols.take(symbols.len() - 6), Variant::Bech32))
            } else if residue == BECH32M_CONSTANT {
                Ok((symbols.take(symbols.len() - 6), Variant::Bech32m))
            } else {
                Err(DataError::Checksum)
            }
        },
    }
}

proof fn lemma_polymod_push(symbols: Seq<u8>, symbol: u8)
    ensures
        polymod(symbols.push(symbol)) == polymod_step(polymod(symbols), symbol),
{
    assert(symbols.push(symbol).drop_last() =~= symbols);
}

/// Feeding a symbol into a state that differs from another by low bits only:
/// the difference moves up by five bits and the symbol is added to it.
proof fn lemma_step_linear(state: u32, delta: u32, symbol: u8)
    requires
        delta < 0x2000000,
        symbol < 32,
    ensures
        polymod_step(state ^ delta, symbol) == polymod_step(state, 0) ^ ((delta << 5) ^ (
        symbol as u32)),
        ((delta << 5) ^ (symbol as u32)) >> 5 == delta,
        polymod_step(state, 0) < 0x40000000,
{
    let s = symbol as u32;
    let top = state >> 25;
    let g1 = if top & 1 != 0 { 0x3b6a57b2u32 } else { 0u32 };
    let g2 = if top & 2 != 0 { 0x26508e6du32 } else { 0u32 };
    let g3 = if top & 4 != 0 { 0x1ea119fau32 } else { 0u32 };
    let g4 = if top & 8 != 0 { 0x3d4233ddu32 } else { 0u32 };
    let g5 = if top & 16 != 0 { 0x2a1462b3u32 } else { 0u32 };
    assert((state ^ delta) >> 25 == state >> 25) by (bit_vector)
        requires
            delta < 0x2000000,
    ;
    assert((((state ^ delta) & 0x1ffffff) << 5) ^ s ^ g1 ^ g2 ^ g3 ^ g4 ^ g5 == (((state
        & 0x1ffffff) << 5) ^ 0u32 ^ g1 ^ g2 ^ g3 ^ g4 ^ g5) ^ ((delta << 5) ^ s)) by (bit_vector)
        requires
            delta < 0x2000000,
    ;
    assert(((delta << 5) ^ s) >> 5 == delta) by (bit_vector)
        requires
            delta < 0x2000000,
            s < 32,
    ;
    assert((((state & 0x1ffffff) << 5) ^ 0u32 ^ g1 ^ g2 ^ g3 ^ g4 ^ g5) < 0x40000000)
        by (bit_vector)
        requires
            g1 == 0 || g1 == 0x3b6a57b2u32,
            g2 == 0 || g2 == 0x26508e6du32,
            g3 == 0 || g3 == 0x1ea119fau32,
            g4 == 0 || g4 == 0x3d4233ddu32,
            g5 == 0 || g5 == 0x2a1462b3u32,
    ;
}

/// A text made with the checksum of a variant leaves that variant's constant
/// as its residue.
pub proof fn lemma_checksum_verifies(prefix: Seq<char>, data: Seq<u8>, variant: Variant)
    ensures
        spec_checksum(prefix, data, variant).len() == 6,
        symbols_ok(spec_checksum(prefix, data, variant)),
        polymod(expand_prefix(prefix) + data + spec_checksum(prefix, data, variant))
            == variant_constant(variant),
{
    let base = expand_prefix(prefix) + data;
    let k = variant_constant(variant);
    let z = seq![0u8, 0u8, 0u8, 0u8, 0u8, 0u8];
    let s0 = polymod(base);
    let s1 = polymod_step(s0, 0);
    let s2 = polymod_step(s1, 0);
    let s3 = polymod_step(s2, 0);
    let s4 = polymod_step(s3, 0);
    let s5 = polymod_step(s4, 0);
    let s6 = polymod_step(s5, 0);
    lemma_polymod_push(base, 0);
    lemma_polymod_push(base.push(0), 0);
    lemma_polymod_push(base.push(0).push(0), 0);
    lemma_polymod_push(base.push(0).push(0).push(0), 0);
    lemma_polymod_push(base.push(0).push(0).push(0).push(0), 0);
    lemma_polymod_push(base.push(0).push(0).push(0).push(0).push(0), 0);
    assert(base + z =~= base.push(0).push(0).push(0).push(0).push(0).push(0));
    assert(polymod(base + z) == s6);
    let x = s6 ^ k;
    let c = residue_symbols(x);
    assert(c == spec_checksum(prefix, data, variant));
    let c0 = c[0];
    let c1 = c[1];
    let c2 = c[2];
    let c3 = c[3];
    let c4 = c[4];
    let c5 = c[5];
    assert(((x >> 25) & 31) < 32 && ((x >> 20) & 31) < 32 && ((x >> 15) & 31) < 32 && ((x >> 10)
        & 31) < 32 && ((x >> 5) & 31) < 32 && (x & 31) < 32) by (bit_vector);
    assert(symbols_ok(c));
    let d1 = c0 as u32;
    let d2 = (d1 << 5) ^ (c1 as u32);
    let d3 = (d2 << 5) ^ (c2 as u32);
    let d4 = (d3 << 5) ^ (c3 as u32);
    let d5 = (d4 << 5) ^ (c4 as u32);
    let d6 = (d5 << 5) ^ (c5 as u32);
    assert(d1 < 0x2000000 && d2 < 0x2000000 && d3 < 0x2000000 && d4 < 0x2000000 && d5
        < 0x2000000) by (bit_vector)
        requires
            d1 < 32,
            d2 == (d1 << 5) ^ (c1 as u32),
            d3 == (d2 << 5) ^ (c2 as u32),
            d4 == (d3 << 5) ^ (c3 as u32),
            d5 == (d4 << 5) ^ (c4 as u32),
            c1 < 32,
            c2 < 32,
            c3 < 32,
            c4 < 32,
    ;
    assert(s0 ^ 0 == s0) by (bit_vector);
    lemma_step_linear(s0, 0, c0);
    assert((0u32 << 5) ^ d1 == d1) by (bit_vector);
    let t1 = polymod_step(s0, c0);
    assert(t1 == s1 ^ d1);
    lemma_step_linear(s1, d1, c1);
    let t2 = polymod_step(t1, c1);
    lemma_step_linear(s2, d2, c2);
    let t3 = polymod_step(t2, c2);
    lemma_step_linear(s3, d3, c3);
    let t4 = polymod_step(t3, c3);
    lemma_step_linear(s4, d4, c4);
    let t5 = polymod_step(t4, c4);
    lemma_step_linear(s5, d5, c5);
    let t6 = polymod_step(t5, c5);
    assert(t6 == s6 ^ d6);
    assert(k < 0x40000000);
    assert(d6 == x) by (bit_vector)
        requires
            x == s6 ^ k,
            s6 < 0x40000000,
            k < 0x40000000,
            d1 == (x >> 25) & 31,
            d2 == (d1 << 5) ^ ((x >> 20) & 31),
            d3 == (d2 << 5) ^ ((x >> 15) & 31),
            d4 == (d3 << 5) ^ ((x >> 10) & 31),
            d5 == (d4 << 5) ^ ((x >> 5) & 31),
            d6 == (d5 << 5) ^ (x & 31),
    ;
    assert(s6 ^ (s6 ^ k) == k) by (bit_vector);
    lemma_polymod_push(base, c0);
    lemma_polymod_push(base.push(c0), c1);
    lemma_polymod_push(base.push(c0).push(c1), c2);
    lemma_polymod_push(base.push(c0).push(c1).push(c2), c3);
    lemma_polymod_push(base.push(c0).push(c1).push(c2).push(c3), c4);
    lemma_polymod_push(base.push(c0).push(c1).push(c2).push(c3).push(c4), c5);
    assert(base + c =~= base.push(c0).push(c1).push(c2).push(c3).push(c4).push(c5));
}

/// What one step makes of the difference between two states that take in
/// the same symbol.
pub open spec fn advance(delta: u32) -> u32 {
    let top = delta >> 25;
    ((delta & 0x1ffffff) << 5) ^ (if top & 1 != 0 { 0x3b6a57b2u32 } else { 0u32 })
        ^ (if top & 2 != 0 { 0x26508e6du32 } else { 0u32 })
        ^ (if top & 4 != 0 { 0x1ea119fau32 } else { 0u32 })
        ^ (if top & 8 != 0 { 0x3d4233ddu32 } else { 0u32 })
        ^ (if top & 16 != 0 { 0x2a1462b3u32 } else { 0u32 })
}

proof fn lemma_step_difference(state: u32, other: u32, symbol: u8)
    requires
        state < 0x40000000,
        other < 0x40000000,
        symbol < 32,
    ensures
        polymod_step(state, symbol) ^ polymod_step(other, symbol) == advance(state ^ other),
        polymod_step(state, symbol) < 0x40000000,
        state != other ==> 0 < advance(state ^ other) < 0x40000000,
{
    let v = symbol as u32;
    let a = state >> 25;
    let b = other >> 25;
    let d = (state ^ other) >> 25;
    let a1 = if a & 1 != 0 { 0x3b6a57b2u32 } else { 0u32 };
    let a2 = if a & 2 != 0 { 0x26508e6du32 } else { 0u32 };
    let a3 = if a & 4 != 0 { 0x1ea119fau32 } else { 0u32 };
    let a4 = if a & 8 != 0 { 0x3d4233ddu32 } else { 0u32 };
    let a5 = if a & 16 != 0 { 0x2a1462b3u32 } else { 0u32 };
    let b1 = if b & 1 != 0 { 0x3b6a57b2u32 } else { 0u32 };
    let b2 = if b & 2 != 0 { 0x26508e6du32 } else { 0u32 };
    let b3 = if b & 4 != 0 { 0x1ea119fau32 } else { 0u32 };
    let b4 = if b & 8 != 0 { 0x3d4233ddu32 } else { 0u32 };
    let b5 = if b & 16 != 0 { 0x2a1462b3u32 } else { 0u32 };
    let d1 = if d & 1 != 0 { 0x3b6a57b2u32 } else { 0u32 };
    let d2 = if d & 2 != 0 { 0x26508e6du32 } else { 0u32 };
    let d3 = if d & 4 != 0 { 0x1ea119fau32 } else { 0u32 };
    let d4 = if d & 8 != 0 { 0x3d4233ddu32 } else { 0u32 };
    let d5 = if d & 16 != 0 { 0x2a1462b3u32 } else { 0u32 };
    assert((((state & 0x1ffffff) << 5) ^ v ^ a1 ^ a2 ^ a3 ^ a4 ^ a5) ^ (((other & 0x1ffffff) << 5)
        ^ v ^ b1 ^ b2 ^ b3 ^ b4 ^ b5) == (((state ^ other) & 0x1ffffff) << 5) ^ d1 ^ d2 ^ d3 ^ d4
        ^ d5) by (bit_vector)
        requires
            a == state >> 25,
            b == other >> 25,
            d == (state ^ other) >> 25,
            a1 == (if a & 1 != 0 { 0x3b6a57b2u32 } else { 0u32 }),
            a2 == (if a & 2 != 0 { 0x26508e6du32 } else { 0u32 }),
            a3 == (if a & 4 != 0 { 0x1ea119fau32 } else { 0u32 }),
            a4 == (if a & 8 != 0 { 0x3d4233ddu32 } else { 0u32 }),
            a5 == (if a & 16 != 0 { 0x2a1462b3u32 } else { 0u32 }),
            b1 == (if b & 1 != 0 { 0x3b6a57b2u32 } else { 0u32 }),
            b2 == (if b & 2 != 0 { 0x26508e6du32 } else { 0u32 }),
            b3 == (if b & 4 != 0 { 0x1ea119fau32 } else { 0u32 }),
            b4 == (if b & 8 != 0 { 0x3d4233ddu32 } else { 0u32 }),
            b5 == (if b & 16 != 0 { 0x2a1462b3u32 } else { 0u32 }),
            d1 == (if d & 1 != 0 { 0x3b6a57b2u32 } else { 0u32 }),
            d2 == (if d & 2 != 0 { 0x26508e6du32 } else { 0u32 }),
            d3 == (if d & 4 != 0 { 0x1ea119fau32 } else { 0u32 }),
            d4 == (if d & 8 != 0 { 0x3d4233ddu32 } else { 0u32 }),
            d5 == (if d & 16 != 0 { 0x2a1462b3u32 } else { 0u32 }),
    ;
    assert((((state & 0x1ffffff) << 5) ^ v ^ a1 ^ a2 ^ a3 ^ a4 ^ a5) < 0x40000000) by (bit_vector)
        requires
            v < 32,
            a1 == 0 || a1 == 0x3b6a57b2u32,
            a2 == 0 || a2 == 0x26508e6du32,
            a3 == 0 || a3 == 0x1ea119fau32,
            a4 == 0 || a4 == 0x3d4233ddu32,
            a5 == 0 || a5 == 0x2a1462b3u32,
    ;
    let x = state ^ other;
    if state != other {
        assert(0 < ((x & 0x1ffffff) << 5) ^ d1 ^ d2 ^ d3 ^ d4 ^ d5 && ((x & 0x1ffffff) << 5) ^ d1
            ^ d2 ^ d3 ^ d4 ^ d5 < 0x40000000) by (bit_vector)
            requires
                x == state ^ other,
                state != other,
                state < 0x40000000,
                other < 0x40000000,
                d == x >> 25,
                d1 == (if d & 1 != 0 { 0x3b6a57b2u32 } else { 0u32 }),
                d2 == (if d & 2 != 0 { 0x26508e6du32 } else { 0u32 }),
                d3 == (if d & 4 != 0 { 0x1ea119fau32 } else { 0u32 }),
                d4 == (if d & 8 != 0 { 0x3d4233ddu32 } else { 0u32 }),
                d5 == (if d & 16 != 0 { 0x2a1462b3u32 } else { 0u32 }),
        ;
    }
}

proof fn lemma_polymod_bound(symbols: Seq<u8>)
    requires
        symbols_ok(symbols),
    ensures
        polymod(symbols) < 0x40000000,
    decreases symbols.len(),
{
    if symbols.len() > 0 {
        let rest = symbols.drop_last();
        assert(symbols_ok(rest)) by {
            assert forall|i: int| 0 <= i < rest.len() implies #[trigger] rest[i] < 32 by {
                assert(rest[i] == symbols[i]);
            }
        }
        lemma_polymod_bound(rest);
        assert(symbols.last() == symbols[symbols.len() - 1]);
        lemma_step_difference(polymod(rest), polymod(rest), symbols.last());
    }
}

/// Two symbol sequences of one length that differ at one place and nowhere
/// else have different residues.
pub proof fn lemma_one_symbol_changes_residue(a: Seq<u8>, b: Seq<u8>, at: int)
    requires
        a.len() == b.len(),
        0 <= at < a.len(),
        symbols_ok(a),
        symbols_ok(b),
        a[at] != b[at],
        forall|j: int| 0 <= j < a.len() && j != at ==> a[j] == b[j],
    ensures
        polymod(a) != polymod(b),
        polymod(a) < 0x40000000,
        polymod(b) < 0x40000000,
    decreases a.len(),
{
    let front_a = a.drop_last();
    let front_b = b.drop_last();
    assert(symbols_ok(front_a) && symbols_ok(front_b)) by {
        assert forall|i: int| 0 <= i < front_a.len() implies #[trigger] front_a[i] < 32 by {
            assert(front_a[i] == a[i]);
        }
        assert forall|i: int| 0 <= i < front_b.len() implies #[trigger] front_b[i] < 32 by {
            assert(front_b[i] == b[i]);
        }
    }
    lemma_polymod_bound(a);
    lemma_polymod_bound(b);
    lemma_polymod_bound(front_a);
    lemma_polymod_bound(front_b);
    let x = a.last();
    let y = b.last();
    assert(x == a[a.len() - 1] && y == b[b.len() - 1]);
    if at == a.len() - 1 {
        assert(front_a =~= front_b);
        let state = polymod(front_a);
        let top = state >> 25;
        let g1 = if top & 1 != 0 { 0x3b6a57b2u32 } else { 0u32 };
        let g2 = if top & 2 != 0 { 0x26508e6du32 } else { 0u32 };
        let g3 = if top & 4 != 0 { 0x1ea119fau32 } else { 0u32 };
        let g4 = if top & 8 != 0 { 0x3d4233ddu32 } else { 0u32 };
        let g5 = if top & 16 != 0 { 0x2a1462b3u32 } else { 0u32 };
        let xv = x as u32;
        let yv = y as u32;
        assert((((state & 0x1ffffff) << 5) ^ xv ^ g1 ^ g2 ^ g3 ^ g4 ^ g5) != (((state & 0x1ffffff)
            << 5) ^ yv ^ g1 ^ g2 ^ g3 ^ g4 ^ g5)) by (bit_vector)
            requires
                xv != yv,
        ;
    } else {
        assert forall|j: int| 0 <= j < front_a.len() && j != at implies front_a[j]
            == front_b[j] by {
            assert(front_a[j] == a[j] && front_b[j] == b[j]);
        }
        assert(front_a[at] == a[at] && front_b[at] == b[at]);
        lemma_one_symbol_changes_residue(front_a, front_b, at);
        assert(x == y);
        lemma_step_difference(polymod(front_a), polymod(front_b), x);
        let p = polymod(a);
        let q = polymod(b);
        assert(p != q) by (bit_vector)
            requires
                0 < p ^ q,
        ;
    }
}

/// A data part that differs in one character from a data part with a right
/// checksum has not the right checksum of the same variant.
pub proof fn lemma_one_character_is_detected(
    prefix: Seq<char>,
    good: Seq<char>,
    bad: Seq<char>,
    at: int,
)
    requires
        prefix_ok(prefix),
        spec_decode_data(prefix, good) is Ok,
        good.len() == bad.len(),
        0 <= at < good.len(),
        good[at] != bad[at],
        forall|j: int| 0 <= j < good.len() && j != at ==> good[j] == bad[j],
    ensures
        spec_decode_data(prefix, bad) matches Ok(read) ==> read.1 != spec_decode_data(
            prefix,
            good,
        )->Ok_0.1,
{
    if text_symbols(bad) is Some {
        let a = text_symbols(good)->0;
        let b = text_symbols(bad)->0;
        let head = expand_prefix(prefix);
        let all_a = head + a;
        let all_b = head + b;
        let shift = head.len() as int;
        assert forall|i: int| 0 <= i < all_a.len() implies #[trigger] all_a[i] < 32 by {
            if i < prefix.len() {
                let c = prefix[i] as u32;
                assert(33 <= prefix[i] as u32 <= 126);
                assert(c >> 5 < 4) by (bit_vector)
                    requires
                        c <= 126,
                ;
            } else if i == prefix.len() {
            } else if i < shift {
                let c = prefix[i - prefix.len() - 1] as u32;
                assert(c & 31 < 32) by (bit_vector);
            } else {
                assert(spec_symbol_value(good[i - shift]) is Some);
                lemma_symbol_tables(a[i - shift], good[i - shift]);
            }
        }
        assert forall|i: int| 0 <= i < all_b.len() implies #[trigger] all_b[i] < 32 by {
            if i < shift {
                assert(all_b[i] == all_a[i]);
            } else {
                assert(spec_symbol_value(bad[i - shift]) is Some);
                lemma_symbol_tables(b[i - shift], bad[i - shift]);
            }
        }
        assert(spec_symbol_value(good[at]) is Some);
        assert(spec_symbol_value(bad[at]) is Some);
        lemma_symbol_tables(a[at], good[at]);
        lemma_symbol_tables(b[at], bad[at]);
        assert(all_a[shift + at] == a[at] && all_b[shift + at] == b[at]);
        assert forall|j: int| 0 <= j < all_a.len() && j != shift + at implies all_a[j]
            == all_b[j] by {
            if j >= shift {
                assert(good[j - shift] == bad[j - shift]);
            }
        }
        lemma_one_symbol_changes_residue(all_a, all_b, shift + at);
    }
}

/// The residue of `symbols`.
pub fn compute_polymod(symbols: &[u8]) -> (residue: u32)
    ensures
        residue == polymod(symbols@),
{
    let mut state: u32 = 1;
    let mut i: usize = 0;
    while i < symbols.len()
        invariant
            i <= symbols.len(),
            state == polymod(symbols@.take(i as int)),
        decreases symbols.len() - i,
    {
        let top = state >> 25;
        proof {
            assert(symbols@.take(i + 1).drop_last() =~= symbols@.take(i as int));
            assert(((state & 0x1ffffff) << 5) <= 0x3fffffe0) by (bit_vector);
        }
        state = ((state & 0x1ffffff) << 5) ^ (symbols[i] as u32)
            ^ (if top & 1 != 0 { 0x3b6a57b2u32 } else { 0u32 })
            ^ (if top & 2 != 0 { 0x26508e6du32 } else { 0u32 })
            ^ (if top & 4 != 0 { 0x1ea119fau32 } else { 0u32 })
            ^ (if top & 8 != 0 { 0x3d4233ddu32 } else { 0u32 })
            ^ (if top & 16 != 0 { 0x2a1462b3u32 } else { 0u32 });
        i += 1;
    }
    proof {
        assert(symbols@.take(symbols@.len() as int) =~= symbols@);
    }
    state
}

/// The prefix as it enters the checksum.
pub fn expand(prefix: &[char]) -> (symbols: Vec<u8>)
    requires
        prefix_ok(prefix@),
    ensures
        symbols@ == expand_prefix(prefix@),
{
    let mut symbols: Vec<u8> = Vec::new();
    let mut i: usize = 0;
    while i < prefix.len()
        invariant
            prefix_ok(prefix@),
            i <= prefix.len(),
            symbols@ == Seq::new(i as nat, |j: int| ((prefix@[j] as u32) >> 5) as u8),
        decreases prefix.len() - i,
    {
        let c = prefix[i] as u32;
        assert(33 <= prefix@[i as int] as u32 <= 126);
        assert(c >> 5 < 4) by (bit_vector)
            requires
                c <= 126,
        ;
        symbols.push((c >> 5) as u8);
        i += 1;
        assert(symbols@ =~= Seq::new(i as nat, |j: int| ((prefix@[j] as u32) >> 5) as u8));
    }
    symbols.push(0);
    let ghost high = symbols@;
    i = 0;
    while i < prefix.len()
        invariant
            prefix_ok(prefix@),
            i <= prefix.len(),
            symbols@ == high + Seq::new(i as nat, |j: int| ((prefix@[j] as u32) & 31) as u8),
        decreases prefix.len() - i,
    {
        let c = prefix[i] as u32;
        assert(c & 31 < 32) by (bit_vector);
        symbols.push((c & 31) as u8);
        i += 1;
        assert(symbols@ =~= high + Seq::new(
            i as nat,
            |j: int| ((prefix@[j] as u32) & 31) as u8,
        ));
    }
    assert(symbols@ =~= expand_prefix(prefix@));
    symbols
}

/// The six checksum symbols of `data` under `prefix`.
pub fn checksum(prefix: &[char], data: &[u8], variant: Variant) -> (symbols: Vec<u8>)
    requires
        prefix_ok(prefix@),
    ensures
        symbols@ == spec_checksum(prefix@, data@, variant),
{
    let mut values = expand(prefix);
    append(&mut values, data);
    let zeros: [u8; 6] = [0, 0, 0, 0, 0, 0];
    append(&mut values, zeros.as_slice());
    assert(zeros@ =~= seq![0u8, 0u8, 0u8, 0u8, 0u8, 0u8]);
    let constant = match variant {
        Variant::Bech32 => BECH32_CONSTANT,
        Variant::Bech32m => BECH32M_CONSTANT,
    };
    let x = compute_polymod(values.as_slice()) ^ constant;
    assert(((x >> 25) & 31) < 32 && ((x >> 20) & 31) < 32 && ((x >> 15) & 31) < 32 && ((x >> 10)
        & 31) < 32 && ((x >> 5) & 31) < 32 && (x & 31) < 32) by (bit_vector);
    let mut symbols: Vec<u8> = Vec::new();
    symbols.push(((x >> 25) & 31) as u8);
    symbols.push(((x >> 20) & 31) as u8);
    symbols.push(((x >> 15) & 31) as u8);
    symbols.push(((x >> 10) & 31) as u8);
    symbols.push(((x >> 5) & 31) as u8);
    symbols.push((x & 31) as u8);
    assert(symbols@ =~= residue_symbols(x));
    symbols
}

/// The text of `data` under `prefix`, with the checksum of the variant.
pub fn encode(prefix: &[char], data: &[u8], variant: Variant) -> (text: Vec<char>)
    requires
        prefix_ok(prefix@),
        symbols_ok(data@),
    ensures
        text@ == spec_encode(prefix@, data@, variant),
{
    let check = checksum(prefix, data, variant);
    proof {
        lemma_checksum_verifies(prefix@, data@, variant);
    }
    let mut text: Vec<char> = Vec::new();
    let mut i: usize = 0;
    while i < prefix.len()
        invariant
            i <= prefix.len(),
            text@ == prefix@.take(i as int),
        decreases prefix.len() - i,
    {
        text.push(prefix[i]);
        i += 1;
        assert(text@ =~= prefix@.take(i as int));
    }
    assert(prefix@.take(prefix@.len() as int) =~= prefix@);
    text.push('1');
    let ghost head = text@;
    let ghost all = data@ + check@;
    i = 0;
    while i < data.len()
        invariant
            i <= data.len(),
            symbols_ok(data@),
            all == data@ + check@,
            text@ == head + symbols_text(all.take(i as int)),
        decreases data.len() - i,
    {
        text.push(symbol_char(data[i]));
        i += 1;
        assert(text@ =~= head + symbols_text(all.take(i as int)));
    }
    i = 0;
    while i < check.len()
        invariant
            i <= check.len(),
            symbols_ok(check@),
            all == data@ + check@,
            text@ == head + symbols_text(all.take(data@.len() + i)),
        decreases check.len() - i,
    {
        text.push(symbol_char(check[i]));
        i += 1;
        assert(text@ =~= head + symbols_text(all.take(data@.len() + i)));
    }
    assert(all.take(all.len() as int) =~= all);
    assert(head =~= prefix@ + seq!['1']);
    text
}

/// Reads the part after the separator: checks the alphabet and the checksum,
/// and returns the data symbols and the variant.
pub fn decode_data(prefix: &[char], data_text: &[char]) -> (result: Result<
    (Vec<u8>, Variant),
    DataError,
>)
    requires
        prefix_ok(prefix@),
    ensures
        match (result, spec_decode_data(prefix@, data_text@)) {
            (Ok(got), Ok(want)) => got.0@ == want.0 && got.1 == want.1 && symbols_ok(got.0@),
            (Err(got), Err(want)) => got == want,
            _ => false,
        },
{
    let mut symbols: Vec<u8> = Vec::new();
    let mut i: usize = 0;
    while i < data_text.len()
        invariant
            i <= data_text.len(),
            symbols@.len() == i,
            forall|j: int|
                0 <= j < i ==> (#[trigger] spec_symbol_value(data_text@[j])) == Some(symbols@[j]),
        decreases data_text.len() - i,
    {
        match symbol_value(data_text[i]) {
            Some(v) => {
                symbols.push(v);
            },
            None => {
                assert(spec_symbol_value(data_text@[i as int]) is None);
                return Err(DataError::InvalidCharacter);
            },
        }
        i += 1;
    }
    proof {
        let want = text_symbols(data_text@);
        assert(want is Some);
        assert(want->0 =~= symbols@);
        assert forall|j: int| 0 <= j < symbols@.len() implies #[trigger] symbols@[j] < 32 by {
            lemma_symbol_tables(symbols@[j], data_text@[j]);
        }
    }
    if symbols.len() < 6 {
        return Err(DataError::Checksum);
    }
    let mut values = expand(prefix);
    append(&mut values, symbols.as_slice());
    let residue = compute_polymod(values.as_slice());
    let variant = if residue == BECH32_CONSTANT {
        Variant::Bech32
    } else if residue == BECH32M_CONSTANT {
        Variant::Bech32m
    } else {
        return Err(DataError::Checksum);
    };
    let keep = symbols.len() - 6;
    let mut data: Vec<u8> = Vec::new();
    i = 0;
    while i < keep
        invariant
            i <= keep,
            keep <= symbols.len(),
            data@ == symbols@.take(i as int),
        decreases keep - i,
    {
        data.push(symbols[i]);
        i += 1;
        assert(data@ =~= symbols@.take(i as int));
    }
    Ok((data, variant))
}

} // verus!
