//! The address codec: from a public key to the text of an address in one of
//! four formats, and from a text back to what it says.
//!
//! A text that starts like a SegWit address (`bc1`, `tb1`, `bcrt1`, or the
//! same in capitals) is read as Bech32 or Bech32m; every other text is read
//! as Base58Check.

use crate::base58;
use crate::base58::CheckError;
use crate::bech32;
use crate::bech32::{DataError, Variant};
use crate::bits::{
    bytes_to_symbols, lemma_symbols_round_trip, spec_bytes_to_symbols, spec_symbols_to_bytes,
    symbols_to_bytes,
};
use crate::bytes::append;
use crate::curve::{is_point, spec_xonly_add, xonly_add, CompressedPoint};
use crate::hash::{hash160, sha256, spec_hash160, spec_sha256, spec_sha256d};
use crate::radix;
use crate::text::{from_chars, is_small_letter, to_chars, to_small};
use vstd::prelude::*;
use vstd::slice::{slice_subrange, slice_to_vec};

verus! {

/// The greatest length of the text of an address.
pub const MAX_ADDRESS_LENGTH: usize = 90;

/// The network that an address belongs to.
#[derive(Clone, Copy, PartialEq, Eq, Debug, Structural)]
pub enum Network {
    Mainnet,
    Testnet,
    Regtest,
}

/// The four formats in which a public key is written as an address.
#[derive(Clone, Copy, PartialEq, Eq, Debug, Structural)]
pub enum AddressFormat {
    /// Pay to public key hash, in Base58Check.
    Legacy,
    /// Pay to witness public key hash, wrapped in a script hash, in Base58Check.
    WrappedSegwit,
    /// Pay to witness public key hash, in Bech32.
    NativeSegwit,
    /// Pay to Taproot, key path only, in Bech32m.
    Taproot,
}

/// What the text of an address says it pays to.
#[derive(Clone, Copy, PartialEq, Eq, Debug, Structural)]
pub enum AddressKind {
    P2pkh,
    P2sh,
    P2wpkh,
    P2wsh,
    P2tr,
}

/// Why a text is no address, or a key has no address in a format.
#[derive(Clone, Copy, PartialEq, Eq, Debug, Structural)]
pub enum AddressError {
    /// The checksum of the text is wrong.
    ChecksumMismatch,
    /// The version byte of a Base58Check text stands for no known address.
    UnknownVersionByte,
    /// Witness version 0 with a Bech32m checksum, or version 1 with Bech32.
    InvalidWitnessVersionChecksumPairing,
    /// The text is neither Base58 nor a SegWit text in one case.
    UnrecognizedAddressFormat,
    /// There is no witness version, or it is neither 0 nor 1.
    InvalidWitnessVersion,
    /// The symbols of the witness program leave five bits or more, or
    /// bits that are not zero.
    InvalidPadding,
    /// The payload has not the length that its kind asks for.
    InvalidPayloadLength,
    /// The Taproot tweak of the key gives no point.
    InvalidTweak,
}

/// An address as a mathematical value.
pub struct DescriptorView {
    pub kind: AddressKind,
    pub network: Network,
    pub payload: Seq<u8>,
    pub encoded: Seq<char>,
}

/// What an address says: its kind, the network that its text implies, the
/// 20-byte hash or 32-byte key that it carries, and its text.
#[derive(Debug)]
pub struct AddressDescriptor {
    kind: AddressKind,
    network: Network,
    payload: Vec<u8>,
    encoded: String,
}

impl View for AddressDescriptor {
    type V = DescriptorView;

    closed spec fn view(&self) -> DescriptorView {
        DescriptorView {
            kind: self.kind,
            network: self.network,
            payload: self.payload@,
            encoded: self.encoded@,
        }
    }
}

/// The kind of address that a format produces.
pub open spec fn format_kind(format: AddressFormat) -> AddressKind {
    match format {
        AddressFormat::Legacy => AddressKind::P2pkh,
        AddressFormat::WrappedSegwit => AddressKind::P2sh,
        AddressFormat::NativeSegwit => AddressKind::P2wpkh,
        AddressFormat::Taproot => AddressKind::P2tr,
    }
}

/// The kinds that are written in Base58Check.
pub open spec fn is_base58_kind(kind: AddressKind) -> bool {
    kind == AddressKind::P2pkh || kind == AddressKind::P2sh
}

/// The length of the payload of a kind: a 20-byte hash, or 32 bytes.
pub open spec fn payload_len(kind: AddressKind) -> nat {
    match kind {
        AddressKind::P2pkh | AddressKind::P2sh | AddressKind::P2wpkh => 20,
        AddressKind::P2wsh | AddressKind::P2tr => 32,
    }
}

/// The version byte of a Base58Check address.
pub open spec fn version_byte(kind: AddressKind, network: Network) -> u8 {
    match (kind, network) {
        (AddressKind::P2sh, Network::Mainnet) => 0x05,
        (AddressKind::P2sh, _) => 0xc4,
        (_, Network::Mainnet) => 0x00,
        (_, _) => 0x6f,
    }
}

/// The kind and network of a version byte.
pub open spec fn spec_version(version: u8) -> Option<(AddressKind, Network)> {
    if version == 0x00 {
        Some((AddressKind::P2pkh, Network::Mainnet))
    } else if version == 0x05 {
        Some((AddressKind::P2sh, Network::Mainnet))
    } else if version == 0x6f {
        Some((AddressKind::P2pkh, Network::Testnet))
    } else if version == 0xc4 {
        Some((AddressKind::P2sh, Network::Testnet))
    } else {
        None
    }
}

/// The network that the text of an address implies: Base58Check has no
/// form of its own for regtest and writes it as testnet.
pub open spec fn implied_network(kind: AddressKind, network: Network) -> Network {
    if is_base58_kind(kind) && network == Network::Regtest {
        Network::Testnet
    } else {
        network
    }
}

/// The human-readable prefix of a network.
pub open spec fn prefix(network: Network) -> Seq<char> {
    match network {
        Network::Mainnet => seq!['b', 'c'],
        Network::Testnet => seq!['t', 'b'],
        Network::Regtest => seq!['b', 'c', 'r', 't'],
    }
}

/// The witness version of a SegWit kind.
pub open spec fn witness_version(kind: AddressKind) -> u8 {
    if kind == AddressKind::P2tr {
        1
    } else {
        0
    }
}

/// The checksum variant of a SegWit kind.
pub open spec fn variant_of(kind: AddressKind) -> Variant {
    if kind == AddressKind::P2tr {
        Variant::Bech32m
    } else {
        Variant::Bech32
    }
}

/// The text of an address of a kind on a network with a payload.
pub open spec fn spec_encoded(kind: AddressKind, network: Network, payload: Seq<u8>) -> Seq<char> {
    if is_base58_kind(kind) {
        base58::spec_check_encode(seq![version_byte(kind, network)] + payload)
    } else {
        bech32::spec_encode(
            prefix(network),
            seq![witness_version(kind)] + spec_bytes_to_symbols(payload),
            variant_of(kind),
        )
    }
}

/// The tag of the Taproot tweak hash: the bytes of `TapTweak`.
pub open spec fn tap_tag() -> Seq<u8> {
    seq![84u8, 97u8, 112u8, 84u8, 119u8, 101u8, 97u8, 107u8]
}

/// The Taproot tweak of an x coordinate with no script tree: the tagged
/// hash of the coordinate.
pub open spec fn spec_tap_tweak(x: Seq<u8>) -> Seq<u8> {
    let tag = spec_sha256(tap_tag());
    spec_sha256(tag + tag + x)
}

/// The payload that a format derives from a compressed public key.
pub open spec fn spec_payload(point: Seq<u8>, format: AddressFormat) -> Option<Seq<u8>> {
    match format {
        AddressFormat::Legacy | AddressFormat::NativeSegwit => Some(spec_hash160(point)),
        AddressFormat::WrappedSegwit => Some(spec_hash160(seq![0u8, 20u8] + spec_hash160(point))),
        AddressFormat::Taproot => spec_xonly_add(point.skip(1), spec_tap_tweak(point.skip(1))),
    }
}

/// The address of a compressed public key in a format on a network.
pub open spec fn spec_encode(point: Seq<u8>, format: AddressFormat, network: Network) -> Result<
    DescriptorView,
    AddressError,
> {
    match spec_payload(point, format) {
        Some(payload) => Ok(encoded_view(format_kind(format), network, payload)),
        None => Err(AddressError::InvalidTweak),
    }
}

/// The characters with which a SegWit text of a network starts.
pub open spec fn marker(network: Network, capitals: bool) -> Seq<char> {
    match (network, capitals) {
        (Network::Mainnet, false) => seq!['b', 'c', '1'],
        (Network::Mainnet, true) => seq!['B', 'C', '1'],
        (Network::Testnet, false) => seq!['t', 'b', '1'],
        (Network::Testnet, true) => seq!['T', 'B', '1'],
        (Network::Regtest, false) => seq!['b', 'c', 'r', 't', '1'],
        (Network::Regtest, true) => seq!['B', 'C', 'R', 'T', '1'],
    }
}

/// The text begins with the characters of `start`.
pub open spec fn starts_with(text: Seq<char>, start: Seq<char>) -> bool {
    text.len() >= start.len() && text.take(start.len() as int) == start
}

/// Whether a text starts like a SegWit address, and if so of which network
/// and in which case.
pub open spec fn spec_shape(text: Seq<char>) -> Option<(Network, bool)> {
    if starts_with(text, marker(Network::Mainnet, false)) {
        Some((Network::Mainnet, false))
    } else if starts_with(text, marker(Network::Mainnet, true)) {
        Some((Network::Mainnet, true))
    } else if starts_with(text, marker(Network::Testnet, false)) {
        Some((Network::Testnet, false))
    } else if starts_with(text, marker(Network::Testnet, true)) {
        Some((Network::Testnet, true))
    } else if starts_with(text, marker(Network::Regtest, false)) {
        Some((Network::Regtest, false))
    } else if starts_with(text, marker(Network::Regtest, true)) {
        Some((Network::Regtest, true))
    } else {
        None
    }
}

/// The marker with which a SegWit text starts; empty for another text.
pub open spec fn shape_marker(text: Seq<char>) -> Seq<char> {
    match spec_shape(text) {
        Some((network, capitals)) => marker(network, capitals),
        None => Seq::empty(),
    }
}

/// The data part of a SegWit text in small letters. A text in capitals
/// must hold no small letter.
pub open spec fn spec_data_text(text: Seq<char>, network: Network, capitals: bool) -> Option<
    Seq<char>,
> {
    let rest = text.skip(marker(network, capitals).len() as int);
    if !capitals {
        Some(rest)
    } else if exists|i: int| 0 <= i < rest.len() && is_small_letter(#[trigger] rest[i]) {
        None
    } else {
        Some(Seq::new(rest.len(), |i: int| to_small(rest[i])))
    }
}

/// What the symbols of a SegWit text say, the checksum taken off.
pub open spec fn spec_classify_witness(
    text: Seq<char>,
    network: Network,
    symbols: Seq<u8>,
    variant: Variant,
) -> Result<DescriptorView, AddressError> {
    if symbols.len() == 0 || symbols[0] > 1 {
        Err(AddressError::InvalidWitnessVersion)
    } else if (symbols[0] == 0) != (variant == Variant::Bech32) {
        Err(AddressError::InvalidWitnessVersionChecksumPairing)
    } else if symbols.len() > 53 {
        Err(AddressError::InvalidPayloadLength)
    } else {
        match spec_symbols_to_bytes(symbols.skip(1)) {
            None => Err(AddressError::InvalidPadding),
            Some(program) => {
                let kind = if symbols[0] == 1 {
                    AddressKind::P2tr
                } else if program.len() == 20 {
                    AddressKind::P2wpkh
                } else {
                    AddressKind::P2wsh
                };
                if program.len() == payload_len(kind) {
                    Ok(DescriptorView { kind, network, payload: program, encoded: text })
                } else {
                    Err(AddressError::InvalidPayloadLength)
                }
            },
        }
    }
}

/// What a text that starts like a SegWit address says.
pub open spec fn spec_decode_segwit(text: Seq<char>, network: Network, capitals: bool) -> Result<
    DescriptorView,
    AddressError,
> {
    match spec_data_text(text, network, capitals) {
        None => Err(AddressError::UnrecognizedAddressFormat),
        Some(data_text) => match bech32::spec_decode_data(prefix(network), data_text) {
            Err(DataError::InvalidCharacter) => Err(AddressError::UnrecognizedAddressFormat),
            Err(DataError::Checksum) => Err(AddressError::ChecksumMismatch),
            Ok((symbols, variant)) => spec_classify_witness(text, network, symbols, variant),
        },
    }
}

/// What a text that does not start like a SegWit address says.
pub open spec fn spec_decode_base58(text: Seq<char>) -> Result<DescriptorView, AddressError> {
    if text.len() == 0 {
        Err(AddressError::UnrecognizedAddressFormat)
    } else {
        match base58::spec_check_decode(text) {
            Err(CheckError::InvalidCharacter) => Err(AddressError::UnrecognizedAddressFormat),
            Err(CheckError::Checksum) => Err(AddressError::ChecksumMismatch),
            Ok(body) => {
                if body.len() == 0 {
                    Err(AddressError::InvalidPayloadLength)
                } else {
                    match spec_version(body[0]) {
                        None => Err(AddressError::UnknownVersionByte),
                        Some((kind, network)) => {
                            if body.len() == 21 {
                                Ok(
                                    DescriptorView {
                                        kind,
                                        network,
                                        payload: body.skip(1),
                                        encoded: text,
                                    },
                                )
                            } else {
                                Err(AddressError::InvalidPayloadLength)
                            }
                        },
                    }
                }
            },
        }
    }
}

/// What a text says that is not too long for an address.
pub open spec fn spec_read(text: Seq<char>) -> Result<DescriptorView, AddressError> {
    match spec_shape(text) {
        Some((network, capitals)) => spec_decode_segwit(text, network, capitals),
        None => spec_decode_base58(text),
    }
}

/// What the text of an address says. A text of more than 90 characters is
/// no address of any format.
pub open spec fn spec_decode(text: Seq<char>) -> Result<DescriptorView, AddressError> {
    if text.len() > MAX_ADDRESS_LENGTH {
        Err(AddressError::UnrecognizedAddressFormat)
    } else {
        spec_read(text)
    }
}

/// The descriptor that encoding a payload gives.
pub open spec fn encoded_view(kind: AddressKind, network: Network, payload: Seq<u8>)
    -> DescriptorView {
    DescriptorView {
        kind,
        network: implied_network(kind, network),
        payload,
        encoded: spec_encoded(kind, network, payload),
    }
}

proof fn lemma_symbols_text(symbols: Seq<u8>)
    requires
        bech32::symbols_ok(symbols),
    ensures
        bech32::text_symbols(bech32::symbols_text(symbols)) == Some(symbols),
        forall|i: int|
            0 <= i < symbols.len() ==> #[trigger] bech32::symbols_text(symbols)[i] != '1',
{
    let text = bech32::symbols_text(symbols);
    assert forall|i: int| 0 <= i < text.len() implies (#[trigger] bech32::spec_symbol_value(
        text[i],
    )) == Some(symbols[i]) && text[i] != '1' by {
        assert(symbols[i] < 32);
        bech32::lemma_symbol_tables(symbols[i], text[i]);
    }
    assert(bech32::text_symbols(text)->0 =~= symbols);
}

/// The Base58Check text of 25 bytes that begin with a version byte of an
/// address begins with `1`, `2`, `3`, `m` or `n`.
proof fn lemma_base58_first(bytes: Seq<u8>)
    requires
        bytes.len() == 25,
        spec_version(bytes[0]) is Some,
    ensures
        base58::spec_encode(bytes).len() > 0,
        ({
            let c = base58::spec_encode(bytes)[0];
            c == '1' || c == '2' || c == '3' || c == 'm' || c == 'n'
        }),
{
    let digits = radix::spec_transcode(bytes, 256, 58);
    let text = base58::spec_encode(bytes);
    let v = bytes[0];
    if v == 0 {
        assert(radix::leading_zeros(bytes) >= 1);
        assert(digits[0] == 0);
        assert(text[0] == base58::spec_digit_char(0));
    } else {
        assert(radix::leading_zeros(bytes) == 0);
        let n = radix::value_be(bytes, 256);
        let rest = bytes.drop_first();
        radix::lemma_value_be_first(bytes, 256);
        base58::lemma_bytes_below(rest);
        radix::lemma_value_be_bound(rest, 256);
        radix::lemma_powers();
        let low = radix::value_be(rest, 256);
        let p256 = radix::pow(256, 24);
        assert(n == v as nat * p256 + low);
        assert(low < p256);
        let p33 = radix::pow(58, 33);
        let p34 = radix::pow(58, 34);
        assert(p34 == 58 * p33);
        assert(digits =~= radix::digits_be(n, 58));
        if v == 0x05 {
            assert(v as nat * p256 == 5 * p256);
            radix::lemma_top_digit(n, 58, 33);
            assert(n / p33 == 2);
            assert(text[0] == base58::spec_digit_char(2));
        } else if v == 0x6f {
            assert(v as nat * p256 == 111 * p256);
            radix::lemma_top_digit(n, 58, 33);
            assert(n / p33 == 44 || n / p33 == 45);
            assert(text[0] == base58::spec_digit_char(digits[0]));
        } else {
            assert(v as nat * p256 == 196 * p256);
            radix::lemma_top_digit(n, 58, 34);
            assert(n / p34 == 1);
            assert(text[0] == base58::spec_digit_char(1));
        }
    }
}

/// A text made of a prefix, the separator and symbols starts like a SegWit
/// address of the network, and its data part is the symbols.
proof fn lemma_segwit_shape(network: Network, all: Seq<u8>)
    requires
        bech32::symbols_ok(all),
    ensures
        ({
            let text = prefix(network) + seq!['1'] + bech32::symbols_text(all);
            spec_shape(text) == Some((network, false)) && spec_data_text(text, network, false)
                == Some(bech32::symbols_text(all)) && text.len() <= 5 + all.len()
        }),
{
    let hrp = prefix(network);
    let tail = bech32::symbols_text(all);
    let text = hrp + seq!['1'] + tail;
    let mark = marker(network, false);
    assert(mark =~= hrp + seq!['1']);
    assert(text =~= mark + tail);
    assert(text.take(mark.len() as int) =~= mark);
    assert(text[0] == mark[0]);
    assert(text[1] == mark[1]);
    assert(text[2] == mark[2]);
    if text.len() >= 3 {
        assert(text.take(3)[0] == text[0]);
        assert(text.take(3)[2] == text[2]);
    }
    if text.len() >= 5 {
        assert(text.take(5)[0] == text[0]);
    }
    assert(text.skip(mark.len() as int) =~= tail);
}

/// The data part made of symbols and their checksum is read back as the
/// symbols and the variant.
proof fn lemma_segwit_data(hrp: Seq<char>, data: Seq<u8>, variant: Variant)
    requires
        bech32::symbols_ok(data),
    ensures
        bech32::symbols_ok(data + bech32::spec_checksum(hrp, data, variant)),
        bech32::spec_decode_data(
            hrp,
            bech32::symbols_text(data + bech32::spec_checksum(hrp, data, variant)),
        ) == Ok::<(Seq<u8>, Variant), DataError>((data, variant)),
{
    let check = bech32::spec_checksum(hrp, data, variant);
    bech32::lemma_checksum_verifies(hrp, data, variant);
    let all = data + check;
    assert forall|i: int| 0 <= i < all.len() implies #[trigger] all[i] < 32 by {
        if i < data.len() {
            assert(all[i] == data[i]);
        } else {
            assert(all[i] == check[i - data.len()]);
        }
    }
    lemma_symbols_text(all);
    assert(bech32::expand_prefix(hrp) + all =~= bech32::expand_prefix(hrp) + data + check);
    assert(all.take(all.len() - 6) =~= data);
}

/// The Base58 text of 25 bytes that begin with a version byte of an
/// address does not start like a SegWit address.
proof fn lemma_base58_shape(bytes: Seq<u8>)
    requires
        bytes.len() == 25,
        spec_version(bytes[0]) is Some,
    ensures
        base58::spec_encode(bytes).len() > 0,
        spec_shape(base58::spec_encode(bytes)) is None,
{
    let text = base58::spec_encode(bytes);
    lemma_base58_first(bytes);
    let c = text[0];
    if text.len() >= 3 {
        assert(text.take(3)[0] == c);
    }
    if text.len() >= 5 {
        assert(text.take(5)[0] == c);
    }
}

/// The Base58 text of 25 bytes has at most 60 characters.
proof fn lemma_base58_length(bytes: Seq<u8>)
    requires
        bytes.len() == 25,
    ensures
        base58::spec_encode(bytes).len() <= 60,
{
    base58::lemma_bytes_below(bytes);
    radix::lemma_value_be_bound(bytes, 256);
    radix::lemma_powers();
    assert(radix::pow(256, 25) == 256 * radix::pow(256, 24));
    assert(radix::pow(58, 35) == 58 * radix::pow(58, 34));
    radix::lemma_transcode_len(bytes, 256, 58, 35);
}

/// Decoding the Base58Check text of an address gives back the kind, the
/// network that the text implies, and the payload.
proof fn lemma_decode_encoded_base58(kind: AddressKind, network: Network, payload: Seq<u8>)
    requires
        is_base58_kind(kind),
        payload.len() == 20,
        spec_sha256d(seq![version_byte(kind, network)] + payload).len() == 32,
    ensures
        spec_read(spec_encoded(kind, network, payload)) == Ok::<DescriptorView, AddressError>(
            encoded_view(kind, network, payload),
        ),
        spec_encoded(kind, network, payload).len() <= MAX_ADDRESS_LENGTH,
{
    let text = spec_encoded(kind, network, payload);
    let body = seq![version_byte(kind, network)] + payload;
    let bytes = body + base58::spec_checksum(body);
    lemma_base58_shape(bytes);
    lemma_base58_length(bytes);
    base58::lemma_check_decode_encode(body);
    assert(body.skip(1) =~= payload);
    assert(spec_read(text) == spec_decode_base58(text));
    assert(body[0] == version_byte(kind, network));
}

/// Decoding the Bech32 or Bech32m text of an address gives back the kind,
/// the network and the payload.
proof fn lemma_decode_encoded_segwit(kind: AddressKind, network: Network, payload: Seq<u8>)
    requires
        !is_base58_kind(kind),
        payload.len() == payload_len(kind),
    ensures
        spec_read(spec_encoded(kind, network, payload)) == Ok::<DescriptorView, AddressError>(
            encoded_view(kind, network, payload),
        ),
        spec_encoded(kind, network, payload).len() <= MAX_ADDRESS_LENGTH,
{
    let text = spec_encoded(kind, network, payload);
    let hrp = prefix(network);
    let version = witness_version(kind);
    let symbols = spec_bytes_to_symbols(payload);
    let data = seq![version] + symbols;
    let variant = variant_of(kind);
    let check = bech32::spec_checksum(hrp, data, variant);
    lemma_symbols_round_trip(payload);
    assert(bech32::symbols_ok(data)) by {
        assert forall|i: int| 0 <= i < data.len() implies #[trigger] data[i] < 32 by {
            if i > 0 {
                assert(data[i] == symbols[i - 1]);
            }
        }
    }
    lemma_segwit_data(hrp, data, variant);
    lemma_segwit_shape(network, data + check);
    assert(data.skip(1) =~= symbols);
    assert(spec_decode_segwit(text, network, false) == spec_classify_witness(
        text,
        network,
        data,
        variant,
    ));
}

/// Decoding the text of an address of a kind gives back the kind, the
/// network that the text implies, and the payload.
pub proof fn lemma_decode_encoded(kind: AddressKind, network: Network, payload: Seq<u8>)
    requires
        payload.len() == payload_len(kind),
        is_base58_kind(kind) ==> spec_sha256d(seq![version_byte(kind, network)] + payload).len()
            == 32,
    ensures
        spec_decode(spec_encoded(kind, network, payload)) == Ok::<DescriptorView, AddressError>(
            encoded_view(kind, network, payload),
        ),
{
    if is_base58_kind(kind) {
        lemma_decode_encoded_base58(kind, network, payload);
    } else {
        lemma_decode_encoded_segwit(kind, network, payload);
    }
}

proof fn lemma_starts_with(text: Seq<char>, start: Seq<char>)
    ensures
        starts_with(text, start) <==> (text.len() >= start.len() && forall|i: int|
            0 <= i < start.len() ==> text[i] == start[i]),
{
    if text.len() >= start.len() {
        let head = text.take(start.len() as int);
        if forall|i: int| 0 <= i < start.len() ==> text[i] == start[i] {
            assert(head =~= start);
        }
        if head == start {
            assert forall|i: int| 0 <= i < start.len() implies text[i] == start[i] by {
                assert(head[i] == text[i]);
            }
        }
    }
}

proof fn lemma_same_start(good: Seq<char>, bad: Seq<char>, at: int, start: Seq<char>)
    requires
        good.len() == bad.len(),
        forall|j: int| 0 <= j < good.len() && j != at ==> good[j] == bad[j],
        start.len() <= at || (3 <= at && start.len() == 5 && good[2] == '1' && start[2] != '1'),
    ensures
        starts_with(good, start) == starts_with(bad, start),
{
    lemma_starts_with(good, start);
    lemma_starts_with(bad, start);
}

/// A change behind the marker of a SegWit text leaves it a SegWit text of
/// the same network and case.
proof fn lemma_shape_unchanged(good: Seq<char>, bad: Seq<char>, at: int)
    requires
        spec_shape(good) is Some,
        good.len() == bad.len(),
        shape_marker(good).len() <= at < good.len(),
        forall|j: int| 0 <= j < good.len() && j != at ==> good[j] == bad[j],
    ensures
        spec_shape(bad) == spec_shape(good),
{
    lemma_starts_with(good, shape_marker(good));
    assert(good[2] == '1' || at >= 5) by {
        let m = shape_marker(good);
        if m.len() == 3 {
            assert(good[2] == m[2]);
        }
    }
    lemma_same_start(good, bad, at, marker(Network::Mainnet, false));
    lemma_same_start(good, bad, at, marker(Network::Mainnet, true));
    lemma_same_start(good, bad, at, marker(Network::Testnet, false));
    lemma_same_start(good, bad, at, marker(Network::Testnet, true));
    lemma_same_start(good, bad, at, marker(Network::Regtest, false));
    lemma_same_start(good, bad, at, marker(Network::Regtest, true));
}

/// The data parts of two SegWit texts that differ at one place behind the
/// marker differ at one place, if the second has a data part at all.
proof fn lemma_data_text_changed(
    good: Seq<char>,
    bad: Seq<char>,
    at: int,
    network: Network,
    capitals: bool,
)
    requires
        good.len() == bad.len(),
        marker(network, capitals).len() <= at < good.len(),
        good[at] != bad[at],
        forall|j: int| 0 <= j < good.len() && j != at ==> good[j] == bad[j],
        spec_data_text(good, network, capitals) is Some,
        spec_data_text(bad, network, capitals) is Some,
    ensures
        ({
            let a = spec_data_text(good, network, capitals)->0;
            let b = spec_data_text(bad, network, capitals)->0;
            let place = at - marker(network, capitals).len();
            &&& a.len() == b.len()
            &&& 0 <= place < a.len()
            &&& a[place] != b[place]
            &&& forall|j: int| 0 <= j < a.len() && j != place ==> a[j] == b[j]
        }),
{
    let skip = marker(network, capitals).len() as int;
    let good_rest = good.skip(skip);
    let bad_rest = bad.skip(skip);
    let place = at - skip;
    let a = spec_data_text(good, network, capitals)->0;
    let b = spec_data_text(bad, network, capitals)->0;
    assert(good_rest[place] == good[at] && bad_rest[place] == bad[at]);
    if capitals {
        assert(!is_small_letter(good_rest[place]));
        assert(!is_small_letter(bad_rest[place]));
    }
    assert forall|j: int| 0 <= j < a.len() && j != place implies a[j] == b[j] by {
        assert(good_rest[j] == good[j + skip] && bad_rest[j] == bad[j + skip]);
    }
}

/// A SegWit address with one character changed, behind the version
/// character, is no address: its checksum is wrong, or it is the checksum
/// of the other variant, or the character is none of the alphabet.
pub proof fn lemma_changed_segwit_text_is_rejected(good: Seq<char>, bad: Seq<char>, at: int)
    requires
        spec_shape(good) is Some,
        spec_decode(good) is Ok,
        good.len() == bad.len(),
        shape_marker(good).len() < at < good.len(),
        good[at] != bad[at],
        forall|j: int| 0 <= j < good.len() && j != at ==> good[j] == bad[j],
    ensures
        spec_decode(bad) matches Err(e) && (e == AddressError::ChecksumMismatch || e
            == AddressError::UnrecognizedAddressFormat || e
            == AddressError::InvalidWitnessVersionChecksumPairing),
{
    let shape = spec_shape(good).unwrap();
    let network = shape.0;
    let capitals = shape.1;
    lemma_shape_unchanged(good, bad, at);
    assert(good.len() <= MAX_ADDRESS_LENGTH);
    assert(spec_decode(bad) == spec_decode_segwit(bad, network, capitals));
    assert(spec_decode(good) == spec_decode_segwit(good, network, capitals));
    if spec_data_text(bad, network, capitals) is Some {
        lemma_data_text_changed(good, bad, at, network, capitals);
        let good_data = spec_data_text(good, network, capitals)->0;
        let bad_data = spec_data_text(bad, network, capitals)->0;
        let place = at - marker(network, capitals).len();
        let hrp = prefix(network);
        assert(bech32::prefix_ok(hrp)) by {
            assert forall|i: int| 0 <= i < hrp.len() implies 33 <= #[trigger] (hrp[i] as u32)
                <= 126 by {}
        }
        bech32::lemma_one_character_is_detected(hrp, good_data, bad_data, place);
        if bech32::spec_decode_data(hrp, bad_data) is Ok {
            let good_read = bech32::spec_decode_data(hrp, good_data)->Ok_0;
            let bad_read = bech32::spec_decode_data(hrp, bad_data)->Ok_0;
            lemma_first_symbol(hrp, good_data, bad_data);
            assert(spec_decode_segwit(good, network, capitals) == spec_classify_witness(
                good,
                network,
                good_read.0,
                good_read.1,
            ));
            assert(spec_decode_segwit(bad, network, capitals) == spec_classify_witness(
                bad,
                network,
                bad_read.0,
                bad_read.1,
            ));
        }
    }
}

/// Two data parts with right checksums and the same first character hold
/// the same first symbol, or both hold no symbol.
proof fn lemma_first_symbol(hrp: Seq<char>, a: Seq<char>, b: Seq<char>)
    requires
        bech32::spec_decode_data(hrp, a) is Ok,
        bech32::spec_decode_data(hrp, b) is Ok,
        a.len() == b.len(),
        a.len() > 0 ==> a[0] == b[0],
    ensures
        ({
            let x = bech32::spec_decode_data(hrp, a)->Ok_0;
            let y = bech32::spec_decode_data(hrp, b)->Ok_0;
            x.0.len() == y.0.len() && (x.0.len() > 0 ==> x.0[0] == y.0[0])
        }),
{
    let all_a = bech32::text_symbols(a)->0;
    let all_b = bech32::text_symbols(b)->0;
    let x = bech32::spec_decode_data(hrp, a)->Ok_0;
    let y = bech32::spec_decode_data(hrp, b)->Ok_0;
    assert(x.0 == all_a.take(all_a.len() - 6));
    assert(y.0 == all_b.take(all_b.len() - 6));
    if x.0.len() > 0 {
        assert(x.0[0] == all_a[0]);
        assert(y.0[0] == all_b[0]);
    }
}

impl AddressKind {
    pub fn is_base58(self) -> (yes: bool)
        ensures
            yes == is_base58_kind(self),
    {
        match self {
            AddressKind::P2pkh | AddressKind::P2sh => true,
            _ => false,
        }
    }

    /// The length that the payload of this kind has.
    pub fn payload_length(self) -> (length: usize)
        ensures
            length == payload_len(self),
    {
        match self {
            AddressKind::P2pkh | AddressKind::P2sh | AddressKind::P2wpkh => 20,
            AddressKind::P2wsh | AddressKind::P2tr => 32,
        }
    }
}

impl AddressFormat {
    /// The kind of address that this format produces.
    pub fn kind(self) -> (kind: AddressKind)
        ensures
            kind == format_kind(self),
    {
        match self {
            AddressFormat::Legacy => AddressKind::P2pkh,
            AddressFormat::WrappedSegwit => AddressKind::P2sh,
            AddressFormat::NativeSegwit => AddressKind::P2wpkh,
            AddressFormat::Taproot => AddressKind::P2tr,
        }
    }
}

fn prefix_chars(network: Network) -> (chars: Vec<char>)
    ensures
        chars@ == prefix(network),
        bech32::prefix_ok(chars@),
{
    let chars = match network {
        Network::Mainnet => vec!['b', 'c'],
        Network::Testnet => vec!['t', 'b'],
        Network::Regtest => vec!['b', 'c', 'r', 't'],
    };
    assert(chars@ =~= prefix(network));
    chars
}

fn marker_chars(network: Network, capitals: bool) -> (chars: Vec<char>)
    ensures
        chars@ == marker(network, capitals),
{
    let chars = match (network, capitals) {
        (Network::Mainnet, false) => vec!['b', 'c', '1'],
        (Network::Mainnet, true) => vec!['B', 'C', '1'],
        (Network::Testnet, false) => vec!['t', 'b', '1'],
        (Network::Testnet, true) => vec!['T', 'B', '1'],
        (Network::Regtest, false) => vec!['b', 'c', 'r', 't', '1'],
        (Network::Regtest, true) => vec!['B', 'C', 'R', 'T', '1'],
    };
    assert(chars@ =~= marker(network, capitals));
    chars
}

fn has_start(text: &[char], start: &[char]) -> (yes: bool)
    ensures
        yes == starts_with(text@, start@),
{
    if text.len() < start.len() {
        return false;
    }
    let mut i: usize = 0;
    while i < start.len()
        invariant
            i <= start.len() <= text.len(),
            text@.take(i as int) == start@.take(i as int),
        decreases start.len() - i,
    {
        if text[i] != start[i] {
            assert(text@.take(start@.len() as int)[i as int] != start@[i as int]);
            return false;
        }
        i += 1;
        assert(text@.take(i as int) =~= text@.take(i - 1).push(text@[i - 1]));
        assert(start@.take(i as int) =~= start@.take(i - 1).push(start@[i - 1]));
    }
    assert(start@.take(start@.len() as int) =~= start@);
    true
}

fn shape(text: &[char]) -> (found: Option<(Network, bool)>)
    ensures
        found == spec_shape(text@),
{
    if has_start(text, marker_chars(Network::Mainnet, false).as_slice()) {
        Some((Network::Mainnet, false))
    } else if has_start(text, marker_chars(Network::Mainnet, true).as_slice()) {
        Some((Network::Mainnet, true))
    } else if has_start(text, marker_chars(Network::Testnet, false).as_slice()) {
        Some((Network::Testnet, false))
    } else if has_start(text, marker_chars(Network::Testnet, true).as_slice()) {
        Some((Network::Testnet, true))
    } else if has_start(text, marker_chars(Network::Regtest, false).as_slice()) {
        Some((Network::Regtest, false))
    } else if has_start(text, marker_chars(Network::Regtest, true).as_slice()) {
        Some((Network::Regtest, true))
    } else {
        None
    }
}

fn data_text(text: &[char], network: Network, capitals: bool) -> (data: Option<Vec<char>>)
    requires
        starts_with(text@, marker(network, capitals)),
    ensures
        match (data, spec_data_text(text@, network, capitals)) {
            (Some(got), Some(want)) => got@ == want,
            (None, None) => true,
            _ => false,
        },
{
    let skip: usize = match network {
        Network::Regtest => 5,
        _ => 3,
    };
    let ghost rest = text@.skip(skip as int);
    assert(skip == marker(network, capitals).len());
    let mut data: Vec<char> = Vec::new();
    let mut i: usize = skip;
    while i < text.len()
        invariant
            skip <= i <= text.len(),
            skip == marker(network, capitals).len(),
            rest == text@.skip(skip as int),
            data@.len() == i - skip,
            forall|j: int| 0 <= j < i - skip ==> !(capitals && is_small_letter(#[trigger] rest[j])),
            forall|j: int|
                0 <= j < i - skip ==> data@[j] == (if capitals {
                    to_small(rest[j])
                } else {
                    rest[j]
                }),
        decreases text.len() - i,
    {
        let c = text[i];
        assert(rest[i - skip] == c);
        if capitals {
            if 'a' <= c && c <= 'z' {
                assert(is_small_letter(rest[i - skip]));
                assert(skip == marker(network, capitals).len());
                return None;
            }
            if 'A' <= c && c <= 'Z' {
                let code = c as u32 + 32;
                data.push(code as u8 as char);
            } else {
                data.push(c);
            }
        } else {
            data.push(c);
        }
        i += 1;
    }
    proof {
        let want = spec_data_text(text@, network, capitals);
        assert(want is Some);
        assert(data@ =~= want->0);
    }
    Some(data)
}

fn classify_witness(network: Network, symbols: &[u8], variant: Variant) -> (result: Result<
    (AddressKind, Vec<u8>),
    AddressError,
>)
    ensures
        forall|text: Seq<char>|
            match (result, #[trigger] spec_classify_witness(text, network, symbols@, variant)) {
                (Ok(got), Ok(want)) => got.0 == want.kind && got.1@ == want.payload
                    && want.network == network && want.encoded == text,
                (Err(got), Err(want)) => got == want,
                _ => false,
            },
{
    if symbols.len() == 0 || symbols[0] > 1 {
        return Err(AddressError::InvalidWitnessVersion);
    }
    let is_bech32 = match variant {
        Variant::Bech32 => true,
        Variant::Bech32m => false,
    };
    if (symbols[0] == 0) != is_bech32 {
        return Err(AddressError::InvalidWitnessVersionChecksumPairing);
    }
    if symbols.len() > 53 {
        return Err(AddressError::InvalidPayloadLength);
    }
    let body = slice_subrange(symbols, 1, symbols.len());
    assert(body@ =~= symbols@.skip(1));
    match symbols_to_bytes(body) {
        None => Err(AddressError::InvalidPadding),
        Some(program) => {
            let kind = if symbols[0] == 1 {
                AddressKind::P2tr
            } else if program.len() == 20 {
                AddressKind::P2wpkh
            } else {
                AddressKind::P2wsh
            };
            if program.len() == kind.payload_length() {
                Ok((kind, program))
            } else {
                Err(AddressError::InvalidPayloadLength)
            }
        },
    }
}

fn decode_segwit(text: &[char], network: Network, capitals: bool) -> (result: Result<
    (AddressKind, Vec<u8>),
    AddressError,
>)
    requires
        starts_with(text@, marker(network, capitals)),
    ensures
        match (result, spec_decode_segwit(text@, network, capitals)) {
            (Ok(got), Ok(want)) => got.0 == want.kind && got.1@ == want.payload && want.network
                == network && want.encoded == text@,
            (Err(got), Err(want)) => got == want,
            _ => false,
        },
{
    let data = match data_text(text, network, capitals) {
        Some(data) => data,
        None => {
            return Err(AddressError::UnrecognizedAddressFormat);
        },
    };
    let hrp = prefix_chars(network);
    match bech32::decode_data(hrp.as_slice(), data.as_slice()) {
        Err(DataError::InvalidCharacter) => Err(AddressError::UnrecognizedAddressFormat),
        Err(DataError::Checksum) => Err(AddressError::ChecksumMismatch),
        Ok((symbols, variant)) => {
            let result = classify_witness(network, symbols.as_slice(), variant);
            assert(match (result, spec_classify_witness(text@, network, symbols@, variant)) {
                (Ok(got), Ok(want)) => got.0 == want.kind && got.1@ == want.payload,
                (Err(got), Err(want)) => got == want,
                _ => false,
            });
            result
        },
    }
}

fn version_of(version: u8) -> (found: Option<(AddressKind, Network)>)
    ensures
        found == spec_version(version),
{
    if version == 0x00 {
        Some((AddressKind::P2pkh, Network::Mainnet))
    } else if version == 0x05 {
        Some((AddressKind::P2sh, Network::Mainnet))
    } else if version == 0x6f {
        Some((AddressKind::P2pkh, Network::Testnet))
    } else if version == 0xc4 {
        Some((AddressKind::P2sh, Network::Testnet))
    } else {
        None
    }
}

fn decode_base58(text: &[char]) -> (result: Result<(AddressKind, Network, Vec<u8>), AddressError>)
    ensures
        match (result, spec_decode_base58(text@)) {
            (Ok(got), Ok(want)) => got.0 == want.kind && got.1 == want.network && got.2@
                == want.payload && want.encoded == text@,
            (Err(got), Err(want)) => got == want,
            _ => false,
        },
{
    if text.len() == 0 {
        return Err(AddressError::UnrecognizedAddressFormat);
    }
    match base58::check_decode(text) {
        Err(CheckError::InvalidCharacter) => Err(AddressError::UnrecognizedAddressFormat),
        Err(CheckError::Checksum) => Err(AddressError::ChecksumMismatch),
        Ok(body) => {
            if body.len() == 0 {
                return Err(AddressError::InvalidPayloadLength);
            }
            match version_of(body[0]) {
                None => Err(AddressError::UnknownVersionByte),
                Some((kind, network)) => {
                    if body.len() == 21 {
                        let payload = slice_to_vec(slice_subrange(body.as_slice(), 1, 21));
                        assert(payload@ =~= body@.skip(1));
                        Ok((kind, network, payload))
                    } else {
                        Err(AddressError::InvalidPayloadLength)
                    }
                },
            }
        },
    }
}

fn version_of_kind(kind: AddressKind, network: Network) -> (version: u8)
    ensures
        version == version_byte(kind, network),
{
    match (kind, network) {
        (AddressKind::P2sh, Network::Mainnet) => 0x05,
        (AddressKind::P2sh, _) => 0xc4,
        (_, Network::Mainnet) => 0x00,
        (_, _) => 0x6f,
    }
}

/// The text of an address of a kind on a network with a payload.
fn encode_payload(kind: AddressKind, network: Network, payload: &[u8]) -> (text: Vec<char>)
    requires
        payload@.len() == payload_len(kind),
    ensures
        text@ == spec_encoded(kind, network, payload@),
        is_base58_kind(kind) ==> spec_sha256d(seq![version_byte(kind, network)] + payload@).len()
            == 32,
{
    if kind.is_base58() {
        let mut body: Vec<u8> = Vec::new();
        body.push(version_of_kind(kind, network));
        append(&mut body, payload);
        assert(body@ =~= seq![version_byte(kind, network)] + payload@);
        base58::check_encode(body.as_slice())
    } else {
        let version: u8 = match kind {
            AddressKind::P2tr => 1,
            _ => 0,
        };
        let variant = match kind {
            AddressKind::P2tr => Variant::Bech32m,
            _ => Variant::Bech32,
        };
        let symbols = bytes_to_symbols(payload);
        proof {
            lemma_symbols_round_trip(payload@);
        }
        let mut data: Vec<u8> = Vec::new();
        data.push(version);
        append(&mut data, symbols.as_slice());
        assert(data@ =~= seq![witness_version(kind)] + spec_bytes_to_symbols(payload@));
        assert(bech32::symbols_ok(data@)) by {
            assert forall|i: int| 0 <= i < data@.len() implies #[trigger] data@[i] < 32 by {
                if i > 0 {
                    assert(data@[i] == symbols@[i - 1]);
                }
            }
        }
        let hrp = prefix_chars(network);
        bech32::encode(hrp.as_slice(), data.as_slice(), variant)
    }
}

fn tap_tweak(x: &[u8]) -> (tweak: Vec<u8>)
    ensures
        tweak@ == spec_tap_tweak(x@),
{
    let name: [u8; 8] = [84, 97, 112, 84, 119, 101, 97, 107];
    assert(name@ =~= tap_tag());
    let tag = sha256(name.as_slice());
    let mut message: Vec<u8> = Vec::new();
    append(&mut message, tag.as_slice());
    append(&mut message, tag.as_slice());
    append(&mut message, x);
    assert(message@ =~= tag@ + tag@ + x@);
    sha256(message.as_slice())
}

fn payload_of(point: &[u8], format: AddressFormat) -> (payload: Option<Vec<u8>>)
    requires
        point@.len() == 33,
    ensures
        match (payload, spec_payload(point@, format)) {
            (Some(got), Some(want)) => got@ == want && got@.len() == payload_len(
                format_kind(format),
            ),
            (None, None) => true,
            _ => false,
        },
{
    match format {
        AddressFormat::Legacy | AddressFormat::NativeSegwit => Some(hash160(point)),
        AddressFormat::WrappedSegwit => {
            let inner = hash160(point);
            let mut script: Vec<u8> = Vec::new();
            script.push(0);
            script.push(20);
            append(&mut script, inner.as_slice());
            assert(script@ =~= seq![0u8, 20u8] + spec_hash160(point@));
            Some(hash160(script.as_slice()))
        },
        AddressFormat::Taproot => {
            let x = slice_subrange(point, 1, 33);
            assert(x@ =~= point@.skip(1));
            let tweak = tap_tweak(x);
            xonly_add(x, tweak.as_slice())
        },
    }
}

impl AddressDescriptor {
    #[verifier::type_invariant]
    closed spec fn well_formed(&self) -> bool {
        spec_decode(self.encoded@) == Ok::<DescriptorView, AddressError>(self@)
    }

    pub fn kind(&self) -> (kind: AddressKind)
        ensures
            kind == self@.kind,
    {
        self.kind
    }

    /// The network that the text implies.
    pub fn network(&self) -> (network: Network)
        ensures
            network == self@.network,
    {
        self.network
    }

    /// The 20-byte hash or the 32-byte key.
    pub fn payload(&self) -> (payload: &[u8])
        ensures
            payload@ == self@.payload,
            payload@.len() == payload_len(self@.kind),
            spec_decode(self@.encoded) == Ok::<DescriptorView, AddressError>(self@),
    {
        proof {
            use_type_invariant(self);
        }
        self.payload.as_slice()
    }

    /// The text of the address.
    pub fn encoded(&self) -> (text: &str)
        ensures
            text@ == self@.encoded,
            spec_decode(text@) == Ok::<DescriptorView, AddressError>(self@),
    {
        proof {
            use_type_invariant(self);
        }
        self.encoded.as_str()
    }

    /// Whether the network that the text implies is the one that a caller
    /// asked for.
    pub fn network_matches(&self, requested: Network) -> (yes: bool)
        ensures
            yes == (implied_network(self@.kind, requested) == self@.network),
    {
        let implied = match (self.kind, requested) {
            (AddressKind::P2pkh, Network::Regtest) | (AddressKind::P2sh, Network::Regtest) => {
                Network::Testnet
            },
            (_, other) => other,
        };
        implied == self.network
    }
}

impl Clone for AddressDescriptor {
    fn clone(&self) -> (copy: Self)
        ensures
            copy@ == self@,
    {
        proof {
            use_type_invariant(self);
        }
        AddressDescriptor {
            kind: self.kind,
            network: self.network,
            payload: slice_to_vec(self.payload.as_slice()),
            encoded: self.encoded.clone(),
        }
    }
}

/// Writes the address of a public key in a format for a network.
///
/// Every format but Taproot has an address for every key. The descriptor
/// holds the payload that the format derives from the key, and its text
/// decodes to the descriptor itself.
pub fn encode(point: &CompressedPoint, format: AddressFormat, network: Network) -> (result: Result<
    AddressDescriptor,
    AddressError,
>)
    ensures
        match (result, spec_encode(point@, format, network)) {
            (Ok(got), Ok(want)) => got@ == want && spec_decode(want.encoded) == Ok::<
                DescriptorView,
                AddressError,
            >(want),
            (Err(got), Err(want)) => got == want,
            _ => false,
        },
        format != AddressFormat::Taproot ==> result is Ok,
{
    let bytes = point.as_bytes();
    let kind = format.kind();
    let payload = match payload_of(bytes, format) {
        Some(payload) => payload,
        None => {
            return Err(AddressError::InvalidTweak);
        },
    };
    let text = encode_payload(kind, network, payload.as_slice());
    proof {
        lemma_decode_encoded(kind, network, payload@);
    }
    let implied = match (kind, network) {
        (AddressKind::P2pkh, Network::Regtest) | (AddressKind::P2sh, Network::Regtest) => {
            Network::Testnet
        },
        (_, other) => other,
    };
    Ok(AddressDescriptor { kind, network: implied, payload, encoded: from_chars(text.as_slice()) })
}

/// Reads the text of an address: its kind, the network that it implies and
/// its payload, or why it is no address.
pub fn decode(text: &str) -> (result: Result<AddressDescriptor, AddressError>)
    ensures
        match (result, spec_decode(text@)) {
            (Ok(got), Ok(want)) => got@ == want,
            (Err(got), Err(want)) => got == want,
            _ => false,
        },
{
    let chars = to_chars(text);
    if chars.len() > MAX_ADDRESS_LENGTH {
        return Err(AddressError::UnrecognizedAddressFormat);
    }
    match shape(chars.as_slice()) {
        Some((network, capitals)) => {
            match decode_segwit(chars.as_slice(), network, capitals) {
                Ok((kind, payload)) => Ok(
                    AddressDescriptor { kind, network, payload, encoded: text.to_owned() },
                ),
                Err(error) => Err(error),
            }
        },
        None => {
            match decode_base58(chars.as_slice()) {
                Ok((kind, network, payload)) => Ok(
                    AddressDescriptor { kind, network, payload, encoded: text.to_owned() },
                ),
                Err(error) => Err(error),
            }
        },
    }
}

} // verus!
