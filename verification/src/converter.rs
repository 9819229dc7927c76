//! Conversion between address formats: from a public key in hexadecimal
//! to its address in every format. From an address alone nothing can be
//! converted, because it holds a hash and not the key; such an input is
//! answered with what the address says.

use crate::address::{
    decode, implied_network, spec_decode, AddressDescriptor, AddressError, AddressFormat,
    DescriptorView, Network,
};
use crate::curve::{is_point, is_scalar, spec_public_point, CompressedPoint};
use crate::error::{Failure, FailureView, WalletError};
use crate::hexadecimal::{hex_decode, spec_hex_decode};
use crate::mnemonic::{char_is_space, is_space, random_bytes};
use crate::text::{from_chars, to_chars};
use crate::validator::{address_facts, spec_facts, AddressFacts, FactsView};
use crate::wallet::{descriptors_view, encode_all, spec_encode_all};
use crate::xkey::KeyError;
use vstd::prelude::*;
use vstd::slice::slice_subrange;

verus! {

/// The text without the white space at its front.
pub open spec fn trim_start(text: Seq<char>) -> Seq<char>
    decreases text.len(),
{
    if text.len() > 0 && is_space(text[0]) {
        trim_start(text.skip(1))
    } else {
        text
    }
}

/// The text without the white space at its end.
pub open spec fn trim_end(text: Seq<char>) -> Seq<char>
    decreases text.len(),
{
    if text.len() > 0 && is_space(text.last()) {
        trim_end(text.drop_last())
    } else {
        text
    }
}

/// The text without every `0x` at its front.
pub open spec fn strip_marks(text: Seq<char>) -> Seq<char>
    decreases text.len(),
{
    if text.len() >= 2 && text[0] == '0' && text[1] == 'x' {
        strip_marks(text.skip(2))
    } else {
        text
    }
}

/// The digits of a key text: white space around it and `0x` before it
/// taken off.
pub open spec fn spec_clean(text: Seq<char>) -> Seq<char> {
    strip_marks(trim_end(trim_start(text)))
}

/// The public key that a text spells.
pub open spec fn spec_parse_public_key(text: Seq<char>) -> Result<Seq<u8>, KeyError> {
    match spec_hex_decode(spec_clean(text)) {
        None => Err(KeyError::InvalidHex),
        Some(bytes) => if is_point(bytes) {
            Ok(bytes)
        } else {
            Err(KeyError::InvalidPublicKey)
        },
    }
}

/// The four formats, in the order in which they are shown.
pub open spec fn spec_all_formats() -> Seq<AddressFormat> {
    seq![
        AddressFormat::Legacy,
        AddressFormat::WrappedSegwit,
        AddressFormat::NativeSegwit,
        AddressFormat::Taproot,
    ]
}

/// The network that the flag selects.
pub open spec fn flag_network(testnet: bool) -> Network {
    if testnet {
        Network::Testnet
    } else {
        Network::Mainnet
    }
}

/// The outcome of a conversion as a mathematical value.
pub enum ConversionView {
    FromPublicKey { public_key: Seq<u8>, addresses: Seq<DescriptorView> },
    AddressOnly { facts: FactsView, network_mismatch: bool },
}

/// The outcome of a conversion.
#[derive(Debug)]
pub enum Conversion {
    /// The input was a public key: its address in each of the four formats.
    FromPublicKey { public_key: CompressedPoint, addresses: Vec<AddressDescriptor> },
    /// The input was an address: no other format can be made from it.
    /// This is what it says, and whether the network that its text implies
    /// is another than the one asked for.
    AddressOnly { facts: AddressFacts, network_mismatch: bool },
}

impl View for Conversion {
    type V = ConversionView;

    open spec fn view(&self) -> ConversionView {
        match self {
            Conversion::FromPublicKey { public_key, addresses } => ConversionView::FromPublicKey {
                public_key: public_key@,
                addresses: descriptors_view(addresses@),
            },
            Conversion::AddressOnly { facts, network_mismatch } => ConversionView::AddressOnly {
                facts: facts@,
                network_mismatch: *network_mismatch,
            },
        }
    }
}

/// What converting an input gives: it is tried as a public key first and
/// as an address second, and refused as what the address codec says of it.
/// An address is flagged where its text implies another network than the
/// flag asks for.
pub open spec fn spec_convert(input: Seq<char>, testnet: bool) -> Result<
    ConversionView,
    FailureView,
> {
    match spec_parse_public_key(input) {
        Ok(point) => match spec_encode_all(point, spec_all_formats(), flag_network(testnet)) {
            Ok(addresses) => Ok(ConversionView::FromPublicKey { public_key: point, addresses }),
            Err(error) => Err(FailureView { error: WalletError::Address(error), input }),
        },
        Err(_) => match spec_decode(input) {
            Ok(descriptor) => Ok(
                ConversionView::AddressOnly {
                    facts: spec_facts(descriptor),
                    network_mismatch: implied_network(descriptor.kind, flag_network(testnet))
                        != descriptor.network,
                },
            ),
            Err(error) => Err(FailureView { error: WalletError::Address(error), input }),
        },
    }
}

/// Reads a compressed public key from hexadecimal text.
pub fn parse_public_key(hex_str: &str) -> (result: Result<CompressedPoint, KeyError>)
    ensures
        match (result, spec_parse_public_key(hex_str@)) {
            (Ok(got), Ok(want)) => got@ == want,
            (Err(got), Err(want)) => got == want,
            _ => false,
        },
{
    let chars = to_chars(hex_str);
    let mut start: usize = 0;
    let mut end: usize = chars.len();
    proof {
        assert(chars@.skip(0) =~= chars@);
    }
    while start < end && char_is_space(chars[start])
        invariant
            start <= end == chars@.len(),
            trim_start(chars@) == trim_start(chars@.skip(start as int)),
        decreases end - start,
    {
        proof {
            assert(chars@.skip(start as int).skip(1) =~= chars@.skip(start + 1));
        }
        start += 1;
    }
    let ghost front = chars@.skip(start as int);
    proof {
        assert(trim_start(chars@) == front);
        assert(front =~= chars@.subrange(start as int, end as int));
    }
    while start < end && char_is_space(chars[end - 1])
        invariant
            start <= end <= chars@.len(),
            trim_end(front) == trim_end(chars@.subrange(start as int, end as int)),
        decreases end - start,
    {
        proof {
            assert(chars@.subrange(start as int, end as int).drop_last() =~= chars@.subrange(
                start as int,
                end - 1,
            ));
        }
        end -= 1;
    }
    let ghost trimmed = chars@.subrange(start as int, end as int);
    proof {
        assert(trim_end(front) == trimmed);
    }
    while end - start >= 2 && chars[start] == '0' && chars[start + 1] == 'x'
        invariant
            start <= end <= chars@.len(),
            strip_marks(trimmed) == strip_marks(chars@.subrange(start as int, end as int)),
        decreases end - start,
    {
        proof {
            assert(chars@.subrange(start as int, end as int).skip(2) =~= chars@.subrange(
                start + 2,
                end as int,
            ));
        }
        start += 2;
    }
    let digits = from_chars(slice_subrange(chars.as_slice(), start, end));
    assert(digits@ == spec_clean(hex_str@));
    match hex_decode(digits.as_str()) {
        None => Err(KeyError::InvalidHex),
        Some(bytes) => match CompressedPoint::from_bytes(bytes.as_slice()) {
            Some(point) => Ok(point),
            None => Err(KeyError::InvalidPublicKey),
        },
    }
}

/// The address of a public key in each of the four formats.
pub fn display_all_formats_from_pubkey(pubkey: &CompressedPoint, network: Network) -> (result:
    Result<Vec<AddressDescriptor>, AddressError>)
    ensures
        match (result, spec_encode_all(pubkey@, spec_all_formats(), network)) {
            (Ok(got), Ok(want)) => descriptors_view(got@) == want && got@.len() == 4,
            (Err(got), Err(want)) => got == want,
            _ => false,
        },
{
    let formats: [AddressFormat; 4] = [
        AddressFormat::Legacy,
        AddressFormat::WrappedSegwit,
        AddressFormat::NativeSegwit,
        AddressFormat::Taproot,
    ];
    assert(formats@ =~= spec_all_formats());
    let result = encode_all(pubkey, formats.as_slice(), network);
    proof {
        lemma_encode_all_len(pubkey@, spec_all_formats(), network);
    }
    result
}

proof fn lemma_encode_all_len(point: Seq<u8>, formats: Seq<AddressFormat>, network: Network)
    ensures
        spec_encode_all(point, formats, network) matches Ok(list) ==> list.len() == formats.len(),
    decreases formats.len(),
{
    if formats.len() > 0 {
        lemma_encode_all_len(point, formats.drop_last(), network);
    }
}

/// Converts an input, a public key in hexadecimal or an address, for
/// mainnet or testnet.
pub fn convert_formats(input: &str, testnet: bool) -> (result: Result<Conversion, Failure>)
    ensures
        match (result, spec_convert(input@, testnet)) {
            (Ok(got), Ok(want)) => got@ == want,
            (Err(got), Err(want)) => got@ == want,
            _ => false,
        },
{
    let network = if testnet {
        Network::Testnet
    } else {
        Network::Mainnet
    };
    match parse_public_key(input) {
        Ok(public_key) => match display_all_formats_from_pubkey(&public_key, network) {
            Ok(addresses) => Ok(Conversion::FromPublicKey { public_key, addresses }),
            Err(error) => Err(Failure::new(WalletError::Address(error), input)),
        },
        Err(_) => match decode(input) {
            Ok(descriptor) => {
                let network_mismatch = !descriptor.network_matches(network);
                Ok(Conversion::AddressOnly { facts: address_facts(descriptor), network_mismatch })
            },
            Err(error) => Err(Failure::new(WalletError::Address(error), input)),
        },
    }
}

/// A public key for trying things out: the point of 32 random bytes.
///
/// The bytes come from the system; what is made of them is what
/// `CompressedPoint::from_scalar` makes of them.
pub fn generate_example_pubkey() -> (result: Result<CompressedPoint, WalletError>)
    ensures
        result matches Ok(point) ==> exists|secret: Seq<u8>| #[trigger]
            is_scalar(secret) && point@ == spec_public_point(secret),
        result matches Err(e) ==> e == WalletError::Key(KeyError::EntropyUnavailable) || e
            == WalletError::Key(KeyError::InvalidScalar),
{
    match random_bytes(32) {
        None => Err(WalletError::Key(KeyError::EntropyUnavailable)),
        Some(bytes) => match CompressedPoint::from_scalar(bytes.as_slice()) {
            Some(point) => {
                assert(is_scalar(bytes@) && point@ == spec_public_point(bytes@));
                Ok(point)
            },
            None => Err(WalletError::Key(KeyError::InvalidScalar)),
        },
    }
}

} // verus!
