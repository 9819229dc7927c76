//! The material of the tutorial: a private key, its public key, the hashes
//! of the public key, and two addresses made of them.

use crate::address::{
    encode, spec_encode, AddressDescriptor, AddressFormat, Network,
};
use crate::base58;
use crate::bytes::append;
use crate::curve::{is_scalar, spec_public_point, CompressedPoint};
use crate::error::WalletError;
use crate::hash::{hash160, sha256, spec_hash160, spec_sha256};
use crate::hexadecimal::{hex_encode, spec_hex_encode};
use crate::mnemonic::random_bytes;
use crate::text::from_chars;
use crate::xkey::KeyError;
use vstd::prelude::*;

verus! {

/// The wallet import format of a private scalar on mainnet, for a
/// compressed public key: Base58Check of `0x80`, the scalar and `0x01`.
pub open spec fn spec_wif(secret: Seq<u8>) -> Seq<char> {
    base58::spec_check_encode(seq![0x80u8] + secret + seq![0x01u8])
}

/// A private key as the tutorial shows it.
#[derive(Debug)]
pub struct PrivateKeyStep {
    pub secret_hex: String,
    pub wif: String,
}

/// The hashes of a public key.
#[derive(Debug)]
pub struct HashingStep {
    pub sha256: Vec<u8>,
    pub hash160: Vec<u8>,
}

/// The two addresses that the tutorial makes of a public key.
#[derive(Debug)]
pub struct AddressStep {
    pub legacy: AddressDescriptor,
    pub native_segwit: AddressDescriptor,
}

/// The step shows one private scalar, in hexadecimal and in wallet import
/// format.
pub open spec fn shows_a_private_key(step: PrivateKeyStep) -> bool {
    exists|secret: Seq<u8>| #[trigger]
        is_scalar(secret) && step.secret_hex@ == spec_hex_encode(secret) && step.wif@ == spec_wif(
            secret,
        )
}

/// A private key in hexadecimal and in wallet import format, if the bytes
/// are a private scalar.
pub fn private_key_step(secret: &[u8]) -> (result: Result<PrivateKeyStep, KeyError>)
    ensures
        result is Ok <==> is_scalar(secret@),
        result matches Ok(step) ==> step.secret_hex@ == spec_hex_encode(secret@) && step.wif@
            == spec_wif(secret@),
        result matches Err(e) ==> e == KeyError::InvalidScalar,
{
    if CompressedPoint::from_scalar(secret).is_none() {
        return Err(KeyError::InvalidScalar);
    }
    let mut bytes: Vec<u8> = Vec::new();
    bytes.push(0x80);
    append(&mut bytes, secret);
    bytes.push(0x01);
    assert(bytes@ =~= seq![0x80u8] + secret@ + seq![0x01u8]);
    let chars = base58::check_encode(bytes.as_slice());
    Ok(PrivateKeyStep { secret_hex: hex_encode(secret), wif: from_chars(chars.as_slice()) })
}

/// A fresh private key from the system's random bytes.
pub fn step1_private_key() -> (result: Result<PrivateKeyStep, WalletError>)
    ensures
        result matches Ok(step) ==> shows_a_private_key(step),
        result matches Err(e) ==> e == WalletError::Key(KeyError::EntropyUnavailable) || e
            == WalletError::Key(KeyError::InvalidScalar),
{
    match random_bytes(32) {
        None => Err(WalletError::Key(KeyError::EntropyUnavailable)),
        Some(secret) => match private_key_step(secret.as_slice()) {
            Ok(step) => {
                assert(is_scalar(secret@) && step.secret_hex@ == spec_hex_encode(secret@)
                    && step.wif@ == spec_wif(secret@));
                Ok(step)
            },
            Err(error) => Err(WalletError::Key(error)),
        },
    }
}

/// The public key of a fresh private key.
pub fn step2_public_key() -> (result: Result<CompressedPoint, WalletError>)
    ensures
        result matches Ok(point) ==> exists|secret: Seq<u8>| #[trigger]
            is_scalar(secret) && point@ == spec_public_point(secret),
        result matches Err(e) ==> e == WalletError::Key(KeyError::EntropyUnavailable) || e
            == WalletError::Key(KeyError::InvalidScalar),
{
    crate::converter::generate_example_pubkey()
}

/// The SHA-256 of a public key, and the RIPEMD-160 of that.
pub fn step3_hashing(pubkey: &CompressedPoint) -> (result: Result<HashingStep, WalletError>)
    ensures
        result matches Ok(step) && step.sha256@ == spec_sha256(pubkey@) && step.hash160@
            == spec_hash160(pubkey@),
{
    let bytes = pubkey.as_bytes();
    Ok(HashingStep { sha256: sha256(bytes), hash160: hash160(bytes) })
}

/// The legacy and the native SegWit address of a public key on mainnet.
pub fn step4_address_generation(pubkey: &CompressedPoint) -> (result: Result<
    AddressStep,
    WalletError,
>)
    ensures
        result matches Ok(step) && spec_encode(pubkey@, AddressFormat::Legacy, Network::Mainnet)
            == Ok::<crate::address::DescriptorView, crate::address::AddressError>(step.legacy@)
            && spec_encode(pubkey@, AddressFormat::NativeSegwit, Network::Mainnet) == Ok::<
            crate::address::DescriptorView,
            crate::address::AddressError,
        >(step.native_segwit@),
{
    let legacy = encode(pubkey, AddressFormat::Legacy, Network::Mainnet);
    let native = encode(pubkey, AddressFormat::NativeSegwit, Network::Mainnet);
    match (legacy, native) {
        (Ok(legacy), Ok(native_segwit)) => Ok(AddressStep { legacy, native_segwit }),
        (Err(error), _) => Err(WalletError::Address(error)),
        (_, Err(error)) => Err(WalletError::Address(error)),
    }
}

/// What the tutorial shows, step by step.
#[derive(Debug)]
pub struct TutorialMaterial {
    pub private_key: PrivateKeyStep,
    pub public_key: CompressedPoint,
    pub hashes: HashingStep,
    pub addresses: AddressStep,
}

/// The material of the whole tutorial: a fresh private key for the first
/// step, a public key of another fresh private key for the second, and
/// the hashes and addresses of that public key for the third and fourth.
pub fn run_tutorial() -> (result: Result<TutorialMaterial, WalletError>)
    ensures
        result matches Ok(material) ==> shows_a_private_key(material.private_key),
        result matches Ok(material) ==> exists|secret: Seq<u8>| #[trigger]
            is_scalar(secret) && material.public_key@ == spec_public_point(secret),
        result matches Ok(material) ==> material.hashes.sha256@ == spec_sha256(
            material.public_key@,
        ) && material.hashes.hash160@ == spec_hash160(material.public_key@) && spec_encode(
            material.public_key@,
            AddressFormat::Legacy,
            Network::Mainnet,
        ) == Ok::<crate::address::DescriptorView, crate::address::AddressError>(
            material.addresses.legacy@,
        ) && spec_encode(material.public_key@, AddressFormat::NativeSegwit, Network::Mainnet)
            == Ok::<crate::address::DescriptorView, crate::address::AddressError>(
            material.addresses.native_segwit@,
        ),
        result matches Err(e) ==> e == WalletError::Key(KeyError::EntropyUnavailable) || e
            == WalletError::Key(KeyError::InvalidScalar),
{
    let private_key = match step1_private_key() {
        Ok(step) => step,
        Err(error) => {
            return Err(error);
        },
    };
    let public_key = match step2_public_key() {
        Ok(point) => point,
        Err(error) => {
            return Err(error);
        },
    };
    let hashes = match step3_hashing(&public_key) {
        Ok(step) => step,
        Err(error) => {
            return Err(error);
        },
    };
    let addresses = match step4_address_generation(&public_key) {
        Ok(step) => step,
        Err(error) => {
            return Err(error);
        },
    };
    Ok(TutorialMaterial { private_key, public_key, hashes, addresses })
}

} // verus!
