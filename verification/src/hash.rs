//! The hash primitives, taken from `bitcoin::hashes`.
//!
//! Each digest is a pure function of its input; the library names the
//! function and states the output length, and proves nothing more about it.

use bitcoin::hashes::HashEngine;
use vstd::prelude::*;

verus! {

/// SHA-256 of a byte string.
pub uninterp spec fn spec_sha256(data: Seq<u8>) -> Seq<u8>;

/// RIPEMD-160 of the SHA-256 of a byte string.
pub uninterp spec fn spec_hash160(data: Seq<u8>) -> Seq<u8>;

/// HMAC-SHA512 of a message under a key.
pub uninterp spec fn spec_hmac_sha512(key: Seq<u8>, message: Seq<u8>) -> Seq<u8>;

/// Calls `bitcoin::hashes::sha256::Hash::hash`. The claim: the digest is the
/// function `spec_sha256` of the input bytes, and it is 32 bytes long.
#[verifier::external_body]
pub(crate) fn sha256(data: &[u8]) -> (digest: Vec<u8>)
    ensures
        digest@ == spec_sha256(data@),
        digest@.len() == 32,
{
    let digest = <bitcoin::hashes::sha256::Hash as bitcoin::hashes::Hash>::hash(data);
    bitcoin::hashes::Hash::to_byte_array(digest).to_vec()
}

/// Calls `bitcoin::hashes::hash160::Hash::hash`. The claim: the digest is the
/// function `spec_hash160` of the input bytes, and it is 20 bytes long.
#[verifier::external_body]
pub(crate) fn hash160(data: &[u8]) -> (digest: Vec<u8>)
    ensures
        digest@ == spec_hash160(data@),
        digest@.len() == 20,
{
    let digest = <bitcoin::hashes::hash160::Hash as bitcoin::hashes::Hash>::hash(data);
    bitcoin::hashes::Hash::to_byte_array(digest).to_vec()
}

/// Runs `bitcoin::hashes::hmac::HmacEngine<sha512::Hash>` over one message.
/// The claim: the tag is the function `spec_hmac_sha512` of key and message,
/// and it is 64 bytes long.
#[verifier::external_body]
pub(crate) fn hmac_sha512(key: &[u8], message: &[u8]) -> (tag: Vec<u8>)
    ensures
        tag@ == spec_hmac_sha512(key@, message@),
        tag@.len() == 64,
{
    let mut engine = bitcoin::hashes::hmac::HmacEngine::<bitcoin::hashes::sha512::Hash>::new(key);
    engine.input(message);
    let tag = <bitcoin::hashes::hmac::Hmac<bitcoin::hashes::sha512::Hash> as bitcoin::hashes::Hash>::from_engine(engine);
    bitcoin::hashes::Hash::to_byte_array(tag).to_vec()
}

/// The double SHA-256 digest that Base58Check truncates to its checksum.
pub open spec fn spec_sha256d(data: Seq<u8>) -> Seq<u8> {
    spec_sha256(spec_sha256(data))
}

/// Computes SHA-256 twice.
pub fn sha256d(data: &[u8]) -> (digest: Vec<u8>)
    ensures
        digest@ == spec_sha256d(data@),
        digest@.len() == 32,
{
    let first = sha256(data);
    sha256(first.as_slice())
}

} // verus!
