//! The elliptic-curve engine, taken from `bitcoin::secp256k1`.
//!
//! Scalars are 32 bytes read as a big-endian number, points are 33 bytes in
//! compressed form. What can be said in arithmetic is said in arithmetic over
//! the curve order; point multiplication and point addition are named and
//! left to the engine.

use crate::hexadecimal::{hex_encode, spec_hex_encode};
use crate::radix::be_nat;
use vstd::prelude::*;
use vstd::slice::slice_to_vec;

verus! {

/// The order of the group of curve points.
pub open spec fn curve_order() -> nat {
    0xFFFFFFFFFFFFFFFFFFFFFFFFFFFFFFFEBAAEDCE6AF48A03BBFD25E8CD0364141nat
}

/// A private scalar: 32 bytes whose value is neither zero nor the curve
/// order or more.
pub open spec fn is_scalar(bytes: Seq<u8>) -> bool {
    bytes.len() == 32 && 0 < be_nat(bytes) < curve_order()
}

/// A tweak: 32 bytes whose value is below the curve order.
pub open spec fn is_tweak(bytes: Seq<u8>) -> bool {
    bytes.len() == 32 && be_nat(bytes) < curve_order()
}

/// A private scalar plus a tweak, modulo the curve order: defined where the
/// scalar is one, the tweak is one, and the sum is not zero.
pub open spec fn spec_scalar_add(scalar: Seq<u8>, tweak: Seq<u8>) -> Option<nat> {
    let sum = (be_nat(scalar) + be_nat(tweak)) % curve_order();
    if is_scalar(scalar) && is_tweak(tweak) && sum != 0 {
        Some(sum)
    } else {
        None
    }
}

/// The compressed point of a private scalar: the scalar times the generator.
pub uninterp spec fn spec_public_point(scalar: Seq<u8>) -> Seq<u8>;

/// The bytes are the serialization of a curve point.
pub uninterp spec fn spec_is_point(bytes: Seq<u8>) -> bool;

/// The compressed point of `point` plus `tweak` times the generator, where
/// that is a point.
pub uninterp spec fn spec_point_add(point: Seq<u8>, tweak: Seq<u8>) -> Option<Seq<u8>>;

/// The x coordinate of the point with even y and x coordinate `x`, plus
/// `tweak` times the generator, where that is a point.
pub uninterp spec fn spec_xonly_add(x: Seq<u8>, tweak: Seq<u8>) -> Option<Seq<u8>>;

/// The shape of a compressed point: a sign byte, 2 or 3, and 32 bytes of x.
pub open spec fn is_compressed(bytes: Seq<u8>) -> bool {
    bytes.len() == 33 && (bytes[0] == 2 || bytes[0] == 3)
}

/// Calls `SecretKey::from_slice`, `PublicKey::from_secret_key` and
/// `PublicKey::serialize`. The claims: the slice is accepted exactly when it
/// is a private scalar; the result is the named point of the scalar, in
/// compressed form, and parses as a point.
#[verifier::external_body]
pub(crate) fn scalar_to_point(scalar: &[u8]) -> (point: Option<Vec<u8>>)
    ensures
        point is Some <==> is_scalar(scalar@),
        point matches Some(p) ==> p@ == spec_public_point(scalar@) && is_compressed(p@)
            && spec_is_point(p@),
{
    match bitcoin::secp256k1::SecretKey::from_slice(scalar) {
        Ok(key) => {
            let context = bitcoin::secp256k1::Secp256k1::signing_only();
            Some(bitcoin::secp256k1::PublicKey::from_secret_key(&context, &key).serialize().to_vec())
        },
        Err(_) => None,
    }
}

/// Calls `PublicKey::from_slice`. The claim: the answer is whether the bytes
/// parse as a point.
#[verifier::external_body]
pub(crate) fn point_is_valid(bytes: &[u8]) -> (valid: bool)
    ensures
        valid == spec_is_point(bytes@),
{
    bitcoin::secp256k1::PublicKey::from_slice(bytes).is_ok()
}

/// Calls `SecretKey::add_tweak` on a key from `SecretKey::from_slice` and a
/// tweak from `Scalar::from_be_bytes`. The claims: it succeeds exactly when
/// the key is a private scalar, the tweak is below the curve order and their
/// sum is no multiple of the curve order; the result is the sum modulo the
/// curve order, as 32 big-endian bytes.
#[verifier::external_body]
pub(crate) fn scalar_add(scalar: &[u8], tweak: &[u8]) -> (sum: Option<Vec<u8>>)
    ensures
        match (sum, spec_scalar_add(scalar@, tweak@)) {
            (Some(got), Some(want)) => got@.len() == 32 && be_nat(got@) == want,
            (None, None) => true,
            _ => false,
        },
{
    let key = bitcoin::secp256k1::SecretKey::from_slice(scalar).ok()?;
    let raw: [u8; 32] = tweak.try_into().ok()?;
    let tweak = bitcoin::secp256k1::Scalar::from_be_bytes(raw).ok()?;
    key.add_tweak(&tweak).ok().map(|k| k.secret_bytes().to_vec())
}

/// Calls `PublicKey::add_exp_tweak` on a point from `PublicKey::from_slice`
/// and a tweak from `Scalar::from_be_bytes`. The claims: the outcome is the
/// named sum; when there is one, it is a compressed point that parses.
#[verifier::external_body]
pub(crate) fn point_add(point: &[u8], tweak: &[u8]) -> (sum: Option<Vec<u8>>)
    ensures
        match (sum, spec_point_add(point@, tweak@)) {
            (Some(got), Some(want)) => got@ == want && is_compressed(got@) && spec_is_point(got@),
            (None, None) => true,
            _ => false,
        },
{
    let key = bitcoin::secp256k1::PublicKey::from_slice(point).ok()?;
    let raw: [u8; 32] = tweak.try_into().ok()?;
    let tweak = bitcoin::secp256k1::Scalar::from_be_bytes(raw).ok()?;
    let context = bitcoin::secp256k1::Secp256k1::verification_only();
    key.add_exp_tweak(&context, &tweak).ok().map(|p| p.serialize().to_vec())
}

/// Calls `XOnlyPublicKey::add_tweak` on a key from
/// `XOnlyPublicKey::from_slice` and a tweak from `Scalar::from_be_bytes`.
/// The claims: the outcome is the named sum; when there is one, it is 32
/// bytes long.
#[verifier::external_body]
pub(crate) fn xonly_add(x: &[u8], tweak: &[u8]) -> (sum: Option<Vec<u8>>)
    ensures
        match (sum, spec_xonly_add(x@, tweak@)) {
            (Some(got), Some(want)) => got@ == want && got@.len() == 32,
            (None, None) => true,
            _ => false,
        },
{
    let key = bitcoin::secp256k1::XOnlyPublicKey::from_slice(x).ok()?;
    let raw: [u8; 32] = tweak.try_into().ok()?;
    let tweak = bitcoin::secp256k1::Scalar::from_be_bytes(raw).ok()?;
    let context = bitcoin::secp256k1::Secp256k1::verification_only();
    key.add_tweak(&context, &tweak).ok().map(|(sum, _parity)| sum.serialize().to_vec())
}

/// A curve point in compressed form: a sign byte and the x coordinate.
#[derive(Debug)]
pub struct CompressedPoint {
    bytes: Vec<u8>,
}

impl View for CompressedPoint {
    type V = Seq<u8>;

    closed spec fn view(&self) -> Seq<u8> {
        self.bytes@
    }
}

/// A compressed point that parses.
pub open spec fn is_point(bytes: Seq<u8>) -> bool {
    is_compressed(bytes) && spec_is_point(bytes)
}

impl CompressedPoint {
    #[verifier::type_invariant]
    closed spec fn well_formed(&self) -> bool {
        is_point(self.bytes@)
    }

    /// Accepts 33 bytes that start with 2 or 3 and parse as a curve point.
    pub fn from_bytes(bytes: &[u8]) -> (point: Option<CompressedPoint>)
        ensures
            point is Some <==> is_point(bytes@),
            point matches Some(p) ==> p@ == bytes@,
    {
        if bytes.len() != 33 || (bytes[0] != 2 && bytes[0] != 3) {
            return None;
        }
        if !point_is_valid(bytes) {
            return None;
        }
        Some(CompressedPoint { bytes: slice_to_vec(bytes) })
    }

    /// Wraps bytes that are known to be a point.
    pub(crate) fn from_valid(bytes: Vec<u8>) -> (point: CompressedPoint)
        requires
            is_point(bytes@),
        ensures
            point@ == bytes@,
    {
        CompressedPoint { bytes }
    }

    /// The point of a private scalar, or nothing where the bytes are no
    /// private scalar.
    pub fn from_scalar(scalar: &[u8]) -> (point: Option<CompressedPoint>)
        ensures
            point is Some <==> is_scalar(scalar@),
            point matches Some(p) ==> p@ == spec_public_point(scalar@),
    {
        match scalar_to_point(scalar) {
            Some(bytes) => Some(CompressedPoint { bytes }),
            None => None,
        }
    }

    /// The 33 bytes in hexadecimal: 66 digits, letters small.
    pub fn to_hex(&self) -> (text: String)
        ensures
            text@ == spec_hex_encode(self@),
    {
        hex_encode(self.bytes.as_slice())
    }

    /// The 33 bytes.
    pub fn as_bytes(&self) -> (bytes: &[u8])
        ensures
            bytes@ == self@,
            is_point(bytes@),
    {
        proof {
            use_type_invariant(self);
        }
        self.bytes.as_slice()
    }
}

impl Clone for CompressedPoint {
    fn clone(&self) -> (copy: Self)
        ensures
            copy@ == self@,
    {
        proof {
            use_type_invariant(self);
        }
        CompressedPoint { bytes: slice_to_vec(self.bytes.as_slice()) }
    }
}

} // verus!
