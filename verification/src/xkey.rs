//! The extended key tree: a master key from a seed, child keys from a
//! parent and an index, and keys along a path.
//!
//! Every key is a value of its own; deriving is a function of the parent
//! and the index. A key may hold its private scalar or only its public
//! point; a hardened child needs the private scalar of its parent.

use crate::address::Network;
use crate::base58;
use crate::bytes::{append, spec_u32_be, u32_be};
use crate::curve::{
    curve_order, is_point, is_scalar, point_add, scalar_add, scalar_to_point, spec_point_add,
    spec_public_point, spec_scalar_add, CompressedPoint,
};
use crate::hash::{hash160, hmac_sha512, spec_hash160, spec_hmac_sha512};
use crate::path::{steps_view, ChildIndex, DerivationPath, StepView, INDEX_LIMIT};
use crate::radix::{be_bytes, be_nat, lemma_be_bytes, zeros};
use crate::text::from_chars;
use vstd::prelude::*;
use vstd::slice::{slice_subrange, slice_to_vec};

verus! {

/// Why a key cannot be made.
#[derive(Clone, Copy, PartialEq, Eq, Debug, Structural)]
pub enum KeyError {
    /// The seed is not 64 bytes long.
    InvalidSeedLength,
    /// The left half of the seed's digest is no private scalar.
    InvalidMasterKey,
    /// A hardened child was asked of a key without its private scalar.
    HardenedRequiresPrivateKey,
    /// The index is 2^31 or more.
    IndexOutOfRange,
    /// The parent is at depth 255.
    DepthExceeded,
    /// The digest gives no key at this index; the next index may.
    DerivedKeyInvalid,
    /// The bytes are no private scalar.
    InvalidScalar,
    /// The text is no run of hexadecimal digit pairs.
    InvalidHex,
    /// The bytes are no compressed curve point.
    InvalidPublicKey,
    /// The system gave no random bytes.
    EntropyUnavailable,
}

impl KeyError {
    /// Whether deriving at the next index may succeed.
    pub fn is_retryable(self) -> (yes: bool)
        ensures
            yes == (self == KeyError::DerivedKeyInvalid),
    {
        match self {
            KeyError::DerivedKeyInvalid => true,
            _ => false,
        }
    }
}

/// An extended key as a mathematical value.
pub struct KeyView {
    pub network: Network,
    pub depth: u8,
    pub parent_fingerprint: Seq<u8>,
    pub child_number: u32,
    pub chain_code: Seq<u8>,
    pub private_key: Option<Seq<u8>>,
    pub public_key: Seq<u8>,
}

/// A node of the key tree.
#[derive(Debug)]
pub struct ExtendedKey {
    network: Network,
    depth: u8,
    parent_fingerprint: Vec<u8>,
    child_number: u32,
    chain_code: Vec<u8>,
    private_key: Option<Vec<u8>>,
    public_key: Vec<u8>,
}

impl View for ExtendedKey {
    type V = KeyView;

    closed spec fn view(&self) -> KeyView {
        KeyView {
            network: self.network,
            depth: self.depth,
            parent_fingerprint: self.parent_fingerprint@,
            child_number: self.child_number,
            chain_code: self.chain_code@,
            private_key: match self.private_key {
                Some(k) => Some(k@),
                None => None,
            },
            public_key: self.public_key@,
        }
    }
}

/// What holds of every key: the lengths of its parts, its public point is
/// a point and the point of its private scalar, and a key at depth 0 has
/// no parent.
pub open spec fn key_wf(key: KeyView) -> bool {
    &&& key.parent_fingerprint.len() == 4
    &&& key.chain_code.len() == 32
    &&& is_point(key.public_key)
    &&& key.private_key matches Some(k) ==> is_scalar(k) && key.public_key == spec_public_point(k)
    &&& key.depth == 0 ==> key.child_number == 0 && key.parent_fingerprint == zeros(4)
}

/// The key under which the seed is hashed: the bytes of `Bitcoin seed`.
pub open spec fn seed_key() -> Seq<u8> {
    seq![66u8, 105u8, 116u8, 99u8, 111u8, 105u8, 110u8, 32u8, 115u8, 101u8, 101u8, 100u8]
}

/// The master key of a seed.
pub open spec fn spec_master(seed: Seq<u8>, network: Network) -> Result<KeyView, KeyError> {
    let mac = spec_hmac_sha512(seed_key(), seed);
    let left = mac.take(32);
    if seed.len() != 64 {
        Err(KeyError::InvalidSeedLength)
    } else if !is_scalar(left) {
        Err(KeyError::InvalidMasterKey)
    } else {
        Ok(
            KeyView {
                network,
                depth: 0,
                parent_fingerprint: zeros(4),
                child_number: 0,
                chain_code: mac.skip(32),
                private_key: Some(left),
                public_key: spec_public_point(left),
            },
        )
    }
}

/// The child number as it is hashed and stored: the index, with the top
/// bit set for a hardened child.
pub open spec fn raw_index(index: u32, hardened: bool) -> u32 {
    if hardened {
        (index + INDEX_LIMIT) as u32
    } else {
        index
    }
}

/// The message that is hashed under the parent's chain code.
pub open spec fn child_message(parent: KeyView, index: u32, hardened: bool) -> Seq<u8> {
    let key_part = if hardened {
        seq![0u8] + parent.private_key->0
    } else {
        parent.public_key
    };
    key_part + spec_u32_be(raw_index(index, hardened))
}

/// The child of a key at an index.
pub open spec fn spec_derive_child(parent: KeyView, index: u32, hardened: bool) -> Result<
    KeyView,
    KeyError,
> {
    if hardened && parent.private_key is None {
        Err(KeyError::HardenedRequiresPrivateKey)
    } else if index >= INDEX_LIMIT {
        Err(KeyError::IndexOutOfRange)
    } else if parent.depth == 255 {
        Err(KeyError::DepthExceeded)
    } else {
        let mac = spec_hmac_sha512(parent.chain_code, child_message(parent, index, hardened));
        let left = mac.take(32);
        let child = KeyView {
            network: parent.network,
            depth: (parent.depth + 1) as u8,
            parent_fingerprint: spec_hash160(parent.public_key).take(4),
            child_number: raw_index(index, hardened),
            chain_code: mac.skip(32),
            private_key: None,
            public_key: parent.public_key,
        };
        match parent.private_key {
            Some(k) => match spec_scalar_add(k, left) {
                None => Err(KeyError::DerivedKeyInvalid),
                Some(sum) => Ok(
                    KeyView {
                        private_key: Some(be_bytes(sum, 32)),
                        public_key: spec_public_point(be_bytes(sum, 32)),
                        ..child
                    },
                ),
            },
            None => match spec_point_add(parent.public_key, left) {
                None => Err(KeyError::DerivedKeyInvalid),
                Some(point) => Ok(KeyView { public_key: point, ..child }),
            },
        }
    }
}

/// The descendant of a key along a path: the steps taken one after another.
pub open spec fn spec_derive_path(key: KeyView, path: Seq<StepView>) -> Result<KeyView, KeyError>
    decreases path.len(),
{
    if path.len() == 0 {
        Ok(key)
    } else {
        match spec_derive_child(key, path[0].index, path[0].hardened) {
            Err(error) => Err(error),
            Ok(child) => spec_derive_path(child, path.drop_first()),
        }
    }
}

/// The child at the first index from `index` on at which there is one.
pub open spec fn spec_derive_retrying(parent: KeyView, index: u32, hardened: bool) -> Result<
    (KeyView, u32),
    KeyError,
>
    decreases INDEX_LIMIT - index,
{
    match spec_derive_child(parent, index, hardened) {
        Ok(child) => Ok((child, index)),
        Err(KeyError::DerivedKeyInvalid) => {
            if index + 1 < INDEX_LIMIT {
                spec_derive_retrying(parent, (index + 1) as u32, hardened)
            } else {
                Err(KeyError::DerivedKeyInvalid)
            }
        },
        Err(error) => Err(error),
    }
}

/// The key without its private scalar.
pub open spec fn spec_neuter(key: KeyView) -> KeyView {
    KeyView { private_key: None, ..key }
}

/// The four version bytes of the serialized key.
pub open spec fn spec_version_bytes(network: Network, private: bool) -> Seq<u8> {
    match (network, private) {
        (Network::Mainnet, true) => seq![0x04u8, 0x88u8, 0xADu8, 0xE4u8],
        (Network::Mainnet, false) => seq![0x04u8, 0x88u8, 0xB2u8, 0x1Eu8],
        (_, true) => seq![0x04u8, 0x35u8, 0x83u8, 0x94u8],
        (_, false) => seq![0x04u8, 0x35u8, 0x87u8, 0xCFu8],
    }
}

/// The 78 bytes of a key: version, depth, parent fingerprint, child number,
/// chain code, and the private scalar after a zero byte or else the public
/// point.
pub open spec fn spec_serialize(key: KeyView) -> Seq<u8> {
    spec_version_bytes(key.network, key.private_key is Some) + seq![key.depth]
        + key.parent_fingerprint + spec_u32_be(key.child_number) + key.chain_code + (
    match key.private_key {
        Some(k) => seq![0u8] + k,
        None => key.public_key,
    })
}

/// A hardened child of a key without its private scalar is refused,
/// whatever the index.
pub proof fn lemma_hardened_needs_private(parent: KeyView, index: u32)
    ensures
        spec_derive_child(spec_neuter(parent), index, true) == Err::<KeyView, KeyError>(
            KeyError::HardenedRequiresPrivateKey,
        ),
{
}

/// Two derivations from one seed along one path give one result.
pub proof fn lemma_derivation_is_a_function(
    seed: Seq<u8>,
    network: Network,
    path: Seq<StepView>,
    first: Result<KeyView, KeyError>,
    second: Result<KeyView, KeyError>,
)
    requires
        spec_master(seed, network) matches Ok(master) && first == spec_derive_path(master, path)
            && second == spec_derive_path(master, path),
    ensures
        first == second,
{
}

impl ExtendedKey {
    #[verifier::type_invariant]
    closed spec fn well_formed(&self) -> bool {
        key_wf(self@)
    }

    /// The master key of a 64-byte seed.
    pub fn master_from_seed(seed: &[u8], network: Network) -> (result: Result<
        ExtendedKey,
        KeyError,
    >)
        ensures
            match (result, spec_master(seed@, network)) {
                (Ok(got), Ok(want)) => got@ == want && key_wf(want),
                (Err(got), Err(want)) => got == want,
                _ => false,
            },
    {
        if seed.len() != 64 {
            return Err(KeyError::InvalidSeedLength);
        }
        let domain: [u8; 12] = [66, 105, 116, 99, 111, 105, 110, 32, 115, 101, 101, 100];
        assert(domain@ =~= seed_key());
        let mac = hmac_sha512(domain.as_slice(), seed);
        let left = slice_to_vec(slice_subrange(mac.as_slice(), 0, 32));
        let right = slice_to_vec(slice_subrange(mac.as_slice(), 32, 64));
        assert(left@ =~= mac@.take(32));
        assert(right@ =~= mac@.skip(32));
        match scalar_to_point(left.as_slice()) {
            None => Err(KeyError::InvalidMasterKey),
            Some(point) => {
                let mut fingerprint: Vec<u8> = Vec::new();
                fingerprint.push(0);
                fingerprint.push(0);
                fingerprint.push(0);
                fingerprint.push(0);
                assert(fingerprint@ =~= zeros(4));
                Ok(
                    ExtendedKey {
                        network,
                        depth: 0,
                        parent_fingerprint: fingerprint,
                        child_number: 0,
                        chain_code: right,
                        private_key: Some(left),
                        public_key: point,
                    },
                )
            },
        }
    }

    /// The child of this key at an index, hardened or not.
    ///
    /// A hardened child of a key without its private scalar is refused
    /// before anything else is looked at.
    pub fn derive_child(&self, index: u32, hardened: bool) -> (result: Result<
        ExtendedKey,
        KeyError,
    >)
        ensures
            match (result, spec_derive_child(self@, index, hardened)) {
                (Ok(got), Ok(want)) => got@ == want && key_wf(want),
                (Err(got), Err(want)) => got == want,
                _ => false,
            },
            key_wf(self@),
    {
        proof {
            use_type_invariant(self);
        }
        if hardened && self.private_key.is_none() {
            return Err(KeyError::HardenedRequiresPrivateKey);
        }
        if index >= INDEX_LIMIT {
            return Err(KeyError::IndexOutOfRange);
        }
        if self.depth == 255 {
            return Err(KeyError::DepthExceeded);
        }
        let raw = if hardened {
            index + INDEX_LIMIT
        } else {
            index
        };
        let mut message: Vec<u8> = Vec::new();
        match &self.private_key {
            Some(k) => {
                if hardened {
                    message.push(0);
                    append(&mut message, k.as_slice());
                } else {
                    append(&mut message, self.public_key.as_slice());
                }
            },
            None => {
                append(&mut message, self.public_key.as_slice());
            },
        }
        let number = u32_be(raw);
        append(&mut message, number.as_slice());
        assert(message@ =~= child_message(self@, index, hardened));
        let mac = hmac_sha512(self.chain_code.as_slice(), message.as_slice());
        let left = slice_subrange(mac.as_slice(), 0, 32);
        let right = slice_to_vec(slice_subrange(mac.as_slice(), 32, 64));
        assert(left@ =~= mac@.take(32));
        assert(right@ =~= mac@.skip(32));
        let digest = hash160(self.public_key.as_slice());
        let fingerprint = slice_to_vec(slice_subrange(digest.as_slice(), 0, 4));
        assert(fingerprint@ =~= digest@.take(4));
        match &self.private_key {
            Some(k) => {
                match scalar_add(k.as_slice(), left) {
                    None => Err(KeyError::DerivedKeyInvalid),
                    Some(child_key) => {
                        proof {
                            lemma_be_bytes(child_key@);
                        }
                        match scalar_to_point(child_key.as_slice()) {
                            None => {
                                assert(false);
                                Err(KeyError::DerivedKeyInvalid)
                            },
                            Some(point) => Ok(
                                ExtendedKey {
                                    network: self.network,
                                    depth: self.depth + 1,
                                    parent_fingerprint: fingerprint,
                                    child_number: raw,
                                    chain_code: right,
                                    private_key: Some(child_key),
                                    public_key: point,
                                },
                            ),
                        }
                    },
                }
            },
            None => {
                match point_add(self.public_key.as_slice(), left) {
                    None => Err(KeyError::DerivedKeyInvalid),
                    Some(point) => Ok(
                        ExtendedKey {
                            network: self.network,
                            depth: self.depth + 1,
                            parent_fingerprint: fingerprint,
                            child_number: raw,
                            chain_code: right,
                            private_key: None,
                            public_key: point,
                        },
                    ),
                }
            },
        }
    }

    /// The child at the first index from `index` on at which there is one,
    /// and that index.
    pub fn derive_child_retrying(&self, index: u32, hardened: bool) -> (result: Result<
        (ExtendedKey, u32),
        KeyError,
    >)
        ensures
            match (result, spec_derive_retrying(self@, index, hardened)) {
                (Ok(got), Ok(want)) => got.0@ == want.0 && got.1 == want.1,
                (Err(got), Err(want)) => got == want,
                _ => false,
            },
    {
        let mut at = index;
        loop
            invariant
                spec_derive_retrying(self@, index, hardened) == spec_derive_retrying(
                    self@,
                    at,
                    hardened,
                ),
            decreases INDEX_LIMIT - at,
        {
            match self.derive_child(at, hardened) {
                Ok(child) => {
                    return Ok((child, at));
                },
                Err(error) => {
                    if !error.is_retryable() || at >= INDEX_LIMIT - 1 {
                        return Err(error);
                    }
                    at += 1;
                },
            }
        }
    }

    /// The descendant of this key along a path.
    pub fn derive_path(&self, path: &DerivationPath) -> (result: Result<ExtendedKey, KeyError>)
        ensures
            match (result, spec_derive_path(self@, path@)) {
                (Ok(got), Ok(want)) => got@ == want,
                (Err(got), Err(want)) => got == want,
                _ => false,
            },
    {
        let mut key = self.clone();
        let mut i: usize = 0;
        proof {
            assert(path@.skip(0) =~= path@);
        }
        while i < path.len()
            invariant
                i <= path@.len(),
                spec_derive_path(self@, path@) == spec_derive_path(key@, path@.skip(i as int)),
            decreases path@.len() - i,
        {
            let step = path.step(i);
            proof {
                assert(path@.skip(i as int)[0] == step@);
                assert(path@.skip(i as int).drop_first() =~= path@.skip(i + 1));
            }
            match key.derive_child(step.index(), step.is_hardened()) {
                Ok(child) => {
                    key = child;
                },
                Err(error) => {
                    return Err(error);
                },
            }
            i += 1;
        }
        Ok(key)
    }

    /// The compressed public point of this key.
    pub fn public_key(&self) -> (point: CompressedPoint)
        ensures
            point@ == self@.public_key,
    {
        proof {
            use_type_invariant(self);
        }
        CompressedPoint::from_valid(slice_to_vec(self.public_key.as_slice()))
    }

    /// The private scalar, if the key holds it.
    pub fn private_key(&self) -> (scalar: Option<&[u8]>)
        ensures
            match (scalar, self@.private_key) {
                (Some(got), Some(want)) => got@ == want && is_scalar(want),
                (None, None) => true,
                _ => false,
            },
    {
        proof {
            use_type_invariant(self);
        }
        match &self.private_key {
            Some(k) => Some(k.as_slice()),
            None => None,
        }
    }

    /// This key without its private scalar.
    pub fn neuter(&self) -> (key: ExtendedKey)
        ensures
            key@ == spec_neuter(self@),
    {
        proof {
            use_type_invariant(self);
        }
        ExtendedKey {
            network: self.network,
            depth: self.depth,
            parent_fingerprint: slice_to_vec(self.parent_fingerprint.as_slice()),
            child_number: self.child_number,
            chain_code: slice_to_vec(self.chain_code.as_slice()),
            private_key: None,
            public_key: slice_to_vec(self.public_key.as_slice()),
        }
    }

    pub fn network(&self) -> (network: Network)
        ensures
            network == self@.network,
    {
        self.network
    }

    pub fn depth(&self) -> (depth: u8)
        ensures
            depth == self@.depth,
    {
        self.depth
    }

    /// The child number: the index, with the top bit set for a hardened key.
    pub fn child_number(&self) -> (number: u32)
        ensures
            number == self@.child_number,
    {
        self.child_number
    }

    /// The first four bytes of the hash of the parent's public point.
    pub fn parent_fingerprint(&self) -> (fingerprint: &[u8])
        ensures
            fingerprint@ == self@.parent_fingerprint,
            fingerprint@.len() == 4,
    {
        proof {
            use_type_invariant(self);
        }
        self.parent_fingerprint.as_slice()
    }

    pub fn chain_code(&self) -> (code: &[u8])
        ensures
            code@ == self@.chain_code,
            code@.len() == 32,
    {
        proof {
            use_type_invariant(self);
        }
        self.chain_code.as_slice()
    }

    /// The first four bytes of the hash of this key's public point, as its
    /// children store them.
    pub fn fingerprint(&self) -> (fingerprint: Vec<u8>)
        ensures
            fingerprint@ == spec_hash160(self@.public_key).take(4),
    {
        let digest = hash160(self.public_key.as_slice());
        let fingerprint = slice_to_vec(slice_subrange(digest.as_slice(), 0, 4));
        assert(fingerprint@ =~= digest@.take(4));
        fingerprint
    }

    /// The 78 bytes of the key.
    pub fn serialize(&self) -> (bytes: Vec<u8>)
        ensures
            bytes@ == spec_serialize(self@),
    {
        let mut bytes: Vec<u8> = match (self.network, self.private_key.is_some()) {
            (Network::Mainnet, true) => vec![0x04u8, 0x88u8, 0xADu8, 0xE4u8],
            (Network::Mainnet, false) => vec![0x04u8, 0x88u8, 0xB2u8, 0x1Eu8],
            (_, true) => vec![0x04u8, 0x35u8, 0x83u8, 0x94u8],
            (_, false) => vec![0x04u8, 0x35u8, 0x87u8, 0xCFu8],
        };
        assert(bytes@ =~= spec_version_bytes(self@.network, self@.private_key is Some));
        bytes.push(self.depth);
        append(&mut bytes, self.parent_fingerprint.as_slice());
        let number = u32_be(self.child_number);
        append(&mut bytes, number.as_slice());
        append(&mut bytes, self.chain_code.as_slice());
        match &self.private_key {
            Some(k) => {
                bytes.push(0);
                append(&mut bytes, k.as_slice());
            },
            None => {
                append(&mut bytes, self.public_key.as_slice());
            },
        }
        assert(bytes@ =~= spec_serialize(self@));
        bytes
    }

    /// The Base58Check text of the key, `xprv...` or `xpub...` on mainnet.
    pub fn to_base58(&self) -> (text: String)
        ensures
            text@ == base58::spec_check_encode(spec_serialize(self@)),
    {
        let bytes = self.serialize();
        let chars = base58::check_encode(bytes.as_slice());
        from_chars(chars.as_slice())
    }
}

impl Clone for ExtendedKey {
    fn clone(&self) -> (copy: Self)
        ensures
            copy@ == self@,
    {
        proof {
            use_type_invariant(self);
        }
        ExtendedKey {
            network: self.network,
            depth: self.depth,
            parent_fingerprint: slice_to_vec(self.parent_fingerprint.as_slice()),
            child_number: self.child_number,
            chain_code: slice_to_vec(self.chain_code.as_slice()),
            private_key: match &self.private_key {
                Some(k) => Some(slice_to_vec(k.as_slice())),
                None => None,
            },
            public_key: slice_to_vec(self.public_key.as_slice()),
        }
    }
}

} // verus!
