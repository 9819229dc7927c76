//! Hierarchical key derivation and address encodings for Bitcoin, verified
//! with Verus.
//!
//! The hash functions and the elliptic-curve operations come from the
//! `bitcoin` crate and the word list from `bip39`; everything around them
//! (bit regrouping, Base58Check, Bech32, path grammar, key tree, address
//! classification) is proved against the contracts in this crate.

pub mod address;
pub mod base58;
pub mod bech32;
pub mod bits;
pub mod bytes;
pub mod converter;
pub mod curve;
pub mod educational;
pub mod error;
pub mod explain;
pub mod hash;
pub mod hexadecimal;
pub mod menu;
pub mod mnemonic;
pub mod path;
pub mod radix;
pub mod script;
pub mod text;
pub mod validator;
pub mod wallet;
pub mod xkey;
