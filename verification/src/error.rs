//! One error type for the whole library: which stage failed, of which
//! category the failure is, and the text that caused it.

use crate::address::AddressError;
use crate::mnemonic::MnemonicError;
use crate::path::PathError;
use crate::xkey::KeyError;
use vstd::prelude::*;

verus! {

/// The stage of the work at which something failed.
#[derive(Clone, Copy, PartialEq, Eq, Debug, Structural)]
pub enum Stage {
    Mnemonic,
    Path,
    KeyDerivation,
    AddressCodec,
}

/// The category of a failure.
#[derive(Clone, Copy, PartialEq, Eq, Debug, Structural)]
pub enum Category {
    /// The input does not have the form that is asked for.
    InputValidation,
    /// A checksum does not fit what it stands beside.
    ChecksumFailure,
    /// The text belongs to no known address codec.
    FormatUnrecognized,
    /// The curve or the system refused a value.
    CryptographicInvalid,
}

/// A failure of one of the four stages.
#[derive(Clone, Copy, PartialEq, Eq, Debug, Structural)]
pub enum WalletError {
    Mnemonic(MnemonicError),
    Path(PathError),
    Key(KeyError),
    Address(AddressError),
}

/// The stage that an error comes from.
pub open spec fn spec_stage(error: WalletError) -> Stage {
    match error {
        WalletError::Mnemonic(_) => Stage::Mnemonic,
        WalletError::Path(_) => Stage::Path,
        WalletError::Key(_) => Stage::KeyDerivation,
        WalletError::Address(_) => Stage::AddressCodec,
    }
}

/// The category of an error.
pub open spec fn spec_category(error: WalletError) -> Category {
    match error {
        WalletError::Mnemonic(MnemonicError::ChecksumMismatch) => Category::ChecksumFailure,
        WalletError::Mnemonic(MnemonicError::EntropyUnavailable) => Category::CryptographicInvalid,
        WalletError::Mnemonic(_) => Category::InputValidation,
        WalletError::Path(_) => Category::InputValidation,
        WalletError::Key(KeyError::InvalidMasterKey) => Category::CryptographicInvalid,
        WalletError::Key(KeyError::DerivedKeyInvalid) => Category::CryptographicInvalid,
        WalletError::Key(KeyError::InvalidScalar) => Category::CryptographicInvalid,
        WalletError::Key(KeyError::InvalidPublicKey) => Category::CryptographicInvalid,
        WalletError::Key(KeyError::EntropyUnavailable) => Category::CryptographicInvalid,
        WalletError::Key(_) => Category::InputValidation,
        WalletError::Address(AddressError::ChecksumMismatch) => Category::ChecksumFailure,
        WalletError::Address(AddressError::InvalidWitnessVersionChecksumPairing) => {
            Category::ChecksumFailure
        },
        WalletError::Address(AddressError::UnrecognizedAddressFormat) => {
            Category::FormatUnrecognized
        },
        WalletError::Address(AddressError::UnknownVersionByte) => Category::FormatUnrecognized,
        WalletError::Address(AddressError::InvalidWitnessVersion) => Category::FormatUnrecognized,
        WalletError::Address(AddressError::InvalidTweak) => Category::CryptographicInvalid,
        WalletError::Address(_) => Category::InputValidation,
    }
}

/// Whether the same request at the next index may succeed.
pub open spec fn spec_retryable(error: WalletError) -> bool {
    error == WalletError::Key(KeyError::DerivedKeyInvalid)
}

/// What an error says, in words.
pub open spec fn spec_message(error: WalletError) -> Seq<char> {
    match error {
        WalletError::Mnemonic(MnemonicError::InvalidWordCount) => {
            "mnemonic: the word count must be 12 or 24"@
        },
        WalletError::Mnemonic(MnemonicError::InvalidEntropyLength) => {
            "mnemonic: the entropy must be 16 or 32 bytes"@
        },
        WalletError::Mnemonic(MnemonicError::InvalidWord { position }) => {
            "mnemonic: a word is not in the word list"@
        },
        WalletError::Mnemonic(MnemonicError::ChecksumMismatch) => {
            "mnemonic: the checksum does not match"@
        },
        WalletError::Mnemonic(MnemonicError::EntropyUnavailable) => {
            "mnemonic: the system gave no random bytes"@
        },
        WalletError::Path(PathError::Malformed) => "path: the derivation path is malformed"@,
        WalletError::Path(PathError::IndexOutOfRange) => {
            "path: an index is 2^31 or more"@
        },
        WalletError::Path(PathError::TooLong) => "path: more than 255 components"@,
        WalletError::Key(KeyError::InvalidSeedLength) => {
            "key-derivation: the seed must be 64 bytes"@
        },
        WalletError::Key(KeyError::InvalidMasterKey) => {
            "key-derivation: the seed gives no master key"@
        },
        WalletError::Key(KeyError::HardenedRequiresPrivateKey) => {
            "key-derivation: a hardened child needs the private key"@
        },
        WalletError::Key(KeyError::IndexOutOfRange) => {
            "key-derivation: the index is 2^31 or more"@
        },
        WalletError::Key(KeyError::DepthExceeded) => {
            "key-derivation: the key is at the greatest depth"@
        },
        WalletError::Key(KeyError::DerivedKeyInvalid) => {
            "key-derivation: no key at this index, try the next"@
        },
        WalletError::Key(KeyError::InvalidScalar) => {
            "key-derivation: the bytes are no private key"@
        },
        WalletError::Key(KeyError::InvalidHex) => {
            "key-derivation: the text is not hexadecimal"@
        },
        WalletError::Key(KeyError::InvalidPublicKey) => {
            "key-derivation: the bytes are no compressed public key"@
        },
        WalletError::Key(KeyError::EntropyUnavailable) => {
            "key-derivation: the system gave no random bytes"@
        },
        WalletError::Address(AddressError::ChecksumMismatch) => {
            "address-codec: the checksum does not match"@
        },
        WalletError::Address(AddressError::UnknownVersionByte) => {
            "address-codec: unknown version byte"@
        },
        WalletError::Address(AddressError::InvalidWitnessVersionChecksumPairing) => {
            "address-codec: the checksum variant does not fit the witness version"@
        },
        WalletError::Address(AddressError::UnrecognizedAddressFormat) => {
            "address-codec: unrecognized address format"@
        },
        WalletError::Address(AddressError::InvalidWitnessVersion) => {
            "address-codec: unsupported witness version"@
        },
        WalletError::Address(AddressError::InvalidPadding) => {
            "address-codec: invalid padding of the witness program"@
        },
        WalletError::Address(AddressError::InvalidPayloadLength) => {
            "address-codec: invalid payload length"@
        },
        WalletError::Address(AddressError::InvalidTweak) => {
            "address-codec: the key has no Taproot output key"@
        },
    }
}

impl WalletError {
    pub fn stage(self) -> (stage: Stage)
        ensures
            stage == spec_stage(self),
    {
        match self {
            WalletError::Mnemonic(_) => Stage::Mnemonic,
            WalletError::Path(_) => Stage::Path,
            WalletError::Key(_) => Stage::KeyDerivation,
            WalletError::Address(_) => Stage::AddressCodec,
        }
    }

    pub fn category(self) -> (category: Category)
        ensures
            category == spec_category(self),
    {
        match self {
            WalletError::Mnemonic(MnemonicError::ChecksumMismatch) => Category::ChecksumFailure,
            WalletError::Mnemonic(MnemonicError::EntropyUnavailable) => {
                Category::CryptographicInvalid
            },
            WalletError::Mnemonic(_) => Category::InputValidation,
            WalletError::Path(_) => Category::InputValidation,
            WalletError::Key(KeyError::InvalidMasterKey) => Category::CryptographicInvalid,
            WalletError::Key(KeyError::DerivedKeyInvalid) => Category::CryptographicInvalid,
            WalletError::Key(KeyError::InvalidScalar) => Category::CryptographicInvalid,
            WalletError::Key(KeyError::InvalidPublicKey) => Category::CryptographicInvalid,
            WalletError::Key(KeyError::EntropyUnavailable) => Category::CryptographicInvalid,
            WalletError::Key(_) => Category::InputValidation,
            WalletError::Address(AddressError::ChecksumMismatch) => Category::ChecksumFailure,
            WalletError::Address(AddressError::InvalidWitnessVersionChecksumPairing) => {
                Category::ChecksumFailure
            },
            WalletError::Address(AddressError::UnrecognizedAddressFormat) => {
                Category::FormatUnrecognized
            },
            WalletError::Address(AddressError::UnknownVersionByte) => Category::FormatUnrecognized,
            WalletError::Address(AddressError::InvalidWitnessVersion) => {
                Category::FormatUnrecognized
            },
            WalletError::Address(AddressError::InvalidTweak) => Category::CryptographicInvalid,
            WalletError::Address(_) => Category::InputValidation,
        }
    }

    pub fn is_retryable(self) -> (yes: bool)
        ensures
            yes == spec_retryable(self),
    {
        match self {
            WalletError::Key(KeyError::DerivedKeyInvalid) => true,
            _ => false,
        }
    }

    /// The error in words, the stage first.
    pub fn message(self) -> (text: String)
        ensures
            text@ == spec_message(self),
    {
        let words: &str = match self {
            WalletError::Mnemonic(MnemonicError::InvalidWordCount) => {
                "mnemonic: the word count must be 12 or 24"
            },
            WalletError::Mnemonic(MnemonicError::InvalidEntropyLength) => {
                "mnemonic: the entropy must be 16 or 32 bytes"
            },
            WalletError::Mnemonic(MnemonicError::InvalidWord { position }) => {
                "mnemonic: a word is not in the word list"
            },
            WalletError::Mnemonic(MnemonicError::ChecksumMismatch) => {
                "mnemonic: the checksum does not match"
            },
            WalletError::Mnemonic(MnemonicError::EntropyUnavailable) => {
                "mnemonic: the system gave no random bytes"
            },
            WalletError::Path(PathError::Malformed) => "path: the derivation path is malformed",
            WalletError::Path(PathError::IndexOutOfRange) => "path: an index is 2^31 or more",
            WalletError::Path(PathError::TooLong) => "path: more than 255 components",
            WalletError::Key(KeyError::InvalidSeedLength) => {
                "key-derivation: the seed must be 64 bytes"
            },
            WalletError::Key(KeyError::InvalidMasterKey) => {
                "key-derivation: the seed gives no master key"
            },
            WalletError::Key(KeyError::HardenedRequiresPrivateKey) => {
                "key-derivation: a hardened child needs the private key"
            },
            WalletError::Key(KeyError::IndexOutOfRange) => {
                "key-derivation: the index is 2^31 or more"
            },
            WalletError::Key(KeyError::DepthExceeded) => {
                "key-derivation: the key is at the greatest depth"
            },
            WalletError::Key(KeyError::DerivedKeyInvalid) => {
                "key-derivation: no key at this index, try the next"
            },
            WalletError::Key(KeyError::InvalidScalar) => {
                "key-derivation: the bytes are no private key"
            },
            WalletError::Key(KeyError::InvalidHex) => "key-derivation: the text is not hexadecimal",
            WalletError::Key(KeyError::InvalidPublicKey) => {
                "key-derivation: the bytes are no compressed public key"
            },
            WalletError::Key(KeyError::EntropyUnavailable) => {
                "key-derivation: the system gave no random bytes"
            },
            WalletError::Address(AddressError::ChecksumMismatch) => {
                "address-codec: the checksum does not match"
            },
            WalletError::Address(AddressError::UnknownVersionByte) => {
                "address-codec: unknown version byte"
            },
            WalletError::Address(AddressError::InvalidWitnessVersionChecksumPairing) => {
                "address-codec: the checksum variant does not fit the witness version"
            },
            WalletError::Address(AddressError::UnrecognizedAddressFormat) => {
                "address-codec: unrecognized address format"
            },
            WalletError::Address(AddressError::InvalidWitnessVersion) => {
                "address-codec: unsupported witness version"
            },
            WalletError::Address(AddressError::InvalidPadding) => {
                "address-codec: invalid padding of the witness program"
            },
            WalletError::Address(AddressError::InvalidPayloadLength) => {
                "address-codec: invalid payload length"
            },
            WalletError::Address(AddressError::InvalidTweak) => {
                "address-codec: the key has no Taproot output key"
            },
        };
        words.to_owned()
    }
}

/// A failure together with the text that caused it, as it was given.
#[derive(Debug)]
pub struct Failure {
    pub error: WalletError,
    pub input: String,
}

/// A failure as a mathematical value.
pub struct FailureView {
    pub error: WalletError,
    pub input: Seq<char>,
}

impl View for Failure {
    type V = FailureView;

    open spec fn view(&self) -> FailureView {
        FailureView { error: self.error, input: self.input@ }
    }
}

impl Failure {
    /// A failure of `error` on the text `input`.
    pub fn new(error: WalletError, input: &str) -> (failure: Failure)
        ensures
            failure@ == (FailureView { error, input: input@ }),
    {
        Failure { error, input: input.to_owned() }
    }
}

} // verus!
