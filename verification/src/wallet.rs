//! The derivation orchestrator: from a seed and a base path to the keys and
//! addresses at the indices 0, 1, 2, ... below the base path, and the two
//! wallets built on it, a fresh one and one from a sentence.

use crate::address::{
    encode, spec_decode, spec_encode, AddressDescriptor, AddressError, AddressFormat,
    DescriptorView, Network,
};
use crate::base58;
use crate::curve::CompressedPoint;
use crate::error::{Failure, FailureView, WalletError};
use crate::mnemonic;
use crate::mnemonic::{spec_seed, Mnemonic, MnemonicError};
use crate::path;
use crate::text::small_letters;
use crate::path::{
    decimal, decimal_text, ChildIndex, DerivationPath, PathError, StepView, INDEX_LIMIT,
    MAX_PATH_LENGTH,
};
use crate::xkey::{
    spec_derive_path, spec_master, spec_serialize, ExtendedKey, KeyError, KeyView,
};
use vstd::prelude::*;

verus! {

/// What is derived at one index, as a mathematical value.
pub struct DerivedView {
    pub index: u32,
    pub path: Seq<StepView>,
    pub public_key: Seq<u8>,
    pub addresses: Seq<DescriptorView>,
    pub private_key: Option<Seq<char>>,
}

/// What is derived at one index below the base path: the full path, the
/// public key, its address in each format asked for, and the text of the
/// private extended key where it was asked for.
#[derive(Debug)]
pub struct DerivedAddress {
    pub index: u32,
    pub path: DerivationPath,
    pub public_key: CompressedPoint,
    pub addresses: Vec<AddressDescriptor>,
    pub private_key: Option<String>,
}

/// The descriptors as mathematical values.
pub open spec fn descriptors_view(list: Seq<AddressDescriptor>) -> Seq<DescriptorView> {
    Seq::new(list.len(), |i: int| list[i]@)
}

impl View for DerivedAddress {
    type V = DerivedView;

    open spec fn view(&self) -> DerivedView {
        DerivedView {
            index: self.index,
            path: self.path@,
            public_key: self.public_key@,
            addresses: descriptors_view(self.addresses@),
            private_key: match self.private_key {
                Some(text) => Some(text@),
                None => None,
            },
        }
    }
}

/// The records as mathematical values.
pub open spec fn records_view(list: Seq<DerivedAddress>) -> Seq<DerivedView> {
    Seq::new(list.len(), |i: int| list[i]@)
}

/// The addresses of a point in the formats, in order; the first format
/// without an address decides the error.
pub open spec fn spec_encode_all(point: Seq<u8>, formats: Seq<AddressFormat>, network: Network)
    -> Result<Seq<DescriptorView>, AddressError>
    decreases formats.len(),
{
    if formats.len() == 0 {
        Ok(Seq::empty())
    } else {
        match spec_encode_all(point, formats.drop_last(), network) {
            Err(error) => Err(error),
            Ok(list) => match spec_encode(point, formats.last(), network) {
                Err(error) => Err(error),
                Ok(descriptor) => Ok(list.push(descriptor)),
            },
        }
    }
}

/// What is derived at one index: the base path is extended by the index as
/// a normal component, the key is derived from the master key of the seed,
/// and its public key is written in the formats.
pub open spec fn spec_address_at(
    seed: Seq<u8>,
    network: Network,
    base: Seq<StepView>,
    index: u32,
    formats: Seq<AddressFormat>,
    show_private: bool,
) -> Result<DerivedView, WalletError> {
    let path = base.push(StepView { index, hardened: false });
    if index >= INDEX_LIMIT {
        Err(WalletError::Path(PathError::IndexOutOfRange))
    } else if base.len() >= MAX_PATH_LENGTH {
        Err(WalletError::Path(PathError::TooLong))
    } else {
        match spec_master(seed, network) {
            Err(error) => Err(WalletError::Key(error)),
            Ok(master) => match spec_derive_path(master, path) {
                Err(error) => Err(WalletError::Key(error)),
                Ok(key) => match spec_encode_all(key.public_key, formats, network) {
                    Err(error) => Err(WalletError::Address(error)),
                    Ok(addresses) => Ok(
                        DerivedView {
                            index,
                            path,
                            public_key: key.public_key,
                            addresses,
                            private_key: if show_private {
                                Some(base58::spec_check_encode(spec_serialize(key)))
                            } else {
                                None
                            },
                        },
                    ),
                },
            },
        }
    }
}

/// What is derived at the indices below `count`, in order; the first index
/// at which nothing is derived decides the error.
pub open spec fn spec_addresses_below(
    seed: Seq<u8>,
    network: Network,
    base: Seq<StepView>,
    count: nat,
    formats: Seq<AddressFormat>,
    show_private: bool,
) -> Result<Seq<DerivedView>, WalletError>
    decreases count,
{
    if count == 0 {
        Ok(Seq::empty())
    } else {
        match spec_addresses_below(seed, network, base, (count - 1) as nat, formats, show_private) {
            Err(error) => Err(error),
            Ok(list) => match spec_address_at(
                seed,
                network,
                base,
                (count - 1) as u32,
                formats,
                show_private,
            ) {
                Err(error) => Err(error),
                Ok(record) => Ok(list.push(record)),
            },
        }
    }
}

/// What `derive_addresses` gives: more than 2^31 addresses are refused at
/// once, because their indices would not all be below 2^31.
pub open spec fn spec_derive_addresses(
    seed: Seq<u8>,
    network: Network,
    base: Seq<StepView>,
    count: nat,
    formats: Seq<AddressFormat>,
    show_private: bool,
) -> Result<Seq<DerivedView>, WalletError> {
    if count > INDEX_LIMIT {
        Err(WalletError::Path(PathError::IndexOutOfRange))
    } else {
        spec_addresses_below(seed, network, base, count, formats, show_private)
    }
}

proof fn lemma_encode_error_stays(
    point: Seq<u8>,
    formats: Seq<AddressFormat>,
    network: Network,
    count: int,
)
    requires
        0 <= count <= formats.len(),
        spec_encode_all(point, formats.take(count), network) is Err,
    ensures
        spec_encode_all(point, formats, network) == spec_encode_all(
            point,
            formats.take(count),
            network,
        ),
    decreases formats.len() - count,
{
    if count < formats.len() {
        assert(formats.take(count + 1).drop_last() =~= formats.take(count));
        lemma_encode_error_stays(point, formats, network, count + 1);
    } else {
        assert(formats.take(count) =~= formats);
    }
}

proof fn lemma_addresses_error_stays(
    seed: Seq<u8>,
    network: Network,
    base: Seq<StepView>,
    reached: nat,
    count: nat,
    formats: Seq<AddressFormat>,
    show_private: bool,
)
    requires
        reached <= count,
        spec_addresses_below(seed, network, base, reached, formats, show_private) is Err,
    ensures
        spec_addresses_below(seed, network, base, count, formats, show_private)
            == spec_addresses_below(seed, network, base, reached, formats, show_private),
    decreases count - reached,
{
    if reached < count {
        lemma_addresses_error_stays(
            seed,
            network,
            base,
            reached,
            (count - 1) as nat,
            formats,
            show_private,
        );
    }
}

/// Deriving addresses never fails at the mnemonic stage.
proof fn lemma_addresses_error_stage(
    seed: Seq<u8>,
    network: Network,
    base: Seq<StepView>,
    count: nat,
    formats: Seq<AddressFormat>,
    show_private: bool,
)
    ensures
        spec_addresses_below(seed, network, base, count, formats, show_private) matches Err(e)
            ==> !(e is Mnemonic),
    decreases count,
{
    if count > 0 {
        lemma_addresses_error_stage(
            seed,
            network,
            base,
            (count - 1) as nat,
            formats,
            show_private,
        );
    }
}

/// The addresses of a point in the formats, in order.
pub fn encode_all(point: &CompressedPoint, formats: &[AddressFormat], network: Network) -> (result:
    Result<Vec<AddressDescriptor>, AddressError>)
    ensures
        match (result, spec_encode_all(point@, formats@, network)) {
            (Ok(got), Ok(want)) => descriptors_view(got@) == want,
            (Err(got), Err(want)) => got == want,
            _ => false,
        },
{
    let mut list: Vec<AddressDescriptor> = Vec::new();
    let mut i: usize = 0;
    proof {
        assert(descriptors_view(list@) =~= Seq::<DescriptorView>::empty());
    }
    while i < formats.len()
        invariant
            i <= formats.len(),
            spec_encode_all(point@, formats@.take(i as int), network) == Ok::<
                Seq<DescriptorView>,
                AddressError,
            >(descriptors_view(list@)),
        decreases formats.len() - i,
    {
        proof {
            assert(formats@.take(i + 1).drop_last() =~= formats@.take(i as int));
            assert(formats@.take(i + 1).last() == formats@[i as int]);
        }
        match encode(point, formats[i], network) {
            Err(error) => {
                proof {
                    lemma_encode_error_stays(point@, formats@, network, i + 1);
                }
                return Err(error);
            },
            Ok(descriptor) => {
                let ghost before = descriptors_view(list@);
                list.push(descriptor);
                assert(descriptors_view(list@) =~= before.push(descriptor@));
            },
        }
        i += 1;
    }
    proof {
        assert(formats@.take(formats@.len() as int) =~= formats@);
    }
    Ok(list)
}

/// What is derived at one index below the base path.
pub fn derive_address_at(
    seed: &[u8],
    network: Network,
    base_path: &DerivationPath,
    index: u32,
    formats: &[AddressFormat],
    show_private: bool,
) -> (result: Result<DerivedAddress, WalletError>)
    ensures
        match (result, spec_address_at(seed@, network, base_path@, index, formats@, show_private)) {
            (Ok(got), Ok(want)) => got@ == want,
            (Err(got), Err(want)) => got == want,
            _ => false,
        },
{
    let step = match ChildIndex::new(index, false) {
        Some(step) => step,
        None => {
            return Err(WalletError::Path(PathError::IndexOutOfRange));
        },
    };
    let path = match base_path.child(step) {
        Some(path) => path,
        None => {
            return Err(WalletError::Path(PathError::TooLong));
        },
    };
    let master = match ExtendedKey::master_from_seed(seed, network) {
        Ok(master) => master,
        Err(error) => {
            return Err(WalletError::Key(error));
        },
    };
    let key = match master.derive_path(&path) {
        Ok(key) => key,
        Err(error) => {
            return Err(WalletError::Key(error));
        },
    };
    let public_key = key.public_key();
    let addresses = match encode_all(&public_key, formats, network) {
        Ok(addresses) => addresses,
        Err(error) => {
            return Err(WalletError::Address(error));
        },
    };
    let private_key = if show_private {
        Some(key.to_base58())
    } else {
        None
    };
    Ok(DerivedAddress { index, path, public_key, addresses, private_key })
}

/// What is derived at the indices 0 to `count - 1` below the base path.
pub fn derive_addresses(
    seed: &[u8],
    network: Network,
    base_path: &DerivationPath,
    count: usize,
    formats: &[AddressFormat],
    show_private: bool,
) -> (result: Result<Vec<DerivedAddress>, WalletError>)
    ensures
        match (
            result,
            spec_derive_addresses(
                seed@,
                network,
                base_path@,
                count as nat,
                formats@,
                show_private,
            ),
        ) {
            (Ok(got), Ok(want)) => records_view(got@) == want && got@.len() == count,
            (Err(got), Err(want)) => got == want,
            _ => false,
        },
{
    if count > INDEX_LIMIT as usize {
        return Err(WalletError::Path(PathError::IndexOutOfRange));
    }
    let mut list: Vec<DerivedAddress> = Vec::new();
    let mut index: u32 = 0;
    proof {
        assert(records_view(list@) =~= Seq::<DerivedView>::empty());
    }
    while (index as usize) < count
        invariant
            index <= count <= INDEX_LIMIT,
            list@.len() == index,
            spec_addresses_below(
                seed@,
                network,
                base_path@,
                index as nat,
                formats@,
                show_private,
            ) == Ok::<Seq<DerivedView>, WalletError>(records_view(list@)),
        decreases count - index,
    {
        match derive_address_at(seed, network, base_path, index, formats, show_private) {
            Err(error) => {
                proof {
                    lemma_addresses_error_stays(
                        seed@,
                        network,
                        base_path@,
                        (index + 1) as nat,
                        count as nat,
                        formats@,
                        show_private,
                    );
                }
                return Err(error);
            },
            Ok(record) => {
                let ghost before = records_view(list@);
                list.push(record);
                assert(records_view(list@) =~= before.push(record@));
            },
        }
        index += 1;
    }
    Ok(list)
}

/// A wallet: the mnemonic, its seed under the empty passphrase, the base
/// path, and what is derived below it.
#[derive(Debug)]
pub struct WalletReport {
    pub mnemonic: Mnemonic,
    pub seed: Vec<u8>,
    pub base_path: DerivationPath,
    pub addresses: Vec<DerivedAddress>,
}

/// The base path of a fresh wallet: `m/44'/0'/0'/0`.
pub open spec fn default_base() -> Seq<StepView> {
    seq![
        StepView { index: 44, hardened: true },
        StepView { index: 0, hardened: true },
        StepView { index: 0, hardened: true },
        StepView { index: 0, hardened: false },
    ]
}

/// The formats of a wallet's addresses: native SegWit alone.
pub open spec fn wallet_formats() -> Seq<AddressFormat> {
    seq![AddressFormat::NativeSegwit]
}

/// What a wallet of an entropy holds below a base path.
pub open spec fn spec_wallet_addresses(
    entropy: Seq<u8>,
    base: Seq<StepView>,
    count: nat,
    show_private: bool,
) -> Result<Seq<DerivedView>, WalletError> {
    spec_derive_addresses(
        spec_seed(entropy, Seq::empty()),
        Network::Mainnet,
        base,
        count,
        wallet_formats(),
        show_private,
    )
}

/// The base path `m/44'/0'/0'/0`.
pub fn default_base_path() -> (path: DerivationPath)
    ensures
        path@ == default_base(),
{
    let root = DerivationPath::master();
    let purpose = ChildIndex::new(44, true);
    let zero_hard = ChildIndex::new(0, true);
    let zero = ChildIndex::new(0, false);
    match (purpose, zero_hard, zero) {
        (Some(purpose), Some(zero_hard), Some(zero)) => {
            match root.child(purpose) {
                Some(one) => match one.child(zero_hard) {
                    Some(two) => match two.child(zero_hard) {
                        Some(three) => match three.child(zero) {
                            Some(four) => {
                                assert(four@ =~= default_base());
                                four
                            },
                            None => three,
                        },
                        None => two,
                    },
                    None => one,
                },
                None => root,
            }
        },
        _ => root,
    }
}

/// The wallet of a mnemonic: its seed under the empty passphrase and the
/// native SegWit addresses on mainnet at the first `address_count` indices
/// below the base path.
pub fn wallet_from_mnemonic(
    mnemonic: Mnemonic,
    base_path: DerivationPath,
    address_count: usize,
    show_private: bool,
) -> (result: Result<WalletReport, WalletError>)
    ensures
        match (
            result,
            spec_wallet_addresses(mnemonic@, base_path@, address_count as nat, show_private),
        ) {
            (Ok(got), Ok(want)) => got.mnemonic@ == mnemonic@ && got.seed@ == spec_seed(
                mnemonic@,
                Seq::empty(),
            ) && got.base_path@ == base_path@ && records_view(got.addresses@) == want
                && got.addresses@.len() == address_count,
            (Err(got), Err(want)) => got == want,
            _ => false,
        },
{
    let seed = mnemonic.to_seed("");
    proof {
        reveal_strlit("");
        assert(""@ =~= Seq::<char>::empty());
    }
    let formats: [AddressFormat; 1] = [AddressFormat::NativeSegwit];
    assert(formats@ =~= wallet_formats());
    match derive_addresses(
        seed.as_slice(),
        Network::Mainnet,
        &base_path,
        address_count,
        formats.as_slice(),
        show_private,
    ) {
        Ok(addresses) => Ok(WalletReport { mnemonic, seed, base_path, addresses }),
        Err(error) => Err(error),
    }
}

/// An error that deriving the addresses of a fresh wallet gives for some
/// entropy of the length that belongs to the word count.
pub open spec fn is_derivation_error(
    error: WalletError,
    word_count: nat,
    address_count: nat,
    show_private: bool,
) -> bool {
    exists|entropy: Seq<u8>|
        entropy.len() * 3 == word_count * 4 && #[trigger] spec_wallet_addresses(
            entropy,
            default_base(),
            address_count,
            show_private,
        ) == Err::<Seq<DerivedView>, WalletError>(error)
}

/// A fresh wallet of 12 or 24 words with addresses below `m/44'/0'/0'/0`.
///
/// The words come from the system's random bytes; what is made of them is
/// what `wallet_from_mnemonic` makes of them. It fails on a wrong word
/// count, where the system gives no random bytes, and where the addresses
/// of the entropy drawn cannot be derived.
pub fn generate_wallet(word_count: usize, address_count: usize, show_private: bool) -> (result:
    Result<WalletReport, WalletError>)
    ensures
        (word_count != 12 && word_count != 24) <==> (result matches Err(e) && e
            == WalletError::Mnemonic(MnemonicError::InvalidWordCount)),
        result matches Err(e) ==> e == WalletError::Mnemonic(MnemonicError::InvalidWordCount) || e
            == WalletError::Mnemonic(MnemonicError::EntropyUnavailable) || is_derivation_error(
            e,
            word_count as nat,
            address_count as nat,
            show_private,
        ),
        result matches Ok(report) ==> report.mnemonic@.len() * 3 == word_count * 4
            && report.seed@ == spec_seed(report.mnemonic@, Seq::empty()) && report.base_path@
            == default_base() && spec_wallet_addresses(
            report.mnemonic@,
            default_base(),
            address_count as nat,
            show_private,
        ) == Ok::<Seq<DerivedView>, WalletError>(records_view(report.addresses@)),
{
    let mnemonic = match Mnemonic::generate(word_count) {
        Ok(mnemonic) => mnemonic,
        Err(error) => {
            return Err(WalletError::Mnemonic(error));
        },
    };
    let ghost entropy = mnemonic@;
    match wallet_from_mnemonic(mnemonic, default_base_path(), address_count, show_private) {
        Ok(report) => Ok(report),
        Err(error) => {
            proof {
                lemma_addresses_error_stage(
                    spec_seed(entropy, Seq::empty()),
                    Network::Mainnet,
                    default_base(),
                    address_count as nat,
                    wallet_formats(),
                    show_private,
                );
                assert(spec_wallet_addresses(
                    entropy,
                    default_base(),
                    address_count as nat,
                    show_private,
                ) == Err::<Seq<DerivedView>, WalletError>(error));
            }
            Err(error)
        },
    }
}

/// What importing a sentence with a base path gives. A failure holds the
/// text that caused it: the sentence, the path, or the count where more
/// than 2^31 addresses are asked for.
pub open spec fn spec_import(
    sentence: Seq<char>,
    path_text: Seq<char>,
    count: nat,
    show_private: bool,
) -> Result<(Seq<u8>, Seq<StepView>, Seq<DerivedView>), FailureView> {
    match mnemonic::spec_parse(sentence) {
        Err(error) => Err(FailureView { error: WalletError::Mnemonic(error), input: sentence }),
        Ok(entropy) => match path::spec_parse(path_text) {
            Err(error) => Err(FailureView { error: WalletError::Path(error), input: path_text }),
            Ok(base) => if count > INDEX_LIMIT {
                Err(
                    FailureView {
                        error: WalletError::Path(PathError::IndexOutOfRange),
                        input: decimal_text(count),
                    },
                )
            } else {
                match spec_wallet_addresses(entropy, base, count, show_private) {
                    Err(error) => Err(FailureView { error, input: path_text }),
                    Ok(list) => Ok((entropy, base, list)),
                }
            },
        },
    }
}

/// Two valid sentences whose words are the same but for capital letters
/// and for the white space between and around them give the same wallet.
pub proof fn lemma_import_ignores_case_and_space(
    first: Seq<char>,
    second: Seq<char>,
    path_text: Seq<char>,
    count: nat,
    show_private: bool,
)
    requires
        mnemonic::spec_parse(first) is Ok,
        mnemonic::split_words(first).len() == mnemonic::split_words(second).len(),
        forall|j: int|
            0 <= j < mnemonic::split_words(first).len() ==> small_letters(
                #[trigger] mnemonic::split_words(first)[j],
            ) == small_letters(mnemonic::split_words(second)[j]),
    ensures
        spec_import(second, path_text, count, show_private) == spec_import(
            first,
            path_text,
            count,
            show_private,
        ),
{
    mnemonic::lemma_parse_ignores_case_and_space(first, second);
}

/// The wallet of a sentence: the sentence is read first, then the base
/// path, then the count is held against 2^31, then the addresses are
/// derived. A failure names the stage and holds the text that caused it.
pub fn import_wallet(
    mnemonic_str: &str,
    derivation_path: &str,
    address_count: usize,
    show_private: bool,
) -> (result: Result<WalletReport, Failure>)
    ensures
        match (
            result,
            spec_import(mnemonic_str@, derivation_path@, address_count as nat, show_private),
        ) {
            (Ok(got), Ok(want)) => got.mnemonic@ == want.0 && got.seed@ == spec_seed(
                want.0,
                Seq::empty(),
            ) && got.base_path@ == want.1 && records_view(got.addresses@) == want.2,
            (Err(got), Err(want)) => got@ == want,
            _ => false,
        },
{
    let mnemonic = match Mnemonic::parse(mnemonic_str) {
        Ok(mnemonic) => mnemonic,
        Err(error) => {
            return Err(Failure::new(WalletError::Mnemonic(error), mnemonic_str));
        },
    };
    let base_path = match DerivationPath::parse(derivation_path) {
        Ok(path) => path,
        Err(error) => {
            return Err(Failure::new(WalletError::Path(error), derivation_path));
        },
    };
    if address_count > INDEX_LIMIT as usize {
        let count_text = decimal(address_count as u64);
        return Err(
            Failure::new(WalletError::Path(PathError::IndexOutOfRange), count_text.as_str()),
        );
    }
    match wallet_from_mnemonic(mnemonic, base_path, address_count, show_private) {
        Ok(report) => Ok(report),
        Err(error) => Err(Failure::new(error, derivation_path)),
    }
}

} // verus!
