use btc_tools::address::{AddressFormat, AddressKind, Network};
use btc_tools::error::{Category, Stage, WalletError};
use btc_tools::mnemonic::{Mnemonic, MnemonicError};
use btc_tools::path::{DerivationPath, PathError};
use btc_tools::wallet::{derive_address_at, derive_addresses, generate_wallet, import_wallet};
use btc_tools::xkey::{ExtendedKey, KeyError};
use std::str::FromStr;

const ABANDON: &str = "abandon abandon abandon abandon abandon abandon abandon abandon abandon abandon abandon about";
const ABANDON_SEED: &str = "5eb00bbddcf069084889a8ab9155568165f5c453ccb85e70811aaed6f6da5fc19a5ac40b389cd370d086206dec8aa6c43daea6690f20ad3d8d48b2d2ce9e38e4";

#[test]
fn test_generate_wallet() {
    let result = generate_wallet(12, 3, false);
    assert!(result.is_ok());
    let report = result.unwrap();
    assert_eq!(report.mnemonic.word_count(), 12);
    assert_eq!(report.addresses.len(), 3);
    assert_eq!(report.base_path.to_text(), "m/44'/0'/0'/0");
    assert!(report.addresses.iter().all(|a| a.private_key.is_none()));
}

#[test]
fn test_valid_mnemonic_import() {
    let mnemonic = "abandon abandon abandon abandon abandon abandon abandon abandon abandon abandon abandon about";
    let result = import_wallet(mnemonic, "m/44'/0'/0'/0", 2, false);
    assert!(result.is_ok());
    let report = result.unwrap();
    assert_eq!(report.addresses.len(), 2);
    assert_eq!(report.addresses[1].path.to_text(), "m/44'/0'/0'/0/1");
}

#[test]
fn known_seed_of_the_abandon_sentence() {
    let mnemonic = Mnemonic::parse(ABANDON).unwrap();
    assert_eq!(mnemonic.entropy(), &[0u8; 16][..]);
    assert_eq!(hex::encode(mnemonic.to_seed("")), ABANDON_SEED);
    assert_eq!(
        hex::encode(mnemonic.to_seed("TREZOR")),
        "c55257c360c07c72029aebc1b53c05ed0362ada38ead3e3e9efa3708e53495531f09a6987599d18264c1e1c92f2cf141630c7a3c4ab7c81b2f001698e7463b04"
    );
}

#[test]
fn known_address_of_the_abandon_sentence() {
    let seed = hex::decode(ABANDON_SEED).unwrap();
    let base = DerivationPath::parse("m/44'/0'/0'/0").unwrap();
    let record = derive_address_at(
        &seed,
        Network::Mainnet,
        &base,
        0,
        &[AddressFormat::Legacy, AddressFormat::NativeSegwit],
        true,
    )
    .unwrap();
    assert_eq!(record.path.to_text(), "m/44'/0'/0'/0/0");
    assert_eq!(record.addresses[0].encoded(), "1LqBGSKuX5yYUonjxT5qGfpUsXKYYWeabA");
    assert_eq!(record.addresses[1].kind(), AddressKind::P2wpkh);
    assert_eq!(record.addresses[1].encoded(), "bc1qmxrw6qdh5g3ztfcwm0et5l8mvws4eva24kmp8m");
}

#[test]
fn derivation_agrees_with_the_bitcoin_crate() {
    let secp = bitcoin::secp256k1::Secp256k1::new();
    let seed = hex::decode(ABANDON_SEED).unwrap();
    let theirs_master = bitcoin::bip32::Xpriv::new_master(bitcoin::Network::Bitcoin, &seed).unwrap();
    let ours_master = ExtendedKey::master_from_seed(&seed, Network::Mainnet).unwrap();
    assert_eq!(ours_master.to_base58(), theirs_master.to_string());
    for text in ["m", "m/0", "m/0'", "m/44'/0'/0'/0/7", "m/84h/0h/0h/1/2147483647", "m/1/2/3/4/5/6"] {
        let ours_path = DerivationPath::parse(text).unwrap();
        let theirs_path = bitcoin::bip32::DerivationPath::from_str(text).unwrap();
        let ours = ours_master.derive_path(&ours_path).unwrap();
        let theirs = theirs_master.derive_priv(&secp, &theirs_path).unwrap();
        assert_eq!(ours.to_base58(), theirs.to_string(), "{}", text);
        let theirs_pub = bitcoin::bip32::Xpub::from_priv(&secp, &theirs);
        assert_eq!(ours.neuter().to_base58(), theirs_pub.to_string(), "{}", text);
        assert_eq!(ours.public_key().as_bytes(), &theirs_pub.public_key.serialize()[..]);
        assert_eq!(ours.depth() as usize, ours_path.len());
    }
}

#[test]
fn public_derivation_agrees_with_private_derivation() {
    let seed = hex::decode(ABANDON_SEED).unwrap();
    let master = ExtendedKey::master_from_seed(&seed, Network::Mainnet).unwrap();
    let account = master.derive_path(&DerivationPath::parse("m/44'/0'/0'").unwrap()).unwrap();
    let from_private = account.derive_child(5, false).unwrap().neuter();
    let from_public = account.neuter().derive_child(5, false).unwrap();
    assert_eq!(from_private.to_base58(), from_public.to_base58());
    assert!(from_public.private_key().is_none());
}

#[test]
fn hardened_child_of_a_public_key_is_refused() {
    let seed = hex::decode(ABANDON_SEED).unwrap();
    let master = ExtendedKey::master_from_seed(&seed, Network::Mainnet).unwrap();
    let public = master.neuter();
    assert_eq!(public.derive_child(0, true).unwrap_err(), KeyError::HardenedRequiresPrivateKey);
    assert_eq!(
        public.derive_child(0x8000_0000, true).unwrap_err(),
        KeyError::HardenedRequiresPrivateKey
    );
    assert!(public.derive_child(0, false).is_ok());
    assert_eq!(master.derive_child(0x8000_0000, false).unwrap_err(), KeyError::IndexOutOfRange);
    let (child, index) = master.derive_child_retrying(3, true).unwrap();
    assert_eq!(index, 3);
    assert_eq!(child.child_number(), 0x8000_0003);
}

#[test]
fn master_key_errors() {
    assert_eq!(
        ExtendedKey::master_from_seed(&[0u8; 16], Network::Mainnet).unwrap_err(),
        KeyError::InvalidSeedLength
    );
    assert_eq!(
        ExtendedKey::master_from_seed(&[0u8; 65], Network::Mainnet).unwrap_err(),
        KeyError::InvalidSeedLength
    );
}

#[test]
fn mnemonic_of_entropy_agrees_with_bip39() {
    let zero = Mnemonic::from_entropy(&[0u8; 16]).unwrap();
    assert_eq!(zero.words_as_text(), ABANDON);
    for seed_byte in [1u8, 77, 200, 255] {
        for len in [16usize, 32] {
            let entropy: Vec<u8> =
                (0..len).map(|i| seed_byte.wrapping_mul(31).wrapping_add(i as u8 * 7)).collect();
            let ours = Mnemonic::from_entropy(&entropy).unwrap();
            let theirs = bip39::Mnemonic::from_entropy(&entropy).unwrap();
            assert_eq!(ours.words_as_text(), theirs.to_string());
            assert_eq!(ours.word_count(), len * 3 / 4);
            assert_eq!(ours.to_seed("pass").to_vec(), theirs.to_seed("pass").to_vec());
            let back = Mnemonic::parse(&ours.words_as_text()).unwrap();
            assert_eq!(back.entropy(), &entropy[..]);
            assert_eq!(ours.words().join(" "), ours.words_as_text());
            let list = bip39::Language::English.word_list();
            let by_index: Vec<&str> =
                ours.word_indices().iter().map(|i| list[*i as usize]).collect();
            assert_eq!(by_index.join(" "), ours.words_as_text());
        }
    }
}

#[test]
fn generated_mnemonics_read_back() {
    for count in [12usize, 24] {
        let made = Mnemonic::generate(count).unwrap();
        assert_eq!(made.word_count(), count);
        let read = Mnemonic::parse(&made.words_as_text()).unwrap();
        assert_eq!(read.entropy(), made.entropy());
    }
    assert_eq!(Mnemonic::generate(15).unwrap_err(), MnemonicError::InvalidWordCount);
    assert_eq!(Mnemonic::generate(0).unwrap_err(), MnemonicError::InvalidWordCount);
}

#[test]
fn mnemonic_errors() {
    assert_eq!(Mnemonic::from_entropy(&[0u8; 20]).unwrap_err(), MnemonicError::InvalidEntropyLength);
    assert_eq!(Mnemonic::parse("abandon about").unwrap_err(), MnemonicError::InvalidWordCount);
    assert_eq!(Mnemonic::parse("").unwrap_err(), MnemonicError::InvalidWordCount);
    let wrong_word = ABANDON.replacen("abandon", "abandonn", 1);
    assert_eq!(
        Mnemonic::parse(&wrong_word).unwrap_err(),
        MnemonicError::InvalidWord { position: 0 }
    );
    let capital = ABANDON.replace("about", "About");
    assert_eq!(Mnemonic::parse(&capital).unwrap().entropy(), &[0u8; 16][..]);
    let unknown = ABANDON.replace("about", "abouT1");
    assert_eq!(
        Mnemonic::parse(&unknown).unwrap_err(),
        MnemonicError::InvalidWord { position: 11 }
    );
    let bad_sum = ABANDON.replace("about", "abandon");
    assert_eq!(Mnemonic::parse(&bad_sum).unwrap_err(), MnemonicError::ChecksumMismatch);
    let spaced = format!("  {}\n", ABANDON.replace(' ', " \t "));
    assert!(Mnemonic::parse(&spaced).is_ok());
}

#[test]
fn path_grammar() {
    assert_eq!(DerivationPath::parse("m").unwrap().len(), 0);
    let path = DerivationPath::parse("m/44'/0h/007/2147483647").unwrap();
    assert_eq!(path.len(), 4);
    assert_eq!((path.step(0).index(), path.step(0).is_hardened()), (44, true));
    assert_eq!((path.step(1).index(), path.step(1).is_hardened()), (0, true));
    assert_eq!((path.step(2).index(), path.step(2).is_hardened()), (7, false));
    assert_eq!(path.to_text(), "m/44'/0'/7/2147483647");
    for bad in ["", "M/0", "m/", "m//0", "m/0/", "n/0", "m0", "m/+5", "m/-1", "m/1 ", "m/'", "m/0x1"] {
        assert_eq!(DerivationPath::parse(bad).unwrap_err(), PathError::Malformed, "{:?}", bad);
    }
    assert_eq!(DerivationPath::parse("m/2147483648").unwrap_err(), PathError::IndexOutOfRange);
    assert_eq!(
        DerivationPath::parse("m/99999999999999999999999999'").unwrap_err(),
        PathError::IndexOutOfRange
    );
    let long = format!("m{}", "/1".repeat(255));
    assert_eq!(DerivationPath::parse(&long).unwrap().len(), 255);
    let too_long = format!("m{}", "/1".repeat(256));
    assert_eq!(DerivationPath::parse(&too_long).unwrap_err(), PathError::TooLong);
}

#[test]
fn addresses_are_derived_in_order_and_again_the_same() {
    let seed = hex::decode(ABANDON_SEED).unwrap();
    let base = DerivationPath::parse("m/84'/0'/0'/0").unwrap();
    let formats = [AddressFormat::NativeSegwit, AddressFormat::Taproot];
    let first = derive_addresses(&seed, Network::Mainnet, &base, 4, &formats, false).unwrap();
    let second = derive_addresses(&seed, Network::Mainnet, &base, 4, &formats, false).unwrap();
    assert_eq!(first.len(), 4);
    assert_eq!(first[0].addresses[0].encoded(), "bc1qcr8te4kr609gcawutmrza0j4xv80jy8z306fyu");
    for (i, (a, b)) in first.iter().zip(second.iter()).enumerate() {
        assert_eq!(a.index as usize, i);
        assert_eq!(a.addresses.len(), 2);
        assert_eq!(a.addresses[0].encoded(), b.addresses[0].encoded());
        assert_eq!(a.addresses[1].encoded(), b.addresses[1].encoded());
        assert_eq!(a.public_key.as_bytes(), b.public_key.as_bytes());
        let single =
            derive_address_at(&seed, Network::Mainnet, &base, i as u32, &formats, false).unwrap();
        assert_eq!(single.addresses[0].encoded(), a.addresses[0].encoded());
    }
    assert_ne!(first[0].addresses[0].encoded(), first[1].addresses[0].encoded());
    assert!(derive_addresses(&seed, Network::Mainnet, &base, 0, &formats, false).unwrap().is_empty());
}

#[test]
fn orchestrator_errors_name_their_stage() {
    let seed = hex::decode(ABANDON_SEED).unwrap();
    let base = DerivationPath::parse("m/0").unwrap();
    let error = derive_addresses(&seed, Network::Mainnet, &base, 0x8000_0001, &[], false).unwrap_err();
    assert_eq!(error, WalletError::Path(PathError::IndexOutOfRange));
    assert_eq!(error.stage(), Stage::Path);
    assert_eq!(error.category(), Category::InputValidation);
    let error = derive_addresses(&seed[..32], Network::Mainnet, &base, 1, &[], false).unwrap_err();
    assert_eq!(error, WalletError::Key(KeyError::InvalidSeedLength));
    assert_eq!(error.stage(), Stage::KeyDerivation);
    assert!(!error.is_retryable());
    assert!(WalletError::Key(KeyError::DerivedKeyInvalid).is_retryable());
    assert_eq!(WalletError::Key(KeyError::DerivedKeyInvalid).category(), Category::CryptographicInvalid);
    assert!(error.message().starts_with("key-derivation"));

    let failure = import_wallet("abandon about", "m/0", 1, false).unwrap_err();
    assert_eq!(failure.error, WalletError::Mnemonic(MnemonicError::InvalidWordCount));
    assert_eq!(failure.input, "abandon about");
    let failure = import_wallet(ABANDON, "m/x", 1, false).unwrap_err();
    assert_eq!(failure.error, WalletError::Path(PathError::Malformed));
    assert_eq!(failure.input, "m/x");
    assert_eq!(
        generate_wallet(13, 1, false).unwrap_err(),
        WalletError::Mnemonic(MnemonicError::InvalidWordCount)
    );
}

#[test]
fn private_keys_are_shown_only_on_request() {
    let report = import_wallet(ABANDON, "m/44'/0'/0'/0", 1, true).unwrap();
    let text = report.addresses[0].private_key.clone().unwrap();
    assert!(text.starts_with("xprv"));
    let secp = bitcoin::secp256k1::Secp256k1::new();
    let theirs = bitcoin::bip32::Xpriv::new_master(bitcoin::Network::Bitcoin, &report.seed)
        .unwrap()
        .derive_priv(&secp, &bitcoin::bip32::DerivationPath::from_str("m/44'/0'/0'/0/0").unwrap())
        .unwrap();
    assert_eq!(text, theirs.to_string());
    assert_eq!(hex::encode(&report.seed), ABANDON_SEED);
}

#[test]
fn a_sentence_reads_the_same_in_any_case_and_spacing() {
    let plain = import_wallet(ABANDON, "m/44'/0'/0'/0", 3, true).unwrap();
    let shouted = format!("\t {} \n", ABANDON.to_uppercase().replace(' ', "   "));
    let mixed = "Abandon aBandon abAndon abaNdon abanDon abandOn abandoN ABANDON abandon\u{3000}abandon\nabandon\tAbOuT";
    for other in [shouted.as_str(), mixed] {
        let report = import_wallet(other, "m/44'/0'/0'/0", 3, true).unwrap();
        assert_eq!(report.mnemonic.entropy(), plain.mnemonic.entropy());
        assert_eq!(report.mnemonic.words_as_text(), ABANDON);
        assert_eq!(report.seed, plain.seed);
        assert_eq!(report.addresses.len(), plain.addresses.len());
        for (a, b) in report.addresses.iter().zip(plain.addresses.iter()) {
            assert_eq!(a.addresses[0].encoded(), b.addresses[0].encoded());
            assert_eq!(a.private_key, b.private_key);
            assert_eq!(a.path.to_text(), b.path.to_text());
        }
    }
    assert_eq!(
        Mnemonic::parse(&ABANDON.to_uppercase().replace("ABOUT", "ABANDON")).unwrap_err(),
        MnemonicError::ChecksumMismatch
    );
}

#[test]
fn too_many_addresses_are_refused_with_the_count() {
    let failure = import_wallet(ABANDON, "m/0", 0x8000_0001, false).unwrap_err();
    assert_eq!(failure.error, WalletError::Path(PathError::IndexOutOfRange));
    assert_eq!(failure.input, "2147483649");
    assert_eq!(btc_tools::path::decimal(0), "0");
    assert_eq!(btc_tools::path::decimal(18446744073709551615), "18446744073709551615");
    // a path that is too long for one more component is refused with the path
    let long = format!("m{}", "/1".repeat(255));
    let failure = import_wallet(ABANDON, &long, 1, false).unwrap_err();
    assert_eq!(failure.error, WalletError::Path(PathError::TooLong));
    assert_eq!(failure.input, long);
    match generate_wallet(12, 0x8000_0001, false) {
        Err(error) => assert_eq!(error, WalletError::Path(PathError::IndexOutOfRange)),
        Ok(_) => panic!("more than 2^31 addresses"),
    }
}
