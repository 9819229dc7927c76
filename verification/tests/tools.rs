use btc_tools::address::{AddressError, AddressFormat, AddressKind, Network};
use btc_tools::converter::{
    convert_formats, display_all_formats_from_pubkey, generate_example_pubkey, parse_public_key,
    Conversion,
};
use btc_tools::curve::CompressedPoint;
use btc_tools::educational::{
    private_key_step, run_tutorial, step1_private_key, step2_public_key, step3_hashing,
    step4_address_generation,
};
use btc_tools::error::{Category, Stage, WalletError};
use btc_tools::explain::{explain_component, explain_derivation_path};
use btc_tools::menu::{continues_after, menu_action, word_count_choice, MenuAction};
use btc_tools::script::{script_pubkey, script_type, ScriptType};
use btc_tools::validator::{
    get_address_type, get_network_display, get_script_type_display, validate_address,
    ValidationReport,
};
use btc_tools::xkey::KeyError;
use std::str::FromStr;

#[test]
fn test_example_conversion_mainnet() {
    // Test with a known public key
    let pubkey_hex = "02c6047f9441ed7d6d3045406e95c07cd85c778e4b8cef3ca7abac09b95c709ee5";
    let result = convert_formats(pubkey_hex, false);
    assert!(result.is_ok());
    match result.unwrap() {
        Conversion::FromPublicKey { public_key, addresses } => {
            assert_eq!(public_key.to_hex(), pubkey_hex);
            assert_eq!(addresses.len(), 4);
            assert!(addresses[0].encoded().starts_with('1'));
            assert!(addresses[1].encoded().starts_with('3'));
            assert!(addresses[2].encoded().starts_with("bc1q"));
            assert!(addresses[3].encoded().starts_with("bc1p"));
        }
        other => panic!("{:?}", other),
    }
}

#[test]
fn test_example_conversion_testnet() {
    let pubkey = generate_example_pubkey().unwrap();
    let result_testnet = convert_formats(&pubkey.to_hex(), true);
    assert!(result_testnet.is_ok());
    match result_testnet.unwrap() {
        Conversion::FromPublicKey { addresses, .. } => {
            let first = addresses[0].encoded().chars().next().unwrap();
            assert!(first == 'm' || first == 'n');
            assert!(addresses[1].encoded().starts_with('2'));
            assert!(addresses[2].encoded().starts_with("tb1q"));
            assert!(addresses[3].encoded().starts_with("tb1p"));
            assert!(addresses.iter().all(|a| a.network() == Network::Testnet));
        }
        other => panic!("{:?}", other),
    }
}

#[test]
fn test_address_input() {
    let address = "bc1qar0srrr7xfkvy5l643lydnw9re59gtzzwf5mdq";
    let result = convert_formats(address, false);
    assert!(result.is_ok());
    match result.unwrap() {
        Conversion::AddressOnly { facts, network_mismatch } => {
            assert_eq!(facts.descriptor.network(), Network::Mainnet);
            assert!(!network_mismatch);
        }
        other => panic!("{:?}", other),
    }

    let testnet_address = "tb1qrp33g0q5c5txsp9arysrx4k6zdkfs4nce4xj0gdcccefvpysxf3q0sl5k7";
    let result_testnet = convert_formats(testnet_address, true);
    assert!(result_testnet.is_ok());
    match result_testnet.unwrap() {
        Conversion::AddressOnly { facts, network_mismatch } => {
            assert!(!network_mismatch);
            assert_eq!(facts.descriptor.kind(), AddressKind::P2wsh);
            assert_eq!(facts.script.len(), 34);
            assert_eq!(facts.script_label, "P2WSH (SegWit)");
        }
        other => panic!("{:?}", other),
    }
}

#[test]
fn conversion_refuses_what_is_neither_key_nor_address() {
    let failure = convert_formats("not a key", false).unwrap_err();
    assert_eq!(failure.error, WalletError::Address(AddressError::UnrecognizedAddressFormat));
    assert_eq!(failure.input, "not a key");
    assert_eq!(failure.error.stage(), Stage::AddressCodec);
    assert_eq!(failure.error.category(), Category::FormatUnrecognized);
    // an uncompressed key is no compressed key, and no address either
    let uncompressed = "0479be667ef9dcbbac55a06295ce870b07029bfcdb2dce28d959f2815b16f81798483ada7726a3c4655da4fbfc0e1108a8fd17b448a68554199c47d08ffb10d4b8";
    assert!(convert_formats(uncompressed, false).is_err());
}

#[test]
fn public_key_text() {
    let hex_text = "02c6047f9441ed7d6d3045406e95c07cd85c778e4b8cef3ca7abac09b95c709ee5";
    let plain = parse_public_key(hex_text).unwrap();
    assert_eq!(plain.as_bytes()[0], 2);
    assert_eq!(plain.as_bytes()[1], 0xc6);
    assert_eq!(plain.as_bytes().len(), 33);
    assert_eq!(plain.to_hex(), hex_text);
    let marked = parse_public_key(&format!("  0x0x{}\n", hex_text.to_uppercase())).unwrap();
    assert_eq!(marked.as_bytes(), plain.as_bytes());
    assert_eq!(parse_public_key("zz").unwrap_err(), KeyError::InvalidHex);
    assert_eq!(parse_public_key("abc").unwrap_err(), KeyError::InvalidHex);
    assert_eq!(parse_public_key("0x 02").unwrap_err(), KeyError::InvalidHex);
    assert_eq!(parse_public_key("").unwrap_err(), KeyError::InvalidPublicKey);
    assert_eq!(parse_public_key("02c6").unwrap_err(), KeyError::InvalidPublicKey);
    // 33 bytes with a sign byte, but no point of the curve has this x
    let off_curve = format!("02{}", "00".repeat(31) + "05");
    assert_eq!(parse_public_key(&off_curve).unwrap_err(), KeyError::InvalidPublicKey);
    assert!(CompressedPoint::from_bytes(&hex::decode(&off_curve).unwrap()).is_none());
    // the same key with the wrong sign byte is another point
    let other = parse_public_key(&format!("03{}", &hex_text[2..])).unwrap();
    assert_ne!(other.as_bytes(), plain.as_bytes());
}

#[test]
fn points_of_scalars() {
    let mut one = [0u8; 32];
    one[31] = 1;
    let g = CompressedPoint::from_scalar(&one).unwrap();
    assert_eq!(g.to_hex(), "0279be667ef9dcbbac55a06295ce870b07029bfcdb2dce28d959f2815b16f81798");
    assert!(CompressedPoint::from_scalar(&[0u8; 32]).is_none());
    assert!(CompressedPoint::from_scalar(&[0xffu8; 32]).is_none());
    assert!(CompressedPoint::from_scalar(&one[1..]).is_none());
    let order_minus_one =
        hex::decode("fffffffffffffffffffffffffffffffebaaedce6af48a03bbfd25e8cd0364140").unwrap();
    assert!(CompressedPoint::from_scalar(&order_minus_one).is_some());
    let order =
        hex::decode("fffffffffffffffffffffffffffffffebaaedce6af48a03bbfd25e8cd0364141").unwrap();
    assert!(CompressedPoint::from_scalar(&order).is_none());
}

#[test]
fn example_keys_differ() {
    let a = generate_example_pubkey().unwrap();
    let b = generate_example_pubkey().unwrap();
    assert_ne!(a.as_bytes(), b.as_bytes());
    assert!(CompressedPoint::from_bytes(a.as_bytes()).is_some());
}

#[test]
fn all_formats_of_a_key() {
    let key = parse_public_key("0279be667ef9dcbbac55a06295ce870b07029bfcdb2dce28d959f2815b16f81798")
        .unwrap();
    let list = display_all_formats_from_pubkey(&key, Network::Mainnet).unwrap();
    let texts: Vec<&str> = list.iter().map(|d| d.encoded()).collect();
    assert_eq!(
        texts,
        [
            "1BgGZ9tcN4rm9KBzDn7KprQz87SZ26SAMH",
            "3JvL6Ymt8MVWiCNHC7oWU6nLeHNJKLZGLN",
            "bc1qw508d6qejxtdg4y5r3zarvary0c5xw7kv8f3t4",
            "bc1pmfr3p9j00pfxjh0zmgp99y8zftmd3s5pmedqhyptwy6lm87hf5sspknck9",
        ]
    );
    assert_eq!(list[0].kind(), AddressFormat::Legacy.kind());
    assert_eq!(list[3].payload().len(), 32);
}

#[test]
fn test_tutorial_steps() {
    // Test individual steps don't panic
    let result = step1_private_key();
    assert!(result.is_ok());
    let step = result.unwrap();
    assert_eq!(step.secret_hex.len(), 64);
    assert!(step.wif.starts_with('K') || step.wif.starts_with('L'));
}

#[test]
fn tutorial_material() {
    let mut one = [0u8; 32];
    one[31] = 1;
    let step = private_key_step(&one).unwrap();
    assert_eq!(step.secret_hex, "0000000000000000000000000000000000000000000000000000000000000001");
    assert_eq!(step.wif, "KwDiBf89QgGbjEhKnhXJuH7LrciVrZi3qYjgd9M7rFU73sVHnoWn");
    assert_eq!(private_key_step(&[0u8; 32]).unwrap_err(), KeyError::InvalidScalar);

    let key = step2_public_key().unwrap();
    let hashes = step3_hashing(&key).unwrap();
    assert_eq!(hashes.sha256.len(), 32);
    assert_eq!(hashes.hash160.len(), 20);
    let theirs = bitcoin::PublicKey::from_slice(key.as_bytes()).unwrap();
    assert_eq!(&hashes.hash160[..], AsRef::<[u8]>::as_ref(&theirs.pubkey_hash()));
    let addresses = step4_address_generation(&key).unwrap();
    assert_eq!(addresses.legacy.payload(), &hashes.hash160[..]);
    assert_eq!(addresses.native_segwit.payload(), &hashes.hash160[..]);
    assert_eq!(
        addresses.legacy.encoded(),
        bitcoin::Address::p2pkh(&theirs, bitcoin::Network::Bitcoin).to_string()
    );
}

#[test]
fn test_valid_legacy_address() {
    let result = validate_address("1A1zP1eP5QGefi2DMPTfTL5SLmv7DivfNa");
    assert!(result.is_ok());
    match result.unwrap() {
        ValidationReport::Valid(facts) => {
            assert_eq!(facts.kind_name, "P2PKH (Pay-to-PubKey-Hash)");
            assert_eq!(facts.description, "Legacy address format, most compatible");
            assert_eq!(facts.network_label, "Mainnet (Production)");
            assert_eq!(facts.script_label, "P2PKH");
            assert_eq!(
                facts.script_hex,
                "76a91462e907b15cbf27d5425399ebf6f0fb50ebb88f1888ac"
            );
            assert_eq!(facts.script.len(), 25);
        }
        other => panic!("{:?}", other),
    }
}

#[test]
fn test_valid_segwit_address() {
    let result = validate_address("bc1qar0srrr7xfkvy5l643lydnw9re59gtzzwf5mdq");
    assert!(result.is_ok());
    let report = result.unwrap();
    assert!(report.is_valid());
    match report {
        ValidationReport::Valid(facts) => {
            assert_eq!(facts.descriptor.kind(), AddressKind::P2wpkh);
            assert_eq!(facts.script_label, "P2WPKH (SegWit)");
            assert_eq!(facts.script_hex, "0014e8df018c7e326cc253faac7e46cdc51e68542c42");
        }
        other => panic!("{:?}", other),
    }
}

#[test]
fn test_invalid_address() {
    let result = validate_address("invalid_address_123");
    assert!(result.is_ok()); // Function returns Ok but displays error
    match result.unwrap() {
        ValidationReport::Invalid(failure) => {
            assert_eq!(failure.input, "invalid_address_123");
            assert_eq!(failure.error, WalletError::Address(AddressError::UnrecognizedAddressFormat));
        }
        other => panic!("{:?}", other),
    }
}

#[test]
fn validation_agrees_with_the_bitcoin_crate() {
    for text in [
        "1A1zP1eP5QGefi2DMPTfTL5SLmv7DivfNa",
        "3J98t1WpEZ73CNmQviecrnyiWrnqRhWNLy",
        "bc1qar0srrr7xfkvy5l643lydnw9re59gtzzwf5mdq",
        "bc1p0xlxvlhemja6c4dqv22uapctqupfhlxm9h8z3k2e72q4k9hcz7vqzk5jj0",
        "tb1qrp33g0q5c5txsp9arysrx4k6zdkfs4nce4xj0gdcccefvpysxf3q0sl5k7",
        "mipcBbFg9gMiCh81Kj8tqqdgoZub1ZJRfn",
        "2MzQwSSnBHWHqSAqtTVQ6v47XtaisrJa1Vc",
        "bcrt1qw508d6qejxtdg4y5r3zarvary0c5xw7kygt080",
    ] {
        let theirs = bitcoin::Address::from_str(text).unwrap().assume_checked();
        match validate_address(text).unwrap() {
            ValidationReport::Valid(facts) => {
                assert_eq!(facts.script, theirs.script_pubkey().to_bytes(), "{}", text);
                assert_eq!(facts.script_hex, theirs.script_pubkey().to_hex_string());
                assert_eq!(facts.descriptor.encoded(), text);
                assert!(facts.descriptor.network_matches(facts.descriptor.network()));
            }
            other => panic!("{}: {:?}", text, other),
        }
    }
}

#[test]
fn tables_of_names() {
    assert_eq!(get_address_type(AddressKind::P2sh).0, "P2SH (Pay-to-Script-Hash)");
    assert_eq!(get_address_type(AddressKind::P2wsh).1, "Native SegWit for scripts");
    assert_eq!(get_address_type(AddressKind::P2tr).0, "P2TR (Pay-to-Taproot)");
    assert_eq!(get_network_display(Network::Testnet), "Testnet (Testing)");
    assert_eq!(get_network_display(Network::Regtest), "Regtest (Local)");
    assert_eq!(get_script_type_display(&[]), "Unknown");
    let payload = [7u8; 32];
    assert_eq!(script_type(&script_pubkey(AddressKind::P2tr, &payload)), ScriptType::P2tr);
    assert_eq!(script_type(&script_pubkey(AddressKind::P2wsh, &payload)), ScriptType::P2wsh);
    assert_eq!(script_type(&script_pubkey(AddressKind::P2sh, &payload[..20])), ScriptType::P2sh);
    assert_eq!(script_type(&script_pubkey(AddressKind::P2pkh, &payload[..19])), ScriptType::Unknown);
    assert_eq!(get_script_type_display(&script_pubkey(AddressKind::P2tr, &payload)), "P2TR (Taproot)");
}

#[test]
fn menu_decisions() {
    assert_eq!(menu_action(0), Some(MenuAction::Validate));
    assert_eq!(menu_action(1), Some(MenuAction::Generate));
    assert_eq!(menu_action(2), Some(MenuAction::Import));
    assert_eq!(menu_action(3), Some(MenuAction::Convert));
    assert_eq!(menu_action(4), Some(MenuAction::Learn));
    assert_eq!(menu_action(5), Some(MenuAction::Example));
    assert_eq!(menu_action(6), Some(MenuAction::Exit));
    assert_eq!(menu_action(7), None);
    assert!(continues_after(MenuAction::Learn));
    assert!(!continues_after(MenuAction::Exit));
    assert_eq!(word_count_choice(0), 12);
    assert_eq!(word_count_choice(1), 24);
}

#[test]
fn path_explanations() {
    let notes = explain_derivation_path("m/44'/0'/0'/0");
    let parts: Vec<&str> = notes.iter().map(|n| n.part.as_str()).collect();
    assert_eq!(parts, ["m", "44'", "0'", "0'", "0"]);
    assert_eq!(notes[0].explanation, "m = Master key (root of the tree)");
    assert_eq!(notes[1].explanation, "44' = Purpose (BIP44 - Multi-Account Hierarchy)");
    assert_eq!(notes[2].explanation, "0' = Coin type (0 = Bitcoin, 1 = Testnet)");
    assert_eq!(notes[3].explanation, "Account number (0' = first account)");
    assert_eq!(notes[4].explanation, "0 = External chain (receiving addresses)");
    let notes = explain_derivation_path("x/84'/1'/9'/1/7/3/");
    let words: Vec<&str> = notes.iter().map(|n| n.explanation.as_str()).collect();
    assert_eq!(
        words,
        [
            "Unknown component",
            "Unknown component",
            "1' = Coin type (1 = Bitcoin Testnet)",
            "Account number (0' = first account)",
            "1 = Internal chain (change addresses)",
            "Address index (increments for each address)",
            "Unknown component",
            "Unknown component",
        ]
    );
    assert_eq!(notes[7].part, "");
    assert_eq!(explain_derivation_path("").len(), 1);
    let part: Vec<char> = "44'''".chars().collect();
    assert_eq!(explain_component(1, &part), "44' = Purpose (BIP44 - Multi-Account Hierarchy)");
}

#[test]
fn tutorial_runs_through() {
    let material = run_tutorial().unwrap();
    assert_eq!(material.private_key.secret_hex.len(), 64);
    assert_eq!(material.addresses.legacy.payload(), &material.hashes.hash160[..]);
    assert!(material.addresses.native_segwit.encoded().starts_with("bc1q"));
    let again = step3_hashing(&material.public_key).unwrap();
    assert_eq!(again.sha256, material.hashes.sha256);
}

#[test]
fn an_address_of_another_network_is_flagged() {
    let mainnet = "bc1qar0srrr7xfkvy5l643lydnw9re59gtzzwf5mdq";
    match convert_formats(mainnet, true).unwrap() {
        Conversion::AddressOnly { facts, network_mismatch } => {
            assert!(network_mismatch);
            assert_eq!(facts.descriptor.network(), Network::Mainnet);
            assert_eq!(facts.network_label, "Mainnet (Production)");
        }
        other => panic!("{:?}", other),
    }
    let testnet = "mipcBbFg9gMiCh81Kj8tqqdgoZub1ZJRfn";
    match convert_formats(testnet, false).unwrap() {
        Conversion::AddressOnly { network_mismatch, .. } => assert!(network_mismatch),
        other => panic!("{:?}", other),
    }
    match convert_formats(testnet, true).unwrap() {
        Conversion::AddressOnly { network_mismatch, .. } => assert!(!network_mismatch),
        other => panic!("{:?}", other),
    }
    let regtest = "bcrt1qw508d6qejxtdg4y5r3zarvary0c5xw7kygt080";
    match convert_formats(regtest, true).unwrap() {
        Conversion::AddressOnly { network_mismatch, .. } => assert!(network_mismatch),
        other => panic!("{:?}", other),
    }
}
