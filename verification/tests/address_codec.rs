use btc_tools::address::{decode, encode, AddressError, AddressFormat, AddressKind, Network};
use btc_tools::curve::CompressedPoint;
use btc_tools::error::{Category, WalletError};
use std::str::FromStr;

fn point(hex_text: &str) -> CompressedPoint {
    CompressedPoint::from_bytes(&hex::decode(hex_text).unwrap()).unwrap()
}

const KEY_ONE: &str = "0279be667ef9dcbbac55a06295ce870b07029bfcdb2dce28d959f2815b16f81798";
const KEY_TWO: &str = "02c6047f9441ed7d6d3045406e95c07cd85c778e4b8cef3ca7abac09b95c709ee5";

#[test]
fn legacy_address_of_key_one() {
    let d = encode(&point(KEY_ONE), AddressFormat::Legacy, Network::Mainnet).unwrap();
    assert_eq!(d.encoded(), "1BgGZ9tcN4rm9KBzDn7KprQz87SZ26SAMH");
    assert_eq!(d.kind(), AddressKind::P2pkh);
    assert_eq!(d.payload().len(), 20);
}

#[test]
fn native_segwit_address_of_key_one() {
    let d = encode(&point(KEY_ONE), AddressFormat::NativeSegwit, Network::Mainnet).unwrap();
    assert_eq!(d.encoded(), "bc1qw508d6qejxtdg4y5r3zarvary0c5xw7kv8f3t4");
    let t = encode(&point(KEY_ONE), AddressFormat::NativeSegwit, Network::Testnet).unwrap();
    assert_eq!(t.encoded(), "tb1qw508d6qejxtdg4y5r3zarvary0c5xw7kxpjzsx");
}

#[test]
fn encodings_agree_with_the_bitcoin_crate() {
    let secp = bitcoin::secp256k1::Secp256k1::new();
    for key_hex in [KEY_ONE, KEY_TWO] {
        let ours = point(key_hex);
        let theirs = bitcoin::PublicKey::from_str(key_hex).unwrap();
        for (network, their_network) in [
            (Network::Mainnet, bitcoin::Network::Bitcoin),
            (Network::Testnet, bitcoin::Network::Testnet),
            (Network::Regtest, bitcoin::Network::Regtest),
        ] {
            let legacy = encode(&ours, AddressFormat::Legacy, network).unwrap();
            assert_eq!(legacy.encoded(), bitcoin::Address::p2pkh(&theirs, their_network).to_string());
            let wrapped = encode(&ours, AddressFormat::WrappedSegwit, network).unwrap();
            assert_eq!(
                wrapped.encoded(),
                bitcoin::Address::p2shwpkh(&theirs, their_network).unwrap().to_string()
            );
            let native = encode(&ours, AddressFormat::NativeSegwit, network).unwrap();
            assert_eq!(
                native.encoded(),
                bitcoin::Address::p2wpkh(&theirs, their_network).unwrap().to_string()
            );
            let taproot = encode(&ours, AddressFormat::Taproot, network).unwrap();
            let internal = bitcoin::key::XOnlyPublicKey::from(theirs.inner);
            assert_eq!(
                taproot.encoded(),
                bitcoin::Address::p2tr(&secp, internal, None, their_network).to_string()
            );
        }
    }
}

#[test]
fn decode_gives_back_what_encode_took() {
    for format in [
        AddressFormat::Legacy,
        AddressFormat::WrappedSegwit,
        AddressFormat::NativeSegwit,
        AddressFormat::Taproot,
    ] {
        for network in [Network::Mainnet, Network::Testnet] {
            let made = encode(&point(KEY_TWO), format, network).unwrap();
            let read = decode(made.encoded()).unwrap();
            assert_eq!(read.kind(), format.kind());
            assert_eq!(read.network(), network);
            assert_eq!(read.payload(), made.payload());
            assert_eq!(read.encoded(), made.encoded());
        }
    }
}

#[test]
fn decode_known_addresses() {
    let d = decode("1A1zP1eP5QGefi2DMPTfTL5SLmv7DivfNa").unwrap();
    assert_eq!((d.kind(), d.network()), (AddressKind::P2pkh, Network::Mainnet));
    assert_eq!(hex::encode(d.payload()), "62e907b15cbf27d5425399ebf6f0fb50ebb88f18");
    let d = decode("3J98t1WpEZ73CNmQviecrnyiWrnqRhWNLy").unwrap();
    assert_eq!((d.kind(), d.network()), (AddressKind::P2sh, Network::Mainnet));
    let d = decode("bc1qar0srrr7xfkvy5l643lydnw9re59gtzzwf5mdq").unwrap();
    assert_eq!((d.kind(), d.network()), (AddressKind::P2wpkh, Network::Mainnet));
    let d = decode("tb1qrp33g0q5c5txsp9arysrx4k6zdkfs4nce4xj0gdcccefvpysxf3q0sl5k7").unwrap();
    assert_eq!((d.kind(), d.network()), (AddressKind::P2wsh, Network::Testnet));
    assert_eq!(d.payload().len(), 32);
    let d = decode("bc1p0xlxvlhemja6c4dqv22uapctqupfhlxm9h8z3k2e72q4k9hcz7vqzk5jj0").unwrap();
    assert_eq!((d.kind(), d.network()), (AddressKind::P2tr, Network::Mainnet));
    let d = decode("BC1QW508D6QEJXTDG4Y5R3ZARVARY0C5XW7KV8F3T4").unwrap();
    assert_eq!((d.kind(), d.network()), (AddressKind::P2wpkh, Network::Mainnet));
    assert_eq!(hex::encode(d.payload()), "751e76e8199196d454941c45d1b3a323f1433bd6");
}

#[test]
fn decode_a_taproot_address() {
    let text = "bc1p5d7rjq7g6rdk2yhzks9smlaqtedr4dekq08ge8ztwac72sfr9rusxg3297";
    let d = decode(text).unwrap();
    assert_eq!((d.kind(), d.network()), (AddressKind::P2tr, Network::Mainnet));
    assert_eq!(d.payload().len(), 32);
    assert_eq!(d.encoded(), text);
    let theirs = bitcoin::Address::from_str(text).unwrap().assume_checked();
    assert_eq!(&theirs.script_pubkey().to_bytes()[2..], d.payload());
    // a script hash address with one letter wrong
    assert_eq!(
        decode("3J98t1WpEZ73CNmYviecrnyiWrnqRhWNLy").unwrap_err(),
        AddressError::ChecksumMismatch
    );
    assert!(bitcoin::Address::from_str("3J98t1WpEZ73CNmYviecrnyiWrnqRhWNLy").is_err());
}

#[test]
fn decode_errors() {
    assert_eq!(decode("invalid_address_123").unwrap_err(), AddressError::UnrecognizedAddressFormat);
    assert_eq!(decode("").unwrap_err(), AddressError::UnrecognizedAddressFormat);
    assert_eq!(
        decode("1A1zP1eP5QGefi2DMPTfTL5SLmv7DivfNb").unwrap_err(),
        AddressError::ChecksumMismatch
    );
    assert_eq!(
        decode("bc1qar0srrr7xfkvy5l643lydnw9re59gtzzwf5mdp").unwrap_err(),
        AddressError::ChecksumMismatch
    );
    // witness version 0 with a Bech32m checksum
    assert_eq!(
        decode("bc1qw508d6qejxtdg4y5r3zarvary0c5xw7kemeawh").unwrap_err(),
        AddressError::InvalidWitnessVersionChecksumPairing
    );
    // witness version 1 with a Bech32 checksum
    assert_eq!(
        decode("bc1p0xlxvlhemja6c4dqv22uapctqupfhlxm9h8z3k2e72q4k9hcz7vqh2y7hd").unwrap_err(),
        AddressError::InvalidWitnessVersionChecksumPairing
    );
    // mixed case
    assert_eq!(
        decode("bc1QW508D6QEJXTDG4Y5R3ZARVARY0C5XW7KV8F3T4").unwrap_err(),
        AddressError::UnrecognizedAddressFormat
    );
}

#[test]
fn every_single_character_change_is_rejected() {
    let samples = [
        "1A1zP1eP5QGefi2DMPTfTL5SLmv7DivfNa",
        "3J98t1WpEZ73CNmQviecrnyiWrnqRhWNLy",
        "bc1qar0srrr7xfkvy5l643lydnw9re59gtzzwf5mdq",
        "bc1p0xlxvlhemja6c4dqv22uapctqupfhlxm9h8z3k2e72q4k9hcz7vqzk5jj0",
        "bc1p5d7rjq7g6rdk2yhzks9smlaqtedr4dekq08ge8ztwac72sfr9rusxg3297",
        "tb1qrp33g0q5c5txsp9arysrx4k6zdkfs4nce4xj0gdcccefvpysxf3q0sl5k7",
        "BC1QW508D6QEJXTDG4Y5R3ZARVARY0C5XW7KV8F3T4",
        "mipcBbFg9gMiCh81Kj8tqqdgoZub1ZJRfn",
    ];
    for sample in samples {
        let original = decode(sample).unwrap();
        let chars: Vec<char> = sample.chars().collect();
        for position in 0..chars.len() {
            for code in 33u8..127 {
                let c = code as char;
                if c == chars[position] {
                    continue;
                }
                let mut changed = chars.clone();
                changed[position] = c;
                let text: String = changed.into_iter().collect();
                match decode(&text) {
                    Err(error) => {
                        let category = WalletError::Address(error).category();
                        assert!(
                            category == Category::ChecksumFailure
                                || category == Category::FormatUnrecognized,
                            "{} -> {}: {:?}",
                            sample,
                            text,
                            error
                        );
                    }
                    other => panic!("{} -> {}: {:?} (was {:?})", sample, text, other, original),
                }
            }
        }
    }
}
