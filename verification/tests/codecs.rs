use btc_tools::address::{decode, AddressError, Network};
use btc_tools::base58;
use btc_tools::bech32::{self, DataError, Variant};
use btc_tools::bits::{
    bytes_to_symbols, explode_u16, explode_u8, implode_u16, implode_u8, symbols_to_bytes,
};
use btc_tools::bytes::u32_be;
use btc_tools::hash::sha256d;
use btc_tools::path::DerivationPath;
use btc_tools::radix::transcode;
use btc_tools::xkey::{ExtendedKey, KeyError};

fn chars(text: &str) -> Vec<char> {
    text.chars().collect()
}

fn text(chars: Vec<char>) -> String {
    chars.into_iter().collect()
}

#[test]
fn base58_known_texts() {
    assert_eq!(text(base58::encode(&[])), "");
    assert_eq!(text(base58::encode(&[0x61])), "2g");
    assert_eq!(text(base58::encode(&[0x62, 0x62, 0x62])), "a3gV");
    assert_eq!(text(base58::encode(&[0; 10])), "1111111111");
    assert_eq!(text(base58::encode(b"Hello World!")), "2NEpo7TZRRrLZSi2U");
    let bytes = hex::decode("00eb15231dfceb60925886b67d065299925915aeb172c06647").unwrap();
    assert_eq!(text(base58::encode(&bytes)), "1NS17iag9jJgTHD1VXjvLCEnZuQ3rJDE9L");
    assert_eq!(base58::decode(&chars("1NS17iag9jJgTHD1VXjvLCEnZuQ3rJDE9L")).unwrap(), bytes);
    assert_eq!(base58::decode(&chars("1111111111")).unwrap(), vec![0u8; 10]);
    assert_eq!(base58::decode(&chars("")).unwrap(), Vec::<u8>::new());
    for bad in ["0", "O", "I", "l", "2g!", " 2g", "é"] {
        assert!(base58::decode(&chars(bad)).is_none(), "{:?}", bad);
    }
}

#[test]
fn base58_agrees_with_the_bitcoin_crate() {
    let mut bytes: Vec<u8> = Vec::new();
    for round in 0..60u32 {
        let ours = text(base58::encode(&bytes));
        assert_eq!(ours, bitcoin::base58::encode(&bytes));
        assert_eq!(base58::decode(&chars(&ours)).unwrap(), bytes);
        let checked = text(base58::check_encode(&bytes));
        assert_eq!(checked, bitcoin::base58::encode_check(&bytes));
        assert_eq!(base58::check_decode(&chars(&checked)).unwrap(), bytes);
        bytes.insert(0, if round % 7 < 2 { 0 } else { (round * 37 % 256) as u8 });
    }
}

#[test]
fn base58check_errors() {
    assert_eq!(base58::check_decode(&chars("")).unwrap_err(), base58::CheckError::Checksum);
    assert_eq!(base58::check_decode(&chars("2g")).unwrap_err(), base58::CheckError::Checksum);
    assert_eq!(
        base58::check_decode(&chars("0")).unwrap_err(),
        base58::CheckError::InvalidCharacter
    );
    // four bytes that are the checksum of nothing
    let empty = text(base58::check_encode(&[]));
    assert_eq!(base58::check_decode(&chars(&empty)).unwrap(), Vec::<u8>::new());
    let digest = sha256d(&[]);
    assert_eq!(text(base58::encode(&digest[..4])), empty);
    assert_eq!(base58::digit_char(0), '1');
    assert_eq!(base58::digit_char(57), 'z');
    assert_eq!(base58::char_digit('z'), Some(57));
    assert_eq!(base58::char_digit('0'), None);
}

#[test]
fn double_sha256_of_nothing() {
    assert_eq!(
        hex::encode(sha256d(&[])),
        "5df6e0e2761359d30a8275058e299fcc0381534545f55cf43e41983f5d4c9456"
    );
}

#[test]
fn radix_changes() {
    assert_eq!(transcode(&[1, 0], 256, 10), vec![2, 5, 6]);
    assert_eq!(transcode(&[2, 5, 6], 10, 256), vec![1, 0]);
    assert_eq!(transcode(&[0, 0, 255], 256, 2), vec![0, 0, 1, 1, 1, 1, 1, 1, 1, 1]);
    assert_eq!(transcode(&[0, 0], 256, 58), vec![0, 0]);
    assert_eq!(transcode(&[], 256, 58), Vec::<u8>::new());
    assert_eq!(transcode(&[57, 57], 58, 256), vec![13, 35]);
    assert_eq!(u32_be(0x8000_002c), vec![0x80, 0, 0, 0x2c]);
}

#[test]
fn bit_streams() {
    let bits = explode_u8(&[0b1010_0001, 0xff], 8);
    assert_eq!(bits.len(), 16);
    assert_eq!(&bits[..8], &[true, false, true, false, false, false, false, true]);
    assert_eq!(implode_u8(&bits, 8, 2), vec![0b1010_0001, 0xff]);
    assert_eq!(implode_u8(&bits, 5, 3), vec![0b10100, 0b00111, 0b11111]);
    assert_eq!(implode_u16(&bits, 11, 1), vec![0b101_0000_1111]);
    assert_eq!(explode_u16(&[0b101_0000_1111], 11), &bits[..11]);
    assert_eq!(explode_u8(&[0b10100, 0b00111], 5), &bits[..10]);
    assert_eq!(bytes_to_symbols(&[0xff]), vec![31, 28]);
    assert_eq!(bytes_to_symbols(&[]), Vec::<u8>::new());
    assert_eq!(symbols_to_bytes(&[31, 28]), Some(vec![0xff]));
    assert_eq!(symbols_to_bytes(&[31, 29]), None);
    assert_eq!(symbols_to_bytes(&[31]), None);
    assert_eq!(symbols_to_bytes(&[0]), None);
    assert_eq!(symbols_to_bytes(&[]), Some(vec![]));
    let program: Vec<u8> = (0..32).collect();
    assert_eq!(bytes_to_symbols(&program).len(), 52);
    assert_eq!(symbols_to_bytes(&bytes_to_symbols(&program)), Some(program));
}

#[test]
fn bech32_known_texts() {
    for (prefix, data, variant) in [
        ("a", "2uel5l", Variant::Bech32),
        ("abcdef", "qpzry9x8gf2tvdw0s3jn54khce6mua7lmqqqxw", Variant::Bech32),
        ("split", "checkupstagehandshakeupstreamerranterredcaperred2y9e3w", Variant::Bech32),
        ("?", "ezyfcl", Variant::Bech32),
        ("a", "lqfn3a", Variant::Bech32m),
        ("abcdef", "l7aum6echk45nj3s0wdvt2fg8x9yrzpqzd3ryx", Variant::Bech32m),
        ("split", "checkupstagehandshakeupstreamerranterredcaperredlc445v", Variant::Bech32m),
        ("?", "v759aa", Variant::Bech32m),
    ] {
        let (symbols, found) = bech32::decode_data(&chars(prefix), &chars(data)).unwrap();
        assert_eq!(found, variant, "{}1{}", prefix, data);
        assert_eq!(symbols.len(), data.len() - 6);
        let again = text(bech32::encode(&chars(prefix), &symbols, variant));
        assert_eq!(again, format!("{}1{}", prefix, data));
        let check = bech32::checksum(&chars(prefix), &symbols, variant);
        let tail: Vec<u8> =
            data[data.len() - 6..].chars().map(|c| bech32::symbol_value(c).unwrap()).collect();
        assert_eq!(check, tail);
    }
    assert_eq!(
        bech32::decode_data(&chars("a"), &chars("2uel5m")).unwrap_err(),
        DataError::Checksum
    );
    assert_eq!(bech32::decode_data(&chars("a"), &chars("uel5l")).unwrap_err(), DataError::Checksum);
    assert_eq!(
        bech32::decode_data(&chars("a"), &chars("2uel5b")).unwrap_err(),
        DataError::InvalidCharacter
    );
    assert_eq!(bech32::compute_polymod(&[]), 1);
    assert_eq!(bech32::expand(&chars("bc")), vec![3, 3, 0, 2, 3]);
    assert_eq!(bech32::symbol_char(0), 'q');
    assert_eq!(bech32::symbol_char(31), 'l');
    assert_eq!(bech32::symbol_value('b'), None);
}

#[test]
fn segwit_texts_that_are_no_addresses() {
    // witness version 2
    assert_eq!(
        decode("bc1zw508d6qejxtdg4y5r3zarvaryvaxxpcs").unwrap_err(),
        AddressError::InvalidWitnessVersion
    );
    // no data at all
    assert_eq!(decode("bc1gmk9yu").unwrap_err(), AddressError::InvalidWitnessVersion);
    // version 1 with a program of one byte
    assert_eq!(decode("bc1pw5dgrnzv").unwrap_err(), AddressError::InvalidPayloadLength);
    // version 0 with a program of 16 bytes
    assert_eq!(
        decode("BC1QR508D6QEJXTDG4Y5R3ZARVARYV98GJ9P").unwrap_err(),
        AddressError::InvalidPayloadLength
    );
    // more symbols than 32 bytes take
    assert_eq!(
        decode("bc1p0xlxvlhemja6c4dqv22uapctqupfhlxm9h8z3k2e72q4k9hcz7v07qwwzcrf").unwrap_err(),
        AddressError::InvalidPayloadLength
    );
    // five bits left over, and padding that is not zero
    let symbols = vec![0u8; 34];
    let five_left = text(bech32::encode(&chars("bc"), &symbols, Variant::Bech32));
    assert_eq!(decode(&five_left).unwrap_err(), AddressError::InvalidPadding);
    assert_eq!(
        decode("tb1p0xlxvlhemja6c4dqv22uapctqupfhlxm9h8z3k2e72q4k9hcz7vpggkg4j").unwrap_err(),
        AddressError::InvalidPadding
    );
    // a private key in wallet import format is Base58Check, but no address
    assert_eq!(
        decode("KwDiBf89QgGbjEhKnhXJuH7LrciVrZi3qYjgd9M7rFU73sVHnoWn").unwrap_err(),
        AddressError::UnknownVersionByte
    );
    // a version byte of an address with a payload of another length
    let short = text(base58::check_encode(&[0x00, 1, 2, 3]));
    assert_eq!(decode(&short).unwrap_err(), AddressError::InvalidPayloadLength);
    let empty = text(base58::check_encode(&[]));
    assert_eq!(decode(&empty).unwrap_err(), AddressError::InvalidPayloadLength);
    let regtest = decode("bcrt1qw508d6qejxtdg4y5r3zarvary0c5xw7kygt080").unwrap();
    assert_eq!(regtest.network(), Network::Regtest);
    assert!(regtest.network_matches(Network::Regtest));
    assert!(!regtest.network_matches(Network::Mainnet));
}

#[test]
fn a_key_at_the_greatest_depth_has_no_child() {
    let seed = [7u8; 64];
    let master = ExtendedKey::master_from_seed(&seed, Network::Testnet).unwrap();
    assert!(master.to_base58().starts_with("tprv"));
    assert!(master.neuter().to_base58().starts_with("tpub"));
    assert_eq!(master.parent_fingerprint(), &[0u8; 4][..]);
    assert_eq!(master.chain_code().len(), 32);
    assert_eq!(master.serialize().len(), 78);
    let child = master.derive_child(1, false).unwrap();
    assert_eq!(child.parent_fingerprint(), &master.fingerprint()[..]);
    assert_eq!(child.network(), Network::Testnet);
    let deep = format!("m{}", "/0".repeat(255));
    let key = master.derive_path(&DerivationPath::parse(&deep).unwrap()).unwrap();
    assert_eq!(key.depth(), 255);
    assert_eq!(key.derive_child(0, false).unwrap_err(), KeyError::DepthExceeded);
    assert_eq!(key.derive_child_retrying(0, false).unwrap_err(), KeyError::DepthExceeded);
    assert!(!KeyError::DepthExceeded.is_retryable());
    assert!(KeyError::DerivedKeyInvalid.is_retryable());
}

#[test]
fn a_text_longer_than_any_address_is_refused() {
    let long = "1".repeat(91);
    assert_eq!(decode(&long).unwrap_err(), AddressError::UnrecognizedAddressFormat);
    let long = format!("bc1q{}", "q".repeat(5000));
    assert_eq!(decode(&long).unwrap_err(), AddressError::UnrecognizedAddressFormat);
    // ninety characters are read, and found wanting
    let ninety = "1".repeat(90);
    assert_eq!(decode(&ninety).unwrap_err(), AddressError::ChecksumMismatch);
}

#[test]
fn the_text_of_a_path_reads_back() {
    for text in ["m", "m/0", "m/44'/0'/0'/0/0", "m/2147483647'/10/0'"] {
        let path = DerivationPath::parse(text).unwrap();
        assert_eq!(path.to_text(), text);
        let again = DerivationPath::parse(&path.to_text()).unwrap();
        assert_eq!(again.len(), path.len());
        for i in 0..path.len() {
            assert_eq!(again.step(i), path.step(i));
        }
    }
    assert_eq!(DerivationPath::parse("m/1h/02").unwrap().to_text(), "m/1'/2");
    assert_eq!(DerivationPath::master().to_text(), "m");
    let one = DerivationPath::master()
        .child(btc_tools::path::ChildIndex::new(5, true).unwrap())
        .unwrap();
    assert_eq!(one.to_text(), "m/5'");
    assert!(btc_tools::path::ChildIndex::new(0x8000_0000, false).is_none());
}
