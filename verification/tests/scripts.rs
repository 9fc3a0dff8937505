use b1t_indexer::address::{
    address_to_fullhash, address_to_payload, payload_to_address_str, AddressError, CoinType, Payload, ScriptType,
    ScriptTypeError,
};
use b1t_indexer::fullhash::{fullhash_addresses, fullhash_to_address_str, AddressesFullHash, FullHash};
use b1t_indexer::hashes::merkle_root;
use b1t_indexer::script::{eval_from_bytes, script_to_address_str, ScriptError, ScriptPattern};
use b1t_indexer::text::arr_to_hex;
use bellscoin::hashes::{sha256, sha256d};

fn bitcoin() -> CoinType {
    CoinType { pubkey_address: 0x00, script_address: 0x05, bech32: String::from("bc") }
}

fn sha256_of(b: &[u8]) -> [u8; 32] {
    let h = <sha256::Hash as bellscoin::hashes::Hash>::hash(b);
    <sha256::Hash as bellscoin::hashes::Hash>::to_byte_array(h)
}

fn sha256d_of(b: &[u8]) -> [u8; 32] {
    let h = <sha256d::Hash as bellscoin::hashes::Hash>::hash(b);
    <sha256d::Hash as bellscoin::hashes::Hash>::to_byte_array(h)
}

fn unhex(s: &str) -> Vec<u8> {
    hex::decode(s).unwrap()
}

#[test]
fn p2pkh_script_gives_its_address() {
    let script = unhex("76a91462e907b15cbf27d5425399ebf6f0fb50ebb88f1888ac");
    let e = eval_from_bytes(&script, &bitcoin());
    assert_eq!(e.address.as_deref(), Some("1A1zP1eP5QGefi2DMPTfTL5SLmv7DivfNa"));
    assert!(matches!(e.pattern, ScriptPattern::Pay2PublicKeyHash));
    assert_eq!(e.pattern.name(), "Pay2PublicKeyHash");
}

#[test]
fn p2wpkh_script_gives_its_bech32_address() {
    let script = unhex("0014751e76e8199196d454941c45d1b3a323f1433bd6");
    let e = eval_from_bytes(&script, &bitcoin());
    assert_eq!(e.address.as_deref(), Some("bc1qw508d6qejxtdg4y5r3zarvary0c5xw7kv8f3t4"));
    assert!(matches!(e.pattern, ScriptPattern::Pay2WitnessPublicKeyHash));
}

#[test]
fn p2pk_script_gives_the_key_hash_address() {
    let script = unhex("210279be667ef9dcbbac55a06295ce870b07029bfcdb2dce28d959f2815b16f81798ac");
    let e = eval_from_bytes(&script, &bitcoin());
    assert_eq!(e.address.as_deref(), Some("1BgGZ9tcN4rm9KBzDn7KprQz87SZ26SAMH"));
    assert!(matches!(e.pattern, ScriptPattern::Pay2PublicKey));
}

#[test]
fn p2sh_and_taproot_templates() {
    let p2sh = unhex("a914b472a266d0bd89c13706a4132ccfb16f7c3b9fcb87");
    let e = eval_from_bytes(&p2sh, &bitcoin());
    assert!(matches!(e.pattern, ScriptPattern::Pay2ScriptHash));
    assert!(e.address.as_deref().unwrap().starts_with('3'));
    let mut tr = vec![0x51u8, 0x20];
    tr.extend_from_slice(&[0x11; 32]);
    let e = eval_from_bytes(&tr, &bitcoin());
    assert!(matches!(e.pattern, ScriptPattern::Pay2Taproot));
    assert!(e.address.as_deref().unwrap().starts_with("bc1p"));
    let mut wsh = vec![0x00u8, 0x20];
    wsh.extend_from_slice(&[0x22; 32]);
    let e = eval_from_bytes(&wsh, &bitcoin());
    assert!(matches!(e.pattern, ScriptPattern::Pay2WitnessScriptHash));
}

#[test]
fn op_return_carries_its_text() {
    let mut script = vec![0x6au8, 0x05];
    script.extend_from_slice(b"hello");
    let e = eval_from_bytes(&script, &bitcoin());
    assert!(e.address.is_none());
    match e.pattern {
        ScriptPattern::OpReturn(t) => assert_eq!(t, "hello"),
        _ => panic!("not an OP_RETURN pattern"),
    }
    let bad = vec![0x6au8, 0x02, 0xff, 0xfe];
    match eval_from_bytes(&bad, &bitcoin()).pattern {
        ScriptPattern::OpReturn(t) => assert_eq!(t, ""),
        _ => panic!("not an OP_RETURN pattern"),
    }
}

#[test]
fn unspendable_and_unknown_scripts() {
    let e = eval_from_bytes(&[0x65, 0x01], &bitcoin());
    assert!(e.address.is_none());
    assert!(matches!(e.pattern, ScriptPattern::Unspendable));
    let e = eval_from_bytes(&[0x51], &bitcoin());
    assert!(e.address.is_none());
    assert!(matches!(e.pattern, ScriptPattern::NotRecognised));
    assert_eq!(script_to_address_str(&[0x51], &bitcoin()), None);
}

#[test]
fn pattern_and_error_texts() {
    assert_eq!(ScriptPattern::Error(ScriptError::UnexpectedEof).name(), "ScriptError: Unexpected EOF");
    assert_eq!(ScriptError::InvalidFormat.message(), "Invalid Script format");
    assert_eq!(ScriptPattern::OpReturn(String::from("x")).name(), "OpReturn");
}

#[test]
fn address_roundtrip_on_values() {
    let coin = bitcoin();
    for a in [
        "1A1zP1eP5QGefi2DMPTfTL5SLmv7DivfNa",
        "3J98t1WpEZ73CNmQviecrnyiWrnqRhWNLy",
        "bc1qw508d6qejxtdg4y5r3zarvary0c5xw7kv8f3t4",
    ] {
        let p = address_to_payload(a, &coin).unwrap();
        assert_eq!(payload_to_address_str(&p, &coin), a);
    }
    match address_to_payload("1A1zP1eP5QGefi2DMPTfTL5SLmv7DivfNa", &coin).unwrap() {
        Payload::PubkeyHash(h) => assert_eq!(h.to_vec(), unhex("62e907b15cbf27d5425399ebf6f0fb50ebb88f18")),
        _ => panic!("not a pubkey hash"),
    }
    match address_to_payload("bc1qw508d6qejxtdg4y5r3zarvary0c5xw7kv8f3t4", &coin).unwrap() {
        Payload::WitnessProgram { version, program } => {
            assert_eq!(version, 0);
            assert_eq!(program, unhex("751e76e8199196d454941c45d1b3a323f1433bd6"));
        },
        _ => panic!("not a witness program"),
    }
    let p = Payload::ScriptHash([0x33; 20]);
    let text = payload_to_address_str(&p, &coin);
    assert!(matches!(address_to_payload(&text, &coin), Ok(Payload::ScriptHash(h)) if h == [0x33; 20]));
}

#[test]
fn address_errors() {
    let coin = bitcoin();
    assert_eq!(address_to_payload("bc1qw508d6qejxtdg4y5r3zarvary0c5xw7kv8f3t5", &coin).err(), Some(AddressError::Bech32));
    assert_eq!(address_to_payload("1A1zP1eP5QGefi2DMPTfTL5SLmv7DivfNb", &coin).err(), Some(AddressError::Base58));
    assert_eq!(address_to_payload("mipcBbFg9gMiCh81Kj8tqqdgoZub1ZJRfn", &coin).err(), Some(AddressError::InvalidVersion));
    let long = "1".repeat(51);
    assert_eq!(address_to_payload(&long, &coin).err(), Some(AddressError::InvalidLength));
    assert_eq!(address_to_fullhash("zz", ScriptType::ScriptHash, &coin).err(), Some(AddressError::InvalidHex));
    assert_eq!(address_to_fullhash("abcd", ScriptType::ScriptHash, &coin).err(), Some(AddressError::InvalidScriptHashLength));
}

#[test]
fn fullhash_of_an_address_is_the_sha256_of_its_script() {
    let coin = bitcoin();
    let h = address_to_fullhash("1A1zP1eP5QGefi2DMPTfTL5SLmv7DivfNa", ScriptType::Address, &coin).unwrap();
    let script = unhex("76a91462e907b15cbf27d5425399ebf6f0fb50ebb88f1888ac");
    assert_eq!(h, sha256_of(&script));
    let text = "11".repeat(32);
    assert_eq!(address_to_fullhash(&text, ScriptType::ScriptHash, &coin).unwrap(), [0x11; 32]);
}

#[test]
fn script_type_names() {
    assert!(matches!(ScriptType::from_str("address"), Ok(ScriptType::Address)));
    assert!(matches!(ScriptType::from_str("scripthash"), Ok(ScriptType::ScriptHash)));
    assert!(matches!(ScriptType::from_str("Address"), Err(ScriptTypeError::Invalid)));
}

#[test]
fn merkle_root_of_one_is_itself() {
    assert_eq!(merkle_root(vec![[5u8; 32]]), [5u8; 32]);
}

#[test]
fn merkle_root_duplicates_the_odd_hash() {
    let (a, b, c) = ([1u8; 32], [2u8; 32], [3u8; 32]);
    let pair = |x: [u8; 32], y: [u8; 32]| {
        let mut buf = x.to_vec();
        buf.extend_from_slice(&y);
        sha256d_of(&buf)
    };
    let expected = pair(pair(a, b), pair(c, c));
    assert_eq!(merkle_root(vec![a, b, c]), expected);
    assert_eq!(merkle_root(vec![a, b]), pair(a, b));
}

#[test]
fn fullhash_texts() {
    let burned = FullHash(sha256_of(&[0x6a]));
    assert!(burned.is_op_return_hash());
    assert_eq!(fullhash_to_address_str(&burned, None), "BURNED");
    let other = FullHash([1; 32]);
    assert!(!other.is_op_return_hash());
    assert_eq!(fullhash_to_address_str(&other, None), "NON_STANDARD");
    assert_eq!(fullhash_to_address_str(&other, Some(String::from("addr"))), "addr");
    let known = AddressesFullHash::new(vec![
        (FullHash([1; 32]), String::from("one")),
        (FullHash([2; 32]), String::from("two")),
    ]);
    assert_eq!(known.get(&FullHash([1; 32])), "one");
    assert_eq!(known.get(&FullHash([2; 32])), "two");
    assert_eq!(known.get(&FullHash([3; 32])), "NON_STANDARD");
}

#[test]
fn hex_text_of_bytes() {
    assert_eq!(arr_to_hex(&[0x00, 0x0f, 0xab, 0xff]), "000fabff");
    assert_eq!(arr_to_hex(&[]), "");
}

#[test]
fn b1t_addresses_start_with_b() {
    let b1t = CoinType { pubkey_address: 25, script_address: 22, bech32: String::from("b1t") };
    for h in [[0u8; 20], [0xff; 20], [0x5a; 20]] {
        let text = payload_to_address_str(&Payload::PubkeyHash(h), &b1t);
        assert!(text.starts_with('B'), "{text}");
        assert!(matches!(address_to_payload(&text, &b1t), Ok(Payload::PubkeyHash(back)) if back == h));
    }
}

#[test]
fn output_addresses_are_keyed_by_script_hash() {
    let outputs = vec![
        (vec![0x51u8], Some(String::from("first"))),
        (vec![0x6a], None),
        (vec![0x52u8, 0x53], Some(String::from("second"))),
        (vec![0x51u8], Some(String::from("first again"))),
    ];
    let pairs = fullhash_addresses(&outputs);
    assert_eq!(pairs.len(), 2);
    assert_eq!(pairs[0].1, "first again");
    assert_eq!(pairs[0].0 .0, sha256_of(&[0x51]));
    assert_eq!(pairs[1].0 .0, sha256_of(&[0x52, 0x53]));
    let known = AddressesFullHash::new(pairs);
    assert_eq!(known.get(&FullHash(sha256_of(&[0x52, 0x53]))), "second");
}
