//! Codec, digest and primitive-type checks.

use bip300301_enforcer::codec::{
    coinbase_outputs, encode_coinbase_message, encode_m8_bmm_request, encode_op_drivechain,
    parse_coinbase_message, parse_m8_bmm_request, parse_op_drivechain, ABSTAIN_TWO_BYTES,
    ALARM_TWO_BYTES,
};
use bip300301_enforcer::digest::{m6_to_id, sha256d};
use bip300301_enforcer::proto::Error;
use bip300301_enforcer::types::{
    CoinbaseMessage, Hash256, M4AckBundles, M8BmmRequest, UnitKey, Work,
};

fn h(seed: u8) -> Hash256 {
    Hash256 {
        w0: seed as u64,
        w1: 0x1111 * seed as u64,
        w2: 0x2222 * seed as u64,
        w3: 0x3333 * seed as u64,
    }
}

fn hash_from_le_bytes(bytes: &[u8]) -> Hash256 {
    let mut w = [0u64; 4];
    for k in 0..4 {
        let mut limb = 0u64;
        for b in 0..8 {
            limb |= (bytes[8 * k + b] as u64) << (8 * b);
        }
        w[k] = limb;
    }
    Hash256 { w0: w[0], w1: w[1], w2: w[2], w3: w[3] }
}

fn sha256d_reference(data: &[u8]) -> Hash256 {
    let digest = <bitcoin::hashes::sha256d::Hash as bitcoin::hashes::Hash>::to_byte_array(
        <bitcoin::hashes::sha256d::Hash as bitcoin::hashes::Hash>::hash(data),
    );
    hash_from_le_bytes(&digest)
}

#[test]
fn m1_round_trip() {
    let m = CoinbaseMessage::M1ProposeSidechain {
        sidechain_number: 3,
        data: b"hello".to_vec(),
    };
    let script = encode_coinbase_message(&m);
    assert_eq!(script[0], 0x6a);
    match parse_coinbase_message(&script) {
        Some(CoinbaseMessage::M1ProposeSidechain { sidechain_number, data }) => {
            assert_eq!(sidechain_number, 3);
            assert_eq!(data, b"hello".to_vec());
        }
        other => panic!("wrong parse: {other:?}"),
    }
}

#[test]
fn m2_round_trip() {
    let dh = h(9);
    let m = CoinbaseMessage::M2AckSidechain { sidechain_number: 7, data_hash: dh };
    let script = encode_coinbase_message(&m);
    assert_eq!(script.len(), 38);
    match parse_coinbase_message(&script) {
        Some(CoinbaseMessage::M2AckSidechain { sidechain_number, data_hash }) => {
            assert_eq!(sidechain_number, 7);
            assert_eq!(data_hash, dh);
        }
        other => panic!("wrong parse: {other:?}"),
    }
}

#[test]
fn m3_round_trip() {
    let id = h(4);
    let m = CoinbaseMessage::M3ProposeBundle { sidechain_number: 1, bundle_txid: id };
    let script = encode_coinbase_message(&m);
    match parse_coinbase_message(&script) {
        Some(CoinbaseMessage::M3ProposeBundle { sidechain_number, bundle_txid }) => {
            assert_eq!(sidechain_number, 1);
            assert_eq!(bundle_txid, id);
        }
        other => panic!("wrong parse: {other:?}"),
    }
}

#[test]
fn m4_round_trips() {
    for m4 in [
        M4AckBundles::RepeatPrevious,
        M4AckBundles::LeadingBy50,
        M4AckBundles::OneByte { upvotes: vec![0, 3, 255] },
        M4AckBundles::TwoBytes { upvotes: vec![0, ABSTAIN_TWO_BYTES, ALARM_TWO_BYTES, 700] },
    ] {
        let script = encode_coinbase_message(&CoinbaseMessage::M4AckBundles(m4.clone()));
        match (parse_coinbase_message(&script), m4) {
            (
                Some(CoinbaseMessage::M4AckBundles(M4AckBundles::RepeatPrevious)),
                M4AckBundles::RepeatPrevious,
            ) => {}
            (
                Some(CoinbaseMessage::M4AckBundles(M4AckBundles::LeadingBy50)),
                M4AckBundles::LeadingBy50,
            ) => {}
            (
                Some(CoinbaseMessage::M4AckBundles(M4AckBundles::OneByte { upvotes: got })),
                M4AckBundles::OneByte { upvotes: want },
            ) => assert_eq!(got, want),
            (
                Some(CoinbaseMessage::M4AckBundles(M4AckBundles::TwoBytes { upvotes: got })),
                M4AckBundles::TwoBytes { upvotes: want },
            ) => assert_eq!(got, want),
            (got, want) => panic!("wrong parse: {got:?} for {want:?}"),
        }
    }
}

#[test]
fn m7_round_trip() {
    let bh = h(8);
    let m = CoinbaseMessage::M7BmmAccept { sidechain_number: 3, sidechain_block_hash: bh };
    let script = encode_coinbase_message(&m);
    match parse_coinbase_message(&script) {
        Some(CoinbaseMessage::M7BmmAccept { sidechain_number, sidechain_block_hash }) => {
            assert_eq!(sidechain_number, 3);
            assert_eq!(sidechain_block_hash, bh);
        }
        other => panic!("wrong parse: {other:?}"),
    }
}

#[test]
fn m8_round_trip() {
    let req = M8BmmRequest {
        sidechain_number: 3,
        sidechain_block_hash: h(1),
        prev_mainchain_block_hash: h(2),
    };
    let script = encode_m8_bmm_request(&req);
    assert_eq!(script.len(), 70);
    assert_eq!(parse_m8_bmm_request(&script), Some(req));
}

#[test]
fn op_drivechain_round_trip() {
    let script = encode_op_drivechain(5);
    assert_eq!(script, vec![0xb4, 0x01, 5, 0x51]);
    assert_eq!(parse_op_drivechain(&script), Some(5));
    assert_eq!(parse_op_drivechain(&vec![0xb4, 0x01, 5, 0x00]), None);
    assert_eq!(parse_op_drivechain(&vec![0x6a, 0x01, 5, 0x51]), None);
    assert_eq!(parse_op_drivechain(&vec![0xb4, 0x01, 5]), None);
}

#[test]
fn junk_scripts_are_not_messages() {
    assert!(parse_coinbase_message(&vec![]).is_none());
    assert!(parse_coinbase_message(&vec![0x6a]).is_none());
    assert!(parse_coinbase_message(&vec![0x51, 0xd5, 0xe0, 0xc4, 0xaf, 3]).is_none());
    // An ack with the wrong payload length is not a message.
    assert!(parse_coinbase_message(&vec![0x6a, 0xd6, 0xe1, 0xc5, 0xdf, 3, 1, 2]).is_none());
}

#[test]
fn sha256d_matches_the_bitcoin_crate() {
    for data in [b"".to_vec(), b"hello".to_vec(), vec![0u8; 100]] {
        assert_eq!(sha256d(&data), sha256d_reference(&data));
    }
    // A changed input changes the digest: the wrapper does not echo input.
    assert_ne!(sha256d(&b"hello".to_vec()), sha256d(&b"hellp".to_vec()));
}

#[test]
fn m6id_binds_the_previous_total() {
    let raw = b"withdrawal-bundle-bytes".to_vec();
    let mut reference_input = raw.clone();
    reference_input.extend_from_slice(&100_000u64.to_le_bytes());
    assert_eq!(m6_to_id(&raw, 100_000), sha256d_reference(&reference_input));
    assert_ne!(m6_to_id(&raw, 100_000), m6_to_id(&raw, 99_999));
}

#[test]
fn work_add_and_compare() {
    let a = Work { w0: u64::MAX, w1: 0, w2: 0, w3: 0 };
    let b = Work { w0: 1, w1: 0, w2: 0, w3: 0 };
    let sum = a.add(b);
    assert_eq!(sum, Work { w0: 0, w1: 1, w2: 0, w3: 0 });
    assert!(a.lt(sum));
    assert!(!sum.lt(a));
    assert!(!a.lt(a));
    let max = Work { w0: u64::MAX, w1: u64::MAX, w2: u64::MAX, w3: u64::MAX };
    assert_eq!(max.add(b), max);
}

#[test]
fn unit_key_byte() {
    assert_eq!(UnitKey.encoded_byte(), 0x69);
}

#[test]
fn proto_error_constructors() {
    match Error::missing_field("GetCtipRequest", "sidechain_number") {
        Error::MissingField { field_name, message_name } => {
            assert_eq!(field_name, "sidechain_number");
            assert_eq!(message_name, "GetCtipRequest");
        }
        other => panic!("wrong variant: {other:?}"),
    }
    match Error::invalid_field_value("GetCtipRequest", "sidechain_number", "300") {
        Error::InvalidFieldValue { value, .. } => assert_eq!(value, "300"),
        other => panic!("wrong variant: {other:?}"),
    }
    match Error::invalid_enum_variant("AckBundles", "form", "None") {
        Error::InvalidEnumVariant { variant_name, .. } => assert_eq!(variant_name, "None"),
        other => panic!("wrong variant: {other:?}"),
    }
    match Error::invalid_repeated_value("Upvotes", "upvotes", "70000") {
        Error::InvalidRepeatedValue { value, .. } => assert_eq!(value, "70000"),
        other => panic!("wrong variant: {other:?}"),
    }
}

#[test]
fn coinbase_outputs_carry_the_messages() {
    let messages = vec![
        CoinbaseMessage::M1ProposeSidechain { sidechain_number: 3, data: b"hello".to_vec() },
        CoinbaseMessage::M7BmmAccept { sidechain_number: 3, sidechain_block_hash: h(6) },
    ];
    let outputs = coinbase_outputs(&messages);
    assert_eq!(outputs.len(), 2);
    for (output, message) in outputs.iter().zip(messages.iter()) {
        assert_eq!(output.value, 0);
        assert_eq!(output.script_pubkey, encode_coinbase_message(message));
    }
}
