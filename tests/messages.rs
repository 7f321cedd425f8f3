use std::collections::HashSet;

use frost_messages::chain::ChainId;
use frost_messages::codec::{decode_event, decode_message, encode_event, encode_message, WireError};
use frost_messages::message::{
    CrossChainMessage, FrostMessage, MessageEvent, MessageStatus, Proof, ProofMetadata,
};

fn sample() -> FrostMessage {
    FrostMessage::new(ChainId::Ethereum, ChainId::Solana, b"test-payload".to_vec(), 1, 1_725_000_000)
}

fn full_sample() -> FrostMessage {
    let mut m = sample();
    m.proof = Some(Proof {
        data: vec![9, 8, 7, 6],
        metadata: ProofMetadata { encoded: vec![1, 2, 3] },
    });
    m.signature = Some(vec![0xde, 0xad, 0xbe, 0xef]);
    m.fee = Some(u128::MAX - 5);
    m.metadata = Some(vec![
        ("relayer".to_string(), "node-7".to_string()),
        ("note".to_string(), "héllo ✓".to_string()),
    ]);
    m
}

fn assert_same(a: &FrostMessage, b: &FrostMessage) {
    assert_eq!(a.id, b.id);
    assert_eq!(a.from_chain, b.from_chain);
    assert_eq!(a.to_chain, b.to_chain);
    assert_eq!(a.payload, b.payload);
    assert_eq!(a.proof.as_ref().map(|p| p.data.clone()), b.proof.as_ref().map(|p| p.data.clone()));
    assert_eq!(
        a.proof.as_ref().map(|p| p.metadata.encoded.clone()),
        b.proof.as_ref().map(|p| p.metadata.encoded.clone())
    );
    assert_eq!(a.timestamp, b.timestamp);
    assert_eq!(a.nonce, b.nonce);
    assert_eq!(a.signature, b.signature);
    assert_eq!(a.fee, b.fee);
    assert_eq!(a.metadata, b.metadata);
}

#[test]
fn frost_message_basic() {
    let msg = FrostMessage::new(
        ChainId::Ethereum,
        ChainId::Solana,
        b"test-payload".to_vec(),
        1,
        1_725_000_000,
    );
    let ser = encode_message(&msg);
    let de: FrostMessage = decode_message(&ser).unwrap();
    assert_eq!(msg.from_chain, de.from_chain);
    assert_eq!(msg.payload, de.payload);
}

#[test]
fn scenario_round_trip_keeps_routing_payload_and_id() {
    let msg = sample();
    let de = decode_message(&encode_message(&msg)).unwrap();
    assert_eq!(de.from_chain, ChainId::Ethereum);
    assert_eq!(de.to_chain, ChainId::Solana);
    assert_eq!(de.payload, b"test-payload".to_vec());
    assert_eq!(de.id, msg.id);
    assert_same(&msg, &de);
}

#[test]
fn chain_codes_round_trip() {
    for c in [ChainId::Ethereum, ChainId::Polkadot, ChainId::Solana, ChainId::Unknown] {
        assert_eq!(ChainId::from_u64(c.to_u64()), c);
    }
    assert_eq!(ChainId::Ethereum.to_u64(), 0);
    assert_eq!(ChainId::Polkadot.to_u64(), 1);
    assert_eq!(ChainId::Solana.to_u64(), 2);
}

#[test]
fn unrecognised_codes_are_unknown() {
    for v in [3u64, 4, 100, 1 << 32, u64::MAX - 1] {
        assert_eq!(ChainId::from_u64(v), ChainId::Unknown);
    }
}

#[test]
fn unknown_is_max_code() {
    assert_eq!(ChainId::Unknown.to_u64(), u64::MAX);
    assert_eq!(ChainId::from_u64(u64::MAX), ChainId::Unknown);
}

#[test]
fn chain_names() {
    assert_eq!(ChainId::Ethereum.name(), "Ethereum");
    assert_eq!(ChainId::Polkadot.name(), "Polkadot");
    assert_eq!(ChainId::Solana.name(), "Solana");
    assert_eq!(ChainId::Unknown.name(), "Unknown");
}

#[test]
fn new_message_fields() {
    let m = FrostMessage::new(ChainId::Polkadot, ChainId::Polkadot, vec![], 42, 0);
    assert_ne!(m.id, 0);
    assert_eq!((m.id >> 76) & 0xf, 4);
    assert_eq!((m.id >> 62) & 3, 2);
    assert_eq!(m.from_chain, ChainId::Polkadot);
    assert_eq!(m.to_chain, ChainId::Polkadot);
    assert!(m.payload.is_empty());
    assert!(m.proof.is_none());
    assert_eq!(m.nonce, 42);
    assert_eq!(m.timestamp, 0);
    assert!(m.signature.is_none());
    assert!(m.fee.is_none());
    assert!(m.metadata.is_none());
}

#[test]
fn ids_are_distinct_across_many_constructions() {
    let mut seen = HashSet::new();
    for _ in 0..10_000 {
        let m = FrostMessage::new(ChainId::Ethereum, ChainId::Solana, vec![1], 1, 1);
        assert_ne!(m.id, 0);
        assert!(seen.insert(m.id));
    }
}

#[test]
fn identical_arguments_give_different_ids() {
    let a = sample();
    let b = sample();
    assert_ne!(a.id, b.id);
}

#[test]
fn full_message_round_trip() {
    let m = full_sample();
    let de = decode_message(&encode_message(&m)).unwrap();
    assert_same(&m, &de);
}

#[test]
fn message_with_proof_only_round_trip() {
    let mut m = sample();
    m.proof = Some(Proof { data: vec![], metadata: ProofMetadata { encoded: vec![5] } });
    let de = decode_message(&encode_message(&m)).unwrap();
    assert_same(&m, &de);
    assert!(de.metadata.is_none());
}

#[test]
fn message_with_empty_metadata_round_trip() {
    let mut m = sample();
    m.metadata = Some(vec![]);
    let de = decode_message(&encode_message(&m)).unwrap();
    assert_eq!(de.metadata, Some(vec![]));
}

#[test]
fn exact_wire_form() {
    let mut m = FrostMessage::new(ChainId::Ethereum, ChainId::Solana, vec![0xab], 3, 2);
    m.id = 1;
    let b = encode_message(&m);
    let mut want = vec![1u8];
    want.extend([0u8; 15]);
    want.extend([0u8; 8]);
    want.extend([2u8, 0, 0, 0, 0, 0, 0, 0]);
    want.extend([1u8, 0, 0, 0, 0, 0, 0, 0, 0xab]);
    want.push(0);
    want.extend([2u8, 0, 0, 0, 0, 0, 0, 0]);
    want.extend([3u8, 0, 0, 0, 0, 0, 0, 0]);
    want.extend([0u8, 0, 0]);
    assert_eq!(b, want);
}

#[test]
fn fee_is_little_endian_halves() {
    let mut m = sample();
    m.id = 0x0102;
    m.fee = Some((7u128 << 64) | 5);
    let b = encode_message(&m);
    assert_eq!(&b[0..2], &[2u8, 1]);
    let n = b.len();
    // fee tag, then low half, then high half, then absent annotations
    assert_eq!(b[n - 18], 1);
    assert_eq!(b[n - 17], 5);
    assert_eq!(b[n - 9], 7);
    assert_eq!(b[n - 1], 0);
}

#[test]
fn unknown_chain_code_on_the_wire_decodes_to_unknown() {
    let m = sample();
    let mut b = encode_message(&m);
    b[16] = 9;
    let de = decode_message(&b).unwrap();
    assert_eq!(de.from_chain, ChainId::Unknown);
    assert_eq!(de.to_chain, ChainId::Solana);
}

#[test]
fn truncated_input_is_rejected() {
    let b = encode_message(&full_sample());
    for cut in [0usize, 1, 15, 16, 40, b.len() - 1] {
        assert_eq!(decode_message(&b[..cut]).err(), Some(WireError::Malformed));
    }
}

#[test]
fn trailing_bytes_are_rejected() {
    let mut b = encode_message(&sample());
    b.push(0);
    assert_eq!(decode_message(&b).err(), Some(WireError::Malformed));
}

#[test]
fn bad_presence_tag_is_rejected() {
    let mut b = encode_message(&sample());
    let n = b.len();
    b[n - 1] = 2;
    assert_eq!(decode_message(&b).err(), Some(WireError::Malformed));
}

#[test]
fn invalid_utf8_text_is_rejected() {
    let mut m = sample();
    m.metadata = Some(vec![("k".to_string(), "v".to_string())]);
    let mut b = encode_message(&m);
    let n = b.len();
    assert_eq!(b[n - 1], b'v');
    b[n - 1] = 0xff;
    assert_eq!(decode_message(&b).err(), Some(WireError::Malformed));
}

#[test]
fn repeated_annotation_keys_are_rejected() {
    let mut m = sample();
    m.metadata = Some(vec![
        ("k".to_string(), "a".to_string()),
        ("k".to_string(), "b".to_string()),
    ]);
    let b = encode_message(&m);
    assert_eq!(decode_message(&b).err(), Some(WireError::Malformed));
}

#[test]
fn event_without_hash_or_block_round_trips_absent() {
    let e = MessageEvent { message: sample(), tx_hash: None, block_number: None };
    let de = decode_event(&encode_event(&e)).unwrap();
    assert!(de.tx_hash.is_none());
    assert!(de.block_number.is_none());
    assert_same(&e.message, &de.message);
}

#[test]
fn event_with_hash_and_block_round_trips() {
    let e = MessageEvent {
        message: full_sample(),
        tx_hash: Some(vec![0x11; 32]),
        block_number: Some(0),
    };
    let de = decode_event(&encode_event(&e)).unwrap();
    assert_eq!(de.tx_hash, Some(vec![0x11; 32]));
    assert_eq!(de.block_number, Some(0));
    assert_same(&e.message, &de.message);
}

#[test]
fn event_with_empty_hash_differs_from_absent() {
    let e = MessageEvent { message: sample(), tx_hash: Some(vec![]), block_number: None };
    let de = decode_event(&encode_event(&e)).unwrap();
    assert_eq!(de.tx_hash, Some(vec![]));
}

#[test]
fn cross_chain_accessors() {
    let m = sample();
    assert_eq!(CrossChainMessage::id(&m), m.id);
    assert_eq!(CrossChainMessage::payload(&m), b"test-payload");
    assert!(m.chain_specific_data().is_none());
}

#[test]
fn status_values() {
    let s = MessageStatus::Failed("timeout".to_string());
    assert_eq!(s.clone(), MessageStatus::Failed("timeout".to_string()));
    assert_ne!(MessageStatus::Pending, MessageStatus::InFlight);
    assert_ne!(MessageStatus::Confirmed, s);
}

#[test]
fn try_from_never_fails() {
    assert_eq!(ChainId::try_from(1u64), Ok(ChainId::Polkadot));
    assert_eq!(ChainId::try_from(2u64), Ok(ChainId::Solana));
    assert_eq!(ChainId::try_from(77u64), Ok(ChainId::Unknown));
}
