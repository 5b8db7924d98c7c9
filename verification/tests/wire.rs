//! The wire form of flashblocks and messages.
use rblib_world_chain::flashblocks::payload::DecodeError;
use rblib_world_chain::flashblocks::primitives::{
    ExecutionPayloadBaseV1, ExecutionPayloadFlashblockDeltaV1, FlashblocksPayloadV1, Withdrawal,
};
use rblib_world_chain::flashblocks::p2p::{FlashblocksP2PMsg, MessageError};
use rblib_world_chain::num::U256;
use rblib_world_chain::rlp::RlpError;
use serde_json::Value;

fn sample_withdrawal() -> Withdrawal {
    Withdrawal { index: 0, validator_index: 0, address: [0u8; 20], amount: 0 }
}

fn sample_diff() -> ExecutionPayloadFlashblockDeltaV1 {
    ExecutionPayloadFlashblockDeltaV1 {
        state_root: [1u8; 32],
        receipts_root: [2u8; 32],
        logs_bloom: [0u8; 256],
        gas_used: 21_000,
        block_hash: [3u8; 32],
        transactions: vec![vec![0xde, 0xad, 0xbe, 0xef]],
        withdrawals: vec![sample_withdrawal()],
        withdrawals_root: [4u8; 32],
    }
}

fn sample_base() -> ExecutionPayloadBaseV1 {
    ExecutionPayloadBaseV1 {
        parent_beacon_block_root: [5u8; 32],
        parent_hash: [6u8; 32],
        fee_recipient: [0u8; 20],
        prev_randao: [7u8; 32],
        block_number: 123,
        gas_limit: 30_000_000,
        timestamp: 1_700_000_000,
        extra_data: b"hello".to_vec(),
        base_fee_per_gas: U256::from_u64(1_000_000_000),
    }
}

fn object(text: &str) -> Value {
    serde_json::from_str(text).expect("valid JSON")
}

fn json_of(metadata: &Value) -> Vec<u8> {
    serde_json::to_vec(metadata).expect("serializes")
}

fn encode(payload: &FlashblocksPayloadV1<Value>) -> Vec<u8> {
    let mut out = Vec::new();
    payload.encode(&json_of(&payload.metadata), &mut out);
    out
}

fn decode(slice: &mut &[u8]) -> Result<FlashblocksPayloadV1<Value>, DecodeError> {
    FlashblocksPayloadV1::decode(slice, |text: &[u8]| serde_json::from_slice::<Value>(text).ok())
}

#[test]
fn roundtrip_without_base() {
    let original = FlashblocksPayloadV1 {
        payload_id: [0u8; 8],
        index: 0,
        diff: sample_diff(),
        metadata: object("{\"key\":\"value\"}"),
        base: None,
    };

    let encoded = encode(&original);
    assert_eq!(
        encoded.len(),
        original.length(&json_of(&original.metadata)),
        "length() must match actually-encoded size"
    );

    let mut slice = encoded.as_ref();
    let decoded = match decode(&mut slice) {
        Ok(decoded) => decoded,
        Err(_) => panic!("decode succeeds"),
    };
    assert_eq!(original, decoded, "round-trip must be loss-less");
    assert!(slice.is_empty(), "decoder should consume the entire input buffer");
}

#[test]
fn roundtrip_with_base() {
    let original = FlashblocksPayloadV1 {
        payload_id: [0u8; 8],
        index: 42,
        diff: sample_diff(),
        metadata: object("{\"foo\":1,\"bar\":[1,2,3]}"),
        base: Some(sample_base()),
    };

    let encoded = encode(&original);
    assert_eq!(encoded.len(), original.length(&json_of(&original.metadata)));

    let mut slice = encoded.as_ref();
    let decoded = match decode(&mut slice) {
        Ok(decoded) => decoded,
        Err(_) => panic!("decode succeeds"),
    };
    assert_eq!(original, decoded);
    assert!(slice.is_empty());
}

#[test]
fn invalid_rlp_is_rejected() {
    let valid = FlashblocksPayloadV1 {
        payload_id: [0u8; 8],
        index: 1,
        diff: sample_diff(),
        metadata: object("{}"),
        base: None,
    };

    // Encode, then truncate the last byte to corrupt the payload.
    let mut corrupted = encode(&valid);
    corrupted.pop();

    let mut slice: &[u8] = corrupted.as_ref();
    let result = FlashblocksPayloadV1::<String>::decode(&mut slice, |text: &[u8]| {
        serde_json::from_slice::<String>(text).ok()
    });
    assert!(result.is_err(), "decoder must flag malformed / truncated input");
}

fn text_of(text: &[u8]) -> Option<String> {
    String::from_utf8(text.to_vec()).ok()
}

fn sample_payload(base: Option<ExecutionPayloadBaseV1>) -> FlashblocksPayloadV1<String> {
    FlashblocksPayloadV1 {
        payload_id: [9u8; 8],
        index: 3,
        diff: sample_diff(),
        metadata: String::from("meta"),
        base,
    }
}

fn bytes_of(payload: &FlashblocksPayloadV1<String>) -> Vec<u8> {
    let mut out = Vec::new();
    payload.encode(payload.metadata.as_bytes(), &mut out);
    out
}

#[test]
fn every_truncation_is_rejected() {
    let bytes = bytes_of(&sample_payload(Some(sample_base())));
    for n in 0..bytes.len() {
        let mut slice = &bytes[..n];
        let result = FlashblocksPayloadV1::decode(&mut slice, text_of);
        assert!(matches!(result, Err(DecodeError::Rlp(_))), "{n} bytes");
    }
}

#[test]
fn bytes_behind_a_flashblock_are_left() {
    let payload = sample_payload(None);
    let mut bytes = bytes_of(&payload);
    bytes.extend_from_slice(&[1, 2, 3]);
    let mut slice = bytes.as_slice();
    let decoded = match FlashblocksPayloadV1::decode(&mut slice, text_of) {
        Ok(decoded) => decoded,
        Err(_) => panic!("decodes"),
    };
    assert_eq!(decoded, payload);
    assert_eq!(slice, &[1, 2, 3]);
}

#[test]
fn a_string_is_not_a_flashblock() {
    let mut slice: &[u8] = &[0x83, 1, 2, 3];
    let result = FlashblocksPayloadV1::decode(&mut slice, text_of);
    assert!(matches!(result, Err(DecodeError::UnexpectedString)));
}

#[test]
fn a_refused_metadata_text_is_bad_json() {
    let bytes = bytes_of(&sample_payload(None));
    let mut slice = bytes.as_slice();
    let result = FlashblocksPayloadV1::<u8>::decode(&mut slice, |_: &[u8]| None);
    assert!(matches!(result, Err(DecodeError::BadJson)));
}

#[test]
fn bytes_behind_the_last_field_are_passed_over() {
    let payload = sample_payload(None);
    let bytes = bytes_of(&payload);
    // The payload takes between 256 and 65535 bytes: its header has three bytes.
    assert_eq!(bytes[0], 0xf9);
    let mut longer = bytes[3..].to_vec();
    longer.push(0x7f);
    let mut framed = vec![0xf9, (longer.len() >> 8) as u8, longer.len() as u8];
    framed.extend_from_slice(&longer);
    let mut slice = framed.as_slice();
    let decoded = match FlashblocksPayloadV1::decode(&mut slice, text_of) {
        Ok(decoded) => decoded,
        Err(_) => panic!("decodes"),
    };
    assert_eq!(decoded, payload);
    assert!(slice.is_empty());
}

#[test]
fn a_withdrawal_in_bytes() {
    let withdrawal = Withdrawal { index: 1, validator_index: 0x80, address: [7u8; 20], amount: 0 };
    let mut out = vec![0xaa];
    withdrawal.encode(&mut out);
    let mut expected = vec![0xaa, 0xd9, 0x01, 0x81, 0x80, 0x94];
    expected.extend_from_slice(&[7u8; 20]);
    expected.push(0x80);
    assert_eq!(out, expected);
    assert_eq!(withdrawal.length(), expected.len() - 1);
    let mut slice = &out[1..];
    assert_eq!(Withdrawal::decode(&mut slice).ok(), Some(withdrawal));
    assert!(slice.is_empty());
}

#[test]
fn a_list_of_another_length_is_rejected() {
    // Two numbers are missing.
    let mut short = vec![0xd7, 0x01, 0x02, 0x94];
    short.extend_from_slice(&[7u8; 20]);
    let mut slice = short.as_slice();
    assert!(matches!(Withdrawal::decode(&mut slice), Err(RlpError::Item(_))));
    // One number too many.
    let mut long = vec![0xd9, 0x01, 0x02, 0x94];
    long.extend_from_slice(&[7u8; 20]);
    long.extend_from_slice(&[0x03, 0x04]);
    let mut slice = long.as_slice();
    assert!(matches!(
        Withdrawal::decode(&mut slice),
        Err(RlpError::ListLengthMismatch { expected: 25, got: 24 })
    ));
    let mut slice: &[u8] = &[0x80];
    assert!(matches!(Withdrawal::decode(&mut slice), Err(RlpError::UnexpectedString)));
}

#[test]
fn the_wire_form_is_that_of_alloy() {
    // A list of the same items, written by the outside crate.
    let base = sample_base();
    let mut out = Vec::new();
    base.encode(&mut out);
    let items: Vec<Vec<u8>> = vec![
        base.parent_beacon_block_root.to_vec(),
        base.parent_hash.to_vec(),
        base.fee_recipient.to_vec(),
        base.prev_randao.to_vec(),
        vec![123],
        vec![0x01, 0xc9, 0xc3, 0x80],
        vec![0x65, 0x53, 0xf1, 0x00],
        b"hello".to_vec(),
        vec![0x3b, 0x9a, 0xca, 0x00],
    ];
    let strings: Vec<alloy_primitives::Bytes> = items.into_iter().map(Into::into).collect();
    assert_eq!(out, alloy_rlp::encode(&strings));
}

#[test]
fn a_message_round_trip() {
    let payload = sample_payload(Some(sample_base()));
    let json = payload.metadata.clone().into_bytes();
    let msg = FlashblocksP2PMsg::FlashblocksPayloadV1(payload);
    let mut bytes = Vec::new();
    msg.encode(&json, &mut bytes);
    assert_eq!(bytes.len(), msg.length(&json));
    // The header of three bytes, then the tag.
    assert_eq!(bytes[3], 0x80);
    let mut slice = bytes.as_slice();
    let decoded = match FlashblocksP2PMsg::decode(&mut slice, text_of) {
        Ok(decoded) => decoded,
        Err(_) => panic!("decodes"),
    };
    assert_eq!(decoded, msg);
    assert!(slice.is_empty());
}

#[test]
fn messages_that_are_rejected() {
    let mut slice: &[u8] = &[0x83, 1, 2, 3];
    assert!(matches!(
        FlashblocksP2PMsg::decode(&mut slice, text_of),
        Err(MessageError::NotAList)
    ));
    let mut slice: &[u8] = &[0xc1, 0x05];
    assert!(matches!(
        FlashblocksP2PMsg::decode(&mut slice, text_of),
        Err(MessageError::UnknownTag)
    ));
    let mut slice: &[u8] = &[];
    assert!(matches!(FlashblocksP2PMsg::decode(&mut slice, text_of), Err(MessageError::Rlp(_))));
    let mut slice: &[u8] = &[0xc2, 0x80, 0x80];
    assert!(matches!(
        FlashblocksP2PMsg::decode(&mut slice, text_of),
        Err(MessageError::Payload(DecodeError::UnexpectedString))
    ));
}
