//! Publishing flashblocks, and the connections to peers.
use rblib_world_chain::flashblocks::authorized::{self, FlashblocksP2PError};
use rblib_world_chain::flashblocks::connection::{
    ConnectionAction, ConnectionEvent, FlashblocksConnection, ReputationChangeKind,
};
use rblib_world_chain::flashblocks::p2p::{
    FlashblocksHandle, FlashblocksP2PMsg, FlashblocksP2PProtocol, MAX_FRAME, PeerMsg,
};
use rblib_world_chain::flashblocks::primitives::{
    ExecutionPayloadFlashblockDeltaV1, FlashblockMetadata, FlashblocksPayloadV1,
};
use rblib_world_chain::num::U256;

fn flashblock(id: u8, index: u64, timestamp: i64) -> FlashblocksPayloadV1 {
    FlashblocksPayloadV1 {
        payload_id: [id; 8],
        index,
        diff: ExecutionPayloadFlashblockDeltaV1 {
            state_root: [1u8; 32],
            receipts_root: [2u8; 32],
            logs_bloom: [0u8; 256],
            gas_used: index,
            block_hash: [3u8; 32],
            transactions: Vec::new(),
            withdrawals: Vec::new(),
            withdrawals_root: [4u8; 32],
        },
        metadata: FlashblockMetadata {
            fees: U256::from_u64(5),
            flashblock_timestamp: Some(timestamp),
        },
        base: None,
    }
}

fn delivered(handle: &FlashblocksHandle) -> Vec<u64> {
    handle.flashblocks_tx().iter().map(|f| f.index).collect()
}

fn sent(handle: &FlashblocksHandle) -> Vec<usize> {
    handle
        .ctx
        .peer_tx
        .iter()
        .map(|m| match m {
            PeerMsg::FlashblocksPayloadV1((_, index, _)) => *index,
        })
        .collect()
}

#[test]
fn flashblocks_are_handed_on_in_order() {
    let mut handle = FlashblocksHandle::new();
    handle.publish_new(flashblock(1, 2, 10), b"{}", 100);
    handle.publish_new(flashblock(1, 1, 10), b"{}", 101);
    assert!(delivered(&handle).is_empty());
    assert_eq!(handle.state.flashblock_timestamp, 0);
    handle.publish_new(flashblock(1, 0, 10), b"{}", 102);
    assert_eq!(delivered(&handle), vec![0, 1, 2]);
    assert_eq!(sent(&handle), vec![2, 1, 0]);
    assert_eq!(handle.state.flashblock_index, 3);
    assert_eq!(handle.state.flashblock_timestamp, 102);
    assert_eq!(handle.state.payload_timestamp, 10);
    assert_eq!(handle.state.payload_id, [1u8; 8]);
}

#[test]
fn the_order_of_arrival_makes_no_difference() {
    let mut one = FlashblocksHandle::new();
    one.publish_new(flashblock(1, 0, 10), b"{}", 1);
    one.publish_new(flashblock(1, 1, 10), b"{}", 2);
    let mut other = FlashblocksHandle::new();
    other.publish_new(flashblock(1, 1, 10), b"{}", 1);
    other.publish_new(flashblock(1, 0, 10), b"{}", 2);
    assert_eq!(one.ctx.flashblock_tx, other.ctx.flashblock_tx);
    assert_eq!(one.state.flashblocks, other.state.flashblocks);
    assert_eq!(one.state.flashblock_index, other.state.flashblock_index);
}

#[test]
fn a_flashblock_is_published_once() {
    let mut handle = FlashblocksHandle::new();
    handle.publish_new(flashblock(1, 0, 10), b"{}", 1);
    handle.publish_new(flashblock(1, 0, 10), b"{}", 2);
    handle.publish_new(flashblock(2, 0, 10), b"{}", 3);
    assert_eq!(delivered(&handle), vec![0]);
    assert_eq!(sent(&handle), vec![0]);
    assert_eq!(handle.state.flashblock_timestamp, 1);
}

#[test]
fn a_later_timestamp_starts_a_new_payload() {
    let mut handle = FlashblocksHandle::new();
    handle.publish_new(flashblock(1, 0, 9), b"{}", 1);
    handle.publish_new(flashblock(1, 1, 10), b"{}", 2);
    assert_eq!(delivered(&handle), vec![0, 1]);
    assert_eq!(handle.state.flashblock_index, 2);
    assert_eq!(handle.state.payload_timestamp, 10);
    handle.publish_new(flashblock(2, 1, 11), b"{}", 3);
    assert_eq!(delivered(&handle), vec![0, 1]);
    assert_eq!(handle.state.flashblock_index, 0);
    assert_eq!(handle.state.payload_id, [2u8; 8]);
    assert_eq!(handle.state.flashblocks.len(), 2);
    assert!(handle.state.flashblocks[0].is_none());
    handle.publish_new(flashblock(2, 0, 11), b"{}", 4);
    assert_eq!(delivered(&handle), vec![0, 1, 0, 1]);
}

#[test]
fn a_payload_stays_the_current_one_as_its_timestamps_grow() {
    let mut handle = FlashblocksHandle::new();
    let a = flashblock(0, 0, 100);
    let b = flashblock(0, 1, 200);
    handle.publish_new(a.clone(), b"{}", 1);
    handle.publish_new(b.clone(), b"{}", 2);
    assert_eq!(handle.ctx.flashblock_tx, vec![a.clone(), b.clone()]);
    assert_eq!(handle.state.flashblocks, vec![Some(a), Some(b)]);
    assert_eq!(handle.state.flashblock_index, 2);
    assert_eq!(handle.state.payload_timestamp, 200);
    // An earlier one of the payload can still come in.
    let mut handle = FlashblocksHandle::new();
    for (index, timestamp) in [(2, 30), (0, 10), (1, 20)] {
        handle.publish_new(flashblock(7, index, timestamp), b"{}", 1);
    }
    assert_eq!(delivered(&handle), vec![0, 1, 2]);
    assert_eq!(handle.state.payload_timestamp, 30);
}

#[test]
fn a_flashblock_of_an_earlier_payload_is_passed_over() {
    let mut handle = FlashblocksHandle::new();
    handle.publish_new(flashblock(1, 0, 10), b"{}", 1);
    handle.publish_new(flashblock(2, 0, 20), b"{}", 2);
    handle.publish_new(flashblock(1, 1, 15), b"{}", 3);
    assert_eq!(delivered(&handle), vec![0, 0]);
    assert_eq!(sent(&handle), vec![0, 0]);
    assert_eq!(handle.state.payload_id, [2u8; 8]);
    assert_eq!(handle.state.flashblocks, vec![Some(flashblock(2, 0, 20))]);
    assert_eq!((handle.state.flashblock_index, handle.state.payload_timestamp), (1, 20));
}

#[test]
fn flashblocks_come_in_in_any_order_and_more_than_once() {
    let mut handle = FlashblocksHandle::new();
    let mut again = flashblock(1, 0, 99);
    again.diff.gas_used = 77;
    for f in [
        flashblock(1, 3, 40),
        flashblock(1, 0, 10),
        again,
        flashblock(1, 101, 90),
        flashblock(1, 5, 50),
        flashblock(1, 1, 20),
        flashblock(1, 3, 60),
    ] {
        handle.publish_new(f, b"{}", 1);
    }
    // The first of each index, up to the one that is missing.
    assert_eq!(handle.ctx.flashblock_tx, vec![flashblock(1, 0, 10), flashblock(1, 1, 20)]);
    assert_eq!(handle.state.flashblock_index, 2);
    handle.publish_new(flashblock(1, 2, 30), b"{}", 1);
    assert_eq!(delivered(&handle), vec![0, 1, 2, 3]);
    assert_eq!(handle.ctx.flashblock_tx[3], flashblock(1, 3, 40));
    assert_eq!(handle.state.flashblock_index, 4);
}

#[test]
fn the_buffer_never_outgrows_the_indices() {
    let mut handle = FlashblocksHandle::new();
    let mut latest = 0;
    for round in 0..3u8 {
        for index in [100, 50, 101, u64::MAX, 0] {
            handle.publish_new(flashblock(round, index, 10 * i64::from(round) + 1), b"{}", 1);
            assert!(handle.state.flashblocks.len() <= 101);
            assert!(handle.state.payload_timestamp >= latest);
            latest = handle.state.payload_timestamp;
            for (i, f) in handle.state.flashblocks.iter().enumerate() {
                if let Some(f) = f {
                    assert_eq!(f.index, i as u64);
                    assert_eq!(f.payload_id, handle.state.payload_id);
                }
            }
        }
    }
}

#[test]
fn an_index_out_of_range_is_passed_over() {
    let mut handle = FlashblocksHandle::new();
    handle.publish_new(flashblock(1, 101, 10), b"{}", 1);
    assert_eq!(sent(&handle), vec![]);
    assert_eq!(handle.state.flashblocks.len(), 0);
    assert_eq!(handle.state.payload_timestamp, 10);
    handle.publish_new(flashblock(1, 100, 10), b"{}", 1);
    assert_eq!(sent(&handle), vec![100]);
    assert_eq!(handle.state.flashblocks.len(), 101);
}

#[test]
fn a_message_that_is_too_large_is_kept_and_not_sent() {
    let mut handle = FlashblocksHandle::new();
    let json = vec![b' '; MAX_FRAME];
    handle.publish_new(flashblock(1, 0, 10), &json, 1);
    assert_eq!(sent(&handle), vec![]);
    assert!(delivered(&handle).is_empty());
    assert!(handle.state.flashblocks[0].is_some());
    handle.publish_new(flashblock(1, 1, 10), b"{}", 2);
    assert_eq!(sent(&handle), vec![1]);
    assert_eq!(delivered(&handle), vec![0, 1]);
}

#[test]
fn the_capability_of_the_protocol() {
    let capability = FlashblocksP2PProtocol::<()>::capability();
    assert_eq!(capability.name, "flblk");
    assert_eq!(capability.version, 1);
    let protocol = FlashblocksP2PProtocol::new(7u8, FlashblocksHandle::new());
    assert_eq!(protocol.network, 7);
}

fn parse(text: &[u8]) -> Option<FlashblockMetadata> {
    if text == b"{}" {
        Some(FlashblockMetadata { fees: U256::from_u64(5), flashblock_timestamp: Some(10) })
    } else {
        None
    }
}

fn frame(payload: FlashblocksPayloadV1, json: &[u8]) -> Vec<u8> {
    let mut out = Vec::new();
    FlashblocksP2PMsg::FlashblocksPayloadV1(payload).encode(json, &mut out);
    out
}

#[test]
fn a_frame_is_handled() {
    let mut connection = FlashblocksConnection::new([1u8; 64]);
    let mut handle = FlashblocksHandle::new();
    let event = ConnectionEvent::Frame(frame(flashblock(1, 0, 10), b"{}"));
    let payload = match connection.poll_next(event, parse) {
        ConnectionAction::Handle(payload) => payload,
        _ => panic!("the flashblock is handled"),
    };
    assert_eq!(payload, flashblock(1, 0, 10));
    let change = connection.handle_flashblocks_payload_v1(
        &mut handle.ctx,
        &mut handle.state,
        payload,
        b"{}",
        1,
    );
    assert_eq!(change, None);
    assert_eq!(delivered(&handle), vec![0]);
    // It does not go back to the peer.
    let msg = PeerMsg::FlashblocksPayloadV1(([1u8; 8], 0, vec![1, 2]));
    assert!(matches!(
        connection.poll_next(ConnectionEvent::Broadcast(msg), parse),
        ConnectionAction::PollPeer
    ));
    // Others do.
    for (id, index) in [([1u8; 8], 1usize), ([2u8; 8], 0)] {
        let msg = PeerMsg::FlashblocksPayloadV1((id, index, vec![1, 2]));
        match connection.poll_next(ConnectionEvent::Broadcast(msg), parse) {
            ConnectionAction::Send(bytes) => assert_eq!(bytes, vec![1, 2]),
            _ => panic!("the message is sent"),
        }
    }
    // Sending it again counts against the peer.
    let change = connection.handle_flashblocks_payload_v1(
        &mut handle.ctx,
        &mut handle.state,
        flashblock(1, 0, 10),
        b"{}",
        2,
    );
    assert_eq!(change, Some(ReputationChangeKind::AlreadySeenTransaction));
    // It was the only one of the payload.
    let change = connection.handle_flashblocks_payload_v1(
        &mut handle.ctx,
        &mut handle.state,
        flashblock(1, 1, 10),
        b"{}",
        3,
    );
    assert_eq!(change, None);
    assert_eq!(delivered(&handle), vec![0, 1]);
    // A new payload starts over.
    let change = connection.handle_flashblocks_payload_v1(
        &mut handle.ctx,
        &mut handle.state,
        flashblock(2, 0, 11),
        b"{}",
        3,
    );
    assert_eq!(change, None);
    assert_eq!(delivered(&handle), vec![0, 1, 0]);
    // With another payload in between, what was sent before is no duplicate.
    let change = connection.handle_flashblocks_payload_v1(
        &mut handle.ctx,
        &mut handle.state,
        flashblock(1, 0, 10),
        b"{}",
        4,
    );
    assert_eq!(change, None);
    // An index out of range is passed over.
    let change = connection.handle_flashblocks_payload_v1(
        &mut handle.ctx,
        &mut handle.state,
        flashblock(2, 101, 11),
        b"{}",
        4,
    );
    assert_eq!(change, None);
    assert_eq!(delivered(&handle), vec![0, 1, 0]);
}

#[test]
fn a_frame_that_cannot_be_decoded_ends_the_connection() {
    let connection = FlashblocksConnection::new([1u8; 64]);
    for bytes in [vec![], vec![0x80], frame(flashblock(1, 0, 10), b"no")] {
        assert!(matches!(
            connection.poll_next(ConnectionEvent::Frame(bytes), parse),
            ConnectionAction::Close(Some(ReputationChangeKind::BadMessage))
        ));
    }
}

#[test]
fn other_events_of_a_connection() {
    let connection = FlashblocksConnection::new([1u8; 64]);
    assert!(matches!(
        connection.poll_next(ConnectionEvent::BroadcastLagged, parse),
        ConnectionAction::PollPeer
    ));
    assert!(matches!(
        connection.poll_next(ConnectionEvent::BroadcastIdle, parse),
        ConnectionAction::PollPeer
    ));
    assert!(matches!(connection.poll_next(ConnectionEvent::Idle, parse), ConnectionAction::Wait));
    assert!(matches!(
        connection.poll_next(ConnectionEvent::Closed, parse),
        ConnectionAction::Close(None)
    ));
}

#[test]
fn a_handle_with_keys() {
    let sk = ed25519_dalek::SigningKey::from_bytes(&[7u8; 32]);
    let vk = sk.verifying_key();
    let mut handle = authorized::FlashblocksHandle::new(vk, Some(sk.clone()));
    assert_eq!(handle.builder_sk().unwrap().to_bytes(), sk.to_bytes());
    assert_eq!(handle.ctx.authorizer_vk, vk);
    handle.publish_new(flashblock(1, 0, 10), b"{}", 1);
    assert_eq!(handle.flashblocks_tx().len(), 1);
    let keyless = authorized::FlashblocksHandle::new(vk, None);
    assert_eq!(keyless.builder_sk().err(), Some(FlashblocksP2PError::MissingBuilderSk));
}
