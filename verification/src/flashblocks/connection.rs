//! A connection of the flashblocks protocol to a single peer.
use crate::flashblocks::p2p::{
    self, FlashblocksP2PCtx, FlashblocksP2PMsg, FlashblocksP2PState, MAX_FLASHBLOCK_INDEX,
    MessageError, PeerMsg,
};
use crate::flashblocks::primitives::{self, B64, FlashblockMetadata, FlashblocksPayloadV1};
use crate::rlp;
use vstd::prelude::*;

verus! {

/// Identifies a peer: its public key.
pub type PeerId = [u8; 64];

/// What a peer's reputation changes for.
#[derive(Clone, Copy, Debug, PartialEq, Eq)]
pub enum ReputationChangeKind {
    /// A message that cannot be decoded.
    BadMessage,
    /// A flashblock that the peer has sent before.
    AlreadySeenTransaction,
}

/// A connection to a single peer: which flashblocks the peer has sent.
#[derive(Debug, PartialEq, Eq)]
pub struct FlashblocksConnection {
    /// Identifies the connected peer.
    pub peer_id: PeerId,
    /// Most recent payload id that came from this peer.
    pub payload_id: B64,
    /// The indices of flashblocks that came from this peer for the current payload. Used to detect
    /// duplicate messages.
    pub received: Vec<bool>,
}

/// What a connection knows of the flashblocks that its peer has sent.
#[verifier::ext_equal]
pub struct ConnectionView {
    pub payload_id: B64,
    pub received: Seq<bool>,
}

/// What becomes of a flashblock that a peer has sent.
pub enum Receipt {
    /// Its index is out of range.
    OutOfRange,
    /// The peer has sent it before.
    Duplicate,
    /// It is published.
    New,
}

impl ConnectionView {
    /// Whether the peer has sent the flashblock of that payload and index.
    pub open spec fn has_sent(self, id: B64, index: nat) -> bool {
        self.payload_id == id && index < self.received.len() && self.received[index as int]
    }

    /// What becomes of a flashblock of that payload and index.
    pub open spec fn receipt(self, id: B64, index: u64) -> Receipt {
        if index > MAX_FLASHBLOCK_INDEX {
            Receipt::OutOfRange
        } else if self.has_sent(id, index as nat) {
            Receipt::Duplicate
        } else {
            Receipt::New
        }
    }

    /// What is known once the peer has sent the flashblock of that payload and index.
    pub open spec fn noted(self, id: B64, index: u64) -> ConnectionView {
        let entered = if self.payload_id != id {
            self.received.map_values(|b: bool| false)
        } else {
            self.received
        };
        if index > MAX_FLASHBLOCK_INDEX {
            ConnectionView { payload_id: id, received: entered }
        } else {
            let extra = if index < entered.len() {
                0
            } else {
                (index + 1 - entered.len()) as nat
            };
            ConnectionView {
                payload_id: id,
                received: (entered + Seq::new(extra, |i: int| false)).update(index as int, true),
            }
        }
    }
}

impl View for FlashblocksConnection {
    type V = ConnectionView;

    open spec fn view(&self) -> ConnectionView {
        ConnectionView { payload_id: self.payload_id, received: self.received@ }
    }
}

/// What happens at a connection.
pub enum ConnectionEvent {
    /// A message for all peers.
    Broadcast(PeerMsg),
    /// Messages for all peers were lost.
    BroadcastLagged,
    /// There is no message for all peers.
    BroadcastIdle,
    /// The peer has sent a frame.
    Frame(Vec<u8>),
    /// The peer has sent nothing.
    Idle,
    /// The peer has closed the connection.
    Closed,
}

/// What is done next at a connection.
pub enum ConnectionAction {
    /// Send these bytes to the peer.
    Send(Vec<u8>),
    /// See what the peer has sent.
    PollPeer,
    /// Handle this flashblock, and then see what there is for all peers.
    Handle(FlashblocksPayloadV1),
    /// Wait until something happens.
    Wait,
    /// Close the connection, and change the peer's reputation first where there is a reason to.
    Close(Option<ReputationChangeKind>),
}

impl FlashblocksConnection {
    /// A connection to a peer that has sent nothing.
    pub fn new(peer_id: PeerId) -> (r: Self)
        ensures
            r.peer_id == peer_id,
            r@.payload_id@ == Seq::new(8, |i: int| 0u8),
            r@.received.len() == 0,
            forall|i: int| 0 <= i < 8 ==> (#[trigger] r.payload_id@[i]) == 0,
            r.received@.len() == 0,
    {
        FlashblocksConnection { peer_id, payload_id: [0;8], received: Vec::new() }
    }

    /// What is done on an event. `parse` reads the text of a flashblock's metadata.
    ///
    /// Messages for all peers go to the peer, save for flashblocks that came from it. A frame that
    /// cannot be decoded ends the connection and counts against the peer.
    pub fn poll_next<F: Fn(&[u8]) -> Option<FlashblockMetadata>>(
        &self,
        event: ConnectionEvent,
        parse: F,
    ) -> (r: ConnectionAction)
        requires
            forall|b: &[u8]| #[trigger] parse.requires((b,)),
        ensures
            match event {
                ConnectionEvent::Broadcast(msg) => if self@.has_sent(msg.parts().0, msg.parts().1) {
                    r is PollPeer
                } else {
                    r matches ConnectionAction::Send(bytes) && bytes@ == msg.parts().2
                },
                ConnectionEvent::BroadcastLagged => r is PollPeer,
                ConnectionEvent::BroadcastIdle => r is PollPeer,
                ConnectionEvent::Idle => r is Wait,
                ConnectionEvent::Closed => r == ConnectionAction::Close(None),
                ConnectionEvent::Frame(frame) => match r {
                    ConnectionAction::Handle(payload) => exists|rest: Seq<u8>| #[trigger]
                        p2p::message_decodes(
                            frame@,
                            parse,
                            Ok(FlashblocksP2PMsg::FlashblocksPayloadV1(payload)),
                            rest,
                        ),
                    ConnectionAction::Close(reason) => reason == Some(
                        ReputationChangeKind::BadMessage,
                    ) && exists|e: MessageError, rest: Seq<u8>| #[trigger]
                        p2p::message_decodes(frame@, parse, Err(e), rest),
                    _ => false,
                },
            },
            event matches ConnectionEvent::Broadcast(
                PeerMsg::FlashblocksPayloadV1((id, index, bytes)),
            ) ==> {
                let known = {
                    &&& id == self.payload_id
                    &&& index < self.received@.len()
                    &&& self.received@[index as int]
                };
                &&& known ==> r is PollPeer
                &&& !known ==> (r matches ConnectionAction::Send(sent) && sent@ == bytes@)
            },
    {
        match event {
            ConnectionEvent::Broadcast(msg) => match msg {
                PeerMsg::FlashblocksPayloadV1((payload_id, index, bytes)) => {
                    let same = primitives::same_bytes(&self.payload_id, &payload_id);
                    if same && index < self.received.len() && self.received[index] {
                        ConnectionAction::PollPeer
                    } else {
                        ConnectionAction::Send(bytes)
                    }
                },
            },
            ConnectionEvent::BroadcastLagged => ConnectionAction::PollPeer,
            ConnectionEvent::BroadcastIdle => ConnectionAction::PollPeer,
            ConnectionEvent::Idle => ConnectionAction::Wait,
            ConnectionEvent::Closed => ConnectionAction::Close(None),
            ConnectionEvent::Frame(frame) => {
                let mut rest: &[u8] = frame.as_slice();
                match FlashblocksP2PMsg::decode(&mut rest, parse) {
                    Ok(msg) => match msg {
                        FlashblocksP2PMsg::FlashblocksPayloadV1(payload) => {
                            ConnectionAction::Handle(payload)
                        },
                    },
                    Err(_) => ConnectionAction::Close(Some(ReputationChangeKind::BadMessage)),
                }
            },
        }
    }

    /// Handles a flashblock that the peer has sent, at the time `now`, with `json` as the text of
    /// its metadata: it is published unless its index is out of range, or the peer has sent it
    /// before, which counts against the peer.
    pub fn handle_flashblocks_payload_v1(
        &mut self,
        ctx: &mut FlashblocksP2PCtx,
        state: &mut FlashblocksP2PState,
        payload: FlashblocksPayloadV1,
        json: &[u8],
        now: i64,
    ) -> (r: Option<ReputationChangeKind>)
        requires
            old(self)@.receipt(payload.payload_id, payload.index) is New ==> {
                &&& payload.metadata.flashblock_timestamp is Some
                &&& rlp::enc(p2p::message_item(payload@, json@)).len() <= usize::MAX
            },
        ensures
            final(self).peer_id == old(self).peer_id,
            final(self)@ == old(self)@.noted(payload.payload_id, payload.index),
            ({
                let bytes = rlp::enc(p2p::message_item(payload@, json@));
                let p = old(state)@.published(payload@, bytes, now);
                match old(self)@.receipt(payload.payload_id, payload.index) {
                    Receipt::New => {
                        &&& r is None
                        &&& final(state)@ == p.state
                        &&& old(ctx).sends(*final(ctx), p)
                    },
                    Receipt::Duplicate => {
                        &&& r == Some(ReputationChangeKind::AlreadySeenTransaction)
                        &&& *final(state) == *old(state)
                        &&& *final(ctx) == *old(ctx)
                    },
                    Receipt::OutOfRange => {
                        &&& r is None
                        &&& *final(state) == *old(state)
                        &&& *final(ctx) == *old(ctx)
                    },
                }
            }),
            r is Some <==> {
                &&& payload.index <= 100
                &&& payload.payload_id == old(self).payload_id
                &&& payload.index < old(self).received@.len()
                &&& old(self).received@[payload.index as int]
            },
            r matches Some(change) ==> change == ReputationChangeKind::AlreadySeenTransaction,
            r is None && payload.index <= 100 ==> {
                let sent = old(state)@.published(
                    payload@,
                    rlp::enc(p2p::message_item(payload@, json@)),
                    now,
                );
                &&& final(state)@ == sent.state
                &&& old(ctx).sends(*final(ctx), sent)
            },
            r is Some || payload.index > 100 ==> *final(state) == *old(state) && *final(ctx)
                == *old(ctx),
            final(self).payload_id == payload.payload_id,
            payload.index <= 100 ==> payload.index < final(self).received@.len()
                && final(self).received@[payload.index as int],
            forall|i: int|
                0 <= i < old(self).received@.len() && i != payload.index ==> (
                #[trigger] final(self).received@[i]) == (old(self).received@[i]
                    && payload.payload_id == old(self).payload_id),
            forall|i: int|
                old(self).received@.len() <= i < final(self).received@.len() && i != payload.index
                    ==> !(#[trigger] final(self).received@[i]),
    {
        let ghost id = payload.payload_id;
        let ghost before = self@;
        if !primitives::same_bytes(&self.payload_id, &payload.payload_id) {
            self.payload_id = payload.payload_id;
            forget(&mut self.received);
        }
        if payload.index > MAX_FLASHBLOCK_INDEX {
            assert(self@ =~= before.noted(id, payload.index));
            return None;
        }
        let index = payload.index as usize;
        let ghost entered = self.received@;
        while self.received.len() <= index
            invariant
                entered.len() <= self.received@.len(),
                self.received@.len() == entered.len() || self.received@.len() <= index + 1,
                self.received@ =~= entered + Seq::new(
                    (self.received@.len() - entered.len()) as nat,
                    |i: int| false,
                ),
                self.payload_id == id,
                self.peer_id == old(self).peer_id,
                index <= MAX_FLASHBLOCK_INDEX,
            decreases index + 1 - self.received.len(),
        {
            self.received.push(false);
        }
        if self.received[index] {
            assert(self@ =~= before.noted(id, payload.index));
            return Some(ReputationChangeKind::AlreadySeenTransaction);
        }
        self.received.set(index, true);
        assert(self@ =~= before.noted(id, payload.index));
        ctx.publish(state, payload, json, now);
        None
    }
}

/// Forgets which flashblocks have come in.
fn forget(received: &mut Vec<bool>)
    ensures
        final(received)@ == old(received)@.map_values(|b: bool| false),
{
    let n = received.len();
    let mut i: usize = 0;
    while i < n
        invariant
            i <= n,
            n == received@.len(),
            n == old(received)@.len(),
            forall|k: int| 0 <= k < i ==> !received@[k],
        decreases n - i,
    {
        received.set(i, false);
        i += 1;
    }
    assert(received@ =~= old(received)@.map_values(|b: bool| false));
}

/// A flashblock is not sent back to the peer that it came from.
pub proof fn law_no_echo(c: ConnectionView, id: B64, index: u64)
    requires
        index <= MAX_FLASHBLOCK_INDEX,
    ensures
        c.noted(id, index).has_sent(id, index as nat),
{
}

/// What is known once the peer has sent the flashblocks of these payloads and indices, one after the
/// other.
pub open spec fn noted_all(c: ConnectionView, sent: Seq<(B64, u64)>) -> ConnectionView
    decreases sent.len(),
{
    if sent.len() == 0 {
        c
    } else {
        noted_all(c, sent.drop_last()).noted(sent.last().0, sent.last().1)
    }
}

/// Whether the flashblock of that payload and index is among those that were sent, with none of
/// another payload since.
pub open spec fn sent_since(sent: Seq<(B64, u64)>, id: B64, index: u64) -> bool {
    exists|k: int|
        0 <= k < sent.len() && #[trigger] sent[k] == (id, index) && forall|j: int|
            k <= j < sent.len() ==> (#[trigger] sent[j]).0 == id
}

/// A flashblock that a peer sends is a duplicate exactly if the peer has sent it before, with none of
/// another payload since.
pub proof fn law_duplicate(c: ConnectionView, sent: Seq<(B64, u64)>, id: B64, index: u64)
    requires
        c.received.len() == 0,
        index <= MAX_FLASHBLOCK_INDEX,
    ensures
        noted_all(c, sent).receipt(id, index) is Duplicate <==> sent_since(sent, id, index),
        noted_all(c, sent).receipt(id, index) is New <==> !sent_since(sent, id, index),
    decreases sent.len(),
{
    if sent.len() > 0 {
        let n = sent.len() - 1;
        let before = sent.drop_last();
        let last = sent[n];
        law_duplicate(c, before, id, index);
        if sent_since(sent, id, index) {
            let k = choose|k: int|
                0 <= k < sent.len() && #[trigger] sent[k] == (id, index) && forall|j: int|
                    k <= j < sent.len() ==> (#[trigger] sent[j]).0 == id;
            assert(last.0 == id);
            if k < n {
                assert(before[k] == (id, index));
                assert forall|j: int| k <= j < before.len() implies (#[trigger] before[j]).0 == id by {
                    assert(sent[j].0 == id);
                }
                assert(sent_since(before, id, index));
            }
        }
        if noted_all(c, sent).has_sent(id, index as nat) {
            assert(last.0 == id);
            if last.1 == index {
                assert(sent[n] == (id, index));
                assert(sent_since(sent, id, index));
            } else {
                assert(noted_all(c, before).has_sent(id, index as nat));
                let k = choose|k: int|
                    0 <= k < before.len() && #[trigger] before[k] == (id, index) && forall|j: int|
                        k <= j < before.len() ==> (#[trigger] before[j]).0 == id;
                assert(sent[k] == (id, index));
                assert forall|j: int| k <= j < sent.len() implies (#[trigger] sent[j]).0 == id by {
                    if j < n {
                        assert(before[j].0 == id);
                    }
                }
            }
        }
    }
}

/// A payload's first flashblock from a peer is new, whichever payload the peer has sent before.
pub proof fn law_new_payload(c: ConnectionView, id: B64, index: u64)
    requires
        index <= MAX_FLASHBLOCK_INDEX,
        c.payload_id != id,
    ensures
        c.receipt(id, index) is New,
{
}

}
