//! The flashblocks peer-to-peer protocol: its messages, and the order in which flashblocks that
//! come in are handed on.
use crate::flashblocks::collection::{self, PushError};
use crate::flashblocks::payload::{self, DecodeError};
use crate::flashblocks::primitives::{
    self, B64, FlashblockMetadata, FlashblocksPayloadV1, PayloadView,
};
use crate::flashblocks::state::FlashblocksStateExecutor;
use crate::payload::OpBuiltPayload;
use crate::rlp::{self, Item, RlpError};
use std::sync::Arc;
use vstd::prelude::*;

verus! {

/// Maximum frame size for rlpx messages: 16 MiB.
pub const MAX_FRAME: usize = 0x100_0000;

/// Maximum index of a flashblock.
///
/// Not intended to ever be hit. The buffer of flashblocks grows with the index, and this keeps it
/// from taking excessive memory.
pub const MAX_FLASHBLOCK_INDEX: u64 = 100;

/// Number of messages that a broadcast channel buffers before it drops any.
pub const BROADCAST_BUFFER_CAPACITY: usize = 100;

/// A message of the flashblocks peer-to-peer network.
#[derive(Debug, PartialEq, Eq)]
pub enum FlashblocksP2PMsg<M = FlashblockMetadata> {
    /// A flashblock.
    FlashblocksPayloadV1(FlashblocksPayloadV1<M>),
}

/// Why bytes are not the wire form of a message.
pub enum MessageError {
    /// A byte string was found in place of the message's list.
    NotAList,
    /// The message's tag names no message.
    UnknownTag,
    /// The message's header or tag cannot be read.
    Rlp(RlpError),
    /// The flashblock in the message cannot be read.
    Payload(DecodeError),
}

/// The item that stands for a message with a flashblock, with `json` as the text of its metadata.
pub open spec fn message_item<M>(v: PayloadView<M>, json: Seq<u8>) -> Item {
    Item::List(seq![rlp::number(0), v.item(json)])
}

/// Whether `s` begins with a list header, the tag `tag`, and then the bytes `rest`. The header has
/// to ask for no more bytes than there are.
pub open spec fn tagged(s: Seq<u8>, tag: u8, rest: Seq<u8>) -> bool {
    let body = rlp::enc(rlp::number(tag as nat)) + rest;
    exists|n: nat| n <= body.len() && s == #[trigger] rlp::header(true, n) + body
}

/// Whether reading a message off the front of `s`, where `parse` reads the text of a flashblock's
/// metadata, can end in `r` with `rest` left over.
pub open spec fn message_decodes<M, F: Fn(&[u8]) -> Option<M>>(
    s: Seq<u8>,
    parse: F,
    r: Result<FlashblocksP2PMsg<M>, MessageError>,
    rest: Seq<u8>,
) -> bool {
    match r {
        Ok(FlashblocksP2PMsg::FlashblocksPayloadV1(v)) => exists|q: Seq<u8>| #[trigger]
            tagged(s, 0, q) && payload::decodes(q, parse, Ok(v), rest),
        Err(MessageError::NotAList) => payload::begins_with_string(s),
        Err(MessageError::UnknownTag) => exists|tag: u8, q: Seq<u8>|
            tag != 0 && #[trigger] tagged(s, tag, q),
        Err(MessageError::Rlp(_)) => !payload::begins_with_string(s) && forall|tag: u8, q: Seq<u8>|
            !#[trigger] tagged(s, tag, q),
        Err(MessageError::Payload(e)) => exists|q: Seq<u8>| #[trigger]
            tagged(s, 0, q) && payload::decodes(q, parse, Err(e), rest),
    }
}

proof fn lemma_message_parts<M>(v: PayloadView<M>, json: Seq<u8>)
    ensures
        rlp::enc(rlp::number(0)) == seq![0x80u8],
        rlp::enc(message_item(v, json)) == rlp::header(true, 1 + rlp::enc(v.item(json)).len()) + (
        seq![0x80u8] + rlp::enc(v.item(json))),
{
    let items = seq![rlp::number(0), v.item(json)];
    let none = Seq::<Item>::empty();
    assert(rlp::be(0) =~= Seq::<u8>::empty());
    assert(rlp::enc(rlp::number(0)) =~= seq![0x80u8]);
    assert(items.drop_first() =~= seq![v.item(json)]);
    assert(items.drop_first().drop_first() =~= none);
    assert(rlp::enc_all(none) =~= Seq::<u8>::empty());
    assert(rlp::enc_all(items.drop_first()) =~= rlp::enc(v.item(json)));
    assert(rlp::enc_all(items) =~= seq![0x80u8] + rlp::enc(v.item(json)));
}

impl<M> FlashblocksP2PMsg<M> {
    /// What the message's flashblock holds.
    pub open spec fn flashblock(self) -> PayloadView<M> {
        match self {
            FlashblocksP2PMsg::FlashblocksPayloadV1(payload) => payload@,
        }
    }

    /// Appends the message's wire form, with `json` as the text of the flashblock's metadata.
    pub fn encode(&self, json: &[u8], out: &mut Vec<u8>)
        requires
            rlp::enc(message_item(self.flashblock(), json@)).len() <= usize::MAX,
        ensures
            final(out)@ == old(out)@ + rlp::enc(message_item(self.flashblock(), json@)),
    {
        match self {
            FlashblocksP2PMsg::FlashblocksPayloadV1(payload) => {
                proof {
                    lemma_message_parts(payload@, json@);
                }
                rlp::put_header(true, 1 + payload.length(json), out);
                rlp::put_u64(0, out);
                payload.encode(json, out);
                assert(out@ =~= old(out)@ + rlp::enc(message_item(payload@, json@)));
            },
        }
    }

    /// Number of bytes of the message's wire form, with `json` as the text of the flashblock's
    /// metadata.
    pub fn length(&self, json: &[u8]) -> (r: usize)
        requires
            rlp::enc(message_item(self.flashblock(), json@)).len() <= usize::MAX,
        ensures
            r == rlp::enc(message_item(self.flashblock(), json@)).len(),
    {
        match self {
            FlashblocksP2PMsg::FlashblocksPayloadV1(payload) => {
                proof {
                    lemma_message_parts(payload@, json@);
                }
                let body_length = 1 + payload.length(json);
                rlp::header_length(true, body_length) + body_length
            },
        }
    }

    /// Reads a message off the front of `buf`. `parse` reads the text of a flashblock's metadata.
    ///
    /// The length in the message's header is not held against what the message takes.
    pub fn decode<F: Fn(&[u8]) -> Option<M>>(buf: &mut &[u8], parse: F) -> (r: Result<
        Self,
        MessageError,
    >)
        requires
            forall|b: &[u8]| #[trigger] parse.requires((b,)),
        ensures
            rlp::is_tail(final(buf)@, old(buf)@),
            message_decodes(old(buf)@, parse, r, final(buf)@),
    {
        let ghost s = buf@;
        assert(rlp::addressable(s)) by {
            assert(buf.len() == s.len());
        }
        let (list, n) = match rlp::take_header(buf) {
            Ok(h) => h,
            Err(e) => {
                proof {
                    assert forall|p: Seq<u8>, rest: Seq<u8>| s != #[trigger] (rlp::string(p) + rest) by {
                        assert(rlp::string(p) == rlp::framed(false, p));
                    }
                    assert forall|tag: u8, q: Seq<u8>| !#[trigger] tagged(s, tag, q) by {
                        if tagged(s, tag, q) {
                            let m = lemma_tagged(s, tag, q);
                            let body = rlp::enc(rlp::number(tag as nat)) + q;
                            assert(s != rlp::framed(true, body.take(m as int)) + body.skip(m as int));
                        }
                    }
                }
                return Err(MessageError::Rlp(RlpError::Item(e)));
            },
        };
        let ghost body = buf@;
        if !list {
            assert(s == rlp::string(body.take(n as int)) + body.skip(n as int));
            return Err(MessageError::NotAList);
        }
        assert(s =~= rlp::header(true, n as nat) + body);
        match rlp::take_u8(buf) {
            Ok(tag) => {
                proof {
                    rlp::lemma_tail_of_tail(buf@, body, s);
                    assert(tagged(s, tag, buf@));
                }
                let ghost q = buf@;
                if tag != 0 {
                    return Err(MessageError::UnknownTag);
                }
                match FlashblocksPayloadV1::decode(buf, parse) {
                    Ok(payload) => {
                        proof {
                            rlp::lemma_tail_of_tail(buf@, q, s);
                        }
                        Ok(FlashblocksP2PMsg::FlashblocksPayloadV1(payload))
                    },
                    Err(e) => {
                        proof {
                            rlp::lemma_tail_of_tail(buf@, q, s);
                        }
                        Err(MessageError::Payload(e))
                    },
                }
            },
            Err(e) => {
                proof {
                    rlp::lemma_tail_of_tail(buf@, body, s);
                    payload::lemma_not_string(s, body.take(n as int), body.skip(n as int));
                    assert forall|tag: u8, q: Seq<u8>| !#[trigger] tagged(s, tag, q) by {
                        if tagged(s, tag, q) {
                            lemma_body_unique(s, tag, q, n as nat, body);
                        }
                    }
                }
                Err(MessageError::Rlp(RlpError::Item(e)))
            },
        }
    }
}

/// A tagged message, as a framed payload and what follows it.
proof fn lemma_tagged(s: Seq<u8>, tag: u8, q: Seq<u8>) -> (m: nat)
    requires
        tagged(s, tag, q),
    ensures
        ({
            let body = rlp::enc(rlp::number(tag as nat)) + q;
            m <= body.len() && s == rlp::framed(true, body.take(m as int)) + body.skip(m as int)
        }),
{
    let body = rlp::enc(rlp::number(tag as nat)) + q;
    let m = choose|n: nat| n <= body.len() && s == #[trigger] rlp::header(true, n) + body;
    assert(s =~= rlp::framed(true, body.take(m as int)) + body.skip(m as int));
    m
}

/// What follows a list's header is determined.
proof fn lemma_body_unique(s: Seq<u8>, tag: u8, q: Seq<u8>, n: nat, body: Seq<u8>)
    requires
        rlp::addressable(s),
        tagged(s, tag, q),
        n <= body.len(),
        s == rlp::header(true, n) + body,
    ensures
        body == rlp::enc(rlp::number(tag as nat)) + q,
{
    let other = rlp::enc(rlp::number(tag as nat)) + q;
    let m = lemma_tagged(s, tag, q);
    assert(s =~= rlp::framed(true, body.take(n as int)) + body.skip(n as int));
    rlp::lemma_framed_unique(
        true,
        body.take(n as int),
        body.skip(n as int),
        true,
        other.take(m as int),
        other.skip(m as int),
    );
    assert(body =~= body.take(n as int) + body.skip(n as int));
    assert(other =~= other.take(m as int) + other.skip(m as int));
}

/// A message's wire form is read back as that message: reading it off the front of any bytes
/// succeeds, gives the flashblock that was written, and leaves the bytes behind it. `parse` has to
/// read the metadata back out of its text.
pub proof fn law_message_round_trip<M, F: Fn(&[u8]) -> Option<M>>(
    v: PayloadView<M>,
    json: Seq<u8>,
    after: Seq<u8>,
    parse: F,
    r: Result<FlashblocksP2PMsg<M>, MessageError>,
    left: Seq<u8>,
)
    requires
        rlp::addressable(rlp::enc(message_item(v, json)) + after),
        forall|m: Option<M>| #[trigger] payload::parses_to(parse, json, m) ==> m == Some(v.metadata),
        message_decodes(rlp::enc(message_item(v, json)) + after, parse, r, left),
    ensures
        r matches Ok(msg) && msg.flashblock() == v,
        left == after,
{
    let s = rlp::enc(message_item(v, json)) + after;
    let q = rlp::enc(v.item(json)) + after;
    let n = 1 + rlp::enc(v.item(json)).len();
    lemma_message_parts(v, json);
    let body = rlp::enc(rlp::number(0)) + q;
    assert(s =~= rlp::header(true, n) + body);
    assert(tagged(s, 0, q));
    assert(s =~= rlp::framed(true, body.take(n as int)) + body.skip(n as int));
    payload::lemma_not_string(s, body.take(n as int), body.skip(n as int));
    assert forall|tag: u8, p: Seq<u8>| #[trigger] tagged(s, tag, p) implies tag == 0 && p == q by {
        lemma_body_unique(s, tag, p, n, body);
        rlp::lemma_enc_unique(rlp::number(0), q, rlp::number(tag as nat), p);
        rlp::lemma_be_injective(0, tag as nat);
    }
    match r {
        Ok(FlashblocksP2PMsg::FlashblocksPayloadV1(w)) => {
            payload::law_round_trip(v, json, after, parse, Ok(w), left);
        },
        Err(MessageError::Payload(e)) => {
            payload::law_round_trip(v, json, after, parse, Err(e), left);
        },
        _ => {},
    }
}

/// Messages that go to every connection, to be sent to its peer.
#[derive(Debug, PartialEq, Eq)]
pub enum PeerMsg {
    /// A serialized flashblock, with its payload id and its index.
    FlashblocksPayloadV1((B64, usize, Vec<u8>)),
}

impl PeerMsg {
    /// What the message holds.
    pub open spec fn parts(self) -> (B64, nat, Seq<u8>) {
        match self {
            PeerMsg::FlashblocksPayloadV1((id, index, bytes)) => (id, index as nat, bytes@),
        }
    }
}

/// What messages hold, one after the other.
pub open spec fn messages(msgs: Seq<PeerMsg>) -> Seq<(B64, nat, Seq<u8>)> {
    msgs.map_values(|m: PeerMsg| m.parts())
}

/// What flashblocks hold, one after the other.
pub open spec fn events(flashblocks: Seq<FlashblocksPayloadV1>) -> Seq<
    PayloadView<FlashblockMetadata>,
> {
    flashblocks.map_values(|p: FlashblocksPayloadV1| p@)
}

/// What a slot of the buffer holds.
pub open spec fn slot(s: Option<FlashblocksPayloadV1>) -> Option<PayloadView<FlashblockMetadata>> {
    match s {
        Some(p) => Some(p@),
        None => None,
    }
}

/// What the slots of a buffer hold.
pub open spec fn slots(v: Seq<Option<FlashblocksPayloadV1>>) -> Seq<
    Option<PayloadView<FlashblockMetadata>>,
> {
    v.map_values(|s: Option<FlashblocksPayloadV1>| slot(s))
}

/// The state of the flashblocks protocol: the flashblocks of the current payload that have come in,
/// and how far they have been handed on.
#[derive(Debug, PartialEq, Eq)]
pub struct FlashblocksP2PState {
    /// Most recent payload id.
    pub payload_id: B64,
    /// Timestamp of the most recent payload.
    pub payload_timestamp: u64,
    /// When the most recent flashblock was handed on, in nanoseconds since the unix epoch.
    pub flashblock_timestamp: i64,
    /// Index of the next flashblock to hand on. Keeps their delivery in strict order.
    pub flashblock_index: usize,
    /// Flashblocks of the current payload by their index, `None` for those that have not come in.
    /// They can come in out of order, and are handed on in order.
    pub flashblocks: Vec<Option<FlashblocksPayloadV1>>,
}

/// What the state of the protocol holds.
#[verifier::ext_equal]
pub struct P2PStateView {
    pub payload_id: B64,
    pub payload_timestamp: u64,
    pub flashblock_timestamp: i64,
    pub flashblock_index: nat,
    pub slots: Seq<Option<PayloadView<FlashblockMetadata>>>,
}

impl P2PStateView {
    /// Whether no flashblock has come in.
    pub open spec fn is_initial(self) -> bool {
        &&& self.payload_id@ == primitives::zeros(8)
        &&& self.payload_timestamp == 0
        &&& self.flashblock_timestamp == 0
        &&& self.flashblock_index == 0
        &&& self.slots.len() == 0
    }
}

impl View for FlashblocksP2PState {
    type V = P2PStateView;

    open spec fn view(&self) -> P2PStateView {
        P2PStateView {
            payload_id: self.payload_id,
            payload_timestamp: self.payload_timestamp,
            flashblock_timestamp: self.flashblock_timestamp,
            flashblock_index: self.flashblock_index as nat,
            slots: slots(self.flashblocks@),
        }
    }
}

/// Where the run of filled slots that starts at `from` ends.
pub open spec fn run_end(slots: Seq<Option<PayloadView<FlashblockMetadata>>>, from: nat) -> nat
    decreases slots.len() - from,
{
    if from < slots.len() && slots[from as int] is Some {
        run_end(slots, from + 1)
    } else {
        from
    }
}

/// What a publication does: the state that it leaves, the message for the peers, and the
/// flashblocks that are handed on.
#[verifier::ext_equal]
pub struct Publication {
    pub state: P2PStateView,
    pub peer: Option<(B64, nat, Seq<u8>)>,
    pub delivered: Seq<PayloadView<FlashblockMetadata>>,
}

impl P2PStateView {
    /// The protocol's invariant: what has been handed on is in the buffer, which has no more slots
    /// than there can be flashblocks, and every flashblock in it belongs to the current payload and
    /// stands in the slot of its index.
    pub open spec fn wf(self) -> bool {
        &&& self.slots.len() <= MAX_FLASHBLOCK_INDEX + 1
        &&& forall|i: int| 0 <= i < self.flashblock_index ==> i < self.slots.len()
            && (#[trigger] self.slots[i]) is Some
        &&& forall|i: int| 0 <= i < self.slots.len() && (#[trigger] self.slots[i]) is Some
            ==> self.slots[i]->0.index == i && self.slots[i]->0.payload_id == self.payload_id
    }

    /// The state once it is known which payload is the current one: that of `p`, where its timestamp
    /// is later than all before. A payload that was not the current one starts with an empty buffer.
    pub open spec fn entered(self, p: PayloadView<FlashblockMetadata>) -> P2PStateView {
        let timestamp = p.metadata.flashblock_timestamp->0 as u64;
        if timestamp > self.payload_timestamp {
            P2PStateView {
                payload_id: p.payload_id,
                payload_timestamp: timestamp,
                flashblock_index: if p.payload_id == self.payload_id {
                    self.flashblock_index
                } else {
                    0
                },
                slots: if p.payload_id == self.payload_id {
                    self.slots
                } else {
                    self.slots.map_values(|s: Option<PayloadView<FlashblockMetadata>>| None)
                },
                ..self
            }
        } else {
            self
        }
    }

    /// The state with a slot for the index `index`.
    pub open spec fn grown(self, index: u64) -> P2PStateView {
        let extra = if index < self.slots.len() {
            0
        } else {
            (index + 1 - self.slots.len()) as nat
        };
        P2PStateView { slots: self.slots + Seq::new(extra, |i: int| None), ..self }
    }

    /// What publishing the flashblock `p` does at the time `now`, with `bytes` as the wire form of
    /// its message.
    pub open spec fn published(
        self,
        p: PayloadView<FlashblockMetadata>,
        bytes: Seq<u8>,
        now: i64,
    ) -> Publication {
        let none = Seq::<PayloadView<FlashblockMetadata>>::empty();
        let entered = self.entered(p);
        let grown = entered.grown(p.index);
        if p.payload_id != entered.payload_id || p.index > MAX_FLASHBLOCK_INDEX {
            Publication { state: entered, peer: None, delivered: none }
        } else if grown.slots[p.index as int] is Some {
            Publication { state: grown, peer: None, delivered: none }
        } else {
            let cached = P2PStateView {
                slots: grown.slots.update(p.index as int, Some(p)),
                ..grown
            };
            if bytes.len() > MAX_FRAME {
                Publication { state: cached, peer: None, delivered: none }
            } else {
                let from = cached.flashblock_index;
                let end = run_end(cached.slots, from);
                Publication {
                    state: P2PStateView {
                        flashblock_index: end,
                        flashblock_timestamp: if end > from {
                            now
                        } else {
                            cached.flashblock_timestamp
                        },
                        ..cached
                    },
                    peer: Some((p.payload_id, p.index as nat, bytes)),
                    delivered: Seq::new(
                        (end - from) as nat,
                        |k: int| cached.slots[from + k]->0,
                    ),
                }
            }
        }
    }
}

impl Default for FlashblocksP2PState {
    /// The state before any flashblock has come in.
    fn default() -> (r: Self)
        ensures
            r@.is_initial(),
            r@.wf(),
    {
        let r = FlashblocksP2PState {
            payload_id: [0;8],
            payload_timestamp: 0,
            flashblock_timestamp: 0,
            flashblock_index: 0,
            flashblocks: Vec::new(),
        };
        assert(r.payload_id@ =~= primitives::zeros(8));
        r
    }
}

/// What is to be sent over the channels of the protocol, in order.
#[derive(Debug, PartialEq, Eq)]
pub struct FlashblocksP2PCtx {
    /// Messages for all connected peers.
    pub peer_tx: Vec<PeerMsg>,
    /// Flashblocks in strict order, for the RPC overlay and other consumers.
    pub flashblock_tx: Vec<FlashblocksPayloadV1>,
}

impl FlashblocksP2PCtx {
    /// Whether a publication adds what it sends behind what was to be sent before, which leads to
    /// `after`.
    pub open spec fn sends(self, after: FlashblocksP2PCtx, p: Publication) -> bool {
        &&& messages(after.peer_tx@) == match p.peer {
            Some(m) => messages(self.peer_tx@).push(m),
            None => messages(self.peer_tx@),
        }
        &&& events(after.flashblock_tx@) == events(self.flashblock_tx@) + p.delivered
    }

    /// Nothing to be sent.
    pub fn new() -> (r: Self)
        ensures
            r.peer_tx@.len() == 0,
            r.flashblock_tx@.len() == 0,
    {
        FlashblocksP2PCtx { peer_tx: Vec::new(), flashblock_tx: Vec::new() }
    }

    /// Publishes a flashblock at the time `now`, with `json` as the text of its metadata.
    ///
    /// A flashblock of another payload than the current one starts a new payload where its timestamp
    /// is later than all before, and is passed over where it is not. One whose index is out of range,
    /// or that has come in already, is passed over too. Any other is buffered and sent to the peers,
    /// and the flashblocks that are next in order are handed on.
    pub fn publish(
        &mut self,
        state: &mut FlashblocksP2PState,
        payload: FlashblocksPayloadV1,
        json: &[u8],
        now: i64,
    )
        requires
            payload.metadata.flashblock_timestamp is Some,
            rlp::enc(message_item(payload@, json@)).len() <= usize::MAX,
        ensures
            ({
                let bytes = rlp::enc(message_item(payload@, json@));
                let p = old(state)@.published(payload@, bytes, now);
                &&& final(state)@ == p.state
                &&& old(self).sends(*final(self), p)
            }),
            ({
                let time = payload.metadata.flashblock_timestamp->0 as u64;
                let later = time > old(state).payload_timestamp;
                let known = {
                    &&& payload.payload_id == old(state).payload_id
                    &&& payload.index < old(state).flashblocks@.len()
                    &&& old(state).flashblocks@[payload.index as int] is Some
                };
                let taken = {
                    &&& later || payload.payload_id == old(state).payload_id
                    &&& payload.index <= 100
                    &&& !known
                };
                let bytes = rlp::enc(message_item(payload@, json@));
                &&& later ==> final(state).payload_id == payload.payload_id
                    && final(state).payload_timestamp == time
                &&& !later ==> final(state).payload_id == old(state).payload_id
                    && final(state).payload_timestamp == old(state).payload_timestamp
                &&& taken ==> {
                    &&& payload.index < final(state).flashblocks@.len()
                    &&& final(state).flashblocks@[payload.index as int] is Some
                    &&& final(state).flashblocks@[payload.index as int]->0@ == payload@
                }
                &&& taken && bytes.len() <= 16 * 1024 * 1024 ==> {
                    &&& final(self).peer_tx@.len() == old(self).peer_tx@.len() + 1
                    &&& final(self).peer_tx@.last().parts() == (
                        payload.payload_id,
                        payload.index as nat,
                        bytes,
                    )
                }
                &&& !taken || bytes.len() > 16 * 1024 * 1024 ==> {
                    &&& final(self).peer_tx@.len() == old(self).peer_tx@.len()
                    &&& final(self).flashblock_tx@.len() == old(self).flashblock_tx@.len()
                }
            }),
    {
        let ghost p = payload@;
        let ghost bytes_view = rlp::enc(message_item(payload@, json@));
        let timestamp = match payload.metadata.flashblock_timestamp {
            Some(t) => t as u64,
            None => 0,
        };
        let is_current = primitives::same_bytes(&payload.payload_id, &state.payload_id);
        if timestamp > state.payload_timestamp {
            state.payload_timestamp = timestamp;
            if !is_current {
                state.payload_id = payload.payload_id;
                state.flashblock_index = 0;
                clear(&mut state.flashblocks);
            }
        } else if !is_current {
            assert(state@ =~= old(state)@.entered(p));
            return;
        }
        assert(state@ =~= old(state)@.entered(p));
        if payload.index > MAX_FLASHBLOCK_INDEX {
            return;
        }
        let index = payload.index as usize;
        grow(&mut state.flashblocks, index);
        assert(state@ =~= old(state)@.entered(p).grown(p.index));
        let ghost grown = state@;
        assert(grown.slots[index as int] == slot(state.flashblocks@[index as int]));
        if state.flashblocks[index].is_some() {
            return;
        }
        state.flashblocks.set(index, Some(payload.clone()));
        assert(state@ =~= (P2PStateView { slots: grown.slots.update(index as int, Some(p)), ..grown }));
        let payload_id = payload.payload_id;
        let msg = FlashblocksP2PMsg::FlashblocksPayloadV1(payload);
        let mut bytes: Vec<u8> = Vec::new();
        msg.encode(json, &mut bytes);
        assert(bytes@ =~= bytes_view);
        if bytes.len() > MAX_FRAME {
            return;
        }
        self.peer_tx.push(PeerMsg::FlashblocksPayloadV1((payload_id, index, bytes)));
        assert(messages(self.peer_tx@) =~= messages(old(self).peer_tx@).push(
            (payload_id, index as nat, bytes_view),
        ));
        deliver(&mut self.flashblock_tx, state, now);
        proof {
            assert(state@.slots[index as int] == slot(state.flashblocks@[index as int]));
            assert(self.peer_tx@.last().parts() == (payload_id, index as nat, bytes_view));
        }
    }
}

/// Empties all slots.
fn clear(flashblocks: &mut Vec<Option<FlashblocksPayloadV1>>)
    ensures
        slots(final(flashblocks)@) == slots(old(flashblocks)@).map_values(
            |s: Option<PayloadView<FlashblockMetadata>>| None::<PayloadView<FlashblockMetadata>>,
        ),
{
    let n = flashblocks.len();
    let mut i: usize = 0;
    while i < n
        invariant
            i <= n,
            n == flashblocks@.len(),
            n == old(flashblocks)@.len(),
            forall|k: int| 0 <= k < i ==> flashblocks@[k] is None,
        decreases n - i,
    {
        flashblocks.set(i, None);
        i += 1;
    }
    assert(slots(flashblocks@) =~= slots(old(flashblocks)@).map_values(
        |s: Option<PayloadView<FlashblockMetadata>>| None::<PayloadView<FlashblockMetadata>>,
    ));
}

/// Makes sure that there is a slot for `index`.
fn grow(flashblocks: &mut Vec<Option<FlashblocksPayloadV1>>, index: usize)
    requires
        index <= MAX_FLASHBLOCK_INDEX,
    ensures
        final(flashblocks)@ == old(flashblocks)@ + Seq::new(
            if index < old(flashblocks)@.len() {
                0
            } else {
                (index + 1 - old(flashblocks)@.len()) as nat
            },
            |i: int| None::<FlashblocksPayloadV1>,
        ),
{
    let ghost start = flashblocks@;
    while flashblocks.len() <= index
        invariant
            flashblocks@.len() >= start.len(),
            flashblocks@.len() == start.len() || flashblocks@.len() <= index + 1,
            index <= MAX_FLASHBLOCK_INDEX,
            flashblocks@ =~= start + Seq::new(
                (flashblocks@.len() - start.len()) as nat,
                |i: int| None::<FlashblocksPayloadV1>,
            ),
        decreases index + 1 - flashblocks.len(),
    {
        flashblocks.push(None);
    }
}

/// A run reaches at least as far as all its slots are filled, and no further than a slot that is
/// not.
pub proof fn lemma_run_end(slots: Seq<Option<PayloadView<FlashblockMetadata>>>, from: nat, to: nat)
    requires
        from <= to,
        forall|i: int| from <= i < to ==> i < slots.len() && (#[trigger] slots[i]) is Some,
    ensures
        to <= run_end(slots, from),
        !(to < slots.len() && slots[to as int] is Some) ==> run_end(slots, from) == to,
        forall|i: int| from <= i < run_end(slots, from) ==> i < slots.len() && (#[trigger] slots[i]) is Some,
        run_end(slots, from) <= slots.len() || run_end(slots, from) == from,
        !(run_end(slots, from) < slots.len() && slots[run_end(slots, from) as int] is Some),
    decreases slots.len() - from,
{
    if from < slots.len() && slots[from as int] is Some {
        let next = if to == from { from + 1 } else { to };
        lemma_run_end(slots, from + 1, next);
    }
}

/// Hands on the flashblocks that are next in order.
fn deliver(
    flashblock_tx: &mut Vec<FlashblocksPayloadV1>,
    state: &mut FlashblocksP2PState,
    now: i64,
)
    ensures
        ({
            let from = old(state)@.flashblock_index;
            let end = run_end(old(state)@.slots, from);
            &&& final(state)@ == P2PStateView {
                flashblock_index: end,
                flashblock_timestamp: if end > from {
                    now
                } else {
                    old(state)@.flashblock_timestamp
                },
                ..old(state)@
            }
            &&& events(final(flashblock_tx)@) == events(old(flashblock_tx)@) + Seq::new(
                (end - from) as nat,
                |k: int| old(state)@.slots[from + k]->0,
            )
        }),
{
    let ghost start = state@;
    let ghost from = start.flashblock_index;
    let ghost end = run_end(start.slots, from);
    let ghost sent = events(flashblock_tx@);
    proof {
        lemma_run_end(start.slots, from, from);
    }
    loop
        invariant_except_break
            from == start.flashblock_index,
            from <= state.flashblock_index,
            end == run_end(start.slots, from),
            forall|i: int| from <= i < state.flashblock_index ==> i < start.slots.len()
                && (#[trigger] start.slots[i]) is Some,
            state@ == (P2PStateView {
                flashblock_index: state.flashblock_index as nat,
                flashblock_timestamp: if state.flashblock_index > from {
                    now
                } else {
                    start.flashblock_timestamp
                },
                ..start
            }),
            events(flashblock_tx@) == sent + Seq::new(
                (state.flashblock_index - from) as nat,
                |k: int| start.slots[from + k]->0,
            ),
        ensures
            state.flashblock_index == end,
            state@ == (P2PStateView {
                flashblock_index: end,
                flashblock_timestamp: if end > from {
                    now
                } else {
                    start.flashblock_timestamp
                },
                ..start
            }),
            events(flashblock_tx@) == sent + Seq::new(
                (end - from) as nat,
                |k: int| start.slots[from + k]->0,
            ),
        decreases start.slots.len() - state.flashblock_index,
    {
        let index = state.flashblock_index;
        proof {
            lemma_run_end(start.slots, from, index as nat);
            assert(start.slots.len() == state.flashblocks@.len());
        }
        if index >= state.flashblocks.len() {
            break;
        }
        assert(start.slots[index as int] == slot(state.flashblocks@[index as int]));
        match &state.flashblocks[index] {
            Some(event) => {
                let ghost before = flashblock_tx@;
                flashblock_tx.push(event.clone());
                assert(events(flashblock_tx@) =~= events(before).push(start.slots[index as int]->0));
            },
            None => {
                break;
            },
        }
        state.flashblock_timestamp = now;
        state.flashblock_index = index + 1;
        assert(events(flashblock_tx@) =~= sent + Seq::new(
            (index + 1 - from) as nat,
            |k: int| start.slots[from + k]->0,
        ));
    }
}

/// Publishing keeps the protocol's invariant.
pub proof fn law_publish_keeps_invariant(
    state: P2PStateView,
    p: PayloadView<FlashblockMetadata>,
    bytes: Seq<u8>,
    now: i64,
)
    requires
        state.wf(),
    ensures
        state.published(p, bytes, now).state.wf(),
{
    let entered = state.entered(p);
    assert(entered.wf());
    if p.payload_id == entered.payload_id && p.index <= MAX_FLASHBLOCK_INDEX {
        let grown = entered.grown(p.index);
        assert(grown.wf()) by {
            assert forall|i: int| 0 <= i < grown.flashblock_index implies i < grown.slots.len()
                && (#[trigger] grown.slots[i]) is Some by {
                assert(entered.slots[i] is Some);
            }
        }
        if grown.slots[p.index as int] is None {
            let cached = P2PStateView {
                slots: grown.slots.update(p.index as int, Some(p)),
                ..grown
            };
            assert(cached.wf()) by {
                assert forall|i: int| 0 <= i < cached.flashblock_index implies i < cached.slots.len()
                    && (#[trigger] cached.slots[i]) is Some by {
                    assert(grown.slots[i] is Some);
                }
            }
            lemma_run_end(cached.slots, cached.flashblock_index, cached.flashblock_index);
        }
    }
}

/// A flashblock that is published, with the wire form of its message and the time.
#[verifier::ext_equal]
pub struct Arrival {
    pub payload: PayloadView<FlashblockMetadata>,
    pub bytes: Seq<u8>,
    pub now: i64,
}

impl P2PStateView {
    /// The state once all these flashblocks have been published, one after the other.
    pub open spec fn published_all(self, arrivals: Seq<Arrival>) -> P2PStateView
        decreases arrivals.len(),
    {
        if arrivals.len() == 0 {
            self
        } else {
            let last = arrivals.last();
            self.published_all(arrivals.drop_last()).published(
                last.payload,
                last.bytes,
                last.now,
            ).state
        }
    }

    /// The flashblocks that are handed on while all these are published, one after the other.
    pub open spec fn delivered_all(self, arrivals: Seq<Arrival>) -> Seq<
        PayloadView<FlashblockMetadata>,
    >
        decreases arrivals.len(),
    {
        if arrivals.len() == 0 {
            Seq::empty()
        } else {
            let last = arrivals.last();
            self.delivered_all(arrivals.drop_last()) + self.published_all(
                arrivals.drop_last(),
            ).published(last.payload, last.bytes, last.now).delivered
        }
    }
}

/// Whatever is published, the buffer stays what it is for: it has no more slots than there can be
/// flashblocks, those that have been handed on are in it, and every flashblock in it belongs to the
/// current payload and stands in the slot of its index. The timestamp of the payload never goes
/// back.
pub proof fn law_buffer_of_the_payload(state: P2PStateView, arrivals: Seq<Arrival>)
    requires
        state.wf(),
    ensures
        ({
            let after = state.published_all(arrivals);
            &&& after.wf()
            &&& after.slots.len() <= MAX_FLASHBLOCK_INDEX + 1
            &&& after.flashblock_index <= after.slots.len()
            &&& forall|i: int| 0 <= i < after.flashblock_index ==> (#[trigger] after.slots[i]) is Some
            &&& forall|i: int| 0 <= i < after.slots.len() && (#[trigger] after.slots[i]) is Some
                ==> after.slots[i]->0.index == i && after.slots[i]->0.payload_id == after.payload_id
            &&& after.payload_timestamp >= state.payload_timestamp
        }),
    decreases arrivals.len(),
{
    let after = state.published_all(arrivals);
    if arrivals.len() > 0 {
        let before = arrivals.drop_last();
        let last = arrivals.last();
        law_buffer_of_the_payload(state, before);
        law_publish_keeps_invariant(
            state.published_all(before),
            last.payload,
            last.bytes,
            last.now,
        );
    }
    if after.flashblock_index > 0 {
        assert(after.slots[after.flashblock_index - 1] is Some);
    }
}

/// What is handed on of a payload is in the buffer, in order: as long as no other payload becomes the
/// current one, the flashblocks that were handed on are those of the slots up to the one that is due
/// next.
pub proof fn law_handed_on(state: P2PStateView, arrivals: Seq<Arrival>)
    requires
        state.wf(),
        state.flashblock_index == 0,
        forall|i: int|
            0 <= i < arrivals.len() ==> (#[trigger] arrivals[i]).payload.payload_id
                == state.payload_id,
    ensures
        ({
            let after = state.published_all(arrivals);
            state.delivered_all(arrivals) == Seq::new(
                after.flashblock_index,
                |i: int| after.slots[i]->0,
            )
        }),
        state.published_all(arrivals).payload_id == state.payload_id,
    decreases arrivals.len(),
{
    let after = state.published_all(arrivals);
    let all = state.delivered_all(arrivals);
    if arrivals.len() > 0 {
        let before = arrivals.drop_last();
        let last = arrivals.last();
        let mid = state.published_all(before);
        assert forall|i: int| 0 <= i < before.len() implies (#[trigger] before[i]).payload.payload_id
            == state.payload_id by {
            assert(before[i] == arrivals[i]);
        }
        law_handed_on(state, before);
        law_buffer_of_the_payload(state, before);
        assert(last == arrivals[arrivals.len() - 1]);
        assert(mid.entered(last.payload).slots == mid.slots);
        law_delivery_in_order(mid, last.payload, last.bytes, last.now);
        assert forall|i: int| 0 <= i < mid.flashblock_index implies mid.slots[i] == #[trigger] after.slots[i] by {
            assert(mid.slots[i] is Some);
        }
        assert(all =~= Seq::new(after.flashblock_index, |i: int| after.slots[i]->0));
    } else {
        assert(all =~= Seq::new(after.flashblock_index, |i: int| after.slots[i]->0));
    }
}

/// Flashblocks are handed on in order: those that a publication hands on have consecutive indices,
/// and start with the one that was due next.
pub proof fn law_delivery_in_order(
    state: P2PStateView,
    p: PayloadView<FlashblockMetadata>,
    bytes: Seq<u8>,
    now: i64,
)
    requires
        state.wf(),
    ensures
        ({
            let due = state.entered(p).flashblock_index;
            let after = state.published(p, bytes, now);
            &&& after.state.flashblock_index == due + after.delivered.len()
            &&& forall|k: int| 0 <= k < after.delivered.len() ==> (#[trigger] after.delivered[k]).index
                == due + k
        }),
{
    law_publish_keeps_invariant(state, p, bytes, now);
    let entered = state.entered(p);
    let after = state.published(p, bytes, now);
    if p.payload_id == entered.payload_id && p.index <= MAX_FLASHBLOCK_INDEX {
        let filled = entered.grown(p.index).slots.update(p.index as int, Some(p));
        lemma_run_end(filled, entered.flashblock_index, entered.flashblock_index);
        assert forall|k: int| 0 <= k < after.delivered.len() implies (#[trigger] after.delivered[k]).index
            == entered.flashblock_index + k by {
            assert(after.state.slots[entered.flashblock_index + k] is Some);
        }
    }
}

/// Nothing that can be handed on is held back: once a publication has sent its flashblock to the
/// peers, the flashblock that is due next has not come in.
pub proof fn law_nothing_held_back(
    state: P2PStateView,
    p: PayloadView<FlashblockMetadata>,
    bytes: Seq<u8>,
    now: i64,
)
    requires
        state.published(p, bytes, now).peer is Some,
    ensures
        ({
            let after = state.published(p, bytes, now).state;
            after.flashblock_index < after.slots.len() ==> after.slots[after.flashblock_index as int]
                is None
        }),
{
    let entered = state.entered(p);
    let filled = entered.grown(p.index).slots.update(p.index as int, Some(p));
    lemma_run_end(filled, entered.flashblock_index, entered.flashblock_index);
}

/// The flashblocks of a new payload that come in one after the other, from the first on, are handed
/// on one after the other, whatever their timestamps but for the first one's.
pub proof fn law_payload_handed_on(state: P2PStateView, arrivals: Seq<Arrival>)
    requires
        0 < arrivals.len() <= MAX_FLASHBLOCK_INDEX + 1,
        arrivals[0].payload.payload_id != state.payload_id,
        arrivals[0].payload.metadata.flashblock_timestamp->0 as u64 > state.payload_timestamp,
        forall|i: int|
            0 <= i < arrivals.len() ==> (#[trigger] arrivals[i]).payload.payload_id
                == arrivals[0].payload.payload_id,
        forall|i: int| 0 <= i < arrivals.len() ==> (#[trigger] arrivals[i]).payload.index == i,
        forall|i: int| 0 <= i < arrivals.len() ==> (#[trigger] arrivals[i]).bytes.len() <= MAX_FRAME,
    ensures
        state.delivered_all(arrivals) == arrivals.map_values(|a: Arrival| a.payload),
        ({
            let after = state.published_all(arrivals);
            &&& after.payload_id == arrivals[0].payload.payload_id
            &&& after.flashblock_index == arrivals.len()
            &&& arrivals.len() <= after.slots.len()
            &&& forall|i: int|
                0 <= i < arrivals.len() ==> #[trigger] after.slots[i] == Some(arrivals[i].payload)
            &&& forall|i: int|
                arrivals.len() <= i < after.slots.len() ==> (#[trigger] after.slots[i]) is None
        }),
    decreases arrivals.len(),
{
    let n = arrivals.len() - 1;
    let before = arrivals.drop_last();
    let last = arrivals[n];
    let mid = state.published_all(before);
    let after = state.published_all(arrivals);
    if n > 0 {
        assert forall|i: int| 0 <= i < before.len() implies (#[trigger] before[i]) == arrivals[i] by {}
        law_payload_handed_on(state, before);
    }
    let entered = mid.entered(last.payload);
    let cached = entered.grown(last.payload.index).slots.update(n, Some(last.payload));
    assert(last.payload.index == n);
    assert(entered.flashblock_index == n);
    assert(entered.grown(last.payload.index).slots[n] is None);
    lemma_run_end(cached, n as nat, (n + 1) as nat);
    assert(after.slots == cached);
    assert forall|i: int| 0 <= i < arrivals.len() implies #[trigger] after.slots[i] == Some(
        arrivals[i].payload,
    ) by {
        if i < n {
            assert(mid.slots[i] == Some(before[i].payload));
        }
    }
    let given = arrivals.map_values(|a: Arrival| a.payload);
    let earlier = before.map_values(|a: Arrival| a.payload);
    assert(state.delivered_all(before) =~= earlier);
    assert(mid.published(last.payload, last.bytes, last.now).delivered =~= seq![last.payload]);
    assert(given =~= earlier + seq![last.payload]);
}

/// Whether `k` is the place of the first flashblock with that index.
pub open spec fn is_first(arrivals: Seq<Arrival>, k: int, index: int) -> bool {
    &&& 0 <= k < arrivals.len()
    &&& arrivals[k].payload.index == index
    &&& forall|j: int| 0 <= j < k ==> (#[trigger] arrivals[j]).payload.index != index
}

/// Whether `p` is the first flashblock with that index.
pub open spec fn is_first_of(
    arrivals: Seq<Arrival>,
    index: int,
    p: PayloadView<FlashblockMetadata>,
) -> bool {
    exists|k: int| #[trigger] is_first(arrivals, k, index) && p == arrivals[k].payload
}

impl P2PStateView {
    /// Whether a payload is new of which `p` is the first flashblock to come in: it becomes the current
    /// one, with nothing in the buffer.
    pub open spec fn is_new(self, p: PayloadView<FlashblockMetadata>) -> bool {
        let entered = self.entered(p);
        &&& entered.payload_id == p.payload_id
        &&& entered.flashblock_index == 0
        &&& forall|i: int| 0 <= i < entered.slots.len() ==> (#[trigger] entered.slots[i]) is None
    }

    /// Whether the buffer has the first of the flashblocks with each index, and they have been handed
    /// on up to the first that is missing.
    #[verifier::opaque]
    spec fn has_firsts(self, arrivals: Seq<Arrival>) -> bool {
        &&& forall|i: int|
            0 <= i < self.slots.len() && (#[trigger] self.slots[i]) is Some ==> is_first_of(
                arrivals,
                i,
                self.slots[i]->0,
            )
        &&& forall|k: int|
            0 <= k < arrivals.len() && (#[trigger] arrivals[k]).payload.index
                <= MAX_FLASHBLOCK_INDEX ==> arrivals[k].payload.index < self.slots.len()
                && self.slots[arrivals[k].payload.index as int] is Some
        &&& self.flashblock_index < self.slots.len() ==> self.slots[self.flashblock_index as int]
            is None
    }
}

/// One more flashblock leaves the first of those with each index in the buffer.
proof fn lemma_has_firsts(state: P2PStateView, arrivals: Seq<Arrival>, last: Arrival)
    requires
        state.wf(),
        state.entered(last.payload).payload_id == last.payload.payload_id,
        state.entered(last.payload).has_firsts(arrivals),
        last.bytes.len() <= MAX_FRAME,
    ensures
        state.published(last.payload, last.bytes, last.now).state.has_firsts(arrivals.push(last)),
{
    reveal(P2PStateView::has_firsts);
    let p = last.payload;
    let entered = state.entered(p);
    let grown = entered.grown(p.index);
    let after = state.published(p, last.bytes, last.now).state;
    let all = arrivals.push(last);
    let n = arrivals.len() as int;
    law_publish_keeps_invariant(state, p, last.bytes, last.now);
    if p.index <= MAX_FLASHBLOCK_INDEX && grown.slots[p.index as int] is None {
        let cached = grown.slots.update(p.index as int, Some(p));
        lemma_run_end(cached, entered.flashblock_index, entered.flashblock_index);
        assert(after.slots == cached);
    }
    assert forall|k: int, i: int| #[trigger] is_first(arrivals, k, i) implies is_first(all, k, i) by {
        assert forall|j: int| 0 <= j < k implies (#[trigger] all[j]).payload.index != i by {
            assert(arrivals[j].payload.index != i);
        }
    }
    assert forall|i: int| 0 <= i < after.slots.len() && (#[trigger] after.slots[i]) is Some implies is_first_of(
        all,
        i,
        after.slots[i]->0,
    ) by {
        if i < entered.slots.len() && entered.slots[i] is Some {
            let k = choose|k: int| #[trigger]
                is_first(arrivals, k, i) && entered.slots[i]->0 == arrivals[k].payload;
            assert(is_first(all, k, i));
            assert(after.slots[i] == entered.slots[i]);
        } else {
            assert(i == p.index);
            assert forall|j: int| 0 <= j < n implies (#[trigger] all[j]).payload.index != i by {
                assert(all[j] == arrivals[j]);
            }
            assert(is_first(all, n, i));
        }
    }
    assert forall|k: int| 0 <= k < all.len() && (#[trigger] all[k]).payload.index
        <= MAX_FLASHBLOCK_INDEX implies all[k].payload.index < after.slots.len()
        && after.slots[all[k].payload.index as int] is Some by {
        if k < n {
            assert(all[k] == arrivals[k]);
            assert(entered.slots[arrivals[k].payload.index as int] is Some);
        }
    }
}

/// The flashblocks of a new payload may come in in any order, and more than once: for each index the
/// first that comes in is handed on, in the order of the indices, up to the least index of which none
/// has come in.
pub proof fn law_any_order(state: P2PStateView, arrivals: Seq<Arrival>)
    requires
        state.wf(),
        arrivals.len() > 0,
        state.is_new(arrivals[0].payload),
        forall|i: int|
            0 <= i < arrivals.len() ==> (#[trigger] arrivals[i]).payload.payload_id
                == arrivals[0].payload.payload_id,
        forall|i: int| 0 <= i < arrivals.len() ==> (#[trigger] arrivals[i]).bytes.len() <= MAX_FRAME,
    ensures
        ({
            let due = state.published_all(arrivals).flashblock_index;
            let delivered = state.delivered_all(arrivals);
            &&& delivered.len() == due <= MAX_FLASHBLOCK_INDEX + 1
            &&& forall|i: int|
                0 <= i < due ==> is_first_of(arrivals, i, #[trigger] delivered[i])
            &&& due <= MAX_FLASHBLOCK_INDEX ==> forall|k: int|
                0 <= k < arrivals.len() ==> (#[trigger] arrivals[k]).payload.index != due
        }),
{
    lemma_any_order(state, arrivals);
    law_buffer_of_the_payload(state, arrivals);
    lemma_firsts_handed_on(
        state.published_all(arrivals),
        arrivals,
        state.delivered_all(arrivals),
    );
}

/// What has been handed on, where the buffer has the first of the flashblocks with each index.
proof fn lemma_firsts_handed_on(
    after: P2PStateView,
    arrivals: Seq<Arrival>,
    delivered: Seq<PayloadView<FlashblockMetadata>>,
)
    requires
        after.wf(),
        after.has_firsts(arrivals),
        delivered.len() == after.flashblock_index,
        forall|i: int| 0 <= i < delivered.len() ==> #[trigger] delivered[i] == after.slots[i]->0,
    ensures
        after.flashblock_index <= MAX_FLASHBLOCK_INDEX + 1,
        forall|i: int|
            0 <= i < after.flashblock_index ==> is_first_of(arrivals, i, #[trigger] delivered[i]),
        after.flashblock_index <= MAX_FLASHBLOCK_INDEX ==> forall|k: int|
            0 <= k < arrivals.len() ==> (#[trigger] arrivals[k]).payload.index
                != after.flashblock_index,
{
    reveal(P2PStateView::has_firsts);
    let due = after.flashblock_index;
    if due > 0 {
        assert(after.slots[due - 1] is Some);
    }
    assert forall|i: int| 0 <= i < due implies is_first_of(arrivals, i, #[trigger] delivered[i]) by {
        assert(after.slots[i] is Some);
    }
}

/// What a publication hands on comes behind what has been handed on of the payload.
proof fn lemma_delivered(
    state: P2PStateView,
    p: PayloadView<FlashblockMetadata>,
    bytes: Seq<u8>,
    now: i64,
    before: Seq<PayloadView<FlashblockMetadata>>,
)
    requires
        state.wf(),
        state.entered(p).wf(),
        before.len() == state.entered(p).flashblock_index,
        forall|i: int|
            0 <= i < before.len() ==> #[trigger] before[i] == state.entered(p).slots[i]->0,
    ensures
        ({
            let after = state.published(p, bytes, now);
            let all = before + after.delivered;
            &&& all.len() == after.state.flashblock_index
            &&& forall|i: int| 0 <= i < all.len() ==> #[trigger] all[i] == after.state.slots[i]->0
        }),
{
    let entered = state.entered(p);
    let after = state.published(p, bytes, now);
    let all = before + after.delivered;
    law_delivery_in_order(state, p, bytes, now);
    assert forall|i: int| 0 <= i < all.len() implies #[trigger] all[i] == after.state.slots[i]->0 by {
        if i < before.len() {
            assert(entered.slots[i] is Some);
            assert(all[i] == before[i]);
        } else {
            assert(all[i] == after.delivered[i - before.len()]);
        }
    }
}

proof fn lemma_any_order(state: P2PStateView, arrivals: Seq<Arrival>)
    requires
        state.wf(),
        arrivals.len() > 0,
        state.is_new(arrivals[0].payload),
        forall|i: int|
            0 <= i < arrivals.len() ==> (#[trigger] arrivals[i]).payload.payload_id
                == arrivals[0].payload.payload_id,
        forall|i: int| 0 <= i < arrivals.len() ==> (#[trigger] arrivals[i]).bytes.len() <= MAX_FRAME,
    ensures
        ({
            let after = state.published_all(arrivals);
            let delivered = state.delivered_all(arrivals);
            &&& after.payload_id == arrivals[0].payload.payload_id
            &&& after.has_firsts(arrivals)
            &&& delivered.len() == after.flashblock_index
            &&& forall|i: int|
                0 <= i < delivered.len() ==> #[trigger] delivered[i] == after.slots[i]->0
        }),
    decreases arrivals.len(),
{
    let n = arrivals.len() - 1;
    let before = arrivals.drop_last();
    let last = arrivals[n];
    let mid = state.published_all(before);
    let entered = mid.entered(last.payload);
    law_buffer_of_the_payload(state, before);
    assert(arrivals =~= before.push(last));
    if n > 0 {
        assert forall|i: int| 0 <= i < before.len() implies (#[trigger] before[i]) == arrivals[i] by {}
        lemma_any_order(state, before);
        assert(entered.slots == mid.slots);
        assert(entered.flashblock_index == mid.flashblock_index);
    } else {
        assert(before =~= Seq::empty());
    }
    assert(entered.wf());
    assert(entered.has_firsts(before)) by {
        reveal(P2PStateView::has_firsts);
    }
    lemma_has_firsts(mid, before, last);
    lemma_delivered(mid, last.payload, last.bytes, last.now, state.delivered_all(before));
}

/// A flashblock that comes in a second time changes nothing, and nothing is sent for it.
pub proof fn law_publish_once(
    state: P2PStateView,
    p: PayloadView<FlashblockMetadata>,
    bytes: Seq<u8>,
    now: i64,
    later: i64,
)
    ensures
        ({
            let once = state.published(p, bytes, now).state;
            let twice = once.published(p, bytes, later);
            twice.state == once && twice.peer is None && twice.delivered.len() == 0
        }),
{
    let once = state.published(p, bytes, now).state;
    assert(once.entered(p) == once);
    if p.payload_id == once.payload_id && p.index <= MAX_FLASHBLOCK_INDEX {
        assert(once.grown(p.index) =~= once);
    }
}

/// A run that is split where it is known to reach ends where the whole does.
proof fn lemma_run_split(slots: Seq<Option<PayloadView<FlashblockMetadata>>>, from: nat, to: nat)
    requires
        from <= to,
        forall|i: int| from <= i < to ==> i < slots.len() && (#[trigger] slots[i]) is Some,
    ensures
        run_end(slots, to) == run_end(slots, from),
    decreases to - from,
{
    if from < to {
        assert(slots[from as int] is Some);
        lemma_run_split(slots, from + 1, to);
    }
}

/// The slots with room for `a` and `b`, and with both in their slots.
spec fn with_both(
    slots: Seq<Option<PayloadView<FlashblockMetadata>>>,
    a: PayloadView<FlashblockMetadata>,
    b: PayloadView<FlashblockMetadata>,
) -> Seq<Option<PayloadView<FlashblockMetadata>>> {
    let most = if a.index > b.index {
        a.index
    } else {
        b.index
    };
    let len = if most < slots.len() {
        slots.len()
    } else {
        (most + 1) as nat
    };
    Seq::new(
        len,
        |i: int|
            if i == a.index {
                Some(a)
            } else if i == b.index {
                Some(b)
            } else if i < slots.len() {
                slots[i]
            } else {
                None
            },
    )
}

/// What two publications of flashblocks of the current payload hand on together.
proof fn lemma_two_published(
    state: P2PStateView,
    a: PayloadView<FlashblockMetadata>,
    a_bytes: Seq<u8>,
    b: PayloadView<FlashblockMetadata>,
    b_bytes: Seq<u8>,
    now: i64,
    later: i64,
)
    requires
        state.wf(),
        a.index != b.index,
        a.payload_id == state.payload_id,
        b.payload_id == state.payload_id,
        state.published(a, a_bytes, now).peer is Some,
        state.published(b, b_bytes, now).peer is Some,
    ensures
        ({
            let first = state.published(a, a_bytes, now);
            let second = first.state.published(b, b_bytes, later);
            let filled = with_both(state.slots, a, b);
            let from = state.flashblock_index;
            &&& second.peer is Some
            &&& second.state.slots == filled
            &&& second.state.flashblock_index == run_end(filled, from)
            &&& first.delivered + second.delivered == Seq::new(
                (run_end(filled, from) - from) as nat,
                |k: int| filled[from + k]->0,
            )
        }),
{
    let first = state.published(a, a_bytes, now);
    let second = first.state.published(b, b_bytes, later);
    let one = first.state.slots;
    let filled = with_both(state.slots, a, b);
    let from = state.flashblock_index;
    let mid = first.state.flashblock_index;
    assert(state.entered(a).slots == state.slots);
    assert(state.entered(b).slots == state.slots);
    assert(one == state.grown(a.index).slots.update(a.index as int, Some(a)));
    assert(state.grown(b.index).slots[b.index as int] is None);
    assert(first.state.entered(b).slots == one);
    assert(first.state.entered(b).grown(b.index).slots[b.index as int] is None);
    assert(second.state.slots =~= filled);
    lemma_run_end(one, from, from);
    assert forall|i: int| from <= i < mid implies i < filled.len() && (#[trigger] filled[i])
        is Some && filled[i] == one[i] by {
        assert(one[i] is Some);
    }
    lemma_run_split(filled, from, mid);
    lemma_run_end(filled, from, mid);
    let end = run_end(filled, from);
    assert(first.delivered + second.delivered =~= Seq::new(
        (end - from) as nat,
        |k: int| filled[from + k]->0,
    ));
}

/// The order in which two new flashblocks of the current payload come in makes no difference to the
/// buffer, nor to what is handed on in the end.
pub proof fn law_order_of_arrival(
    state: P2PStateView,
    a: PayloadView<FlashblockMetadata>,
    a_bytes: Seq<u8>,
    b: PayloadView<FlashblockMetadata>,
    b_bytes: Seq<u8>,
    now: i64,
    later: i64,
)
    requires
        state.wf(),
        a.index != b.index,
        a.payload_id == state.payload_id,
        b.payload_id == state.payload_id,
        state.published(a, a_bytes, now).peer is Some,
        state.published(b, b_bytes, now).peer is Some,
    ensures
        ({
            let a_first = state.published(a, a_bytes, now);
            let then_b = a_first.state.published(b, b_bytes, later);
            let b_first = state.published(b, b_bytes, now);
            let then_a = b_first.state.published(a, a_bytes, later);
            &&& then_b.state.slots == then_a.state.slots
            &&& then_b.state.flashblock_index == then_a.state.flashblock_index
            &&& a_first.delivered + then_b.delivered == b_first.delivered + then_a.delivered
        }),
{
    lemma_two_published(state, a, a_bytes, b, b_bytes, now, later);
    lemma_two_published(state, b, b_bytes, a, a_bytes, now, later);
    assert(with_both(state.slots, a, b) =~= with_both(state.slots, b, a));
}

/// Handle of the flashblocks protocol: what is to be sent, and the protocol's state.
#[derive(Debug, PartialEq, Eq)]
pub struct FlashblocksHandle {
    /// What is to be sent over the protocol's channels.
    pub ctx: FlashblocksP2PCtx,
    /// State of the protocol.
    pub state: FlashblocksP2PState,
}

impl FlashblocksHandle {
    /// Whether no flashblock has come in.
    pub open spec fn is_initial(self) -> bool {
        &&& self.ctx.peer_tx@.len() == 0
        &&& self.ctx.flashblock_tx@.len() == 0
        &&& self.state@.is_initial()
    }

    /// A handle before any flashblock has come in.
    pub fn new() -> (r: Self)
        ensures
            r.is_initial(),
            r.state@.wf(),
    {
        FlashblocksHandle { ctx: FlashblocksP2PCtx::new(), state: FlashblocksP2PState::default() }
    }

    /// The flashblocks that are to be handed on, in order.
    pub fn flashblocks_tx(&self) -> (r: &Vec<FlashblocksPayloadV1>)
        ensures
            r == self.ctx.flashblock_tx,
    {
        &self.ctx.flashblock_tx
    }

    /// Publishes a flashblock at the time `now`, with `json` as the text of its metadata.
    pub fn publish_new(&mut self, payload: FlashblocksPayloadV1, json: &[u8], now: i64)
        requires
            payload.metadata.flashblock_timestamp is Some,
            rlp::enc(message_item(payload@, json@)).len() <= usize::MAX,
        ensures
            ({
                let bytes = rlp::enc(message_item(payload@, json@));
                let p = old(self).state@.published(payload@, bytes, now);
                &&& final(self).state@ == p.state
                &&& old(self).ctx.sends(final(self).ctx, p)
            }),
            ({
                let time = payload.metadata.flashblock_timestamp->0 as u64;
                let later = time > old(self).state.payload_timestamp;
                let known = {
                    &&& payload.payload_id == old(self).state.payload_id
                    &&& payload.index < old(self).state.flashblocks@.len()
                    &&& old(self).state.flashblocks@[payload.index as int] is Some
                };
                let taken = {
                    &&& later || payload.payload_id == old(self).state.payload_id
                    &&& payload.index <= 100
                    &&& !known
                };
                let bytes = rlp::enc(message_item(payload@, json@));
                &&& later ==> final(self).state.payload_id == payload.payload_id
                    && final(self).state.payload_timestamp == time
                &&& !later ==> final(self).state.payload_id == old(self).state.payload_id
                    && final(self).state.payload_timestamp == old(self).state.payload_timestamp
                &&& taken ==> {
                    &&& payload.index < final(self).state.flashblocks@.len()
                    &&& final(self).state.flashblocks@[payload.index as int] is Some
                    &&& final(self).state.flashblocks@[payload.index as int]->0@ == payload@
                }
                &&& taken && bytes.len() <= 16 * 1024 * 1024 ==> {
                    &&& final(self).ctx.peer_tx@.len() == old(self).ctx.peer_tx@.len() + 1
                    &&& final(self).ctx.peer_tx@.last().parts() == (
                        payload.payload_id,
                        payload.index as nat,
                        bytes,
                    )
                }
                &&& !taken || bytes.len() > 16 * 1024 * 1024 ==> {
                    &&& final(self).ctx.peer_tx@.len() == old(self).ctx.peer_tx@.len()
                    &&& final(self).ctx.flashblock_tx@.len() == old(self).ctx.flashblock_tx@.len()
                }
            }),
    {
        self.ctx.publish(&mut self.state, payload, json, now);
    }
}

/// A subprotocol's name and version, as they are advertised in the devp2p handshake.
#[derive(Clone, Copy, Debug, PartialEq, Eq)]
pub struct Capability {
    pub name: &'static str,
    pub version: usize,
}

/// The flashblocks subprotocol on a network.
#[derive(Debug, PartialEq, Eq)]
pub struct FlashblocksP2PProtocol<N> {
    /// Handle of the network.
    pub network: N,
    /// Handle of the protocol.
    pub handle: FlashblocksHandle,
}

impl<N> FlashblocksP2PProtocol<N> {
    /// The subprotocol on the network of `network`.
    pub fn new(network: N, handle: FlashblocksHandle) -> (r: Self)
        ensures
            r == (FlashblocksP2PProtocol { network, handle }),
    {
        FlashblocksP2PProtocol { network, handle }
    }

    /// The capability of the flashblocks protocol: the name "flblk", and version 1.
    pub fn capability() -> (r: Capability)
        ensures
            r.name@ == "flblk"@,
            r.version == 1,
    {
        Capability { name: "flblk", version: 1 }
    }
}

/// Publishes what this node has built.
#[derive(Debug, PartialEq, Eq)]
pub struct FlashblocksP2p<B> {
    /// The flashblocks of the current payload.
    pub flashblocks_state: FlashblocksStateExecutor<B>,
}

impl<B> FlashblocksP2p<B> {
    /// Publishes out of this state.
    pub fn new(flashblocks_state: FlashblocksStateExecutor<B>) -> (r: Self)
        ensures
            r.flashblocks_state == flashblocks_state,
    {
        FlashblocksP2p { flashblocks_state }
    }

    /// Publishes a payload that this node has built, at the time `now`, with `json` as the text of
    /// its flashblock's metadata.
    pub fn publish(
        &mut self,
        payload: FlashblocksPayloadV1,
        built_payload: Arc<OpBuiltPayload<B>>,
        json: &[u8],
        now: i64,
    ) -> (r: Result<(), PushError>)
        requires
            old(self).flashblocks_state.wf(),
            collection::starts_new(old(self).flashblocks_state.flashblocks@, payload@) is Ok ==> {
                &&& payload.metadata.flashblock_timestamp is Some
                &&& rlp::enc(message_item(payload@, json@)).len() <= usize::MAX
            },
        ensures
            final(self).flashblocks_state.wf(),
            old(self).flashblocks_state.published(
                final(self).flashblocks_state,
                payload@,
                built_payload,
                json@,
                now,
                r,
            ),
            r is Ok <==> collection::starts_new(
                old(self).flashblocks_state.flashblocks@,
                payload@,
            ) is Ok,
            r is Ok ==> {
                let before = old(self).flashblocks_state.p2p_handle;
                let after = final(self).flashblocks_state.p2p_handle;
                let sent = before.state@.published(
                    payload@,
                    rlp::enc(message_item(payload@, json@)),
                    now,
                );
                &&& final(self).flashblocks_state.latest_payload == Some(
                    (built_payload, payload.index),
                )
                &&& final(self).flashblocks_state.flashblocks@.last() == payload@
                &&& after.state@ == sent.state
                &&& before.ctx.sends(after.ctx, sent)
            },
            r is Err ==> {
                &&& final(self).flashblocks_state.latest_payload == old(
                    self,
                ).flashblocks_state.latest_payload
                &&& final(self).flashblocks_state.flashblocks@ == old(
                    self,
                ).flashblocks_state.flashblocks@
                &&& final(self).flashblocks_state.p2p_handle == old(self).flashblocks_state.p2p_handle
            },
    {
        self.flashblocks_state.publish_built_payload(payload, built_payload, json, now)
    }
}

/// The wire form of a message is one list of the tag 0, which is an empty byte string, and of the
/// flashblock.
pub proof fn law_wire_of_message<M>(v: PayloadView<M>, json: Seq<u8>)
    ensures
        rlp::enc(message_item(v, json)) == rlp::framed(
            true,
            seq![0x80u8] + rlp::enc(v.item(json)),
        ),
{
    reveal_with_fuel(rlp::enc_all, 3);
    let items = seq![rlp::number(0), v.item(json)];
    assert(rlp::be(0) =~= Seq::empty());
    assert(rlp::enc(rlp::number(0)) =~= seq![0x80u8]);
    assert(rlp::enc_all(items) =~= seq![0x80u8] + rlp::enc(v.item(json)));
}

/// What a flashblock leads to when it is published, case by case. One that has not come in, of the
/// current payload or of a later one, goes into the slot of its index and to the peers, under its
/// payload id and index; any other goes nowhere.
pub proof fn law_publication(
    state: P2PStateView,
    p: PayloadView<FlashblockMetadata>,
    bytes: Seq<u8>,
    now: i64,
)
    requires
        state.wf(),
        p.metadata.flashblock_timestamp is Some,
    ensures
        ({
            let r = state.published(p, bytes, now);
            let time = p.metadata.flashblock_timestamp->0 as u64;
            let later = time > state.payload_timestamp;
            let i = p.index as int;
            let known = p.payload_id == state.payload_id && i < state.slots.len() && state.slots[i]
                is Some;
            &&& later ==> r.state.payload_id == p.payload_id && r.state.payload_timestamp == time
            &&& !later ==> r.state.payload_id == state.payload_id && r.state.payload_timestamp
                == state.payload_timestamp
            &&& r.peer is Some <==> {
                &&& later || p.payload_id == state.payload_id
                &&& p.index <= 100
                &&& !known
                &&& bytes.len() <= 16 * 1024 * 1024
            }
            &&& r.peer matches Some(m) ==> m == (p.payload_id, p.index as nat, bytes)
            &&& r.peer is None ==> r.delivered.len() == 0 && r.state.flashblock_timestamp
                == state.flashblock_timestamp
            &&& r.peer is Some ==> r.state.slots[i] == Some(p)
            &&& r.delivered.len() > 0 ==> r.state.flashblock_timestamp == now
            &&& r.delivered.len() == 0 ==> r.state.flashblock_timestamp
                == state.flashblock_timestamp
            &&& p.payload_id == state.payload_id ==> r.state.flashblock_index
                == state.flashblock_index + r.delivered.len()
            &&& p.payload_id != state.payload_id && later ==> r.state.flashblock_index
                == r.delivered.len()
            &&& p.payload_id != state.payload_id && !later ==> r.state == state
            &&& (later || p.payload_id == state.payload_id) && p.index <= 100 ==> {
                &&& i < r.state.slots.len()
                &&& known ==> r.state.slots[i] == state.slots[i]
                &&& !known ==> r.state.slots[i] == Some(p)
            }
            &&& forall|j: int|
                0 <= j < state.slots.len() && j != i ==> (#[trigger] r.state.slots[j]) == (
                if r.state.payload_id == state.payload_id {
                    state.slots[j]
                } else {
                    None
                })
            &&& forall|j: int|
                state.slots.len() <= j < r.state.slots.len() && j != i ==> (
                #[trigger] r.state.slots[j]) is None
            &&& r.state.slots.len() >= state.slots.len()
        }),
{
    let r = state.published(p, bytes, now);
    law_delivery_in_order(state, p, bytes, now);
    let entered = state.entered(p);
    if r.peer is Some {
        let filled = entered.grown(p.index).slots.update(p.index as int, Some(p));
        lemma_run_end(filled, entered.flashblock_index, entered.flashblock_index);
    }
}

/// What is to be sent comes behind what was to be sent before.
pub proof fn law_sent_behind(before: FlashblocksP2PCtx, after: FlashblocksP2PCtx, p: Publication)
    requires
        before.sends(after, p),
    ensures
        messages(after.peer_tx@).take(before.peer_tx@.len() as int) == messages(before.peer_tx@),
        events(after.flashblock_tx@).take(before.flashblock_tx@.len() as int) == events(
            before.flashblock_tx@,
        ),
        events(after.flashblock_tx@).skip(before.flashblock_tx@.len() as int) == p.delivered,
        p.peer is None ==> after.peer_tx@.len() == before.peer_tx@.len(),
        p.peer matches Some(m) ==> {
            &&& after.peer_tx@.len() == before.peer_tx@.len() + 1
            &&& after.peer_tx@.last() matches PeerMsg::FlashblocksPayloadV1((id, index, bytes))
            &&& (id, index as nat, bytes@) == m
        },
        after.flashblock_tx@.len() == before.flashblock_tx@.len() + p.delivered.len(),
{
    let n = before.peer_tx@.len() as int;
    let k = before.flashblock_tx@.len() as int;
    assert(messages(after.peer_tx@).len() == after.peer_tx@.len());
    assert(events(after.flashblock_tx@).len() == after.flashblock_tx@.len());
    assert(messages(after.peer_tx@).take(n) =~= messages(before.peer_tx@));
    assert(events(after.flashblock_tx@).take(k) =~= events(before.flashblock_tx@));
    assert(events(after.flashblock_tx@).skip(k) =~= p.delivered);
    if p.peer is Some {
        assert(messages(after.peer_tx@)[n] == after.peer_tx@[n].parts());
    }
}

/// The limits of the protocol: 16 MiB for a message, and 100 for the index of a flashblock.
pub proof fn law_limits()
    ensures
        MAX_FRAME == 16 * 1024 * 1024,
        MAX_FLASHBLOCK_INDEX == 100,
        BROADCAST_BUFFER_CAPACITY == 100,
{
}

/// What the state of the protocol holds is what its fields hold, and before any flashblock has come in
/// that is nothing.
pub proof fn law_state_views(s: FlashblocksP2PState)
    ensures
        s@.payload_id == s.payload_id,
        s@.payload_timestamp == s.payload_timestamp,
        s@.flashblock_timestamp == s.flashblock_timestamp,
        s@.flashblock_index == s.flashblock_index,
        s@.slots.len() == s.flashblocks@.len(),
        forall|i: int| #![trigger s.flashblocks@[i]]
            0 <= i < s.flashblocks@.len() ==> {
                &&& s.flashblocks@[i] is None <==> s@.slots[i] is None
                &&& s.flashblocks@[i] matches Some(f) ==> s@.slots[i] == Some(f@)
            },
        s@.is_initial() ==> {
            &&& s.payload_timestamp == 0
            &&& s.flashblock_timestamp == 0
            &&& s.flashblock_index == 0
            &&& s.flashblocks@.len() == 0
            &&& forall|i: int| 0 <= i < 8 ==> (#[trigger] s.payload_id@[i]) == 0
        },
{
    if s@.is_initial() {
        assert(s@.slots.len() == s.flashblocks@.len());
        assert forall|i: int| 0 <= i < 8 implies (#[trigger] s.payload_id@[i]) == 0 by {
            assert(primitives::zeros(8)[i] == 0);
        }
    }
}

/// A message says with its tag what it is. One with the tag 0 is read as a flashblock, off the bytes
/// behind the tag; any other is refused. The length in the header does not matter, as long as that many
/// bytes are there. Bytes that begin with a byte string are no message.
pub proof fn law_message_by_tag<M, F: Fn(&[u8]) -> Option<M>>(
    tag: u8,
    q: Seq<u8>,
    n: nat,
    string: Seq<u8>,
    parse: F,
    r: Result<FlashblocksP2PMsg<M>, MessageError>,
    left: Seq<u8>,
)
    requires
        n <= (rlp::enc(rlp::number(tag as nat)) + q).len(),
        rlp::addressable(rlp::header(true, n) + (rlp::enc(rlp::number(tag as nat)) + q)),
        rlp::addressable(rlp::string(string) + q),
    ensures
        message_decodes(
            rlp::header(true, n) + (rlp::enc(rlp::number(tag as nat)) + q),
            parse,
            r,
            left,
        ) ==> {
            &&& tag != 0 <==> r is Err && r->Err_0 is UnknownTag
            &&& tag == 0 ==> match r {
                Ok(FlashblocksP2PMsg::FlashblocksPayloadV1(v)) => payload::decodes(
                    q,
                    parse,
                    Ok(v),
                    left,
                ),
                Err(MessageError::Payload(e)) => payload::decodes(
                    q,
                    parse,
                    Err::<FlashblocksPayloadV1<M>, DecodeError>(e),
                    left,
                ),
                _ => false,
            }
        },
        message_decodes(rlp::string(string) + q, parse, r, left) ==> r is Err && r->Err_0 is NotAList,
{
    let body = rlp::enc(rlp::number(tag as nat)) + q;
    let s = rlp::header(true, n) + body;
    assert(tagged(s, tag, q));
    assert(s =~= rlp::framed(true, body.take(n as int)) + body.skip(n as int));
    payload::lemma_not_string(s, body.take(n as int), body.skip(n as int));
    assert forall|other: u8, p: Seq<u8>| #[trigger] tagged(s, other, p) implies other == tag && p
        == q by {
        lemma_body_unique(s, other, p, n, body);
        rlp::lemma_enc_unique(rlp::number(tag as nat), q, rlp::number(other as nat), p);
        rlp::lemma_be_injective(tag as nat, other as nat);
    }
    let t = rlp::string(string) + q;
    assert(payload::begins_with_string(t));
    assert forall|other: u8, p: Seq<u8>| !#[trigger] tagged(t, other, p) by {
        if tagged(t, other, p) {
            let m = lemma_tagged(t, other, p);
            let b = rlp::enc(rlp::number(other as nat)) + p;
            payload::lemma_not_string(t, b.take(m as int), b.skip(m as int));
        }
    }
}

}
