//! The flashblocks of the payload that is built or received.
use crate::flashblocks::builder::BuildOutcomeKind;
use crate::flashblocks::collection::{self, Flashblock, Flashblocks, PushError};
use crate::flashblocks::p2p::{self, FlashblocksHandle};
use crate::flashblocks::primitives::{
    self, BaseView, Bytes, FlashblockMetadata, FlashblocksPayloadV1, PayloadView,
};
use crate::holocene::{self, BaseFeeParams, HoloceneError};
use crate::model;
use crate::payload::{self, AttributesView, OpBuiltPayload, OpPayloadBuilderAttributes};
use crate::rlp;
use crate::transaction::{self, Transaction, TransactionError, TxView};
use std::sync::Arc;
use vstd::prelude::*;

verus! {

/// The least time between two attempts to fetch a header, in milliseconds.
pub const MIN_BACKOFF_DELAY: u64 = 20;

/// The most time between two attempts to fetch a header, in milliseconds.
pub const MAX_BACKOFF_DELAY: u64 = 200;

/// The state of all known preconfirmations: those that came in from peers, and those that this node
/// has built.
#[derive(Debug, PartialEq, Eq)]
pub struct FlashblocksStateExecutor<B> {
    /// Flashblocks of the current payload.
    pub flashblocks: Flashblocks,
    /// The payload that was built last, with the index of its flashblock.
    pub latest_payload: Option<(Arc<OpBuiltPayload<B>>, u64)>,
    /// Payloads that are to be told to those who listen for them, if anyone does.
    pub payload_events: Option<Vec<Arc<OpBuiltPayload<B>>>>,
    /// Handle of the peer-to-peer protocol.
    pub p2p_handle: FlashblocksHandle,
    /// The payload whose block is pending.
    pub pending_block: Option<Arc<OpBuiltPayload<B>>>,
}

/// Why a flashblock cannot be processed.
pub enum ProcessError {
    /// It does not go with the flashblocks of the current payload.
    Push(PushError),
    /// A transaction cannot be decoded.
    Decode(TransactionError),
    /// There are no parameters for the base fee.
    Params(HoloceneError),
}

/// What is done about a flashblock.
pub enum Processing {
    /// The flashblock has been processed: the block of the latest payload is pending.
    AlreadyProcessed,
    /// A payload is built for the flashblock, with these attributes, on top of the latest payload.
    Build { flashblock: Flashblock, attributes: OpPayloadBuilderAttributes },
}

/// Whether a flashblock has been processed, where the latest payload has that id and index.
pub open spec fn already_processed<B>(
    latest: Option<(Arc<OpBuiltPayload<B>>, u64)>,
    f: PayloadView<FlashblockMetadata>,
) -> bool {
    latest matches Some((payload, index)) && payload.id == f.payload_id && index >= f.index
}

/// The base of the payload that a flashblock belongs to, where `s` are the flashblocks of the current
/// one.
pub open spec fn base_for(
    s: Seq<PayloadView<FlashblockMetadata>>,
    f: PayloadView<FlashblockMetadata>,
) -> BaseView {
    if collection::starts_new(s, f) == Ok::<bool, PushError>(true) {
        f.base->0
    } else {
        s[0].base->0
    }
}

/// Whether byte strings are transactions, with nothing behind them.
pub open spec fn all_exact(strings: Seq<Seq<u8>>) -> bool {
    forall|i: int| 0 <= i < strings.len() ==> transaction::exact_transaction(#[trigger] strings[i]) is Some
}

/// The transactions that byte strings are.
pub open spec fn exact(strings: Seq<Seq<u8>>) -> Seq<TxView> {
    strings.map_values(|s: Seq<u8>| transaction::exact_transaction(s)->0)
}

/// Whether `a` are the attributes that a payload for a flashblock is built with.
pub open spec fn is_attributes(
    a: AttributesView,
    f: PayloadView<FlashblockMetadata>,
    base: BaseView,
    params: BaseFeeParams,
) -> bool {
    &&& a.id == f.payload_id
    &&& a.parent == base.parent_hash
    &&& a.timestamp == base.timestamp
    &&& a.suggested_fee_recipient == base.fee_recipient
    &&& a.prev_randao == base.prev_randao
    &&& a.withdrawals == f.diff.withdrawals
    &&& a.parent_beacon_block_root == Some(base.parent_beacon_block_root)
    &&& a.no_tx_pool
    &&& a.transactions == exact(f.diff.transactions)
    &&& a.gas_limit is None
    &&& a.eip_1559_params is Some
    &&& a.eip_1559_params->0@ == holocene::be_bytes(params.max_change_denominator as nat)
        + holocene::be_bytes(params.elasticity_multiplier as nat)
    &&& a.min_base_fee is None
}

/// Decodes transactions, with nothing behind them.
fn decode_exact(strings: &Vec<Bytes>) -> (r: Result<Vec<Transaction>, TransactionError>)
    ensures
        ({
            let s = primitives::contents(strings@);
            match r {
                Ok(v) => all_exact(s) && model::views(v@) == exact(s),
                Err(_) => !all_exact(s),
            }
        }),
        r matches Ok(v) ==> {
            &&& v@.len() == strings@.len()
            &&& forall|i: int|
                0 <= i < strings@.len() ==> transaction::exact_transaction((#[trigger] strings@[i])@)
                    == Some(v@[i]@)
        },
        r is Err ==> exists|i: int|
            0 <= i < strings@.len() && transaction::exact_transaction((#[trigger] strings@[i])@)
                is None,
{
    let ghost s = primitives::contents(strings@);
    let mut v: Vec<Transaction> = Vec::new();
    let mut i: usize = 0;
    while i < strings.len()
        invariant
            i <= strings.len(),
            s == primitives::contents(strings@),
            forall|k: int| 0 <= k < i ==> transaction::exact_transaction(#[trigger] s[k]) is Some,
            model::views(v@) == exact(s.take(i as int)),
        decreases strings.len() - i,
    {
        assert(s[i as int] == strings@[i as int]@);
        match Transaction::decode_2718_exact(strings[i].as_slice()) {
            Ok(tx) => {
                let ghost before = v@;
                v.push(tx);
                proof {
                    assert(model::views(v@) =~= model::views(before).push(tx@));
                    assert(s.take(i + 1) =~= s.take(i as int).push(s[i as int]));
                    assert(exact(s.take(i + 1)) =~= exact(s.take(i as int)).push(tx@));
                }
            },
            Err(e) => {
                assert(transaction::exact_transaction(s[i as int]) is None);
                return Err(e);
            },
        }
        i += 1;
    }
    assert(s.take(i as int) =~= s);
    proof {
        assert(model::views(v@).len() == v@.len());
        assert(exact(s).len() == strings@.len());
        assert forall|k: int| 0 <= k < strings@.len() implies transaction::exact_transaction(
            (#[trigger] strings@[k])@,
        ) == Some(v@[k]@) by {
            assert(s[k] == strings@[k]@);
            assert(model::views(v@)[k] == exact(s)[k]);
        }
    }
    Ok(v)
}

impl<B> FlashblocksStateExecutor<B> {
    /// Whether the flashblocks are those of a payload.
    pub open spec fn wf(self) -> bool {
        self.flashblocks.wf()
    }

    /// Whether publishing a payload of this node, with the flashblock `p` and `json` as the text of
    /// its metadata, leads from this state to `after`, and ends in `r`. A flashblock that does not go
    /// with the others is refused, and changes nothing.
    pub open spec fn published(
        self,
        after: Self,
        p: PayloadView<FlashblockMetadata>,
        built: Arc<OpBuiltPayload<B>>,
        json: Seq<u8>,
        now: i64,
        r: Result<(), PushError>,
    ) -> bool {
        &&& after.flashblocks@ == collection::pushed(self.flashblocks@, p)
        &&& match collection::starts_new(self.flashblocks@, p) {
            Ok(_) => {
                let bytes = rlp::enc(p2p::message_item(p, json));
                let sent = self.p2p_handle.state@.published(p, bytes, now);
                &&& r is Ok
                &&& after.latest_payload == Some((built, p.index))
                &&& after.p2p_handle.state@ == sent.state
                &&& after.pending_block == self.pending_block
                &&& after.payload_events == self.payload_events
                &&& self.p2p_handle.ctx.sends(after.p2p_handle.ctx, sent)
            },
            Err(e) => {
                &&& r == Err::<(), PushError>(e)
                &&& after.latest_payload == self.latest_payload
                &&& after.p2p_handle == self.p2p_handle
                &&& after.pending_block == self.pending_block
                &&& after.payload_events == self.payload_events
            },
        }
    }

    /// Whether no flashblock is known: there is only that of an empty payload.
    pub open spec fn is_initial(self) -> bool {
        &&& self.flashblocks@.len() == 1
        &&& collection::is_empty_payload(self.flashblocks@[0])
        &&& self.latest_payload is None
        &&& self.payload_events is None
        &&& self.pending_block is None
    }

    /// The state before any flashblock is known.
    pub fn new(p2p_handle: FlashblocksHandle) -> (r: Self)
        ensures
            r.wf(),
            r.is_initial(),
            r.flashblocks@.len() == 1,
            r.flashblocks@[0].diff.transactions.len() == 0,
            r.latest_payload is None,
            r.payload_events is None,
            r.pending_block is None,
            r.p2p_handle == p2p_handle,
    {
        FlashblocksStateExecutor {
            flashblocks: Flashblocks::default(),
            latest_payload: None,
            payload_events: None,
            p2p_handle,
            pending_block: None,
        }
    }

    /// Takes a payload that this node has built, and publishes its flashblock at the time `now`, with
    /// `json` as the text of its metadata. A flashblock that does not go with the others is refused,
    /// and changes nothing.
    pub fn publish_built_payload(
        &mut self,
        payload: FlashblocksPayloadV1,
        built_payload: Arc<OpBuiltPayload<B>>,
        json: &[u8],
        now: i64,
    ) -> (r: Result<(), PushError>)
        requires
            old(self).wf(),
            collection::starts_new(old(self).flashblocks@, payload@) is Ok ==> {
                &&& payload.metadata.flashblock_timestamp is Some
                &&& rlp::enc(p2p::message_item(payload@, json@)).len() <= usize::MAX
            },
        ensures
            final(self).wf(),
            old(self).published(*final(self), payload@, built_payload, json@, now, r),
            final(self).pending_block == old(self).pending_block,
            final(self).payload_events == old(self).payload_events,
            r is Ok <==> collection::starts_new(old(self).flashblocks@, payload@) is Ok,
            r is Ok ==> {
                &&& final(self).latest_payload == Some((built_payload, payload.index))
                &&& final(self).flashblocks@.last() == payload@
            },
            r is Ok ==> {
                let sent = old(self).p2p_handle.state@.published(
                    payload@,
                    rlp::enc(p2p::message_item(payload@, json@)),
                    now,
                );
                &&& final(self).p2p_handle.state@ == sent.state
                &&& old(self).p2p_handle.ctx.sends(final(self).p2p_handle.ctx, sent)
            },
            r is Err ==> {
                &&& final(self).latest_payload == old(self).latest_payload
                &&& final(self).flashblocks@ == old(self).flashblocks@
                &&& final(self).p2p_handle == old(self).p2p_handle
            },
    {
        let index = payload.index;
        let flashblock = Flashblock { flashblock: payload.clone() };
        match self.flashblocks.push(flashblock) {
            Ok(_) => {},
            Err(e) => {
                return Err(e);
            },
        }
        self.latest_payload = Some((built_payload, index));
        self.p2p_handle.publish_new(payload, json, now);
        Ok(())
    }

    /// From now on someone listens for payloads.
    pub fn register_payload_events(&mut self)
        ensures
            final(self).payload_events is Some,
            final(self).payload_events->0@.len() == 0,
            final(self).flashblocks == old(self).flashblocks,
            final(self).latest_payload == old(self).latest_payload,
            final(self).p2p_handle == old(self).p2p_handle,
            final(self).pending_block == old(self).pending_block,
    {
        self.payload_events = Some(Vec::new());
    }

    /// Whether a payload is told to those who listen, if anyone does, which leads from the events
    /// `before` to `after`.
    pub open spec fn told(
        before: Option<Vec<Arc<OpBuiltPayload<B>>>>,
        after: Option<Vec<Arc<OpBuiltPayload<B>>>>,
        payload: Arc<OpBuiltPayload<B>>,
    ) -> bool {
        match before {
            Some(events) => after is Some && after->0@ == events@.push(payload),
            None => after is None,
        }
    }

    /// Tells a payload to those who listen, if anyone does.
    pub fn broadcast_payload(&mut self, payload: Arc<OpBuiltPayload<B>>)
        ensures
            Self::told(old(self).payload_events, final(self).payload_events, payload),
            old(self).payload_events matches Some(events) ==> final(self).payload_events is Some
                && final(self).payload_events->0@ == events@.push(payload),
            old(self).payload_events is None ==> final(self).payload_events is None,
            final(self).flashblocks == old(self).flashblocks,
            final(self).latest_payload == old(self).latest_payload,
            final(self).p2p_handle == old(self).p2p_handle,
            final(self).pending_block == old(self).pending_block,
    {
        match self.payload_events.take() {
            Some(events) => {
                let mut events = events;
                events.push(payload);
                self.payload_events = Some(events);
            },
            None => {},
        }
    }

    /// The payload whose block is pending.
    pub fn pending_block(&self) -> (r: Option<&Arc<OpBuiltPayload<B>>>)
        ensures
            match r {
                Some(p) => self.pending_block == Some(*p),
                None => self.pending_block is None,
            },
    {
        self.pending_block.as_ref()
    }

    /// Handle of the peer-to-peer protocol.
    pub fn p2p_handle(&self) -> (r: &FlashblocksHandle)
        ensures
            *r == self.p2p_handle,
    {
        &self.p2p_handle
    }

    /// The latest flashblock.
    pub fn last(&self) -> (r: Flashblock)
        requires
            self.wf(),
        ensures
            r@ == self.flashblocks@.last(),
    {
        self.flashblocks.last().clone()
    }

    /// The flashblocks of the current payload.
    pub fn flashblocks(&self) -> (r: Flashblocks)
        ensures
            r@ == self.flashblocks@,
    {
        self.flashblocks.clone()
    }

    /// Begins to process a flashblock that has come in: says with which attributes a payload is built
    /// for it, unless that has been done. `base_fee_params` gives the default parameters of the base
    /// fee at a timestamp.
    ///
    /// A flashblock that starts a new payload does away with the latest payload.
    pub fn process_flashblock<F: Fn(u64) -> BaseFeeParams>(
        &mut self,
        flashblock: FlashblocksPayloadV1,
        base_fee_params: F,
    ) -> (r: Result<Processing, ProcessError>)
        requires
            old(self).wf(),
            forall|t: u64| #[trigger] base_fee_params.requires((t,)),
        ensures
            final(self).flashblocks == old(self).flashblocks,
            final(self).p2p_handle == old(self).p2p_handle,
            final(self).payload_events == old(self).payload_events,
            ({
                let s = old(self).flashblocks@;
                let f = flashblock@;
                let done = already_processed(old(self).latest_payload, f);
                let starts = collection::starts_new(s, f);
                let base = base_for(s, f);
                &&& final(self).latest_payload == if !done && starts == Ok::<bool, PushError>(true) {
                    None
                } else {
                    old(self).latest_payload
                }
                &&& final(self).pending_block == match old(self).latest_payload {
                    Some((payload, _)) => if done {
                        Some(payload)
                    } else {
                        old(self).pending_block
                    },
                    None => old(self).pending_block,
                }
                &&& match r {
                    Ok(Processing::AlreadyProcessed) => done,
                    Ok(Processing::Build { flashblock, attributes }) => {
                        &&& !done
                        &&& starts is Ok
                        &&& all_exact(f.diff.transactions)
                        &&& flashblock@ == f
                        &&& exists|params: BaseFeeParams| #[trigger]
                            is_attributes(attributes@, f, base, params) && base_fee_params.ensures(
                                (base.timestamp,),
                                params,
                            ) && holocene::default_fits(params)
                    },
                    Err(ProcessError::Push(e)) => !done && starts == Err::<bool, PushError>(e),
                    Err(ProcessError::Decode(_)) => !done && starts is Ok && !all_exact(
                        f.diff.transactions,
                    ),
                    Err(ProcessError::Params(_)) => {
                        &&& !done
                        &&& starts is Ok
                        &&& all_exact(f.diff.transactions)
                        &&& exists|params: BaseFeeParams|
                            base_fee_params.ensures((base.timestamp,), params)
                                && !#[trigger] holocene::default_fits(params)
                    },
                }
            }),
            r matches Ok(Processing::AlreadyProcessed) <==> {
                &&& old(self).latest_payload matches Some((payload, index))
                &&& payload.id == flashblock.payload_id
                &&& flashblock.index <= index
            },
            r matches Ok(Processing::Build { flashblock: f, attributes: a }) ==> {
                let first = old(self).flashblocks@[0];
                let base = if flashblock.payload_id != first.payload_id {
                    flashblock@.base->0
                } else {
                    first.base->0
                };
                &&& f.flashblock == flashblock
                &&& a.id == flashblock.payload_id
                &&& a.parent == base.parent_hash
                &&& a.timestamp == base.timestamp
                &&& a.suggested_fee_recipient == base.fee_recipient
                &&& a.prev_randao == base.prev_randao
                &&& a.withdrawals@ == flashblock.diff.withdrawals@
                &&& a.parent_beacon_block_root == Some(base.parent_beacon_block_root)
                &&& a.no_tx_pool
                &&& a.gas_limit is None
                &&& a.min_base_fee is None
                &&& a.eip_1559_params is Some
            },
            r matches Ok(Processing::Build { flashblock: _, attributes: a }) ==> {
                let given = flashblock.diff.transactions@;
                &&& a.transactions@.len() == given.len()
                &&& forall|i: int|
                    0 <= i < given.len() ==> transaction::exact_transaction((#[trigger] given[i])@)
                        == Some(a.transactions@[i]@)
            },
            r matches Ok(Processing::Build { flashblock: _, attributes: a }) ==> {
                let b = (a.eip_1559_params->0)@;
                exists|params: BaseFeeParams|
                    {
                        &&& #[trigger] base_fee_params.ensures((a.timestamp,), params)
                        &&& params.max_change_denominator == b[0] * 0x100_0000 + b[1] * 0x1_0000
                            + b[2] * 0x100 + b[3]
                        &&& params.elasticity_multiplier == b[4] * 0x100_0000 + b[5] * 0x1_0000
                            + b[6] * 0x100 + b[7]
                    }
            },
            r matches Err(ProcessError::Decode(_)) ==> exists|i: int|
                0 <= i < flashblock.diff.transactions@.len() && transaction::exact_transaction(
                    (#[trigger] flashblock.diff.transactions@[i])@,
                ) is None,
    {
        let flashblock = Flashblock { flashblock };
        if let Some((payload, index)) = &self.latest_payload {
            if primitives::same_bytes(&payload.id, flashblock.payload_id()) && *index
                >= flashblock.flashblock.index {
                self.pending_block = Some(payload::share(payload));
                return Ok(Processing::AlreadyProcessed);
            }
        }
        let new = match self.flashblocks.is_new_payload(&flashblock) {
            Ok(new) => new,
            Err(e) => {
                return Err(ProcessError::Push(e));
            },
        };
        if new {
            self.latest_payload = None;
        }
        let base = if new {
            flashblock.base().unwrap().clone()
        } else {
            self.flashblocks.base().clone()
        };
        let diff = flashblock.diff();
        let transactions = match decode_exact(&diff.transactions) {
            Ok(v) => v,
            Err(e) => {
                return Err(ProcessError::Decode(e));
            },
        };
        let params = base_fee_params(base.timestamp);
        let eip_1559_params = match holocene::default_params(params) {
            Ok(p) => p,
            Err(e) => {
                assert(!holocene::default_fits(params));
                return Err(ProcessError::Params(e));
            },
        };
        let withdrawals = diff.withdrawals.clone();
        assert(withdrawals@ =~= diff.withdrawals@);
        let attributes = OpPayloadBuilderAttributes {
            id: *flashblock.payload_id(),
            parent: base.parent_hash,
            timestamp: base.timestamp,
            suggested_fee_recipient: base.fee_recipient,
            prev_randao: base.prev_randao,
            withdrawals,
            parent_beacon_block_root: Some(base.parent_beacon_block_root),
            no_tx_pool: true,
            transactions,
            gas_limit: None,
            eip_1559_params: Some(eip_1559_params),
            min_base_fee: None,
        };
        assert(is_attributes(attributes@, flashblock@, base_for(self.flashblocks@, flashblock@), params));
        proof {
            let first = self.flashblocks@[0];
            let chosen = if flashblock@.payload_id != first.payload_id {
                flashblock@.base->0
            } else {
                first.base->0
            };
            let b = (attributes.eip_1559_params->0)@;
            assert(chosen == base@);
            assert(base_fee_params.ensures((attributes.timestamp,), params)
                && params.max_change_denominator == b[0] * 0x100_0000 + b[1] * 0x1_0000 + b[2] * 0x100
                + b[3] && params.elasticity_multiplier == b[4] * 0x100_0000 + b[5] * 0x1_0000 + b[6]
                * 0x100 + b[7]);
        }
        Ok(Processing::Build { flashblock, attributes })
    }

    /// Ends the processing of a flashblock, for which building a payload had this outcome: takes the
    /// payload and the flashblock, if there is a payload, whose block is pending then, and tells it to
    /// those who listen. Says whether there is.
    pub fn finish_flashblock(
        &mut self,
        flashblock: Flashblock,
        outcome: BuildOutcomeKind<Arc<OpBuiltPayload<B>>>,
    ) -> (r: Result<bool, PushError>)
        requires
            old(self).wf(),
        ensures
            final(self).wf(),
            final(self).p2p_handle == old(self).p2p_handle,
            match outcome.payload_view() {
                Some(payload) => match collection::starts_new(old(self).flashblocks@, flashblock@) {
                    Ok(_) => {
                        &&& r == Ok::<bool, PushError>(true)
                        &&& final(self).flashblocks@ == collection::pushed(
                            old(self).flashblocks@,
                            flashblock@,
                        )
                        &&& final(self).latest_payload == Some((payload, flashblock@.index))
                        &&& final(self).pending_block == Some(payload)
                        &&& Self::told(
                            old(self).payload_events,
                            final(self).payload_events,
                            payload,
                        )
                    },
                    Err(e) => {
                        &&& r == Err::<bool, PushError>(e)
                        &&& final(self).flashblocks@ == old(self).flashblocks@
                        &&& final(self).latest_payload == old(self).latest_payload
                        &&& final(self).pending_block == old(self).pending_block
                        &&& final(self).payload_events == old(self).payload_events
                    },
                },
                None => {
                    &&& r == Ok::<bool, PushError>(false)
                    &&& *final(self) == *old(self)
                },
            },
            outcome is Aborted || outcome is Cancelled ==> *final(self) == *old(self) && r == Ok::<
                bool,
                PushError,
            >(false),
            r == Ok::<bool, PushError>(false) <==> outcome is Aborted || outcome is Cancelled,
            outcome is Better || outcome is Freeze ==> (r is Ok <==> collection::starts_new(
                old(self).flashblocks@,
                flashblock@,
            ) is Ok),
            r is Err ==> {
                &&& final(self).flashblocks@ == old(self).flashblocks@
                &&& final(self).latest_payload == old(self).latest_payload
                &&& final(self).pending_block == old(self).pending_block
                &&& final(self).payload_events == old(self).payload_events
            },
            r == Ok::<bool, PushError>(true) ==> {
                let payload = match outcome {
                    BuildOutcomeKind::Better { payload } => payload,
                    BuildOutcomeKind::Freeze(payload) => payload,
                    _ => arbitrary(),
                };
                &&& final(self).latest_payload == Some((payload, flashblock.flashblock.index))
                &&& final(self).pending_block == Some(payload)
                &&& final(self).flashblocks@.last() == flashblock@
                &&& old(self).payload_events matches Some(events) ==> final(self).payload_events
                    is Some && final(self).payload_events->0@ == events@.push(payload)
            },
    {
        let index = flashblock.flashblock.index;
        match outcome.into_payload() {
            Some(payload) => {
                match self.flashblocks.push(flashblock) {
                    Ok(_) => {},
                    Err(e) => {
                        return Err(e);
                    },
                }
                self.latest_payload = Some((payload::share(&payload), index));
                self.pending_block = Some(payload::share(&payload));
                self.broadcast_payload(payload);
                Ok(true)
            },
            None => Ok(false),
        }
    }
}

/// A payload that this node has built and published is not built again when its flashblock comes in,
/// nor when an earlier flashblock of the same payload does.
pub proof fn law_published_is_processed<B>(
    built: Arc<OpBuiltPayload<B>>,
    payload: PayloadView<FlashblockMetadata>,
    incoming: PayloadView<FlashblockMetadata>,
)
    requires
        built.id == payload.payload_id,
        incoming.payload_id == payload.payload_id,
        incoming.index <= payload.index,
    ensures
        already_processed(Some((built, payload.index)), incoming),
{
}

/// The flashblock that comes next in a payload, and one that starts a later payload, are not taken
/// for processed.
pub proof fn law_next_is_not_processed<B>(
    built: Arc<OpBuiltPayload<B>>,
    s: Seq<PayloadView<FlashblockMetadata>>,
    next: PayloadView<FlashblockMetadata>,
)
    requires
        collection::is_payload(s),
        built.id == s[0].payload_id,
        collection::starts_new(s, next) is Ok,
    ensures
        !already_processed(Some((built, s.last().index)), next),
{
}

/// The attributes that a payload is built with for a flashblock are what the flashblock and its
/// payload's base say: its transactions, one for one and in order, and no others, on the block and at
/// the time of the base.
pub proof fn law_attributes_of_flashblock(
    a: AttributesView,
    f: PayloadView<FlashblockMetadata>,
    base: BaseView,
    params: BaseFeeParams,
)
    requires
        is_attributes(a, f, base, params),
        all_exact(f.diff.transactions),
        holocene::default_fits(params),
    ensures
        a.transactions.len() == f.diff.transactions.len(),
        forall|i: int|
            0 <= i < a.transactions.len() ==> transaction::exact_transaction(
                #[trigger] f.diff.transactions[i],
            ) == Some(a.transactions[i]),
        a.no_tx_pool,
        a.id == f.payload_id,
        a.withdrawals == f.diff.withdrawals,
        a.parent == base.parent_hash,
        a.timestamp == base.timestamp,
        a.suggested_fee_recipient == base.fee_recipient,
        a.prev_randao == base.prev_randao,
        a.parent_beacon_block_root == Some(base.parent_beacon_block_root),
        a.gas_limit is None,
        ({
            let b = (a.eip_1559_params->0)@;
            &&& params.max_change_denominator == b[0] * 0x100_0000 + b[1] * 0x1_0000 + b[2] * 0x100
                + b[3]
            &&& params.elasticity_multiplier == b[4] * 0x100_0000 + b[5] * 0x1_0000 + b[6] * 0x100
                + b[7]
        }),
{
    holocene::law_big_endian(params.max_change_denominator as nat);
    holocene::law_big_endian(params.elasticity_multiplier as nat);
}

/// Flashblocks that lead to the same attributes carry transactions that decode to the same ones, place
/// by place.
pub proof fn law_same_attributes(
    a: AttributesView,
    one: PayloadView<FlashblockMetadata>,
    other: PayloadView<FlashblockMetadata>,
    one_base: BaseView,
    other_base: BaseView,
    params: BaseFeeParams,
)
    requires
        is_attributes(a, one, one_base, params),
        is_attributes(a, other, other_base, params),
        all_exact(one.diff.transactions),
        all_exact(other.diff.transactions),
    ensures
        one.payload_id == other.payload_id,
        one.diff.transactions.len() == other.diff.transactions.len(),
        forall|i: int|
            0 <= i < one.diff.transactions.len() ==> transaction::exact_transaction(
                #[trigger] one.diff.transactions[i],
            ) == transaction::exact_transaction(other.diff.transactions[i]),
        one.diff.withdrawals == other.diff.withdrawals,
        one_base.parent_hash == other_base.parent_hash,
        one_base.timestamp == other_base.timestamp,
        one_base.prev_randao == other_base.prev_randao,
        one_base.fee_recipient == other_base.fee_recipient,
        one_base.parent_beacon_block_root == other_base.parent_beacon_block_root,
{
    assert(exact(one.diff.transactions).len() == one.diff.transactions.len());
    assert(exact(other.diff.transactions).len() == other.diff.transactions.len());
    assert forall|i: int| 0 <= i < one.diff.transactions.len() implies transaction::exact_transaction(
        #[trigger] one.diff.transactions[i],
    ) == transaction::exact_transaction(other.diff.transactions[i]) by {
        assert(exact(one.diff.transactions)[i] == exact(other.diff.transactions)[i]);
        assert(transaction::exact_transaction(other.diff.transactions[i]) is Some);
    }
}

/// The base of a flashblock is its own where it starts a payload, and that of the payload's first
/// flashblock where it goes on.
pub proof fn law_base_for(
    s: Seq<PayloadView<FlashblockMetadata>>,
    f: PayloadView<FlashblockMetadata>,
)
    requires
        collection::is_payload(s),
        collection::starts_new(s, f) is Ok,
    ensures
        f.payload_id == s[0].payload_id ==> Some(base_for(s, f)) == s[0].base,
        f.payload_id != s[0].payload_id ==> Some(base_for(s, f)) == f.base,
        collection::pushed(s, f)[0].base == Some(base_for(s, f)),
{
}

/// A flashblock was processed exactly if the payload that was built last is its own, and reaches as far
/// as it does.
pub proof fn law_processed<B>(
    built: Arc<OpBuiltPayload<B>>,
    index: u64,
    f: PayloadView<FlashblockMetadata>,
)
    ensures
        already_processed(Some((built, index)), f) <==> built.id == f.payload_id && f.index <= index,
        !already_processed(None::<(Arc<OpBuiltPayload<B>>, u64)>, f),
{
}

}
