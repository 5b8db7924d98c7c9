//! Publishes flashblocks while a payload is under construction.
//!
//! Each flashblock spans the payload's checkpoints since the last barrier. Once it is published, a
//! new barrier goes behind them, which marks them as immutable.
use crate::access_list::ChangesView;
use crate::assembly::{self, BlockEnv, Hardforks, Roots};
use crate::block::{self, EMPTY_REQUESTS_HASH, EMPTY_WITHDRAWALS, HeaderView};
use crate::context::WorldContext;
use crate::flashblocks::block_builder;
use crate::flashblocks::builder::{self, EvmEnv, ParentHeader};
use crate::flashblocks::collection::{self, PushError};
use crate::flashblocks::p2p::{self, FlashblocksP2p};
use crate::flashblocks::primitives::{
    self, Address, B64, B256, BaseView, Bytes, DeltaView, ExecutionPayloadBaseV1,
    ExecutionPayloadFlashblockDeltaV1, FlashblockMetadata, FlashblocksPayloadV1, PayloadView,
    ZERO_HASH,
};
use crate::flashblocks::state::FlashblocksStateExecutor;
use crate::model;
use crate::num::U256;
use crate::payload::{self, AttributesView, BuiltView, OpBuiltPayload};
use crate::receipt::{ExecutionResult, ResultView};
use crate::reverts::{self, BundleState};
use crate::rlp;
use crate::step::times::{self, BlockIntervals, Times};
use crate::totals::{self, ExecutedTx, Totals, TotalsView};
use crate::transaction::{Recovered, RecoveredView, Transaction, TxView};
use std::sync::Arc;
use vstd::prelude::*;

verus! {

/// A checkpoint of a payload under construction. The library carries changes to the state as they
/// are: `B` is whatever holds them.
#[derive(Debug, PartialEq, Eq)]
pub struct Checkpoint<B> {
    /// Transactions that the checkpoint adds.
    pub transactions: Vec<Recovered>,
    /// What came of the transactions, if they were executed.
    pub results: Option<Vec<ExecutionResult>>,
    /// Changes to the state, if there are any.
    pub state: Option<B>,
    /// For each transaction the nonce of its sender before the checkpoint, if the transaction is a
    /// deposit and the sender's account exists.
    pub deposit_nonces: Vec<Option<u64>>,
    /// Whether the transactions were added as a bundle.
    pub is_bundle: bool,
}

/// What the results of a checkpoint hold.
pub open spec fn result_views(results: Option<Vec<ExecutionResult>>) -> Option<Seq<ResultView>> {
    match results {
        Some(r) => Some(model::views(r@)),
        None => None,
    }
}

/// What a checkpoint holds.
#[verifier::ext_equal]
pub struct CheckpointView<B> {
    pub transactions: Seq<RecoveredView>,
    pub results: Option<Seq<ResultView>>,
    pub state: Option<B>,
    pub deposit_nonces: Seq<Option<u64>>,
    pub is_bundle: bool,
}

impl<B> View for Checkpoint<B> {
    type V = CheckpointView<B>;

    open spec fn view(&self) -> CheckpointView<B> {
        CheckpointView {
            transactions: model::views(self.transactions@),
            results: result_views(self.results),
            state: self.state,
            deposit_nonces: self.deposit_nonces@,
            is_bundle: self.is_bundle,
        }
    }
}

impl<B> CheckpointView<B> {
    /// Whether there is a result and a nonce for every transaction, if there are results.
    pub open spec fn wf(self) -> bool {
        self.results matches Some(results) ==> results.len() >= self.transactions.len()
            && self.deposit_nonces.len() >= self.transactions.len()
    }

    /// The transactions that count towards a flashblock, with what came of them: those of a
    /// checkpoint that has changes to the state, if they were executed.
    pub open spec fn executed(self) -> Seq<ExecutedTx> {
        if self.state is None || self.results is None {
            Seq::empty()
        } else {
            Seq::new(
                self.transactions.len(),
                |i: int| ExecutedTx {
                    tx: self.transactions[i].tx,
                    result: self.results->0[i],
                    deposit_nonce: self.deposit_nonces[i],
                },
            )
        }
    }
}

/// The transactions of checkpoints, one after the other.
pub open spec fn transactions_of<B>(span: Seq<CheckpointView<B>>) -> Seq<RecoveredView>
    decreases span.len(),
{
    if span.len() == 0 {
        Seq::empty()
    } else {
        transactions_of(span.drop_last()) + span.last().transactions
    }
}

/// The transactions of checkpoints that count towards a flashblock, with what came of them.
pub open spec fn executed_in<B>(span: Seq<CheckpointView<B>>) -> Seq<ExecutedTx>
    decreases span.len(),
{
    if span.len() == 0 {
        Seq::empty()
    } else {
        executed_in(span.drop_last()) + span.last().executed()
    }
}

/// The changes to the state that checkpoints have, one after the other.
pub open spec fn states_of<B>(span: Seq<CheckpointView<B>>) -> Seq<B>
    decreases span.len(),
{
    if span.len() == 0 {
        Seq::empty()
    } else {
        match span.last().state {
            Some(b) => states_of(span.drop_last()).push(b),
            None => states_of(span.drop_last()),
        }
    }
}

/// Number of checkpoints that are bundles.
pub open spec fn bundles_in<B>(span: Seq<CheckpointView<B>>) -> nat
    decreases span.len(),
{
    if span.len() == 0 {
        0
    } else {
        bundles_in(span.drop_last()) + if span.last().is_bundle {
            1nat
        } else {
            0
        }
    }
}

/// A payload under construction, from its first checkpoint to its last.
#[derive(Debug)]
pub struct PayloadHistory<B> {
    /// The checkpoints.
    pub checkpoints: Vec<Checkpoint<B>>,
    /// Number of checkpoints up to the last barrier.
    pub barrier: usize,
    /// What goes with the last barrier, if there is one.
    pub context: Option<WorldContext<B>>,
}

impl<B> PayloadHistory<B> {
    /// What the checkpoints hold.
    pub open spec fn history(self) -> Seq<CheckpointView<B>> {
        model::views(self.checkpoints@)
    }

    /// What the checkpoints since the last barrier hold.
    pub open spec fn staging(self) -> Seq<CheckpointView<B>> {
        self.history().skip(self.barrier as int)
    }

    /// The payload that was built up to the last barrier.
    pub open spec fn built(self) -> Option<Arc<OpBuiltPayload<B>>> {
        match self.context {
            Some(c) => c.maybe_built_payload,
            None => None,
        }
    }

    /// Whether the last barrier is one of the checkpoints, the checkpoints are as they have to be, and
    /// the payload that was built up to the last barrier was executed.
    pub open spec fn wf(self) -> bool {
        &&& self.barrier <= self.checkpoints@.len()
        &&& forall|i: int| 0 <= i < self.history().len() ==> (#[trigger] self.history()[i]).wf()
        &&& self.built() matches Some(p) ==> p@.executed_block is Some
            && p@.executed_block->0.receipts.len() > 0
    }
}

/// The totals that a flashblock starts with: those of the payload that was built up to the last
/// barrier, if there is one.
pub open spec fn totals_of<B>(built: Option<Arc<OpBuiltPayload<B>>>) -> TotalsView {
    match built {
        Some(p) => TotalsView {
            receipts: p@.executed_block->0.receipts[0],
            fees: p@.fees.value(),
            cumulative_gas_used: p@.block.header.gas_used as nat,
        },
        None => TotalsView { receipts: Seq::empty(), fees: 0, cumulative_gas_used: 0 },
    }
}

/// What a flashblock comes to before the state behind it is known.
pub struct SpanOutcome<B> {
    /// Changes to the state of the block so far.
    pub bundle: B,
    /// Receipts, fees and gas of the block so far.
    pub totals: Totals,
}

/// What goes into the part of a block that stays the same throughout a payload job.
#[derive(Debug, PartialEq, Eq)]
pub struct JobInfo {
    pub parent_beacon_block_root: Option<B256>,
    pub parent_hash: B256,
    pub coinbase: Address,
    pub prev_randao: B256,
    pub number: u64,
    /// Gas limit that the payload attributes ask for.
    pub gas_limit: Option<u64>,
    pub parent_gas_limit: u64,
    pub timestamp: u64,
    pub extra_data: Bytes,
    pub base_fee: u64,
}

/// Whether `base` is the part of a block that stays the same throughout a payload job.
pub open spec fn is_job_base(base: BaseView, job: JobInfo) -> bool {
    &&& base.parent_beacon_block_root == primitives::or_zero(job.parent_beacon_block_root)
    &&& base.parent_hash == job.parent_hash
    &&& base.fee_recipient == job.coinbase
    &&& base.prev_randao == job.prev_randao
    &&& base.block_number == job.number
    &&& base.gas_limit == match job.gas_limit {
        Some(limit) => limit,
        None => job.parent_gas_limit,
    }
    &&& base.timestamp == job.timestamp
    &&& base.extra_data == job.extra_data@
    &&& base.base_fee_per_gas.value() == job.base_fee
}

/// What is counted of a published flashblock.
#[derive(Clone, Copy, Debug, PartialEq, Eq)]
pub struct PayloadMetrics {
    /// Number of transactions.
    pub txs: usize,
    /// Number of bundles.
    pub bundles: usize,
}

/// What comes of the step.
pub enum StepOutcome<B> {
    /// The flashblock was published. A barrier with this context goes behind its checkpoints.
    Published { context: WorldContext<B>, intervals: BlockIntervals, metrics: PayloadMetrics },
    /// The flashblock was not published. The payload stays as it is, without a barrier.
    NotPublished(PushError),
}

/// Publishes flashblocks.
#[derive(Debug, PartialEq, Eq)]
pub struct PublishFlashblock<B> {
    /// The flashblocks of the current payload, and the protocol that they are published over.
    pub p2p: FlashblocksP2p<B>,
    /// Index of the next flashblock of the payload job.
    pub block_number: u64,
    /// The part of the block that stays the same throughout the payload job. It is set when the job
    /// starts.
    pub block_base: Option<ExecutionPayloadBaseV1>,
    /// When jobs and flashblocks happened.
    pub times: Times,
}

/// The flashblock of a built payload.
pub open spec fn flashblock_of<B>(
    payload_id: B64,
    index: u64,
    base: Option<BaseView>,
    built: BuiltView<B>,
    transactions: Seq<RecoveredView>,
    now: i64,
) -> PayloadView<FlashblockMetadata> {
    let header = built.block.header;
    PayloadView {
        payload_id,
        index,
        base,
        metadata: FlashblockMetadata { fees: built.fees, flashblock_timestamp: Some(now) },
        diff: DeltaView {
            state_root: header.state_root,
            receipts_root: header.receipts_root,
            logs_bloom: header.logs_bloom,
            gas_used: header.gas_used,
            block_hash: built.block.hash,
            transactions: block::encodings(builder::unsigned(transactions)),
            withdrawals: Seq::empty(),
            withdrawals_root: primitives::or_zero(header.withdrawals_root),
        },
    }
}

/// The bytes of the transactions of checkpoints.
fn encode_transactions<B>(span: &[Checkpoint<B>]) -> (r: Vec<Bytes>)
    ensures
        primitives::contents(r@) == block::encodings(
            builder::unsigned(transactions_of(model::views(span@))),
        ),
{
    let all = collect_transactions(span);
    let ghost txs = model::views(all@);
    let r = collection::encoded_beyond(&all, 0);
    assert(collection::beyond(block::encodings(txs), 0) =~= block::encodings(txs));
    r
}

/// The transactions of checkpoints.
fn collect_transactions<B>(span: &[Checkpoint<B>]) -> (r: Vec<Transaction>)
    ensures
        model::views(r@) == builder::unsigned(transactions_of(model::views(span@))),
{
    let ghost all = model::views(span@);
    let mut txs: Vec<Recovered> = Vec::new();
    let mut i: usize = 0;
    assert(all.take(0) =~= Seq::empty());
    while i < span.len()
        invariant
            i <= span.len(),
            all == model::views(span@),
            model::views(txs@) == transactions_of(all.take(i as int)),
        decreases span.len() - i,
    {
        let mut more = model::clone_all(&span[i].transactions);
        let ghost before = txs@;
        let ghost added = more@;
        txs.append(&mut more);
        proof {
            assert(all.take(i + 1).drop_last() =~= all.take(i as int));
            assert(all.take(i + 1).last() == span@[i as int]@);
            assert(model::views(txs@) =~= model::views(before) + model::views(added));
        }
        i += 1;
    }
    assert(all.take(i as int) =~= all);
    let (transactions, _) = block_builder::into_parts(txs);
    transactions
}

/// Adds what executing the transactions of a checkpoint has led to.
fn add_checkpoint<B>(totals: &mut Totals, checkpoint: &Checkpoint<B>, base_fee: u64, canyon: bool)
    requires
        checkpoint@.wf(),
        checkpoint.state is Some,
        totals::all_pay(checkpoint@.executed(), base_fee),
        old(totals)@.cumulative_gas_used + totals::gas_of(checkpoint@.executed()) <= u64::MAX,
    ensures
        final(totals)@ == old(totals)@.with_all(checkpoint@.executed(), base_fee, canyon),
{
    let ghost start = totals@;
    let ghost executed = checkpoint@.executed();
    match &checkpoint.results {
        Some(results) => {
            let mut i: usize = 0;
            assert(executed.take(0) =~= Seq::empty());
            while i < checkpoint.transactions.len()
                invariant
                    i <= checkpoint.transactions.len(),
                    checkpoint@.wf(),
                    checkpoint.state is Some,
                    checkpoint.results == Some(*results),
                    executed == checkpoint@.executed(),
                    totals::all_pay(executed, base_fee),
                    start.cumulative_gas_used + totals::gas_of(executed) <= u64::MAX,
                    totals@ == start.with_all(executed.take(i as int), base_fee, canyon),
                decreases checkpoint.transactions.len() - i,
            {
                let ghost now = executed.take(i as int);
                let ghost next = executed.take(i + 1);
                let ghost e = executed[i as int];
                let result = results[i].clone();
                let nonce = checkpoint.deposit_nonces[i];
                proof {
                    assert(next.drop_last() =~= now);
                    assert(next.last() == e);
                    assert(checkpoint@.transactions[i as int] == checkpoint.transactions@[i as int]@);
                    assert(checkpoint@.results->0[i as int] == results@[i as int]@);
                    assert(e == (ExecutedTx {
                        tx: checkpoint.transactions@[i as int].tx@,
                        result: result@,
                        deposit_nonce: nonce,
                    }));
                    builder::lemma_gas_prefix(executed, i + 1);
                    totals::law_cumulative_gas(start, now, base_fee, canyon);
                }
                totals.add_transaction(&checkpoint.transactions[i].tx, result, nonce, base_fee, canyon);
                i += 1;
            }
            assert(executed.take(i as int) =~= executed);
        },
        None => {
            assert(executed =~= Seq::empty());
        },
    }
}

/// Gas of transactions that stand one after the other.
proof fn lemma_gas_append(a: Seq<ExecutedTx>, b: Seq<ExecutedTx>)
    ensures
        totals::gas_of(a + b) == totals::gas_of(a) + totals::gas_of(b),
    decreases b.len(),
{
    if b.len() == 0 {
        assert(a + b =~= a);
    } else {
        lemma_gas_append(a, b.drop_last());
        assert((a + b).drop_last() =~= a + b.drop_last());
    }
}

/// What holds of the first checkpoints, where it holds of all.
proof fn lemma_span_prefix<B>(span: Seq<CheckpointView<B>>, n: int, base_fee: u64)
    requires
        0 <= n < span.len(),
        totals::all_pay(executed_in(span), base_fee),
    ensures
        totals::gas_of(executed_in(span.take(n + 1))) <= totals::gas_of(executed_in(span)),
        executed_in(span.take(n + 1)) == executed_in(span.take(n)) + span[n].executed(),
        totals::all_pay(span[n].executed(), base_fee),
    decreases span.len(),
{
    assert(span.take(n + 1).drop_last() =~= span.take(n));
    assert(span.take(n + 1).last() == span[n]);
    let before = executed_in(span.drop_last());
    let last = span.last().executed();
    lemma_gas_append(before, last);
    if n == span.len() - 1 {
        assert(span.take(n + 1) =~= span);
        assert forall|i: int| 0 <= i < last.len() implies (#[trigger] last[i]).pays(base_fee) by {
            assert(executed_in(span)[before.len() + i] == last[i]);
        }
    } else {
        assert(totals::all_pay(before, base_fee)) by {
            assert forall|i: int| 0 <= i < before.len() implies (#[trigger] before[i]).pays(base_fee) by {
                assert(executed_in(span)[i] == before[i]);
            }
        }
        lemma_span_prefix(span.drop_last(), n, base_fee);
        assert(span.drop_last().take(n + 1) =~= span.take(n + 1));
        assert(span.drop_last().take(n) =~= span.take(n));
    }
}

impl<B> PublishFlashblock<B> {
    /// Publishes out of this state.
    pub fn new(flashblocks_state: FlashblocksStateExecutor<B>) -> (r: Self)
        ensures
            r.p2p.flashblocks_state == flashblocks_state,
            r.block_number == 0,
            r.block_base is None,
            r.times.job_started is None,
            r.times.job_ended is None,
            r.times.first_block_at is None,
            r.times.previous_block_at is None,
            r.times.last_block_at is None,
    {
        PublishFlashblock {
            p2p: FlashblocksP2p::new(flashblocks_state),
            block_number: 0,
            block_base: None,
            times: Times::new(),
        }
    }

    /// What the checkpoints hold that go into the next flashblock: those since the last barrier, or
    /// all of them for the first flashblock, since there is a barrier behind the sequencer's
    /// transactions, and these are published as well.
    pub open spec fn unpublished(self, payload: PayloadHistory<B>) -> Seq<CheckpointView<B>> {
        if self.block_number == 0 {
            payload.history()
        } else {
            payload.staging()
        }
    }

    /// The checkpoints that go into the next flashblock.
    pub fn unpublished_payload<'a>(&self, payload: &'a PayloadHistory<B>) -> (r: &'a [Checkpoint<B>])
        requires
            payload.wf(),
        ensures
            model::views(r@) == self.unpublished(*payload),
            self.block_number == 0 ==> r@ == payload.checkpoints@,
            self.block_number != 0 ==> r@ == payload.checkpoints@.skip(payload.barrier as int),
    {
        let all = payload.checkpoints.as_slice();
        if self.block_number == 0 {
            all
        } else {
            let r = vstd::slice::slice_subrange(all, payload.barrier, all.len());
            assert(model::views(r@) =~= payload.staging());
            r
        }
    }

    /// What the payload has come to up to the last barrier: the changes to the state, or none where
    /// it starts with the block's own, and the receipts, fees and gas.
    pub fn extract_previous_state(payload: &PayloadHistory<B>) -> (r: (Option<&B>, Totals))
        requires
            payload.wf(),
        ensures
            r.1@ == totals_of(payload.built()),
            r.0 == Self::previous(payload),
            payload.context is None ==> r.0 is None,
            payload.context matches Some(c) ==> {
                &&& c.maybe_built_payload is None ==> r.0 is None
                &&& c.maybe_built_payload matches Some(p) ==> {
                    &&& r.0 is Some
                    &&& p.executed_block is Some
                    &&& *r.0->0 == (p.executed_block->0).bundle
                    &&& r.1.fees == p.fees
                    &&& r.1.cumulative_gas_used == p.block.header.gas_used
                    &&& model::views(r.1.receipts@) == model::views(
                        (p.executed_block->0).receipts@[0]@,
                    )
                }
            },
            r.0 is None ==> {
                &&& r.1.receipts@.len() == 0
                &&& r.1.fees.value() == 0
                &&& r.1.cumulative_gas_used == 0
            },
    {
        let built = match &payload.context {
            Some(context) => &context.maybe_built_payload,
            None => {
                let totals = Totals::new();
                assert(totals@ =~= totals_of(payload.built()));
                return (None, totals);
            },
        };
        match built {
            Some(built) => {
                let executed = built.executed_block.as_ref().unwrap();
                proof {
                    let views = payload::receipt_views(executed.receipts@);
                    assert(views == built@.executed_block->0.receipts);
                    assert(views[0] == model::views(executed.receipts@[0]@));
                }
                let receipts = model::clone_all(&executed.receipts[0]);
                let totals = Totals {
                    receipts,
                    fees: built.fees,
                    cumulative_gas_used: built.block.header.gas_used,
                };
                assert(totals@ =~= totals_of(payload.built()));
                (Some(&executed.bundle), totals)
            },
            None => {
                let totals = Totals::new();
                assert(totals@ =~= totals_of(payload.built()));
                (None, totals)
            },
        }
    }

    /// The changes to the state up to the last barrier, where a payload was built up to there.
    pub open spec fn previous(payload: &PayloadHistory<B>) -> Option<&B> {
        match payload.built() {
            Some(p) => Some(&(p@.executed_block->0).bundle),
            None => None,
        }
    }

    /// What the next flashblock comes to before the state behind it is known: the totals of the
    /// payload up to the last barrier, with the transactions of the flashblock added, and the changes
    /// to the state, with which `extend` extends what `start` makes of those up to the last barrier.
    /// Checkpoints without changes to the state are passed over, and so are transactions that were not
    /// executed.
    pub fn execute_span<S: FnOnce(Option<&B>) -> B, F: Fn(B, &B) -> B>(
        &self,
        payload: &PayloadHistory<B>,
        base_fee: u64,
        canyon: bool,
        start: S,
        extend: F,
    ) -> (r: SpanOutcome<B>)
        requires
            payload.wf(),
            forall|previous: Option<&B>| #[trigger] start.requires((previous,)),
            forall|a: B, b: &B| #[trigger] extend.requires((a, b)),
            totals::all_pay(executed_in(self.unpublished(*payload)), base_fee),
            totals_of(payload.built()).cumulative_gas_used + totals::gas_of(
                executed_in(self.unpublished(*payload)),
            ) <= u64::MAX,
        ensures
            r.totals@ == totals_of(payload.built()).with_all(
                executed_in(self.unpublished(*payload)),
                base_fee,
                canyon,
            ),
            exists|first: B| #[trigger]
                start.ensures((Self::previous(payload),), first) && reverts::extended(
                    extend,
                    first,
                    states_of(self.unpublished(*payload)),
                    r.bundle,
                ),
    {
        let (previous, mut totals) = Self::extract_previous_state(payload);
        let span = self.unpublished_payload(payload);
        let ghost all = model::views(span@);
        let ghost before = totals@;
        let mut bundle = start(previous);
        let ghost first = bundle;
        let mut i: usize = 0;
        proof {
            assert(all.take(0) =~= Seq::empty());
            reverts::lemma_not_extended(extend, first);
            assert forall|k: int| 0 <= k < all.len() implies (#[trigger] all[k]).wf() by {
                if self.block_number != 0 {
                    assert(all[k] == payload.history()[payload.barrier + k]);
                }
            }
        }
        while i < span.len()
            invariant
                i <= span.len(),
                all == model::views(span@),
                forall|k: int| 0 <= k < all.len() ==> (#[trigger] all[k]).wf(),
                totals::all_pay(executed_in(all), base_fee),
                before.cumulative_gas_used + totals::gas_of(executed_in(all)) <= u64::MAX,
                totals@ == before.with_all(executed_in(all.take(i as int)), base_fee, canyon),
                forall|a: B, b: &B| #[trigger] extend.requires((a, b)),
                reverts::extended(extend, first, states_of(all.take(i as int)), bundle),
            decreases span.len() - i,
        {
            let ghost now = all.take(i as int);
            let ghost next = all.take(i + 1);
            proof {
                assert(all[i as int] == span@[i as int]@);
                lemma_span_prefix(all, i as int, base_fee);
                lemma_gas_append(executed_in(now), all[i as int].executed());
                totals::law_cumulative_gas(before, executed_in(now), base_fee, canyon);
                totals::law_totals_split(
                    before,
                    executed_in(now),
                    all[i as int].executed(),
                    base_fee,
                    canyon,
                );
                assert(next.drop_last() =~= now);
                assert(next.last() == all[i as int]);
            }
            match &span[i].state {
                Some(state) => {
                    let ghost mid = bundle;
                    bundle = extend(bundle, state);
                    proof {
                        reverts::lemma_extended_push(
                            extend,
                            first,
                            states_of(now),
                            mid,
                            *state,
                            bundle,
                        );
                    }
                    add_checkpoint(&mut totals, &span[i], base_fee, canyon);
                },
                None => {
                    assert(executed_in(next) =~= executed_in(now));
                },
            }
            i += 1;
        }
        assert(all.take(i as int) =~= all);
        SpanOutcome { bundle, totals }
    }

    /// The flashblock that the step publishes for a built payload.
    pub open spec fn flashblock(
        self,
        payload: PayloadHistory<B>,
        built: BuiltView<B>,
        payload_id: B64,
        now: i64,
    ) -> PayloadView<FlashblockMetadata> {
        flashblock_of(
            payload_id,
            self.block_number,
            primitives::optional_base(self.block_base),
            built,
            transactions_of(self.unpublished(payload)),
            now,
        )
    }

    /// Publishes the flashblock of a built payload, at the time `now`, with `json` as the text of its
    /// metadata. `instant` is that time on the clock that jobs are measured with.
    ///
    /// The index of the next flashblock goes up even where the flashblock is not published.
    pub fn step(
        &mut self,
        payload: &PayloadHistory<B>,
        built: Arc<OpBuiltPayload<B>>,
        payload_id: B64,
        json: &[u8],
        now: i64,
        instant: u64,
    ) -> (r: StepOutcome<B>)
        requires
            old(self).p2p.flashblocks_state.wf(),
            payload.wf(),
            rlp::enc(
                p2p::message_item(old(self).flashblock(*payload, built@, payload_id, now), json@),
            ).len() <= usize::MAX,
        ensures
            final(self).p2p.flashblocks_state.wf(),
            final(self).block_number == if old(self).block_number < u64::MAX {
                old(self).block_number + 1
            } else {
                0
            },
            final(self).block_base == old(self).block_base,
            ({
                let f = old(self).flashblock(*payload, built@, payload_id, now);
                let before = old(self).p2p.flashblocks_state;
                let after = final(self).p2p.flashblocks_state;
                let span = old(self).unpublished(*payload);
                match r {
                    StepOutcome::Published { context, intervals, metrics } => {
                        &&& before.published(after, f, built, json@, now, Ok(()))
                        &&& context.maybe_built_payload == Some(built)
                        &&& old(self).times.published(final(self).times, instant, intervals)
                        &&& metrics.txs == transactions_of(span).len()
                        &&& metrics.bundles == bundles_in(span)
                    },
                    StepOutcome::NotPublished(e) => {
                        &&& before.published(after, f, built, json@, now, Err(e))
                        &&& final(self).times == old(self).times
                    },
                }
            }),
            r is Published ==> {
                let f = final(self).p2p.flashblocks_state.flashblocks@.last();
                let header = built.block.header;
                &&& f.payload_id == payload_id
                &&& f.index == old(self).block_number
                &&& old(self).block_base is None <==> f.base is None
                &&& old(self).block_base matches Some(base) ==> f.base == Some(base@)
                &&& f.metadata.fees == built.fees
                &&& f.metadata.flashblock_timestamp == Some(now)
                &&& f.diff.state_root == header.state_root
                &&& f.diff.receipts_root == header.receipts_root
                &&& f.diff.logs_bloom == header.logs_bloom
                &&& f.diff.gas_used == header.gas_used
                &&& f.diff.block_hash == built.block.hash
                &&& header.withdrawals_root matches Some(root) ==> f.diff.withdrawals_root == root
                &&& header.withdrawals_root is None ==> f.diff.withdrawals_root == ZERO_HASH
                &&& f.diff.withdrawals.len() == 0
                &&& final(self).p2p.flashblocks_state.latest_payload == Some(
                    (built, old(self).block_number),
                )
            },
            r is Published ==> {
                let f = final(self).p2p.flashblocks_state.flashblocks@.last();
                let transactions = transactions_of(old(self).unpublished(*payload));
                &&& f.diff.transactions.len() == transactions.len()
                &&& forall|i: int|
                    0 <= i < transactions.len() ==> (#[trigger] f.diff.transactions[i])
                        == transactions[i].tx.encoded
            },
            r is Published <==> collection::starts_new(
                old(self).p2p.flashblocks_state.flashblocks@,
                old(self).flashblock(*payload, built@, payload_id, now),
            ) is Ok,
            r matches StepOutcome::Published { context, intervals: _, metrics: _ }
                ==> context.maybe_built_payload == Some(built),
            r is NotPublished ==> {
                let before = old(self).p2p.flashblocks_state;
                let after = final(self).p2p.flashblocks_state;
                &&& after.flashblocks@ == before.flashblocks@
                &&& after.latest_payload == before.latest_payload
                &&& after.p2p_handle == before.p2p_handle
            },
    {
        let span = self.unpublished_payload(payload);
        let transactions = encode_transactions(span);
        let metrics = Self::capture_payload_metrics(span, transactions.len());
        let index = self.block_number;
        self.block_number = index.wrapping_add(1);
        let header = &built.block.header;
        let flashblock = FlashblocksPayloadV1 {
            payload_id,
            index,
            diff: ExecutionPayloadFlashblockDeltaV1 {
                state_root: header.state_root,
                receipts_root: header.receipts_root,
                logs_bloom: header.logs_bloom,
                gas_used: header.gas_used,
                block_hash: built.block.hash,
                transactions,
                withdrawals: Vec::new(),
                withdrawals_root: primitives::unwrap_or_zero(header.withdrawals_root),
            },
            metadata: FlashblockMetadata { fees: built.fees, flashblock_timestamp: Some(now) },
            base: primitives::clone_base(&self.block_base),
        };
        assert(flashblock@ =~= old(self).flashblock(*payload, built@, payload_id, now));
        let context = WorldContext::new(payload::share(&built));
        match self.p2p.publish(flashblock, built, json, now) {
            Ok(()) => {
                let intervals = self.times.on_published_block(instant);
                StepOutcome::Published { context, intervals, metrics }
            },
            Err(e) => StepOutcome::NotPublished(e),
        }
    }

    /// What is counted of a flashblock of `txs` transactions that spans these checkpoints.
    pub fn capture_payload_metrics(span: &[Checkpoint<B>], txs: usize) -> (r: PayloadMetrics)
        ensures
            r.txs == txs,
            r.bundles == bundles_in(model::views(span@)),
            r.bundles <= span@.len(),
            r.bundles == span@.len() <==> forall|i: int|
                0 <= i < span@.len() ==> (#[trigger] span@[i]).is_bundle,
            r.bundles == 0 <==> forall|i: int|
                0 <= i < span@.len() ==> !(#[trigger] span@[i]).is_bundle,
    {
        let ghost all = model::views(span@);
        let mut bundles: usize = 0;
        let mut i: usize = 0;
        assert(all.take(0) =~= Seq::empty());
        while i < span.len()
            invariant
                i <= span.len(),
                bundles <= i,
                all == model::views(span@),
                bundles == bundles_in(all.take(i as int)),
                bundles == i <==> forall|k: int| 0 <= k < i ==> (#[trigger] span@[k]).is_bundle,
                bundles == 0 <==> forall|k: int| 0 <= k < i ==> !(#[trigger] span@[k]).is_bundle,
            decreases span.len() - i,
        {
            proof {
                assert(all.take(i + 1).drop_last() =~= all.take(i as int));
                assert(all.take(i + 1).last() == span@[i as int]@);
            }
            if span[i].is_bundle {
                bundles += 1;
            }
            i += 1;
        }
        assert(all.take(i as int) =~= all);
        PayloadMetrics { txs, bundles }
    }

    /// A payload job starts, at the time `instant`: sets the part of the block that stays the same
    /// throughout the job. Gives the time since the previous job ended.
    pub fn before_job(&mut self, job: JobInfo, instant: u64) -> (inter_jobs_interval: Option<u64>)
        ensures
            final(self).block_base is Some,
            is_job_base(final(self).block_base->0@, job),
            ({
                let base = final(self).block_base->0;
                &&& job.gas_limit matches Some(limit) ==> base.gas_limit == limit
                &&& job.gas_limit is None ==> base.gas_limit == job.parent_gas_limit
                &&& job.parent_beacon_block_root matches Some(root)
                    ==> base.parent_beacon_block_root == root
                &&& job.parent_beacon_block_root is None ==> base.parent_beacon_block_root
                    == ZERO_HASH
                &&& base.parent_hash == job.parent_hash
                &&& base.fee_recipient == job.coinbase
                &&& base.prev_randao == job.prev_randao
                &&& base.block_number == job.number
                &&& base.timestamp == job.timestamp
                &&& base.extra_data == job.extra_data
                &&& base.base_fee_per_gas.value() == job.base_fee
            }),
            final(self).times.job_started == Some(instant),
            old(self).times.job_ended is None ==> inter_jobs_interval is None,
            old(self).times.job_ended matches Some(t) ==> inter_jobs_interval is Some && (t
                <= instant ==> t + inter_jobs_interval->0 == instant),
            final(self).block_number == old(self).block_number,
            final(self).p2p == old(self).p2p,
            final(self).times == (Times {
                job_started: Some(instant),
                job_ended: None,
                ..old(self).times
            }),
            inter_jobs_interval == times::elapsed(instant, old(self).times.job_ended),
    {
        let interval = self.times.on_job_started(instant);
        self.block_base = Some(
            ExecutionPayloadBaseV1 {
                parent_beacon_block_root: primitives::unwrap_or_zero(job.parent_beacon_block_root),
                parent_hash: job.parent_hash,
                fee_recipient: job.coinbase,
                prev_randao: job.prev_randao,
                block_number: job.number,
                gas_limit: match job.gas_limit {
                    Some(limit) => limit,
                    None => job.parent_gas_limit,
                },
                timestamp: job.timestamp,
                extra_data: job.extra_data,
                base_fee_per_gas: U256::from_u64(job.base_fee),
            },
        );
        interval
    }

    /// The payload job ends, at the time `instant`: starts over with the index of the next
    /// flashblock, and forgets the part of the block that stays the same throughout the job. Gives
    /// the time since the last flashblock, and the number of flashblocks in the job.
    pub fn after_job(&mut self, instant: u64) -> (r: (Option<u64>, u64))
        ensures
            final(self).block_number == 0,
            final(self).block_base is None,
            final(self).p2p == old(self).p2p,
            final(self).times == (Times {
                job_ended: Some(instant),
                job_started: None,
                first_block_at: None,
                previous_block_at: None,
                ..old(self).times
            }),
            r.0 == times::elapsed(instant, old(self).times.last_block_at),
            r.1 == old(self).block_number,
            old(self).times.last_block_at is None ==> r.0 is None,
            old(self).times.last_block_at matches Some(t) ==> r.0 is Some && (t <= instant ==> t
                + r.0->0 == instant),
    {
        let idle = self.times.on_job_ended(instant);
        let count = self.block_number;
        self.block_number = 0;
        self.block_base = None;
        (idle, count)
    }
}

impl<I, S, R> PublishFlashblock<BundleState<I, S, R>> {
    /// The payload of the block so far, with these totals, where `bundle` holds the changes to the
    /// state: the payload has them with the reverts of a single transition. `number` is the number of
    /// the block, which is cut off where it does not fit.
    pub fn build_op_built_payload(
        payload: &PayloadHistory<BundleState<I, S, R>>,
        payload_id: B64,
        number: U256,
        env: BlockEnv,
        forks: Hardforks,
        roots: Roots,
        totals: Totals,
        bundle: BundleState<I, S, R>,
    ) -> (r: OpBuiltPayload<BundleState<I, S, R>>)
        ensures
            reverts::is_flat((r@.executed_block->0).bundle, bundle),
            assembly::is_built(
                r@,
                payload_id,
                (BlockEnv {
                    number: if number.value() <= u64::MAX {
                        number.value() as u64
                    } else {
                        u64::MAX
                    },
                    ..env
                }),
                forks,
                roots,
                builder::unsigned(transactions_of(payload.history())),
                totals@,
                None,
                (r@.executed_block->0).bundle,
            ),
            r.id == payload_id,
            r.fees == totals.fees,
            r.block.hash == block::header_hash(r.block.header@),
            ({
                let header = r.block.header;
                &&& number.value() <= u64::MAX ==> header.number == number.value()
                &&& number.value() > u64::MAX ==> header.number == u64::MAX
                &&& header.parent_hash == env.parent_hash
                &&& header.beneficiary == env.beneficiary
                &&& header.timestamp == env.timestamp
                &&& header.gas_limit == env.gas_limit
                &&& header.gas_used == totals.cumulative_gas_used
                &&& header.base_fee_per_gas == Some(env.basefee)
                &&& header.difficulty == env.difficulty
                &&& header.extra_data == env.extra_data
                &&& header.parent_beacon_block_root == env.parent_beacon_block_root
                &&& env.prevrandao matches Some(randao) ==> header.mix_hash == randao
                &&& env.prevrandao is None ==> header.mix_hash == ZERO_HASH
                &&& header.state_root == roots.state_root
                &&& header.receipts_root == roots.receipts_root
                &&& forks.isthmus ==> header.withdrawals_root == Some(roots.message_passer_root)
                &&& !forks.isthmus && forks.canyon ==> header.withdrawals_root == Some(
                    EMPTY_WITHDRAWALS,
                )
                &&& !forks.isthmus && !forks.canyon ==> header.withdrawals_root is None
                &&& forks.isthmus ==> header.requests_hash == Some(EMPTY_REQUESTS_HASH)
                &&& !forks.isthmus ==> header.requests_hash is None
                &&& forks.jovian && env.da_footprint is Some ==> header.blob_gas_used
                    == env.da_footprint
                &&& forks.jovian && env.da_footprint is None ==> header.blob_gas_used == Some(0u64)
                &&& !forks.jovian && forks.ecotone ==> header.blob_gas_used == Some(0u64)
                &&& !forks.jovian && !forks.ecotone ==> header.blob_gas_used is None
                &&& forks.jovian || forks.ecotone ==> header.excess_blob_gas == Some(0u64)
                &&& !forks.jovian && !forks.ecotone ==> header.excess_blob_gas is None
                &&& header.block_access_list_hash is None
                &&& header.transactions_root == block::ordered_root(
                    Seq::new(r.block.transactions@.len(), |i: int| r.block.transactions@[i].encoded@),
                )
            }),
            r.block.withdrawals is Some,
            r.block.withdrawals->0@.len() == 0,
            r.block.block_access_list is None,
            r.executed_block matches Some(executed) && {
                &&& executed.receipts@ == seq![totals.receipts]
                &&& executed.bundle.changes == bundle.changes
                &&& executed.bundle.reverts@.len() == 1
                &&& reverts::transition(executed.bundle.reverts@[0]@) == reverts::flattened(
                    reverts::history(bundle.reverts@),
                )
            },
    {
        let mut env = env;
        env.number = number.saturating_to_u64();
        let transactions = collect_transactions(payload.checkpoints.as_slice());
        assembly::assemble_payload(
            payload_id,
            env,
            forks,
            roots,
            transactions,
            totals,
            None,
            bundle.flatten(),
        )
    }
}

/// The checkpoints up to the last barrier and those since then together have all of the payload's
/// transactions, in order: what flashblocks have been published for, and what goes into the next
/// one.
pub proof fn law_nothing_lost<B>(history: Seq<CheckpointView<B>>, barrier: int)
    requires
        0 <= barrier <= history.len(),
    ensures
        transactions_of(history) == transactions_of(history.take(barrier)) + transactions_of(
            history.skip(barrier),
        ),
    decreases history.len() - barrier,
{
    if barrier == history.len() {
        assert(history.take(barrier) =~= history);
        assert(history.skip(barrier) =~= Seq::empty());
        assert(transactions_of(history.skip(barrier)) =~= Seq::<RecoveredView>::empty());
    } else {
        let before = history.drop_last();
        law_nothing_lost(before, barrier);
        assert(before.take(barrier) =~= history.take(barrier));
        assert(before.skip(barrier) =~= history.skip(barrier).drop_last());
        assert(history.skip(barrier).last() == history.last());
        assert(transactions_of(history) =~= transactions_of(history.take(barrier)) + transactions_of(
            history.skip(barrier),
        ));
    }
}

/// A flashblock goes on where the payload that was built up to the last barrier ended: with its
/// receipts, fees and gas.
pub proof fn law_goes_on<B>(
    built: Arc<OpBuiltPayload<B>>,
    id: B64,
    env: BlockEnv,
    forks: Hardforks,
    roots: Roots,
    transactions: Seq<TxView>,
    totals: TotalsView,
    list: Option<Seq<ChangesView>>,
    bundle: B,
)
    requires
        assembly::is_built(built@, id, env, forks, roots, transactions, totals, list, bundle),
    ensures
        totals_of(Some(built)) == totals,
{
    assert(totals_of(Some(built)) =~= totals);
}

/// Building a payload flashblock by flashblock comes to the same receipts, fees and gas as building
/// it at once.
pub proof fn law_incremental<B>(
    built: Arc<OpBuiltPayload<B>>,
    id: B64,
    env: BlockEnv,
    forks: Hardforks,
    roots: Roots,
    transactions: Seq<TxView>,
    list: Option<Seq<ChangesView>>,
    bundle: B,
    start: TotalsView,
    first: Seq<ExecutedTx>,
    second: Seq<ExecutedTx>,
    base_fee: u64,
)
    requires
        assembly::is_built(
            built@,
            id,
            env,
            forks,
            roots,
            transactions,
            start.with_all(first, base_fee, forks.canyon),
            list,
            bundle,
        ),
    ensures
        totals_of(Some(built)).with_all(second, base_fee, forks.canyon) == start.with_all(
            first + second,
            base_fee,
            forks.canyon,
        ),
{
    law_goes_on(
        built,
        id,
        env,
        forks,
        roots,
        transactions,
        start.with_all(first, base_fee, forks.canyon),
        list,
        bundle,
    );
    totals::law_totals_split(start, first, second, base_fee, forks.canyon);
}

/// The bytes of the transactions of checkpoints, as flashblocks carry them.
pub open spec fn encoded_in<B>(span: Seq<CheckpointView<B>>) -> Seq<Seq<u8>> {
    block::encodings(builder::unsigned(transactions_of(span)))
}

/// The flashblocks of a payload carry the transactions of its block together, in order: where those
/// that were published carry the transactions up to the last barrier, the next one completes them.
pub proof fn law_flashblocks_make_the_block<B>(
    step: PublishFlashblock<B>,
    payload: PayloadHistory<B>,
    published: Seq<PayloadView<FlashblockMetadata>>,
    id: B64,
    env: BlockEnv,
    forks: Hardforks,
    roots: Roots,
    totals: TotalsView,
    bundle: B,
    built: BuiltView<B>,
    now: i64,
)
    requires
        payload.wf(),
        collection::is_payload(published),
        assembly::is_built(
            built,
            id,
            env,
            forks,
            roots,
            builder::unsigned(transactions_of(payload.history())),
            totals,
            None,
            bundle,
        ),
        collection::starts_new(published, step.flashblock(payload, built, id, now)) == Ok::<
            bool,
            PushError,
        >(step.block_number == 0),
        step.block_number != 0 ==> collection::reduced(published).diff.transactions == encoded_in(
            payload.history().take(payload.barrier as int),
        ),
    ensures
        ({
            let f = step.flashblock(payload, built, id, now);
            let all = collection::reduced(collection::pushed(published, f));
            &&& all.diff.transactions == block::encodings(built.block.transactions)
            &&& all.diff.block_hash == built.block.hash
            &&& all.diff.gas_used == totals.cumulative_gas_used
            &&& all.metadata.fees.value() == totals.fees
        }),
{
    let f = step.flashblock(payload, built, id, now);
    let history = payload.history();
    if step.block_number == 0 {
        collection::law_new_payload_forgets(published, f);
    } else {
        collection::law_push_extends(published, f);
        law_nothing_lost(history, payload.barrier as int);
        let first = transactions_of(history.take(payload.barrier as int));
        let second = transactions_of(history.skip(payload.barrier as int));
        assert(block::encodings(builder::unsigned(first + second)) =~= block::encodings(
            builder::unsigned(first),
        ) + block::encodings(builder::unsigned(second)));
    }
}

/// What a flashblock of a job is published with: the step and the payload as they are then, the
/// payload that was built, and the time.
pub struct Round<B> {
    pub step: PublishFlashblock<B>,
    pub payload: PayloadHistory<B>,
    pub built: BuiltView<B>,
    pub now: i64,
}

/// Whether these are the rounds of a job: the step counts its flashblocks from 0, and the last
/// barrier of a payload stands behind all that the flashblock before was published for.
pub open spec fn is_job<B>(rounds: Seq<Round<B>>) -> bool {
    &&& rounds.len() > 0
    &&& forall|k: int| 0 <= k < rounds.len() ==> (#[trigger] rounds[k]).step.block_number == k
    &&& forall|k: int| 0 <= k < rounds.len() ==> (#[trigger] rounds[k]).payload.wf()
    &&& forall|k: int|
        0 < k < rounds.len() ==> (#[trigger] rounds[k]).payload.history().take(
            rounds[k].payload.barrier as int,
        ) == rounds[k - 1].payload.history()
}

/// The flashblocks that are published in the rounds of a job.
pub open spec fn flashblocks_of<B>(rounds: Seq<Round<B>>, id: B64) -> Seq<
    PayloadView<FlashblockMetadata>,
> {
    rounds.map_values(|r: Round<B>| r.step.flashblock(r.payload, r.built, id, r.now))
}

/// The flashblocks of a job have indices from 0 and carry every transaction of its payload once, in
/// order. Whoever takes them in behind those of an earlier payload has exactly them, with the block
/// that was built last.
pub proof fn law_job<B>(
    rounds: Seq<Round<B>>,
    id: B64,
    before: Seq<PayloadView<FlashblockMetadata>>,
)
    requires
        is_job(rounds),
        collection::is_payload(before),
        collection::starts_new(before, flashblocks_of(rounds, id)[0]) == Ok::<bool, PushError>(true),
    ensures
        ({
            let f = flashblocks_of(rounds, id);
            let last = rounds.last();
            let all = collection::reduced(f);
            &&& forall|k: int| 0 <= k < f.len() ==> (#[trigger] f[k]).index == k
            &&& collection::is_payload(f)
            &&& collection::pushed_all(before, f) == f
            &&& collection::all_transactions(f) == encoded_in(last.payload.history())
            &&& all.diff.transactions == encoded_in(last.payload.history())
            &&& all.diff.block_hash == last.built.block.hash
        }),
    decreases rounds.len(),
{
    let f = flashblocks_of(rounds, id);
    let n = rounds.len() - 1;
    let last = rounds[n];
    assert(last.step.block_number == n);
    if n == 0 {
        let first = f[0];
        assert(f =~= seq![first]);
        assert(f.drop_last() =~= Seq::empty());
        collection::law_new_payload_forgets(before, first);
        assert(collection::pushed_all(before, f.drop_last()) == before);
        assert(collection::all_transactions(f) =~= first.diff.transactions);
    } else {
        let rest = rounds.drop_last();
        assert forall|k: int| 0 <= k < rest.len() implies (#[trigger] rest[k]).step.block_number == k by {
            assert(rest[k] == rounds[k]);
        }
        assert forall|k: int| 0 <= k < rest.len() implies (#[trigger] rest[k]).payload.wf() by {
            assert(rest[k] == rounds[k]);
        }
        assert forall|k: int| 0 < k < rest.len() implies (#[trigger] rest[k]).payload.history().take(
            rest[k].payload.barrier as int,
        ) == rest[k - 1].payload.history() by {
            assert(rest[k] == rounds[k]);
            assert(rest[k - 1] == rounds[k - 1]);
        }
        let g = flashblocks_of(rest, id);
        assert(f.drop_last() =~= g);
        assert(g[0] == f[0]);
        law_job(rest, id, before);
        let next = f[n];
        assert(f =~= g.push(next));
        assert(g[0].payload_id == id);
        assert(collection::starts_new(g, next) == Ok::<bool, PushError>(false));
        collection::law_push_extends(g, next);
        let history = last.payload.history();
        let barrier = last.payload.barrier as int;
        law_nothing_lost(history, barrier);
        assert(rest.last() == rounds[n - 1]);
        assert(history.take(barrier) == rest.last().payload.history());
        let first = transactions_of(history.take(barrier));
        let second = transactions_of(history.skip(barrier));
        assert(encoded_in(history) =~= block::encodings(builder::unsigned(first))
            + block::encodings(builder::unsigned(second)));
        assert(collection::all_transactions(f) =~= collection::all_transactions(g)
            + next.diff.transactions);
        assert forall|k: int| 0 <= k < f.len() implies (#[trigger] f[k]).payload_id == f[0].payload_id by {
            if k < n {
                assert(f[k] == g[k]);
            }
        }
        assert forall|k: int| 0 <= k < f.len() implies (#[trigger] f[k]).index == k by {
            if k < n {
                assert(f[k] == g[k]);
            }
        }
    }
}

/// The part of a block that stays the same throughout a payload job is what the job asks for. The gas
/// limit is that of the payload attributes wherever they have one.
pub proof fn law_job_base(base: BaseView, job: JobInfo)
    requires
        is_job_base(base, job),
    ensures
        job.gas_limit matches Some(limit) ==> base.gas_limit == limit,
        job.gas_limit is None ==> base.gas_limit == job.parent_gas_limit,
        job.parent_beacon_block_root matches Some(root) ==> base.parent_beacon_block_root == root,
        base.parent_hash == job.parent_hash,
        base.fee_recipient == job.coinbase,
        base.prev_randao == job.prev_randao,
        base.block_number == job.number,
        base.timestamp == job.timestamp,
        base.extra_data == job.extra_data@,
        base.base_fee_per_gas.value() == job.base_fee,
{
}

/// Jobs with the same base ask for the same.
pub proof fn law_same_job_base(base: BaseView, one: JobInfo, other: JobInfo)
    requires
        is_job_base(base, one),
        is_job_base(base, other),
    ensures
        one.gas_limit is Some && other.gas_limit is Some ==> one.gas_limit == other.gas_limit,
        one.parent_beacon_block_root is Some && other.parent_beacon_block_root is Some
            ==> one.parent_beacon_block_root == other.parent_beacon_block_root,
        one.parent_hash == other.parent_hash,
        one.coinbase == other.coinbase,
        one.prev_randao == other.prev_randao,
        one.number == other.number,
        one.timestamp == other.timestamp,
        one.extra_data@ == other.extra_data@,
        one.base_fee == other.base_fee,
{
}

/// The base of a job agrees with the header of the block that is built for the same payload attributes:
/// what the first flashblock of the job says of the block is what the block's header says.
pub proof fn law_base_agrees_with_the_block(
    base: BaseView,
    job: JobInfo,
    header: HeaderView,
    env: BlockEnv,
    attributes: AttributesView,
    parent: ParentHeader,
    evm: EvmEnv,
    extra_data: Seq<u8>,
    forks: Hardforks,
    roots: Roots,
    transactions: Seq<TxView>,
    totals: TotalsView,
    list: Option<Seq<ChangesView>>,
)
    requires
        is_job_base(base, job),
        builder::is_env(env, attributes, parent, evm, extra_data),
        assembly::is_header(header, env, forks, roots, transactions, totals, list),
        job.parent_hash == parent.hash,
        job.number == parent.number + 1,
        job.gas_limit == attributes.gas_limit,
        job.timestamp == attributes.timestamp,
        job.parent_beacon_block_root == attributes.parent_beacon_block_root,
        job.coinbase == evm.beneficiary,
        evm.prevrandao == Some(job.prev_randao),
        job.base_fee == evm.basefee,
        job.extra_data@ == extra_data,
    ensures
        base.parent_hash == header.parent_hash,
        base.block_number == header.number,
        base.timestamp == header.timestamp,
        base.fee_recipient == header.beneficiary,
        base.prev_randao == header.mix_hash,
        base.extra_data == header.extra_data,
        Some(base.base_fee_per_gas.value() as u64) == header.base_fee_per_gas,
        attributes.gas_limit is Some ==> base.gas_limit == header.gas_limit,
        header.parent_beacon_block_root matches Some(root) ==> base.parent_beacon_block_root == root,
{
}

/// The flashblock of a payload says of its block what the block's header does, and carries the bytes of
/// the transactions that it is for, one for one and in order.
pub proof fn law_flashblock_tells<B>(
    payload_id: B64,
    index: u64,
    base: Option<BaseView>,
    built: BuiltView<B>,
    transactions: Seq<RecoveredView>,
    now: i64,
)
    ensures
        ({
            let f = flashblock_of(payload_id, index, base, built, transactions, now);
            let header = built.block.header;
            &&& f.payload_id == payload_id
            &&& f.index == index
            &&& f.base == base
            &&& f.metadata.fees == built.fees
            &&& f.metadata.flashblock_timestamp == Some(now)
            &&& f.diff.state_root == header.state_root
            &&& f.diff.receipts_root == header.receipts_root
            &&& f.diff.logs_bloom == header.logs_bloom
            &&& f.diff.gas_used == header.gas_used
            &&& f.diff.block_hash == built.block.hash
            &&& header.withdrawals_root matches Some(root) ==> f.diff.withdrawals_root == root
            &&& f.diff.withdrawals.len() == 0
            &&& f.diff.transactions.len() == transactions.len()
            &&& forall|i: int|
                0 <= i < transactions.len() ==> (#[trigger] f.diff.transactions[i])
                    == transactions[i].tx.encoded
        }),
{
}

/// What is taken of checkpoints is taken of each, in order; of those without changes to the state, and
/// of those that were not executed, nothing counts towards the totals.
pub proof fn law_checkpoints<B>(a: Seq<CheckpointView<B>>, b: Seq<CheckpointView<B>>)
    ensures
        transactions_of(a + b) == transactions_of(a) + transactions_of(b),
        executed_in(a + b) == executed_in(a) + executed_in(b),
        states_of(a + b) == states_of(a) + states_of(b),
        bundles_in(a + b) == bundles_in(a) + bundles_in(b),
        a.len() == 1 ==> {
            &&& transactions_of(a) == a[0].transactions
            &&& a[0].state matches Some(s) ==> states_of(a) == seq![s]
            &&& a[0].state is None ==> states_of(a).len() == 0 && executed_in(a).len() == 0
            &&& a[0].results is None ==> executed_in(a).len() == 0
            &&& a[0].state is Some && a[0].results is Some ==> {
                &&& executed_in(a).len() == a[0].transactions.len()
                &&& forall|i: int| #![trigger executed_in(a)[i]]
                    0 <= i < a[0].transactions.len() ==> {
                        &&& executed_in(a)[i].tx == a[0].transactions[i].tx
                        &&& executed_in(a)[i].result == (a[0].results->0)[i]
                        &&& executed_in(a)[i].deposit_nonce == a[0].deposit_nonces[i]
                    }
            }
            &&& bundles_in(a) == if a[0].is_bundle {
                1nat
            } else {
                0
            }
        },
    decreases b.len(),
{
    if b.len() == 0 {
        assert(a + b =~= a);
    } else {
        law_checkpoints(a, b.drop_last());
        assert((a + b).drop_last() =~= a + b.drop_last());
        assert((a + b).last() == b.last());
        assert(transactions_of(a + b) =~= transactions_of(a) + transactions_of(b));
        assert(executed_in(a + b) =~= executed_in(a) + executed_in(b));
        assert(states_of(a + b) =~= states_of(a) + states_of(b));
    }
    if a.len() == 1 {
        reveal_with_fuel(transactions_of, 2);
        reveal_with_fuel(executed_in, 2);
        reveal_with_fuel(states_of, 2);
        reveal_with_fuel(bundles_in, 2);
        assert(a.drop_last() =~= Seq::empty());
        assert(a.last() == a[0]);
        assert(transactions_of(a) =~= a[0].transactions);
        assert(executed_in(a) =~= a[0].executed());
        if a[0].state is Some {
            assert(states_of(a) =~= seq![a[0].state->0]);
        }
    }
}

/// The first flashblock of a job is for all of the payload's checkpoints, and each other one for those
/// since the last barrier.
pub proof fn law_unpublished<B>(step: PublishFlashblock<B>, payload: PayloadHistory<B>)
    requires
        payload.wf(),
    ensures
        step.block_number == 0 ==> step.unpublished(payload) == payload.history(),
        step.block_number != 0 ==> payload.history().take(payload.barrier as int)
            + step.unpublished(payload) == payload.history(),
        payload.history().len() == payload.checkpoints@.len(),
        forall|i: int|
            0 <= i < payload.checkpoints@.len() ==> (#[trigger] payload.history()[i])
                == payload.checkpoints@[i]@,
{
    let all = payload.history();
    let n = payload.barrier as int;
    assert(all.take(n) + all.skip(n) =~= all);
}

/// The totals that a flashblock starts with are those of the payload that was built up to the last
/// barrier, and nothing where there is none.
pub proof fn law_totals_of<B>(p: Arc<OpBuiltPayload<B>>)
    requires
        p@.executed_block is Some,
        (p@.executed_block->0).receipts.len() > 0,
    ensures
        totals_of(Some(p)).receipts == (p@.executed_block->0).receipts[0],
        totals_of(Some(p)).fees == p.fees.value(),
        totals_of(Some(p)).cumulative_gas_used == p.block.header.gas_used,
        totals_of(None::<Arc<OpBuiltPayload<B>>>).receipts.len() == 0,
        totals_of(None::<Arc<OpBuiltPayload<B>>>).fees == 0,
        totals_of(None::<Arc<OpBuiltPayload<B>>>).cumulative_gas_used == 0,
{
}

/// What a checkpoint holds is what its fields hold, and the payload that was built up to the last barrier
/// is the one that goes with it.
pub proof fn law_views<B>(c: Checkpoint<B>, payload: PayloadHistory<B>)
    ensures
        c@.transactions.len() == c.transactions@.len(),
        forall|i: int|
            0 <= i < c.transactions@.len() ==> (#[trigger] c@.transactions[i]) == c.transactions@[i]@,
        c.results is None <==> c@.results is None,
        c.results matches Some(results) ==> {
            &&& (c@.results->0).len() == results@.len()
            &&& forall|i: int|
                0 <= i < results@.len() ==> (#[trigger] (c@.results->0)[i]) == results@[i]@
        },
        c@.state == c.state,
        c@.deposit_nonces == c.deposit_nonces@,
        c@.is_bundle == c.is_bundle,
        payload.context is None ==> payload.built() is None,
        payload.context matches Some(context) ==> payload.built() == context.maybe_built_payload,
{
}

}
