//! Payload jobs: the steps that they are made of, and the state behind them.
use rblib_world_chain::assembly::{self, BlockEnv, Hardforks, Roots};
use rblib_world_chain::config::{FlashblocksArgs, RollupArgs, WorldChainArgs};
use rblib_world_chain::context::WorldContext;
use rblib_world_chain::flashblocks::builder::BuildOutcomeKind;
use rblib_world_chain::flashblocks::collection::{BlockError, Flashblock, Flashblocks, PushError};
use rblib_world_chain::flashblocks::ctx::OpPayloadBuilderCtxBuilder;
use rblib_world_chain::flashblocks::p2p::{FlashblocksHandle, FlashblocksP2p};
use rblib_world_chain::flashblocks::primitives::{
    ExecutionPayloadBaseV1, ExecutionPayloadFlashblockDeltaV1, FlashblockMetadata,
    FlashblocksPayloadV1, Withdrawal,
};
use rblib_world_chain::flashblocks::state::{
    FlashblocksStateExecutor, MAX_BACKOFF_DELAY, MIN_BACKOFF_DELAY, ProcessError, Processing,
};
use rblib_world_chain::holocene::BaseFeeParams;
use rblib_world_chain::node::FlashblocksNode;
use rblib_world_chain::num::U256;
use rblib_world_chain::payload::OpBuiltPayload;
use rblib_world_chain::platform::{self, FinalPayload, WorldChain};
use rblib_world_chain::receipt::ExecutionResult;
use rblib_world_chain::reverts::BundleState;
use rblib_world_chain::step::optimism_prologue::{
    Limits, OptimismPrologue, OptimismPrologueError, PrologueAction, PrologueEvent, PrologueRun,
};
use rblib_world_chain::step::pre_state::FetchPreState;
use rblib_world_chain::step::publish_flashblocks::{
    Checkpoint, JobInfo, PayloadHistory, PublishFlashblock, StepOutcome,
};
use rblib_world_chain::step::times::{BlockIntervals, Times};
use rblib_world_chain::totals::Totals;
use rblib_world_chain::transaction::{OpTxType, Recovered, Transaction};
use std::sync::Arc;

fn word(n: u64) -> U256 {
    U256::from_u64(n)
}

fn deposit_bytes(from: u8) -> Vec<u8> {
    let tx = op_alloy_consensus::TxDeposit {
        from: alloy_primitives::Address::repeat_byte(from),
        ..Default::default()
    };
    alloy_eips::eip2718::Encodable2718::encoded_2718(&op_alloy_consensus::OpTxEnvelope::from(tx))
}

fn deposit(from: u8) -> Recovered {
    match Transaction::decode_2718_exact(&deposit_bytes(from)) {
        Ok(tx) => tx.try_into_recovered().unwrap(),
        Err(_) => panic!("decodes"),
    }
}

fn paying(hash: u8) -> Recovered {
    let tx = Transaction {
        tx_type: OpTxType::Eip1559,
        hash: [hash; 32],
        encoded: vec![2, hash],
        max_fee_per_gas: 15,
        max_priority_fee_per_gas: Some(3),
    };
    Recovered { tx, signer: [hash; 20] }
}

fn base(timestamp: u64) -> ExecutionPayloadBaseV1 {
    ExecutionPayloadBaseV1 {
        parent_beacon_block_root: [1; 32],
        parent_hash: [2; 32],
        fee_recipient: [3; 20],
        prev_randao: [4; 32],
        block_number: 5,
        gas_limit: 6,
        timestamp,
        extra_data: vec![7],
        base_fee_per_gas: word(10),
    }
}

fn flashblock(id: u8, index: u64, timestamp: Option<u64>) -> FlashblocksPayloadV1 {
    FlashblocksPayloadV1 {
        payload_id: [id; 8],
        index,
        diff: ExecutionPayloadFlashblockDeltaV1 {
            state_root: [1; 32],
            receipts_root: [2; 32],
            logs_bloom: [0; 256],
            gas_used: index,
            block_hash: [3; 32],
            transactions: vec![deposit_bytes(index as u8)],
            withdrawals: vec![Withdrawal { index, validator_index: 2, address: [9; 20], amount: 4 }],
            withdrawals_root: [4; 32],
        },
        metadata: FlashblockMetadata { fees: word(20 + index), flashblock_timestamp: Some(100) },
        base: timestamp.map(base),
    }
}

fn env() -> BlockEnv {
    BlockEnv {
        parent_hash: [1; 32],
        number: 0,
        beneficiary: [3; 20],
        timestamp: 4,
        gas_limit: 5,
        basefee: 10,
        difficulty: word(0),
        prevrandao: None,
        extra_data: vec![8],
        parent_beacon_block_root: None,
        da_footprint: None,
    }
}

fn roots() -> Roots {
    Roots {
        state_root: [11; 32],
        receipts_root: [12; 32],
        message_passer_root: [13; 32],
    }
}

/// Changes to the state that are told apart by a number.
type Changes = BundleState<u8, u8, u8>;

fn changes(n: u8) -> Changes {
    BundleState { reverts: vec![vec![], vec![]], changes: n }
}

fn forks() -> Hardforks {
    Hardforks { canyon: true, ecotone: true, holocene: true, isthmus: true, jovian: true }
}

fn built(id: u8) -> Arc<OpBuiltPayload<Changes>> {
    Arc::new(assembly::assemble_payload(
        [id; 8],
        env(),
        forks(),
        roots(),
        vec![],
        Totals::new(),
        None,
        changes(id),
    ))
}

fn params(_: u64) -> BaseFeeParams {
    BaseFeeParams { max_change_denominator: 250, elasticity_multiplier: 6 }
}

fn state() -> FlashblocksStateExecutor<Changes> {
    FlashblocksStateExecutor::new(FlashblocksHandle::new())
}

#[test]
fn publishing_a_built_payload() {
    let mut state = state();
    assert_eq!(state.flashblocks(), Flashblocks::default());
    assert_eq!(state.last().flashblock.index, 0);
    let first = flashblock(1, 0, Some(10));
    assert!(state.publish_built_payload(first.clone(), built(1), b"{}", 5).is_ok());
    assert_eq!(state.last().flashblock, first);
    assert_eq!(state.latest_payload, Some((built(1), 0)));
    assert_eq!(state.p2p_handle().flashblocks_tx(), &vec![first]);
    assert_eq!(state.p2p_handle().ctx.peer_tx.len(), 1);
    assert_eq!(state.pending_block(), None);
    // A flashblock that does not go with the others changes nothing.
    let before = state.flashblocks();
    assert!(matches!(
        state.publish_built_payload(flashblock(1, 2, None), built(2), b"{}", 6),
        Err(PushError::IndexGap { .. })
    ));
    assert_eq!(state.flashblocks(), before);
    assert_eq!(state.latest_payload, Some((built(1), 0)));
    assert_eq!(state.p2p_handle().ctx.peer_tx.len(), 1);
    // The same goes through the protocol.
    let mut p2p = FlashblocksP2p::new(state);
    assert!(p2p.publish(flashblock(1, 1, None), built(1), b"{}", 7).is_ok());
    assert_eq!(p2p.flashblocks_state.latest_payload, Some((built(1), 1)));
    assert_eq!(p2p.flashblocks_state.flashblocks().flashblocks().len(), 2);
}

#[test]
fn a_published_payload_is_not_built_again() {
    let mut state = state();
    state.publish_built_payload(flashblock(1, 0, Some(10)), built(1), b"{}", 5).unwrap_or_else(
        |_| panic!("publishes"),
    );
    assert!(matches!(
        state.process_flashblock(flashblock(1, 0, Some(10)), params),
        Ok(Processing::AlreadyProcessed)
    ));
    assert_eq!(state.pending_block(), Some(&built(1)));
    // The next one is built on top of it.
    match state.process_flashblock(flashblock(1, 1, None), params) {
        Ok(Processing::Build { flashblock, attributes }) => {
            assert_eq!(flashblock.flashblock.index, 1);
            assert_eq!(attributes.id, [1; 8]);
            assert_eq!(attributes.parent, [2; 32]);
            assert_eq!(attributes.timestamp, 10);
        }
        _ => panic!("is built"),
    }
    assert_eq!(state.latest_payload, Some((built(1), 0)));
}

#[test]
fn processing_a_flashblock() {
    let mut state = state();
    state.register_payload_events();
    let first = flashblock(1, 0, Some(10));
    let (f, attributes) = match state.process_flashblock(first.clone(), params) {
        Ok(Processing::Build { flashblock, attributes }) => (flashblock, attributes),
        _ => panic!("is built"),
    };
    assert_eq!(attributes.suggested_fee_recipient, [3; 20]);
    assert_eq!(attributes.prev_randao, [4; 32]);
    assert_eq!(attributes.parent_beacon_block_root, Some([1; 32]));
    assert_eq!(attributes.withdrawals, first.diff.withdrawals);
    assert_eq!(attributes.transactions, vec![deposit(0).tx]);
    assert_eq!(attributes.gas_limit, None);
    assert_eq!(attributes.min_base_fee, None);
    assert_eq!(attributes.eip_1559_params, Some([0, 0, 0, 250, 0, 0, 0, 6]));
    assert!(attributes.no_tx_pool);
    assert!(matches!(state.finish_flashblock(f, BuildOutcomeKind::Freeze(built(1))), Ok(true)));
    assert_eq!(state.last().flashblock, first);
    assert_eq!(state.latest_payload, Some((built(1), 0)));
    assert_eq!(state.pending_block(), Some(&built(1)));
    assert_eq!(state.payload_events, Some(vec![built(1)]));
    // A flashblock that starts a later payload does away with the latest one.
    assert!(matches!(
        state.process_flashblock(flashblock(2, 0, Some(11)), params),
        Ok(Processing::Build { .. })
    ));
    assert_eq!(state.latest_payload, None);
    assert_eq!(state.pending_block(), Some(&built(1)));
}

#[test]
fn nothing_is_taken_without_a_payload() {
    let mut state = state();
    let f = Flashblock { flashblock: flashblock(1, 0, Some(10)) };
    assert!(matches!(
        state.finish_flashblock(f.clone(), BuildOutcomeKind::Cancelled),
        Ok(false)
    ));
    assert!(matches!(
        state.finish_flashblock(f, BuildOutcomeKind::Aborted { fees: word(1) }),
        Ok(false)
    ));
    assert_eq!(state.flashblocks(), Flashblocks::default());
    // Nobody listens.
    state.broadcast_payload(built(1));
    assert_eq!(state.payload_events, None);
    let stray = Flashblock { flashblock: flashblock(1, 1, None) };
    assert!(matches!(
        state.finish_flashblock(stray, BuildOutcomeKind::Better { payload: built(1) }),
        Err(PushError::NewPayloadIndex)
    ));
    assert_eq!(state.latest_payload, None);
}

#[test]
fn flashblocks_that_cannot_be_processed() {
    let mut state = state();
    assert!(matches!(
        state.process_flashblock(flashblock(1, 1, None), params),
        Err(ProcessError::Push(PushError::NewPayloadIndex))
    ));
    let mut garbled = flashblock(1, 0, Some(10));
    garbled.diff.transactions.push(vec![1, 2, 3]);
    assert!(matches!(state.process_flashblock(garbled, params), Err(ProcessError::Decode(_))));
    let mut longer = flashblock(1, 0, Some(10));
    longer.diff.transactions[0].push(0);
    assert!(matches!(state.process_flashblock(longer, params), Err(ProcessError::Decode(_))));
    let wide = |t: u64| BaseFeeParams {
        max_change_denominator: 1 << 32,
        elasticity_multiplier: t as u128,
    };
    assert!(matches!(
        state.process_flashblock(flashblock(1, 0, Some(10)), wide),
        Err(ProcessError::Params(_))
    ));
    assert_eq!((MIN_BACKOFF_DELAY, MAX_BACKOFF_DELAY), (20, 200));
}

fn checkpoint(transactions: Vec<Recovered>, gas: u64, state: Option<u8>) -> Checkpoint<Changes> {
    let n = transactions.len();
    let result = || ExecutionResult { success: true, gas_used: gas, logs: vec![] };
    Checkpoint {
        transactions,
        results: Some((0..n).map(|_| result()).collect()),
        state: state.map(changes),
        deposit_nonces: (0..n).map(|i| Some(i as u64)).collect(),
        is_bundle: n > 1,
    }
}

/// The changes that a payload goes on from: those of the payload before, or the block's own.
fn first(previous: Option<&Changes>) -> Changes {
    changes(previous.map_or(100, |p| p.changes))
}

fn extend(so_far: Changes, more: &Changes) -> Changes {
    changes(so_far.changes + more.changes)
}

fn job() -> JobInfo {
    JobInfo {
        parent_beacon_block_root: None,
        parent_hash: [2; 32],
        coinbase: [3; 20],
        prev_randao: [4; 32],
        number: 5,
        gas_limit: None,
        parent_gas_limit: 60,
        timestamp: 70,
        extra_data: vec![8],
        base_fee: 10,
    }
}

#[test]
fn a_payload_job() {
    let mut step = PublishFlashblock::new(state());
    assert_eq!(step.before_job(job(), 1_000), None);
    let base = step.block_base.clone().unwrap();
    assert_eq!(base.parent_beacon_block_root, [0; 32]);
    assert_eq!((base.gas_limit, base.timestamp, base.block_number), (60, 70, 5));
    assert_eq!(base.base_fee_per_gas, word(10));
    assert_eq!((base.parent_hash, base.fee_recipient, base.prev_randao), ([2; 32], [3; 20], [4; 32]));
    assert_eq!(base.extra_data, vec![8]);

    // The sequencer's transactions stand before a barrier, and are published all the same.
    let mut history = PayloadHistory {
        checkpoints: vec![
            checkpoint(vec![deposit(1)], 7, Some(1)),
            checkpoint(vec![paying(1), paying(2)], 5, Some(2)),
        ],
        barrier: 1,
        context: Some(WorldContext::empty()),
    };
    let span = step.execute_span(&history, 10, true, first, extend);
    assert_eq!(span.bundle, changes(100 + 1 + 2));
    assert_eq!(span.totals.cumulative_gas_used, 17);
    assert_eq!(span.totals.fees, word(30));
    let totals = span.totals;
    let payload = Arc::new(PublishFlashblock::build_op_built_payload(
        &history,
        [1; 8],
        U256 { limbs: [0, 1, 0, 0] },
        env(),
        forks(),
        roots(),
        totals,
        changes(12),
    ));
    let bundle = &payload.executed_block.as_ref().unwrap().bundle;
    assert_eq!((bundle.changes, bundle.reverts.len()), (12, 1));
    assert_eq!(payload.block.block_access_list, None);
    assert_eq!(payload.block.header.block_access_list_hash, None);
    assert_eq!(payload.block.header.number, u64::MAX);
    assert_eq!(payload.block.header.gas_used, 17);
    assert_eq!(payload.block.transactions.len(), 3);
    match step.step(&history, Arc::clone(&payload), [1; 8], b"{}", 50, 1_500) {
        StepOutcome::Published { context, intervals, metrics } => {
            assert_eq!(context.maybe_built_payload, Some(Arc::clone(&payload)));
            assert_eq!(intervals.time_to_first_block, Some(500));
            assert_eq!(intervals.inter_block_interval, None);
            assert_eq!((metrics.txs, metrics.bundles), (3, 1));
            history.context = Some(context);
        }
        StepOutcome::NotPublished(_) => panic!("is published"),
    }
    let f = step.p2p.flashblocks_state.last().flashblock;
    assert_eq!((f.index, f.payload_id), (0, [1; 8]));
    assert_eq!(f.base, Some(base.clone()));
    assert_eq!(f.diff.transactions, vec![deposit_bytes(1), vec![2, 1], vec![2, 2]]);
    assert_eq!(f.diff.block_hash, payload.block.hash);
    assert_eq!((f.diff.state_root, f.diff.receipts_root), ([11; 32], [12; 32]));
    assert_eq!((f.diff.gas_used, f.diff.withdrawals_root), (17, [13; 32]));
    assert_eq!(f.diff.logs_bloom, payload.block.header.logs_bloom);
    assert!(f.diff.withdrawals.is_empty());
    assert_eq!(f.metadata.fees, word(30));
    assert_eq!(f.metadata.flashblock_timestamp, Some(50));

    // The next flashblock goes on from there, with what came since the barrier.
    history.barrier = 2;
    history.checkpoints.push(checkpoint(vec![paying(3)], 4, Some(3)));
    history.checkpoints.push(checkpoint(vec![paying(4)], 4, None));
    let mut unexecuted = checkpoint(vec![paying(5)], 4, Some(5));
    unexecuted.results = None;
    history.checkpoints.push(unexecuted);
    let span = step.execute_span(&history, 10, true, first, extend);
    assert_eq!(span.bundle, changes(12 + 3 + 5));
    assert_eq!(span.totals.cumulative_gas_used, 21);
    assert_eq!(span.totals.fees, word(42));
    let gas: Vec<u64> = span.totals.receipts.iter().map(|r| r.cumulative_gas_used).collect();
    assert_eq!(gas, vec![7, 12, 17, 21]);
    let payload = Arc::new(PublishFlashblock::build_op_built_payload(
        &history,
        [1; 8],
        word(5),
        env(),
        forks(),
        roots(),
        span.totals,
        changes(13),
    ));
    assert_eq!(payload.block.header.number, 5);
    assert_eq!(payload.block.transactions.len(), 6);
    let block = payload.block.clone();
    match step.step(&history, payload, [1; 8], b"{}", 51, 1_700) {
        StepOutcome::Published { intervals, metrics, .. } => {
            assert_eq!(
                intervals,
                BlockIntervals {
                    inter_block_interval: None,
                    time_to_first_block: None,
                    intra_block_interval: Some(200),
                }
            );
            assert_eq!((metrics.txs, metrics.bundles), (3, 0));
        }
        StepOutcome::NotPublished(_) => panic!("is published"),
    }
    let f = step.p2p.flashblocks_state.last().flashblock;
    assert_eq!(f.index, 1);
    assert_eq!(f.diff.transactions, vec![vec![2, 3], vec![2, 4], vec![2, 5]]);
    // The flashblocks carry the transactions of the block together.
    let all = Flashblock::reduce(step.p2p.flashblocks_state.flashblocks()).unwrap().flashblock;
    let encoded: Vec<Vec<u8>> = block.transactions.iter().map(|tx| tx.encoded.clone()).collect();
    assert_eq!(all.diff.transactions, encoded);
    assert_eq!((all.diff.block_hash, all.diff.gas_used), (block.hash, 21));
    assert_eq!((all.metadata.fees, all.base), (word(42), Some(base)));
    // They were handed on in order, though their timestamps differ.
    let handle = step.p2p.flashblocks_state.p2p_handle();
    let indices: Vec<u64> = handle.flashblocks_tx().iter().map(|f| f.index).collect();
    assert_eq!(indices, vec![0, 1]);

    assert_eq!(step.after_job(2_000), (Some(300), 2));
    assert_eq!((step.block_number, step.block_base.is_none()), (0, true));
    assert_eq!(step.before_job(job(), 2_100), Some(100));
}

#[test]
fn a_flashblock_that_is_not_published() {
    let mut step = PublishFlashblock::new(state());
    let history = PayloadHistory { checkpoints: vec![], barrier: 0, context: None };
    // Without a base the flashblock does not start a payload.
    assert!(matches!(
        step.step(&history, built(1), [1; 8], b"{}", 50, 1_500),
        StepOutcome::NotPublished(PushError::NewPayloadMissingBase)
    ));
    assert_eq!(step.block_number, 1);
    assert_eq!(step.times, Times::new());
    assert_eq!(step.p2p.flashblocks_state.latest_payload, None);
}

#[test]
fn times_of_jobs() {
    let mut times = Times::new();
    assert_eq!(times.on_job_started(10), None);
    assert_eq!(times.on_published_block(15).time_to_first_block, Some(5));
    assert_eq!(times.on_published_block(18).intra_block_interval, Some(3));
    assert_eq!(times.previous_block_at, Some(15));
    assert_eq!(times.on_job_ended(20), Some(2));
    assert_eq!(times.on_job_started(27), Some(7));
    let next = times.on_published_block(30);
    assert_eq!((next.inter_block_interval, next.time_to_first_block), (Some(12), Some(3)));
    // A clock that goes back measures nothing.
    assert_eq!(times.on_published_block(29).intra_block_interval, Some(0));
}

fn limits(gas_limit: u64, max_block_da: Option<u64>) -> Limits {
    Limits { gas_limit, max_block_da }
}

fn start(transactions: usize, limits: Limits) -> PrologueRun {
    let (run, action) = OptimismPrologue::begin(false, 0, 0, transactions, limits);
    assert_eq!(action, PrologueAction::Apply(0));
    run
}

fn applied(gas_used: u64, da_bytes_used: u64) -> PrologueEvent {
    PrologueEvent::Applied { gas_used, da_bytes_used }
}

#[test]
fn the_prologue() {
    let mut run = start(3, limits(10, Some(10)));
    assert_eq!(run.step(applied(5, 5)), PrologueAction::Apply(1));
    assert_eq!(run.step(applied(4, 3)), PrologueAction::Apply(2));
    assert_eq!(run.step(applied(1, 2)), PrologueAction::Barrier);
}

#[test]
fn where_the_prologue_begins() {
    let begin = |built, existing, depth, transactions| {
        OptimismPrologue::begin(built, existing, depth, transactions, limits(10, None)).1
    };
    assert_eq!(begin(true, 3, 1, 2), PrologueAction::Done);
    assert_eq!(
        begin(false, 3, 1, 2),
        PrologueAction::Fail(OptimismPrologueError::TransactionsNotEmpty(3))
    );
    assert_eq!(begin(false, 0, 1, 2), PrologueAction::Apply(0));
    assert_eq!(begin(false, 0, 1, 0), PrologueAction::Barrier);
    assert_eq!(begin(false, 0, 0, 0), PrologueAction::Done);
}

#[test]
fn a_prologue_that_fails() {
    let mut run = start(3, limits(10, Some(10)));
    assert_eq!(run.step(applied(10, 10)), PrologueAction::Apply(1));
    assert_eq!(
        run.step(applied(1, 1)),
        PrologueAction::Fail(OptimismPrologueError::GasLimit(11, 10))
    );
    assert_eq!(
        start(1, limits(10, Some(10))).step(applied(1, 11)),
        PrologueAction::Fail(OptimismPrologueError::DataAvailability(11, 10))
    );
    let mut run = start(2, limits(10, None));
    assert_eq!(run.step(applied(10, u64::MAX)), PrologueAction::Apply(1));
    assert_eq!(
        run.step(PrologueEvent::Rejected),
        PrologueAction::Fail(OptimismPrologueError::TransactionExecution(1))
    );
}

fn flashblocks(list: Vec<FlashblocksPayloadV1>) -> Flashblocks {
    let list = list.into_iter().map(|flashblock| Flashblock { flashblock }).collect();
    match Flashblocks::new(list) {
        Ok(f) => f,
        Err(_) => panic!("a payload"),
    }
}

#[test]
fn going_on_from_preconfirmations() {
    let known = || flashblocks(vec![flashblock(1, 0, Some(10)), flashblock(1, 1, None)]);
    assert!(matches!(FetchPreState::step::<u8>(known(), [2; 8]), Ok(None)));
    match FetchPreState::step::<u8>(known(), [1; 8]) {
        Ok(Some(context)) => {
            let payload = context.maybe_built_payload.unwrap();
            assert_eq!(payload.id, [1; 8]);
            assert_eq!(payload.fees, word(21));
            assert!(payload.executed_block.is_none());
            assert_eq!(payload.block.transactions, vec![deposit(0).tx, deposit(1).tx]);
            assert_eq!(payload.block.header.gas_used, 1);
            assert_eq!(payload.block.header.base_fee_per_gas, Some(10));
        }
        _ => panic!("a payload"),
    }
    let mut garbled = flashblock(1, 0, Some(10));
    garbled.diff.transactions = vec![vec![1]];
    assert!(matches!(
        FetchPreState::step::<u8>(flashblocks(vec![garbled]), [1; 8]),
        Err(BlockError::Decode(_))
    ));
}

#[test]
fn the_final_payload() {
    let context = WorldContext::new(built(1));
    match WorldChain::build_payload(Some(&context)) {
        FinalPayload::Built(payload) => assert_eq!(payload, built(1)),
        FinalPayload::Vanilla => panic!("the built payload"),
    }
    assert!(matches!(
        WorldChain::build_payload(Some(&WorldContext::<Changes>::empty())),
        FinalPayload::Vanilla
    ));
    assert!(matches!(WorldChain::build_payload::<Changes>(None), FinalPayload::Vanilla));
    assert_eq!(WorldChain::default(), WorldChain);
}

#[test]
fn transactions_beside_the_sequencers() {
    let history = || vec![paying(1), paying(2), paying(3)];
    let left = |hashes: Vec<u8>| {
        let hashes = hashes.into_iter().map(|h| [h; 32]).collect();
        platform::extract_external_txs(&history(), &hashes)
    };
    assert_eq!(left(vec![]), history());
    assert_eq!(left(vec![1, 2]), vec![paying(3)]);
    assert_eq!(left(vec![1, 2, 3, 4]), vec![]);
    assert_eq!(left(vec![4, 2]), vec![paying(1), paying(3)]);
}

#[test]
fn contexts_are_compared_by_their_block() {
    let one = WorldContext::new(built(1));
    let mut other = assembly::assemble_payload(
        [2; 8],
        env(),
        forks(),
        roots(),
        vec![],
        Totals::new(),
        None,
        changes(9),
    );
    other.fees = word(3);
    assert!(one == WorldContext::new(Arc::new(other)));
    let mut later = env();
    later.timestamp += 1;
    let later = assembly::assemble_payload(
        [1; 8],
        later,
        forks(),
        roots(),
        vec![],
        Totals::new(),
        None,
        changes(1),
    );
    assert!(one != WorldContext::new(Arc::new(later)));
    assert!(one != WorldContext::empty());
    assert!(WorldContext::empty() != one);
    assert!(WorldContext::<u8>::empty() == WorldContext::empty());
}

fn args(disable_txpool_gossip: bool) -> WorldChainArgs {
    WorldChainArgs {
        rollup: RollupArgs {
            sequencer: Some("http://sequencer".to_string()),
            sequencer_headers: vec!["a: b".to_string()],
            disable_txpool_gossip,
            compute_pending_block: true,
            discovery_v4: false,
            enable_tx_conditional: true,
            min_suggested_priority_fee: 9,
            historical_rpc: None,
        },
        flashblocks: Some(FlashblocksArgs::default()),
        tx_peers: Some(vec![[1; 64]]),
    }
}

#[test]
fn configuration() {
    assert_eq!(args(false).into_config().args, args(false));
    let quiet = args(true).into_config();
    assert_eq!(quiet.args.tx_peers, None);
    assert_eq!(quiet.args.rollup, args(true).rollup);
    let defaults = FlashblocksArgs::default();
    assert!(!defaults.enabled);
    assert_eq!((defaults.flashblocks_interval, defaults.recommit_interval), (200, 200));
}

#[test]
fn a_node() {
    let node = FlashblocksNode::<Changes>::new(args(false).into_config());
    assert_eq!(node.flashblocks_state(), Some(&state()));
    let components = node.components_builder();
    assert!(!components.disable_txpool_gossip);
    assert!(components.disable_discovery_v4);
    assert!(components.compute_pending_block);
    let add_ons = node.add_ons_builder();
    assert_eq!(add_ons.sequencer.as_deref(), Some("http://sequencer"));
    assert_eq!(add_ons.sequencer_headers.len(), 1);
    assert!(add_ons.enable_tx_conditional);
    assert_eq!(add_ons.min_suggested_priority_fee, 9);
    assert_eq!(add_ons.historical_rpc, &None);
}

#[test]
fn what_a_payload_is_built_with() {
    let ctx = OpPayloadBuilderCtxBuilder::default().build('s', 'e', 'b', 'c', 'k', Some('p'));
    assert_eq!((ctx.chain_spec, ctx.evm_config, ctx.builder_config), ('s', 'e', 'b'));
    assert_eq!((ctx.config, ctx.cancel, ctx.best_payload), ('c', 'k', Some('p')));
}
