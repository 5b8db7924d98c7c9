//! Building payloads, and what they are built from.
use alloy_eip7928::bal::Bal as AccessList;
use alloy_eip7928::{
    AccountChanges, BalanceChange, CodeChange, NonceChange, SlotChanges, StorageChange,
    compute_block_access_list_hash,
};
use alloy_evm::revm::state::Bytecode;
use alloy_evm::revm::state::bal::{AccountBal, AccountInfoBal, Bal, BalWrites, StorageBal};
use alloy_primitives::{Address, U256 as Word};
use rblib_world_chain::assembly::{self, BlockEnv, Hardforks, Roots};
use rblib_world_chain::bal;
use rblib_world_chain::block::{EMPTY_REQUESTS_HASH, EMPTY_WITHDRAWALS, Header, SealedBlock};
use rblib_world_chain::flashblocks::block_builder::{
    BlockAssemblerInput, FlashblocksBlockBuilder, OpNextBlockEnvAttributes,
};
use rblib_world_chain::flashblocks::block_executor::{
    FlashblocksBlockExecutor, FlashblocksBlockExecutorFactory,
};
use rblib_world_chain::flashblocks::builder::{
    self, BuildError, BuildOutcomeKind, EvmEnv, FlashblockBuilder, ParallelResult, ParentHeader,
};
use rblib_world_chain::flashblocks::primitives::ZERO_HASH;
use rblib_world_chain::holocene::{self, BaseFeeParams, HoloceneError};
use rblib_world_chain::num::U256;
use rblib_world_chain::payload::{ExecutedBlock, OpBuiltPayload, OpPayloadBuilderAttributes};
use rblib_world_chain::receipt::{self, ExecutionResult, Log, OpReceipt};
use rblib_world_chain::reverts::{
    self, AccountInfoRevert, AccountRevert, BundleState, RevertToSlot,
};
use rblib_world_chain::totals::Totals;
use rblib_world_chain::transaction::{OpTxType, Recovered, Transaction};

fn word(n: u64) -> U256 {
    U256::from_u64(n)
}

#[test]
fn words() {
    assert_eq!(U256::from_u128(u128::MAX).limbs, [u64::MAX, u64::MAX, 0, 0]);
    assert_eq!(word(5).to_u64(), 5);
    let big = U256 { limbs: [1, 1, 0, 0] };
    assert_eq!(big.try_to_u64(), None);
    assert_eq!(big.saturating_to_u64(), u64::MAX);
    assert_eq!(word(6).try_to_u64(), Some(6));
    assert_eq!(word(6).saturating_to_u64(), 6);
    assert!(word(6).equals(word(6)));
    assert!(!word(6).equals(big));
}

fn revert(info: AccountInfoRevert<u8>, status: u8, slots: &[(u64, u64)]) -> AccountRevert<u8, u8> {
    AccountRevert {
        account: info,
        storage: slots.iter().map(|(s, v)| (word(*s), RevertToSlot::Value(word(*v)))).collect(),
        previous_status: status,
        wipe_storage: false,
    }
}

/// The reverts of two transitions, of which both change the first account.
fn two_reverts() -> Vec<Vec<([u8; 20], AccountRevert<u8, u8>)>> {
    let first = revert(AccountInfoRevert::RevertTo(1), 1, &[(1, 10)]);
    let again = revert(AccountInfoRevert::RevertTo(2), 2, &[(1, 20), (2, 21)]);
    let other = revert(AccountInfoRevert::DeleteIt, 3, &[]);
    vec![vec![([1; 20], first)], vec![([1; 20], again), ([2; 20], other)]]
}

#[test]
fn reverts_are_flattened() {
    let a = [1u8; 20];
    let b = [2u8; 20];
    let mut wiping = revert(AccountInfoRevert::DeleteIt, 3, &[(1, 30), (2, 31)]);
    wiping.wipe_storage = true;
    let all = vec![
        vec![(a, revert(AccountInfoRevert::DoNothing, 1, &[(1, 10)]))],
        vec![
            (b, revert(AccountInfoRevert::RevertTo(7), 2, &[])),
            (a, revert(AccountInfoRevert::RevertTo(8), 9, &[(1, 20), (3, 21)])),
        ],
        vec![],
        vec![(a, wiping)],
    ];
    let flat = reverts::flatten_reverts(all);
    assert_eq!(flat.len(), 1);
    let mut expected = revert(AccountInfoRevert::RevertTo(8), 1, &[(1, 10), (3, 21), (2, 31)]);
    expected.wipe_storage = true;
    assert_eq!(
        flat[0],
        vec![(a, expected), (b, revert(AccountInfoRevert::RevertTo(7), 2, &[]))]
    );
}

#[test]
fn flattening_twice_changes_nothing() {
    let make = || {
        vec![
            vec![([1u8; 20], revert(AccountInfoRevert::DoNothing, 1, &[(1, 10)]))],
            vec![([1u8; 20], revert(AccountInfoRevert::DeleteIt, 2, &[(2, 20)]))],
        ]
    };
    let once = reverts::flatten_reverts(make());
    let twice = reverts::flatten_reverts(reverts::flatten_reverts(make()));
    assert_eq!(once, twice);
    assert_eq!(reverts::flatten_reverts(Vec::<Vec<([u8; 20], AccountRevert<u8, u8>)>>::new()).len(), 1);
}

fn params(denominator: u128, elasticity: u128) -> BaseFeeParams {
    BaseFeeParams { max_change_denominator: denominator, elasticity_multiplier: elasticity }
}

#[test]
fn extra_data_since_holocene() {
    let given = Some([0, 0, 0, 8, 0, 0, 0, 9]);
    assert_eq!(
        holocene::get_holocene_extra_data(given, params(80, 60)).ok(),
        Some(vec![0, 0, 0, 0, 8, 0, 0, 0, 9])
    );
    assert_eq!(
        holocene::get_holocene_extra_data(Some([0; 8]), params(0x01020304, 60)).ok(),
        Some(vec![0, 1, 2, 3, 4, 0, 0, 0, 60])
    );
    assert!(matches!(
        holocene::get_holocene_extra_data(None, params(80, 60)),
        Err(HoloceneError::NoParams)
    ));
    assert!(matches!(
        holocene::get_holocene_extra_data(Some([0; 8]), params(1 << 32, 60)),
        Err(HoloceneError::Params(_))
    ));
    assert!(matches!(
        holocene::get_holocene_extra_data(Some([0; 8]), params(1, 1 << 32)),
        Err(HoloceneError::Params(_))
    ));
    assert!(holocene::get_holocene_extra_data(given, params(1 << 32, 1)).is_ok());
    assert_eq!(holocene::default_params(params(250, 6)).ok(), Some([0, 0, 0, 250, 0, 0, 0, 6]));
    assert!(matches!(holocene::default_params(params(1 << 40, 6)), Err(HoloceneError::Params(_))));
}

fn deposit(from: u8) -> Transaction {
    let tx = op_alloy_consensus::TxDeposit {
        from: alloy_primitives::Address::repeat_byte(from),
        ..Default::default()
    };
    let bytes = alloy_eips::eip2718::Encodable2718::encoded_2718(
        &op_alloy_consensus::OpTxEnvelope::from(tx),
    );
    match Transaction::decode_2718_exact(&bytes) {
        Ok(tx) => tx,
        Err(_) => panic!("decodes"),
    }
}

fn paying(max_fee: u128, limit: Option<u128>) -> Transaction {
    Transaction {
        tx_type: OpTxType::Eip1559,
        hash: [9; 32],
        encoded: vec![2, 9],
        max_fee_per_gas: max_fee,
        max_priority_fee_per_gas: limit,
    }
}

fn log(n: u8) -> Log {
    Log { address: [n; 20], topics: vec![], data: vec![n] }
}

fn result(gas_used: u64) -> ExecutionResult {
    ExecutionResult { success: true, gas_used, logs: vec![log(gas_used as u8)] }
}

#[test]
fn totals_of_transactions() {
    let mut totals = Totals::new();
    totals.add_transaction(&deposit(1), result(10), Some(3), 5, true);
    assert_eq!(totals.fees, word(0));
    totals.add_transaction(&paying(25, Some(4)), result(20), None, 5, true);
    assert_eq!(totals.fees, word(80));
    totals.add_transaction(&paying(6, Some(4)), result(30), None, 5, true);
    assert_eq!(totals.fees, word(110));
    assert_eq!(totals.cumulative_gas_used, 60);
    let gas: Vec<u64> = totals.receipts.iter().map(|r| r.cumulative_gas_used).collect();
    assert_eq!(gas, vec![10, 30, 60]);
    assert_eq!(totals.receipts[0].deposit_nonce, Some(3));
    assert_eq!(totals.receipts[0].deposit_receipt_version, Some(1));
    assert_eq!(totals.receipts[1].deposit_nonce, None);
}

#[test]
fn fees_wrap_around() {
    let mut totals = Totals::new();
    totals.fees = U256 { limbs: [u64::MAX; 4] };
    totals.add_transaction(&paying(7, None), result(3), None, 5, false);
    assert_eq!(totals.fees, word(5));
    // A fee that takes more than 128 bits.
    let mut totals = Totals::new();
    totals.add_transaction(&paying(u128::MAX, None), result(u64::MAX), None, 0, false);
    assert_eq!(totals.fees, U256 { limbs: [1, u64::MAX, u64::MAX - 1, 0] });
}

fn env() -> BlockEnv {
    BlockEnv {
        parent_hash: [1; 32],
        number: 2,
        beneficiary: [3; 20],
        timestamp: 4,
        gas_limit: 5,
        basefee: 6,
        difficulty: word(7),
        prevrandao: None,
        extra_data: vec![8],
        parent_beacon_block_root: Some([9; 32]),
        da_footprint: Some(10),
    }
}

fn roots() -> Roots {
    Roots {
        state_root: [11; 32],
        receipts_root: [12; 32],
        message_passer_root: [13; 32],
    }
}

fn forks(n: u8) -> Hardforks {
    // The upgrades in the order in which they came.
    Hardforks { canyon: n > 0, ecotone: n > 1, holocene: n > 2, isthmus: n > 3, jovian: n > 4 }
}

#[test]
fn a_block_is_put_together() {
    let mut totals = Totals::new();
    totals.add_transaction(&deposit(1), result(10), None, 6, true);
    let bloom = receipt::logs_bloom(&totals.receipts);
    let built = assembly::assemble_payload(
        [1; 8],
        env(),
        forks(5),
        roots(),
        vec![deposit(1)],
        totals,
        Some(AccessList::default()),
        'b',
    );
    assert_eq!(built.id, [1; 8]);
    assert_eq!(built.fees, word(0));
    let header = &built.block.header;
    assert_eq!(header.parent_hash, [1; 32]);
    assert_eq!(header.number, 2);
    assert_eq!(header.beneficiary, [3; 20]);
    assert_eq!(header.timestamp, 4);
    assert_eq!(header.gas_limit, 5);
    assert_eq!(header.gas_used, 10);
    assert_eq!(header.base_fee_per_gas, Some(6));
    assert_eq!(header.difficulty, word(7));
    assert_eq!(header.mix_hash, ZERO_HASH);
    assert_eq!(header.extra_data, vec![8]);
    assert_eq!(header.parent_beacon_block_root, Some([9; 32]));
    assert_eq!(header.state_root, [11; 32]);
    assert_eq!(header.receipts_root, [12; 32]);
    assert_eq!(header.withdrawals_root, Some([13; 32]));
    assert_eq!(header.block_access_list_hash, Some(compute_block_access_list_hash(&[]).0));
    assert_eq!(built.block.block_access_list, Some(AccessList::default()));
    assert_eq!(header.requests_hash, Some(EMPTY_REQUESTS_HASH));
    assert_eq!((header.blob_gas_used, header.excess_blob_gas), (Some(10), Some(0)));
    assert_eq!(header.logs_bloom, bloom);
    assert_eq!(built.block.withdrawals, Some(vec![]));
    let executed = built.executed_block.unwrap();
    assert_eq!(executed.bundle, 'b');
    assert_eq!(executed.receipts.len(), 1);
    assert_eq!(executed.receipts[0].len(), 1);
}

#[test]
fn the_header_depends_on_the_upgrades() {
    let header = |n| {
        let totals = Totals::new();
        assembly::assemble_payload([1; 8], env(), forks(n), roots(), vec![], totals, None, ())
            .block
            .header
    };
    assert_eq!(header(5).block_access_list_hash, None);
    assert_eq!(header(0).withdrawals_root, None);
    assert_eq!(header(1).withdrawals_root, Some(EMPTY_WITHDRAWALS));
    assert_eq!(header(3).withdrawals_root, Some(EMPTY_WITHDRAWALS));
    assert_eq!(header(4).withdrawals_root, Some([13; 32]));
    assert_eq!(header(3).requests_hash, None);
    assert_eq!(header(4).requests_hash, Some(EMPTY_REQUESTS_HASH));
    assert_eq!((header(1).blob_gas_used, header(1).excess_blob_gas), (None, None));
    assert_eq!((header(4).blob_gas_used, header(4).excess_blob_gas), (Some(0), Some(0)));
    assert_eq!(header(5).blob_gas_used, Some(10));
}

fn attributes(transactions: Vec<Transaction>) -> OpPayloadBuilderAttributes {
    OpPayloadBuilderAttributes {
        id: [1; 8],
        parent: [2; 32],
        timestamp: 3,
        suggested_fee_recipient: [4; 20],
        prev_randao: [5; 32],
        withdrawals: vec![],
        parent_beacon_block_root: Some([6; 32]),
        no_tx_pool: true,
        transactions,
        gas_limit: None,
        eip_1559_params: None,
        min_base_fee: None,
    }
}

fn parent() -> ParentHeader {
    ParentHeader { hash: [7; 32], number: 8, gas_limit: 9 }
}

fn evm() -> EvmEnv {
    EvmEnv { beneficiary: [10; 20], basefee: 11, difficulty: word(0), prevrandao: Some([12; 32]) }
}

fn parallel(
    index: u64,
    tx: Recovered,
    gas: u64,
    bal: Option<Bal>,
) -> ParallelResult<Vec<u64>> {
    ParallelResult {
        index,
        bundle_state: vec![index],
        exec_result: result(gas),
        tx,
        deposit_nonce: Some(index),
        bal,
    }
}

fn code(bytes: Vec<u8>) -> (alloy_primitives::B256, Bytecode) {
    let code = Bytecode::new_raw(bytes.into());
    (code.hash_slow(), code)
}

fn access(account: u8, slot: u64, index: u64) -> (Address, AccountBal) {
    let account_info = AccountInfoBal {
        nonce: BalWrites::new(vec![(index, index)]),
        balance: BalWrites::new(vec![]),
        code: BalWrites::new(vec![(index, code(vec![1]))]),
    };
    let writes = BalWrites::new(vec![(index, Word::from(index))]);
    let storage = StorageBal::from_iter([(Word::from(slot), writes)]);
    (Address::repeat_byte(account), AccountBal { account_info, storage })
}

/// Changes to the state that remember the transactions that made them.
fn extend(mut changes: Vec<u64>, more: &Vec<u64>) -> Vec<u64> {
    changes.extend(more);
    changes
}

#[test]
fn a_payload_from_the_start() {
    let mut builder = match FlashblockBuilder::new::<u64>(None) {
        Ok(b) => b,
        Err(_) => panic!("builds"),
    };
    let attributes = attributes(vec![deposit(1), deposit(2)]);
    // The attributes rule out the pool.
    let plan = match builder.plan(&attributes, vec![deposit(9).try_into_recovered().unwrap()]) {
        Ok(plan) => plan,
        Err(_) => panic!("plans"),
    };
    assert!(plan.apply_pre_execution_changes);
    let indices: Vec<u64> = plan.transactions.iter().map(|t| t.0).collect();
    assert_eq!(indices, vec![1, 2]);
    assert_eq!(plan.transactions[1].1.signer, [2; 20]);
    // The results come in out of order.
    let mut results = Vec::new();
    for (index, tx) in plan.transactions.into_iter().rev() {
        let bal = Bal::from_iter([access(5, 1, index), access(index as u8, 9, index)]);
        results.push(parallel(index, tx, index * 10, Some(bal)));
    }
    let (changed, bal) = builder.collect(results, 11, true, vec![7], extend);
    assert_eq!(changed, vec![7, 1, 2]);
    let accounts: Vec<u8> = bal.accounts.keys().map(|a| a[0]).collect();
    assert_eq!(accounts, vec![5, 1, 2]);
    let shared = &bal.accounts[0];
    assert_eq!(shared.account_info.nonce.writes, vec![(1, 1), (2, 2)]);
    assert_eq!(shared.account_info.code.writes, vec![(1, code(vec![1])), (2, code(vec![1]))]);
    assert_eq!(
        shared.storage.storage[&Word::from(1)].writes,
        vec![(1, Word::from(1)), (2, Word::from(2))]
    );
    let listed = bal.clone().into_alloy_bal();
    assert_eq!(builder.totals.cumulative_gas_used, 30);
    assert_eq!(builder.totals.receipts[1].deposit_nonce, Some(2));
    let changes = BundleState { reverts: two_reverts(), changes: 'c' };
    let outcome =
        builder.build(&attributes, parent(), evm(), vec![1], forks(5), roots(), bal, changes);
    let payload = match outcome {
        BuildOutcomeKind::Freeze(payload) => payload,
        _ => panic!("without the pool the payload is final"),
    };
    let header = &payload.block.header;
    assert_eq!((header.number, header.parent_hash), (9, [7; 32]));
    assert_eq!(header.gas_limit, 0);
    assert_eq!(header.gas_used, 30);
    assert_eq!(header.timestamp, 3);
    assert_eq!(header.beneficiary, [10; 20]);
    assert_eq!(header.base_fee_per_gas, Some(11));
    assert_eq!(header.mix_hash, [12; 32]);
    assert_eq!(header.blob_gas_used, Some(0));
    let list = payload.block.block_access_list.as_ref().unwrap();
    assert_eq!(list.as_slice(), listed);
    assert_eq!(list.iter().map(|a| a.address[0]).collect::<Vec<u8>>(), vec![1, 2, 5]);
    assert_eq!(header.block_access_list_hash, Some(compute_block_access_list_hash(&listed).0));
    assert_eq!(payload.block.transactions, vec![deposit(1), deposit(2)]);
    // The changes to the state are reverted in a single transition.
    let bundle = payload.executed_block.unwrap().bundle;
    assert_eq!(bundle.changes, 'c');
    assert_eq!(bundle.reverts, reverts::flatten_reverts(two_reverts()));
    assert_eq!(bundle.reverts.len(), 1);
    assert_eq!(bundle.reverts[0].len(), 2);
}

fn committed() -> OpBuiltPayload<u64> {
    let mut totals = Totals::new();
    totals.add_transaction(&deposit(1), result(10), Some(1), 11, true);
    totals.fees = word(33);
    assembly::assemble_payload(
        [1; 8],
        env(),
        forks(5),
        roots(),
        vec![deposit(1)],
        totals,
        None,
        77,
    )
}

#[test]
fn a_payload_on_top_of_another() {
    let before = committed();
    let mut builder = match FlashblockBuilder::new(Some(&before)) {
        Ok(b) => b,
        Err(_) => panic!("builds"),
    };
    assert_eq!(builder.gas_used, Some(10));
    let mut attributes = attributes(vec![deposit(2)]);
    attributes.no_tx_pool = false;
    attributes.gas_limit = Some(1_000);
    let pool = vec![deposit(3).try_into_recovered().unwrap()];
    let plan = match builder.plan(&attributes, pool) {
        Ok(plan) => plan,
        Err(_) => panic!("plans"),
    };
    assert!(!plan.apply_pre_execution_changes);
    let indices: Vec<u64> = plan.transactions.iter().map(|t| t.0).collect();
    assert_eq!(indices, vec![2, 3]);
    let results =
        plan.transactions.into_iter().map(|(index, tx)| parallel(index, tx, 5, None)).collect();
    let (changed, bal) = builder.collect(results, 11, true, vec![], extend);
    assert_eq!(changed, vec![2, 3]);
    assert!(bal.accounts.is_empty());
    let changes = BundleState::<u8, u8, u64> { reverts: vec![], changes: 1 };
    let outcome =
        builder.build(&attributes, parent(), evm(), vec![], forks(5), roots(), bal, changes);
    let payload = match outcome {
        BuildOutcomeKind::Better { payload } => payload,
        _ => panic!("a better payload"),
    };
    assert_eq!(payload.block.transactions, vec![deposit(1), deposit(2), deposit(3)]);
    assert_eq!(payload.block.header.gas_used, 20);
    assert_eq!(payload.block.header.gas_limit, 1_000);
    assert_eq!(payload.fees, word(33));
    let receipts = &payload.executed_block.as_ref().unwrap().receipts;
    assert_eq!(receipts.len(), 1);
    let gas: Vec<u64> = receipts[0].iter().map(|r| r.cumulative_gas_used).collect();
    assert_eq!(gas, vec![10, 15, 20]);
    assert_eq!(payload.executed_block.unwrap().bundle.reverts, vec![vec![]]);
}

#[test]
fn payloads_that_cannot_be_built() {
    let mut unexecuted = committed();
    unexecuted.executed_block = None;
    assert!(matches!(
        FlashblockBuilder::new(Some(&unexecuted)),
        Err(BuildError::MissingPayload)
    ));
    let mut unsigned = committed();
    unsigned.block.transactions.push(paying(1, None));
    assert!(matches!(FlashblockBuilder::new(Some(&unsigned)), Err(BuildError::Recovery)));
    let mut builder = match FlashblockBuilder::new::<u64>(None) {
        Ok(b) => b,
        Err(_) => panic!("builds"),
    };
    assert!(matches!(
        builder.plan(&attributes(vec![paying(1, None)]), vec![]),
        Err(BuildError::Recovery)
    ));
}

#[test]
fn receipts_of_several_blocks_are_taken_together() {
    let mut before = committed();
    let executed = before.executed_block.unwrap();
    let again = executed.receipts[0].clone();
    before.executed_block = Some(ExecutedBlock {
        bundle: executed.bundle,
        receipts: vec![executed.receipts[0].clone(), vec![], again],
    });
    match FlashblockBuilder::new(Some(&before)) {
        Ok(b) => assert_eq!(b.totals.receipts.len(), 2),
        Err(_) => panic!("builds"),
    }
}

#[test]
fn results_are_sorted_by_index() {
    let tx = || deposit(1).try_into_recovered().unwrap();
    let results = vec![
        parallel(5, tx(), 0, None),
        parallel(1, tx(), 0, None),
        parallel(3, tx(), 0, None),
        parallel(2, tx(), 0, None),
    ];
    let sorted: Vec<u64> =
        builder::sort_results(results).iter().map(|r| r.index).collect();
    assert_eq!(sorted, vec![1, 2, 3, 5]);
}

fn receipts() -> Vec<OpReceipt> {
    vec![receipt::build_receipt(OpTxType::Legacy, result(4), 4, None, true)]
}

#[test]
fn the_block_that_execution_starts_with() {
    let tx = deposit(1).try_into_recovered().unwrap();
    let default = params(250, 6);
    let make = |attributes: &OpPayloadBuilderAttributes, n: u8, gas: Option<u64>| {
        FlashblockBuilder::block_builder(
            attributes,
            parent(),
            forks(n),
            default,
            vec![tx.clone()],
            receipts(),
            gas,
        )
    };
    let mut attributes = attributes(vec![]);
    let before_holocene = match make(&attributes, 2, Some(44)) {
        Ok(b) => b,
        Err(_) => panic!("a block"),
    };
    assert!(before_holocene.ctx.extra_data.is_empty());
    assert_eq!(before_holocene.ctx.gas_limit, 9);
    assert_eq!(before_holocene.ctx.timestamp, 3);
    assert_eq!(before_holocene.ctx.suggested_fee_recipient, [4; 20]);
    assert_eq!(before_holocene.ctx.prev_randao, [5; 32]);
    assert_eq!(before_holocene.ctx.parent_beacon_block_root, Some([6; 32]));
    assert_eq!(before_holocene.executor.gas_used, 44);
    assert_eq!(before_holocene.executor.receipts, receipts());
    assert_eq!(before_holocene.parent, parent());
    // The state is hashed behind the changes with their reverts in a single transition, and the
    // block is put together with its root.
    let state = |b: &BundleState<u8, u8, u8>| -> Result<([u8; 32], [u8; 32]), ()> {
        assert_eq!((b.changes, b.reverts.len()), (5, 1));
        Ok(([b.changes; 32], [77; 32]))
    };
    let assemble = |input: BlockAssemblerInput,
                    receipts_of: &Vec<OpReceipt>,
                    b: &BundleState<u8, u8, u8>|
     -> Result<SealedBlock, ()> {
        assert_eq!(input.parent, parent());
        assert_eq!((input.ctx.gas_limit, input.gas_used), (9, 44));
        assert_eq!(receipts_of, &receipts());
        assert_eq!(b.reverts.len(), 1);
        let header = Header { state_root: input.state_root, ..committed().block.header };
        Ok(SealedBlock::seal(header, input.transactions, None, None))
    };
    let changes = BundleState { reverts: two_reverts(), changes: 5 };
    let outcome = before_holocene.finish(changes, state, assemble).unwrap();
    assert_eq!(outcome.hashed_state, [5; 32]);
    assert_eq!(outcome.block.header.state_root, [77; 32]);
    assert_eq!(outcome.bundle.changes, 5);
    assert_eq!(outcome.bundle.reverts, reverts::flatten_reverts(two_reverts()));
    assert_eq!(outcome.bundle.reverts.len(), 1);
    assert_eq!(outcome.block.transactions, vec![deposit(1)]);
    assert_eq!(outcome.senders, vec![[1; 20]]);
    assert_eq!((outcome.receipts, outcome.gas_used), (receipts(), 44));
    assert!(matches!(
        make(&attributes, 3, None),
        Err(BuildError::ExtraData(HoloceneError::NoParams))
    ));
    attributes.eip_1559_params = Some([0; 8]);
    attributes.gas_limit = Some(123);
    match make(&attributes, 3, None) {
        Ok(b) => {
            assert_eq!(b.ctx.extra_data, vec![0, 0, 0, 0, 250, 0, 0, 0, 6]);
            assert_eq!(b.ctx.gas_limit, 123);
            assert_eq!(b.executor.gas_used, 0);
        }
        Err(_) => panic!("a block"),
    }
    assert!(matches!(
        FlashblockBuilder::block_builder(
            &attributes,
            parent(),
            forks(3),
            params(1 << 33, 1),
            vec![],
            vec![],
            None
        ),
        Err(BuildError::ExtraData(HoloceneError::Params(_)))
    ));
}

#[test]
fn executors() {
    let executor = FlashblocksBlockExecutor::new()
        .with_receipts(receipts())
        .with_receipts(receipts())
        .with_gas_used(3)
        .with_gas_used(4);
    assert_eq!((executor.receipts.len(), executor.gas_used), (2, 7));
    let mut factory = FlashblocksBlockExecutorFactory::new();
    assert_eq!(factory.create_executor().1, None);
    factory.set_pre_state('a');
    factory.set_pre_state('b');
    let (fresh, pre_state) = factory.create_executor();
    assert_eq!((fresh, pre_state), (FlashblocksBlockExecutor::new(), Some(&'b')));
    assert_eq!(factory.take_bundle(), Some('b'));
    assert_eq!(factory.take_bundle(), None);
}

#[test]
fn outcomes() {
    assert_eq!(BuildOutcomeKind::Better { payload: 1 }.into_payload(), Some(1));
    assert_eq!(BuildOutcomeKind::Freeze(2).into_payload(), Some(2));
    assert_eq!(BuildOutcomeKind::<u8>::Cancelled.into_payload(), None);
    assert_eq!(BuildOutcomeKind::<u8>::Aborted { fees: word(1) }.into_payload(), None);
}

#[test]
fn a_block_builder_keeps_what_it_is_given() {
    let header = Header { extra_data: vec![1], ..committed().block.header };
    let sealed = SealedBlock::seal(header, vec![], None, None);
    assert_eq!(sealed.header.extra_data, vec![1]);
    let other = match FlashblockBuilder::block_builder(
        &attributes(vec![]),
        parent(),
        forks(0),
        params(1, 1),
        vec![],
        vec![],
        None,
    ) {
        Ok(b) => b,
        Err(_) => panic!("a block"),
    };
    let ctx = OpNextBlockEnvAttributes {
        timestamp: 1,
        suggested_fee_recipient: [2; 20],
        prev_randao: [3; 32],
        gas_limit: 4,
        parent_beacon_block_root: None,
        extra_data: vec![5],
    };
    let builder =
        FlashblocksBlockBuilder::new(ctx, parent(), FlashblocksBlockExecutor::new(), vec![]);
    assert_eq!(builder.parent, parent());
    // What fails on the way fails the block.
    let changes = || BundleState::<u8, u8, ()> { reverts: vec![], changes: () };
    let assembled =
        |_: BlockAssemblerInput, _: &Vec<OpReceipt>, _: &BundleState<u8, u8, ()>| Err::<(), u8>(2);
    let failed = |_: &BundleState<u8, u8, ()>| Err::<((), [u8; 32]), u8>(1);
    assert_eq!(builder.finish(changes(), failed, assembled).err(), Some(1));
    let hashed = |_: &BundleState<u8, u8, ()>| Ok::<((), [u8; 32]), u8>(((), [0; 32]));
    assert_eq!(other.finish(changes(), hashed, assembled).err(), Some(2));
}

fn account(slots: Vec<(u64, Vec<(u64, Word)>)>) -> AccountBal {
    AccountBal {
        account_info: AccountInfoBal {
            nonce: BalWrites::new(vec![(1, 300), (2, 0)]),
            balance: BalWrites::new(vec![(3, Word::from(1_000))]),
            code: BalWrites::new(vec![(1, code(vec![0xfe; 60])), (2, code(vec![]))]),
        },
        storage: slots.into_iter().map(|(s, w)| (Word::from(s), BalWrites::new(w))).collect(),
    }
}

/// A block without transactions and this access list.
fn block_with(bal: Bal) -> SealedBlock {
    let builder = match FlashblockBuilder::new::<u8>(None) {
        Ok(b) => b,
        Err(_) => panic!("builds"),
    };
    let changes = BundleState::<u8, u8, ()> { reverts: vec![], changes: () };
    let attributes = attributes(vec![]);
    let outcome =
        builder.build(&attributes, parent(), evm(), vec![], forks(5), roots(), bal, changes);
    outcome.into_payload().unwrap().block
}

#[test]
fn the_access_list_of_a_block() {
    let big = Word::from_limbs([0, 0, 0, 1]);
    let slots = vec![
        (9, vec![]),
        (2, vec![(1, Word::ZERO), (2, big)]),
        (4, vec![]),
        (300, vec![(1, Word::from(7))]),
    ];
    let bal = Bal::from_iter([
        (Address::repeat_byte(7), account(slots)),
        (Address::repeat_byte(3), account(vec![])),
    ]);
    let changes = |address: u8| AccountChanges {
        address: Address::repeat_byte(address),
        storage_changes: vec![],
        storage_reads: vec![],
        balance_changes: vec![BalanceChange::new(3, Word::from(1_000))],
        nonce_changes: vec![NonceChange::new(1, 300), NonceChange::new(2, 0)],
        code_changes: vec![
            CodeChange::new(1, vec![0xfe; 60].into()),
            CodeChange::new(2, vec![].into()),
        ],
    };
    let mut second = changes(7);
    second.storage_changes = vec![
        SlotChanges::new(
            Word::from(2),
            vec![StorageChange::new(1, Word::ZERO), StorageChange::new(2, big)],
        ),
        SlotChanges::new(Word::from(300), vec![StorageChange::new(1, Word::from(7))]),
    ];
    second.storage_reads = vec![Word::from(4), Word::from(9)];
    let want = vec![changes(3), second];
    let block = block_with(bal);
    assert_eq!(block.block_access_list.as_ref().unwrap().as_slice(), want);
    assert_eq!(
        block.header.block_access_list_hash,
        Some(compute_block_access_list_hash(&want).0)
    );
    let empty = block_with(Bal::default());
    assert_eq!(
        empty.header.block_access_list_hash,
        Some(compute_block_access_list_hash(&[]).0)
    );
    // The order in which the accounts stand makes no difference.
    let ab = block_with(Bal::from_iter([access(1, 1, 1), access(2, 1, 1)]));
    let ba = block_with(Bal::from_iter([access(2, 1, 1), access(1, 1, 1)]));
    assert_eq!(ab.block_access_list, ba.block_access_list);
    assert_eq!(ab.header.block_access_list_hash, ba.header.block_access_list_hash);
}

#[test]
fn the_access_lists_of_an_account_are_joined() {
    let (_, mut first) = access(1, 1, 1);
    let (_, mut second) = access(1, 2, 2);
    second.storage.storage.insert(Word::from(1), BalWrites::new(vec![(2, Word::from(5))]));
    second.account_info.balance = BalWrites::new(vec![(2, Word::from(6))]);
    bal::extend_account(&mut first, &second);
    assert_eq!(first.account_info.nonce.writes, vec![(1, 1), (2, 2)]);
    assert_eq!(first.account_info.balance.writes, vec![(2, Word::from(6))]);
    assert_eq!(first.account_info.code.writes.len(), 2);
    assert_eq!(
        first.storage.storage[&Word::from(1)].writes,
        vec![(1, Word::from(1)), (2, Word::from(5))]
    );
    assert_eq!(first.storage.storage[&Word::from(2)].writes, vec![(2, Word::from(2))]);
}
