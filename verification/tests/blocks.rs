//! Transactions, receipts and blocks, and the flashblocks that they are made of.
use alloy_consensus::Transaction as _;
use alloy_eips::eip2718::Encodable2718 as _;
use alloy_primitives::{Address as AlloyAddress, TxKind};
use op_alloy_consensus::{OpTxEnvelope, TxDeposit};
use rblib_world_chain::block::{
    self, EMPTY_REQUESTS_HASH, EMPTY_WITHDRAWALS, Header, SealedBlock,
};
use rblib_world_chain::flashblocks::collection::{
    self, BlockError, Flashblock, Flashblocks, FlashblocksError, PushError,
};
use rblib_world_chain::flashblocks::primitives::{
    ExecutionPayloadBaseV1, ExecutionPayloadFlashblockDeltaV1, FlashblockMetadata,
    FlashblocksPayloadV1, Withdrawal, ZERO_HASH,
};
use rblib_world_chain::num::U256;
use rblib_world_chain::payload::{OpBuiltPayload, OpPayloadBuilderAttributes};
use rblib_world_chain::receipt::{self, ExecutionResult, Log};
use rblib_world_chain::transaction::{OpTxType, RawTransaction, Transaction, TransactionError};

const SIGNED: &str = "f86c098504a817c800825208943535353535353535353535353535353535353535880de0b6\
b3a76400008025a028ef61340bd939bc2195fe537567866003e1a15d3c71ff63e1590620aa636276a067cbe9d8997f76\
1aecb703304b3800ccf555c9f3dc64214b297fb1966a3b6d83";

fn signed() -> Vec<u8> {
    alloy_primitives::hex::decode(SIGNED).unwrap()
}

fn deposit(from: u8) -> Vec<u8> {
    let tx = TxDeposit {
        source_hash: alloy_primitives::B256::repeat_byte(1),
        from: AlloyAddress::repeat_byte(from),
        to: TxKind::Call(AlloyAddress::repeat_byte(3)),
        mint: 0,
        value: alloy_primitives::U256::from(7),
        gas_limit: 21_000,
        is_system_transaction: false,
        input: Default::default(),
    };
    OpTxEnvelope::from(tx).encoded_2718()
}

fn decode(bytes: &[u8]) -> Transaction {
    match Transaction::decode_2718_exact(bytes) {
        Ok(tx) => tx,
        Err(_) => panic!("decodes"),
    }
}

#[test]
fn a_signed_transaction() {
    let bytes = signed();
    let tx = decode(&bytes);
    assert_eq!(tx.tx_type, OpTxType::Legacy);
    assert_eq!(tx.encoded, bytes);
    assert_eq!(tx.hash, alloy_primitives::keccak256(&bytes).0);
    assert_eq!(tx.max_fee_per_gas, 20_000_000_000);
    assert!(!tx.is_deposit());
    assert_eq!(tx.effective_tip_per_gas(1_000), Some(19_999_999_000));
    assert_eq!(tx.effective_tip_per_gas(20_000_000_000), Some(0));
    assert_eq!(tx.effective_tip_per_gas(20_000_000_001), None);
    let recovered = tx.try_into_recovered().unwrap();
    assert_eq!(
        alloy_primitives::hex::encode(recovered.signer),
        "9d8a62f656a8d1615c1294fd71e9cfb3e4855a4f"
    );
}

#[test]
fn a_deposit() {
    let tx = decode(&deposit(2));
    assert_eq!(tx.tx_type, OpTxType::Deposit);
    assert!(tx.is_deposit());
    assert_eq!(tx.max_fee_per_gas, 0);
    assert_eq!(tx.try_into_recovered().unwrap().signer, [2u8; 20]);
}

#[test]
fn the_tip_has_a_limit() {
    let tx = Transaction {
        tx_type: OpTxType::Eip1559,
        hash: [0; 32],
        encoded: vec![],
        max_fee_per_gas: 100,
        max_priority_fee_per_gas: Some(30),
    };
    assert_eq!(tx.effective_tip_per_gas(10), Some(30));
    assert_eq!(tx.effective_tip_per_gas(80), Some(20));
    assert_eq!(tx.effective_tip_per_gas(101), None);
    // As the outside crate says.
    let outside = alloy_consensus::TxEip1559 {
        max_fee_per_gas: 100,
        max_priority_fee_per_gas: 30,
        ..Default::default()
    };
    for base_fee in [0, 10, 70, 80, 100, 101] {
        assert_eq!(tx.effective_tip_per_gas(base_fee), outside.effective_tip_per_gas(base_fee));
    }
}

#[test]
fn bytes_that_are_no_transaction() {
    assert!(matches!(Transaction::decode_2718_exact(&[]), Err(TransactionError::Decode(_))));
    let mut longer = signed();
    longer.extend_from_slice(&[0, 0]);
    assert!(matches!(
        Transaction::decode_2718_exact(&longer),
        Err(TransactionError::TrailingBytes(2))
    ));
    let (tx, left) = match Transaction::decode_2718(&longer) {
        Ok(ok) => ok,
        Err(_) => panic!("decodes"),
    };
    assert_eq!((tx, left), (decode(&signed()), 2));
    let raw = |ty| RawTransaction {
        ty,
        hash: [1; 32],
        encoded: vec![ty],
        max_fee_per_gas: 2,
        max_priority_fee_per_gas: None,
    };
    assert!(matches!(
        Transaction::from_raw(raw(0x7d)),
        Err(TransactionError::UnknownType(0x7d))
    ));
    let types = [
        (0, OpTxType::Legacy),
        (1, OpTxType::Eip2930),
        (2, OpTxType::Eip1559),
        (4, OpTxType::Eip7702),
        (0x7e, OpTxType::Deposit),
    ];
    for (ty, tx_type) in types {
        match Transaction::from_raw(raw(ty)) {
            Ok(tx) => assert_eq!(tx.tx_type, tx_type),
            Err(_) => panic!("known type"),
        }
    }
}

fn log(address: u8) -> Log {
    Log { address: [address; 20], topics: vec![[5; 32]], data: vec![1, 2, 3] }
}

#[test]
fn the_receipt_of_a_transaction() {
    let result = |success| ExecutionResult { success, gas_used: 9, logs: vec![log(1)] };
    let receipt = receipt::build_receipt(OpTxType::Deposit, result(true), 50, Some(4), true);
    assert_eq!(receipt.cumulative_gas_used, 50);
    assert_eq!(receipt.deposit_nonce, Some(4));
    assert_eq!(receipt.deposit_receipt_version, Some(1));
    assert_eq!(receipt.logs, vec![log(1)]);
    let receipt = receipt::build_receipt(OpTxType::Deposit, result(true), 50, None, false);
    assert_eq!((receipt.deposit_nonce, receipt.deposit_receipt_version), (None, None));
    let receipt = receipt::build_receipt(OpTxType::Eip7702, result(false), 50, Some(4), true);
    assert_eq!(receipt.tx_type, OpTxType::Eip7702);
    assert!(!receipt.success);
    assert_eq!((receipt.deposit_nonce, receipt.deposit_receipt_version), (None, None));
}

#[test]
fn the_filter_over_logs() {
    let result = |logs| ExecutionResult { success: true, gas_used: 0, logs };
    let receipts = vec![
        receipt::build_receipt(OpTxType::Legacy, result(vec![log(1)]), 1, None, true),
        receipt::build_receipt(OpTxType::Legacy, result(vec![]), 2, None, true),
        receipt::build_receipt(OpTxType::Legacy, result(vec![log(2)]), 3, None, true),
    ];
    let mut bloom = alloy_primitives::Bloom::ZERO;
    for address in [1, 2] {
        bloom.accrue_raw_log(
            AlloyAddress::repeat_byte(address),
            &[alloy_primitives::B256::repeat_byte(5)],
        );
    }
    assert_eq!(receipt::logs_bloom(&receipts), bloom.0.0);
    assert_eq!(receipt::logs_bloom(&vec![]), [0u8; 256]);
}

fn header() -> Header {
    Header {
        parent_hash: [1; 32],
        beneficiary: [2; 20],
        state_root: [3; 32],
        transactions_root: [4; 32],
        receipts_root: [5; 32],
        logs_bloom: [6; 256],
        difficulty: U256::from_u64(7),
        number: 8,
        gas_limit: 9,
        gas_used: 10,
        timestamp: 11,
        extra_data: vec![12],
        mix_hash: [13; 32],
        base_fee_per_gas: Some(14),
        withdrawals_root: Some([15; 32]),
        blob_gas_used: Some(16),
        excess_blob_gas: Some(17),
        parent_beacon_block_root: Some([18; 32]),
        requests_hash: Some([19; 32]),
        block_access_list_hash: Some([20; 32]),
    }
}

fn outside_header() -> alloy_consensus::Header {
    alloy_consensus::Header {
        parent_hash: [1; 32].into(),
        ommers_hash: alloy_consensus::EMPTY_OMMER_ROOT_HASH,
        beneficiary: [2; 20].into(),
        state_root: [3; 32].into(),
        transactions_root: [4; 32].into(),
        receipts_root: [5; 32].into(),
        logs_bloom: [6; 256].into(),
        difficulty: alloy_primitives::U256::from(7),
        number: 8,
        gas_limit: 9,
        gas_used: 10,
        timestamp: 11,
        extra_data: vec![12].into(),
        mix_hash: [13; 32].into(),
        nonce: [0; 8].into(),
        base_fee_per_gas: Some(14),
        withdrawals_root: Some([15; 32].into()),
        blob_gas_used: Some(16),
        excess_blob_gas: Some(17),
        parent_beacon_block_root: Some([18; 32].into()),
        requests_hash: Some([19; 32].into()),
        block_access_list_hash: Some([20; 32].into()),
        slot_number: None,
    }
}

#[test]
fn the_hash_of_a_block() {
    let block = SealedBlock::seal(header(), vec![], None, None);
    assert_eq!(block.hash, outside_header().hash_slow().0);
    let mut other = header();
    other.block_access_list_hash = None;
    let mut outside = outside_header();
    outside.block_access_list_hash = None;
    assert_eq!(SealedBlock::seal(other, vec![], None, None).hash, outside.hash_slow().0);
    assert_ne!(block.hash, outside.hash_slow().0);
}

#[test]
fn roots_and_hashes_of_nothing() {
    assert_eq!(EMPTY_WITHDRAWALS, alloy_consensus::constants::EMPTY_WITHDRAWALS.0);
    assert_eq!(EMPTY_REQUESTS_HASH, alloy_eips::eip7685::EMPTY_REQUESTS_HASH.0);
    assert_eq!(
        block::calculate_transaction_root(&vec![]),
        alloy_consensus::constants::EMPTY_TRANSACTIONS.0
    );
}

#[test]
fn the_transactions_root() {
    let transactions = vec![decode(&deposit(2)), decode(&signed())];
    let mut envelopes = Vec::new();
    for tx in &transactions {
        use_envelope(&tx.encoded, &mut envelopes);
    }
    assert_eq!(
        block::calculate_transaction_root(&transactions),
        alloy_consensus::proofs::calculate_transaction_root(&envelopes).0
    );
}

fn use_envelope(bytes: &[u8], out: &mut Vec<OpTxEnvelope>) {
    let mut slice = bytes;
    out.push(alloy_eips::eip2718::Decodable2718::decode_2718(&mut slice).unwrap());
}

fn base(timestamp: u64) -> ExecutionPayloadBaseV1 {
    ExecutionPayloadBaseV1 {
        parent_beacon_block_root: [1; 32],
        parent_hash: [2; 32],
        fee_recipient: [3; 20],
        prev_randao: [4; 32],
        block_number: 5,
        gas_limit: 6,
        timestamp,
        extra_data: vec![8],
        base_fee_per_gas: U256::from_u64(9),
    }
}

fn withdrawal(index: u64) -> Withdrawal {
    Withdrawal { index, validator_index: 0, address: [0; 20], amount: 1 }
}

fn flashblock(id: u8, index: u64, base: Option<ExecutionPayloadBaseV1>) -> Flashblock {
    let n = index as u8;
    Flashblock {
        flashblock: FlashblocksPayloadV1 {
            payload_id: [id; 8],
            index,
            diff: ExecutionPayloadFlashblockDeltaV1 {
                state_root: [n; 32],
                receipts_root: [n + 10; 32],
                logs_bloom: [n; 256],
                gas_used: index * 100,
                block_hash: [n + 20; 32],
                transactions: vec![deposit(n + 1)],
                withdrawals: vec![withdrawal(index)],
                withdrawals_root: [n + 30; 32],
            },
            metadata: FlashblockMetadata {
                fees: U256::from_u64(index),
                flashblock_timestamp: Some(index as i64),
            },
            base,
        },
    }
}

#[test]
fn flashblocks_of_a_payload() {
    assert_eq!(Flashblocks::new(vec![]).err(), Some(FlashblocksError::Empty));
    assert_eq!(
        Flashblocks::new(vec![flashblock(1, 0, None)]).err(),
        Some(FlashblocksError::MissingBase)
    );
    assert_eq!(
        Flashblocks::new(vec![flashblock(1, 0, Some(base(1))), flashblock(2, 1, None)]).err(),
        Some(FlashblocksError::DifferentPayloadIds)
    );
    assert_eq!(
        Flashblocks::new(vec![flashblock(1, 0, Some(base(1))), flashblock(1, 2, None)]).err(),
        Some(FlashblocksError::NotContiguous)
    );
    assert_eq!(
        Flashblocks::new(vec![flashblock(1, 1, Some(base(1)))]).err(),
        Some(FlashblocksError::NotContiguous)
    );
    let list = vec![flashblock(1, 0, Some(base(1))), flashblock(1, 1, None)];
    let flashblocks = Flashblocks::new(list.clone()).unwrap();
    assert_eq!(flashblocks.flashblocks(), list.as_slice());
    assert_eq!(flashblocks.last(), &list[1]);
    assert_eq!(flashblocks.payload_id(), &[1; 8]);
    assert_eq!(flashblocks.base(), &base(1));
}

#[test]
fn pushing_flashblocks() {
    let mut flashblocks = Flashblocks::new(vec![flashblock(1, 0, Some(base(10)))]).unwrap();
    assert_eq!(flashblocks.push(flashblock(1, 1, None)), Ok(false));
    assert_eq!(
        flashblocks.push(flashblock(1, 1, None)),
        Err(PushError::IndexGap { expected: 2, got: 1, payload_id: [1; 8] })
    );
    assert_eq!(
        flashblocks.push(flashblock(2, 1, Some(base(11)))),
        Err(PushError::NewPayloadIndex)
    );
    assert_eq!(
        flashblocks.push(flashblock(2, 0, None)),
        Err(PushError::NewPayloadMissingBase)
    );
    assert_eq!(
        flashblocks.push(flashblock(2, 0, Some(base(10)))),
        Err(PushError::NewPayloadTimestamp)
    );
    assert_eq!(flashblocks.flashblocks().len(), 2);
    assert_eq!(flashblocks.push(flashblock(2, 0, Some(base(11)))), Ok(true));
    assert_eq!(flashblocks.flashblocks(), &[flashblock(2, 0, Some(base(11)))]);
}

#[test]
fn the_default_flashblocks() {
    let mut flashblocks = Flashblocks::default();
    assert_eq!(flashblocks.payload_id(), &[0; 8]);
    assert_eq!(flashblocks.base().timestamp, 0);
    assert_eq!(flashblocks.push(flashblock(1, 0, Some(base(1)))), Ok(true));
}

#[test]
fn reducing_flashblocks() {
    let flashblocks = Flashblocks::new(vec![
        flashblock(1, 0, Some(base(1))),
        flashblock(1, 1, None),
        flashblock(1, 2, Some(base(3))),
    ])
    .unwrap();
    let reduced = Flashblock::reduce(flashblocks).unwrap();
    let last = flashblock(1, 2, None);
    assert_eq!(reduced.payload_id(), &[1; 8]);
    assert_eq!(reduced.base(), Some(&base(1)));
    assert_eq!(reduced.flashblock().index, 2);
    assert_eq!(reduced.flashblock().metadata, last.flashblock.metadata);
    assert_eq!(reduced.diff().transactions, vec![deposit(1), deposit(2), deposit(3)]);
    assert_eq!(reduced.diff().withdrawals, vec![withdrawal(0), withdrawal(1), withdrawal(2)]);
    assert_eq!(reduced.diff().state_root, last.flashblock.diff.state_root);
    assert_eq!(reduced.diff().receipts_root, last.flashblock.diff.receipts_root);
    assert_eq!(reduced.diff().logs_bloom, last.flashblock.diff.logs_bloom);
    assert_eq!(reduced.diff().gas_used, 200);
    assert_eq!(reduced.diff().block_hash, last.flashblock.diff.block_hash);
    assert_eq!(reduced.diff().withdrawals_root, last.flashblock.diff.withdrawals_root);
    assert_eq!(reduced.into_flashblock().index, 2);
}

#[test]
fn the_block_of_flashblocks() {
    let flashblocks =
        Flashblocks::new(vec![flashblock(1, 0, Some(base(7))), flashblock(1, 1, None)]).unwrap();
    let recovered = match flashblocks.try_into_block() {
        Ok(block) => block,
        Err(_) => panic!("there is a block"),
    };
    let block = recovered.block;
    assert_eq!(recovered.senders, vec![[1; 20], [2; 20]]);
    assert_eq!(block.transactions, vec![decode(&deposit(1)), decode(&deposit(2))]);
    assert_eq!(block.withdrawals, Some(vec![withdrawal(0), withdrawal(1)]));
    let header = &block.header;
    assert_eq!(header.parent_hash, [2; 32]);
    assert_eq!(header.beneficiary, [3; 20]);
    assert_eq!(header.state_root, [1; 32]);
    assert_eq!(header.receipts_root, [11; 32]);
    assert_eq!(header.logs_bloom, [1; 256]);
    assert_eq!(header.difficulty, U256::zero());
    assert_eq!(header.number, 5);
    assert_eq!(header.gas_limit, 6);
    assert_eq!(header.gas_used, 100);
    assert_eq!(header.timestamp, 7);
    assert_eq!(header.extra_data, vec![8]);
    assert_eq!(header.mix_hash, [4; 32]);
    assert_eq!(header.base_fee_per_gas, Some(9));
    assert_eq!(header.withdrawals_root, Some([31; 32]));
    assert_eq!((header.blob_gas_used, header.excess_blob_gas), (Some(0), Some(0)));
    assert_eq!(header.parent_beacon_block_root, None);
    assert_eq!(header.requests_hash, None);
    assert_eq!(header.block_access_list_hash, Some(ZERO_HASH));
    assert_eq!(block.block_access_list, None);
    assert_eq!(
        header.transactions_root,
        block::calculate_transaction_root(&block.transactions)
    );
    assert_eq!(block.hash, SealedBlock::seal(block.header.clone(), vec![], None, None).hash);
}

#[test]
fn flashblocks_that_are_no_block() {
    assert!(matches!(flashblock(1, 1, None).try_into_block(), Err(BlockError::MissingBase)));
    let mut bad = flashblock(1, 0, Some(base(7)));
    bad.flashblock.diff.transactions.push(vec![0xff]);
    assert!(matches!(
        bad.try_into_block(),
        Err(BlockError::Decode(TransactionError::Decode(_)))
    ));
    // A signature that no key makes.
    let mut unsigned = signed();
    let at = unsigned.len() - 65;
    for byte in &mut unsigned[at..at + 32] {
        *byte = 0xff;
    }
    let mut bad = flashblock(1, 0, Some(base(7)));
    bad.flashblock.diff.transactions.push(unsigned);
    assert!(matches!(bad.try_into_block(), Err(BlockError::Recover)));
}

#[test]
fn the_flashblock_of_a_payload() {
    let transactions = vec![decode(&deposit(1)), decode(&deposit(2)), decode(&signed())];
    let block = SealedBlock::seal(
        header(),
        transactions,
        Some(vec![withdrawal(1), withdrawal(2)]),
        None,
    );
    let hash = block.hash;
    let payload = OpBuiltPayload::<()> {
        id: [1; 8],
        block,
        fees: U256::from_u64(77),
        executed_block: None,
    };
    let attributes = OpPayloadBuilderAttributes {
        id: [1; 8],
        parent: [41; 32],
        timestamp: 42,
        suggested_fee_recipient: [43; 20],
        prev_randao: [44; 32],
        withdrawals: vec![],
        parent_beacon_block_root: None,
        no_tx_pool: false,
        transactions: vec![],
        gas_limit: None,
        eip_1559_params: None,
        min_base_fee: None,
    };
    let first = Flashblock::new(&payload, &attributes, 0, 0, 0, 99);
    assert_eq!(first.payload_id(), &[1; 8]);
    assert_eq!(first.flashblock().metadata.fees, U256::from_u64(77));
    assert_eq!(first.flashblock().metadata.flashblock_timestamp, Some(99));
    let base = first.base().unwrap();
    assert_eq!(base.parent_beacon_block_root, ZERO_HASH);
    assert_eq!(base.parent_hash, [41; 32]);
    assert_eq!(base.fee_recipient, [43; 20]);
    assert_eq!(base.prev_randao, [44; 32]);
    assert_eq!((base.block_number, base.gas_limit, base.timestamp), (8, 9, 42));
    assert_eq!(base.extra_data, vec![12]);
    assert_eq!(base.base_fee_per_gas, U256::from_u64(14));
    assert_eq!(first.diff().transactions, vec![deposit(1), deposit(2), signed()]);
    assert_eq!(first.diff().withdrawals, vec![withdrawal(1), withdrawal(2)]);
    assert_eq!(first.diff().block_hash, hash);
    assert_eq!(first.diff().withdrawals_root, [15; 32]);
    assert_eq!(first.diff().gas_used, 10);
    let second = Flashblock::new(&payload, &attributes, 1, 2, 1, 100);
    assert_eq!(second.base(), None);
    assert_eq!(second.diff().transactions, vec![signed()]);
    assert_eq!(second.diff().withdrawals, vec![withdrawal(2)]);
    let beyond = Flashblock::new(&payload, &attributes, 2, 4, 3, 100);
    assert!(beyond.diff().transactions.is_empty());
    assert!(beyond.diff().withdrawals.is_empty());
    assert_eq!(collection::encoded_beyond(&payload.block.transactions, 3).len(), 0);
}
