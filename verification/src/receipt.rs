//! Receipts, and the logs in them.
use crate::flashblocks::primitives::{Address, B256, Bloom, Bytes};
use crate::model;
use crate::transaction::OpTxType;
use vstd::prelude::*;

verus! {

/// A log that a transaction has left.
#[derive(Debug, PartialEq, Eq)]
pub struct Log {
    pub address: Address,
    pub topics: Vec<B256>,
    pub data: Bytes,
}

/// What a log holds.
#[verifier::ext_equal]
pub struct LogView {
    pub address: Address,
    pub topics: Seq<B256>,
    pub data: Seq<u8>,
}

impl View for Log {
    type V = LogView;

    open spec fn view(&self) -> LogView {
        LogView { address: self.address, topics: self.topics@, data: self.data@ }
    }
}

impl Clone for Log {
    fn clone(&self) -> (r: Self)
        ensures
            r@ == self@,
    {
        let topics = clone_hashes(&self.topics);
        let data = self.data.clone();
        assert(data@ =~= self.data@);
        Log { address: self.address, topics, data }
    }
}

/// A copy of a list of hashes.
fn clone_hashes(hashes: &Vec<B256>) -> (r: Vec<B256>)
    ensures
        r@ == hashes@,
{
    let mut r: Vec<B256> = Vec::new();
    let mut i: usize = 0;
    while i < hashes.len()
        invariant
            i <= hashes.len(),
            r@ == hashes@.take(i as int),
        decreases hashes.len() - i,
    {
        r.push(hashes[i]);
        i += 1;
    }
    r
}

/// The receipt of a transaction.
#[derive(Debug, PartialEq, Eq)]
pub struct OpReceipt {
    /// Type of the transaction.
    pub tx_type: OpTxType,
    /// Whether the transaction succeeded.
    pub success: bool,
    /// Gas that the block's transactions have used up to this one.
    pub cumulative_gas_used: u64,
    /// Logs that the transaction has left.
    pub logs: Vec<Log>,
    /// Nonce of a deposit's sender.
    pub deposit_nonce: Option<u64>,
    /// How the hash of a deposit's receipt is computed.
    pub deposit_receipt_version: Option<u64>,
}

/// What a receipt holds.
#[verifier::ext_equal]
pub struct ReceiptView {
    pub tx_type: OpTxType,
    pub success: bool,
    pub cumulative_gas_used: u64,
    pub logs: Seq<LogView>,
    pub deposit_nonce: Option<u64>,
    pub deposit_receipt_version: Option<u64>,
}

impl View for OpReceipt {
    type V = ReceiptView;

    open spec fn view(&self) -> ReceiptView {
        ReceiptView {
            tx_type: self.tx_type,
            success: self.success,
            cumulative_gas_used: self.cumulative_gas_used,
            logs: model::views(self.logs@),
            deposit_nonce: self.deposit_nonce,
            deposit_receipt_version: self.deposit_receipt_version,
        }
    }
}

impl Clone for OpReceipt {
    fn clone(&self) -> (r: Self)
        ensures
            r@ == self@,
    {
        OpReceipt {
            tx_type: self.tx_type,
            success: self.success,
            cumulative_gas_used: self.cumulative_gas_used,
            logs: model::clone_all(&self.logs),
            deposit_nonce: self.deposit_nonce,
            deposit_receipt_version: self.deposit_receipt_version,
        }
    }
}

/// What came of executing a transaction.
#[derive(Debug, PartialEq, Eq)]
pub struct ExecutionResult {
    /// Whether the transaction succeeded.
    pub success: bool,
    /// Gas that the transaction has used.
    pub gas_used: u64,
    /// Logs that the transaction has left.
    pub logs: Vec<Log>,
}

/// What an execution result holds.
#[verifier::ext_equal]
pub struct ResultView {
    pub success: bool,
    pub gas_used: u64,
    pub logs: Seq<LogView>,
}

impl View for ExecutionResult {
    type V = ResultView;

    open spec fn view(&self) -> ResultView {
        ResultView {
            success: self.success,
            gas_used: self.gas_used,
            logs: model::views(self.logs@),
        }
    }
}

impl Clone for ExecutionResult {
    fn clone(&self) -> (r: Self)
        ensures
            r@ == self@,
    {
        ExecutionResult {
            success: self.success,
            gas_used: self.gas_used,
            logs: model::clone_all(&self.logs),
        }
    }
}

/// The receipt of a transaction of type `tx_type`. Only deposits have a nonce in their receipt, and
/// a version since Canyon.
pub open spec fn receipt_of(
    tx_type: OpTxType,
    result: ResultView,
    cumulative_gas_used: u64,
    deposit_nonce: Option<u64>,
    canyon: bool,
) -> ReceiptView {
    let deposit = tx_type == OpTxType::Deposit;
    ReceiptView {
        tx_type,
        success: result.success,
        cumulative_gas_used,
        logs: result.logs,
        deposit_nonce: if deposit {
            deposit_nonce
        } else {
            None
        },
        deposit_receipt_version: if deposit && canyon {
            Some(1)
        } else {
            None
        },
    }
}

/// The receipt of a transaction of type `tx_type`, of which `result` came, with `canyon` for whether
/// Canyon is active.
pub fn build_receipt(
    tx_type: OpTxType,
    result: ExecutionResult,
    cumulative_gas_used: u64,
    deposit_nonce: Option<u64>,
    canyon: bool,
) -> (r: OpReceipt)
    ensures
        r@ == receipt_of(tx_type, result@, cumulative_gas_used, deposit_nonce, canyon),
        r.tx_type == tx_type,
        r.success == result.success,
        r.cumulative_gas_used == cumulative_gas_used,
        r.logs == result.logs,
        tx_type == OpTxType::Deposit ==> r.deposit_nonce == deposit_nonce,
        tx_type != OpTxType::Deposit ==> r.deposit_nonce is None,
        r.deposit_receipt_version is Some <==> tx_type == OpTxType::Deposit && canyon,
        r.deposit_receipt_version matches Some(version) ==> version == 1,
{
    let deposit = tx_type == OpTxType::Deposit;
    OpReceipt {
        tx_type,
        success: result.success,
        cumulative_gas_used,
        logs: result.logs,
        deposit_nonce: if deposit {
            deposit_nonce
        } else {
            None
        },
        deposit_receipt_version: if deposit && canyon {
            Some(1)
        } else {
            None
        },
    }
}

/// What `alloy_primitives::logs_bloom` gives for logs.
pub uninterp spec fn bloom_of(logs: Seq<LogView>) -> Bloom;

/// The filter over logs.
///
/// Calls `alloy_primitives::logs_bloom`: the contract claims that the filter depends on the logs
/// alone.
#[verifier::external_body]
fn raw_logs_bloom(logs: Vec<Log>) -> (r: Bloom)
    ensures
        r == bloom_of(model::views(logs@)),
{
    let logs: Vec<alloy_primitives::Log> = logs.into_iter().map(
        |log|
            {
                let topics = log.topics.into_iter().map(alloy_primitives::B256::new).collect();
                alloy_primitives::Log::new_unchecked(log.address.into(), topics, log.data.into())
            },
    ).collect();
    alloy_primitives::logs_bloom(logs.iter()).into_array()
}

/// The logs of receipts, one after the other.
pub open spec fn logs_of(receipts: Seq<ReceiptView>) -> Seq<LogView>
    decreases receipts.len(),
{
    if receipts.len() == 0 {
        Seq::empty()
    } else {
        logs_of(receipts.drop_last()) + receipts.last().logs
    }
}

/// A receipt says of a transaction what came of it: whether it succeeded, with which logs, and how much
/// gas the block has used up to there. Receipts that are the same come of the same.
pub proof fn law_receipt_tells(
    tx_type: OpTxType,
    a: ResultView,
    a_gas: u64,
    b: ResultView,
    b_gas: u64,
    deposit_nonce: Option<u64>,
    canyon: bool,
)
    ensures
        receipt_of(tx_type, a, a_gas, deposit_nonce, canyon).success == a.success,
        receipt_of(tx_type, a, a_gas, deposit_nonce, canyon).logs == a.logs,
        receipt_of(tx_type, a, a_gas, deposit_nonce, canyon) == receipt_of(
            tx_type,
            b,
            b_gas,
            deposit_nonce,
            canyon,
        ) <==> a.success == b.success && a.logs == b.logs && a_gas == b_gas,
{
}

/// The nonce and the version of a deposit's receipt tell it from that of any other transaction.
pub proof fn law_deposit_receipt(
    tx_type: OpTxType,
    result: ResultView,
    gas: u64,
    deposit_nonce: Option<u64>,
    canyon: bool,
)
    ensures
        ({
            let r = receipt_of(tx_type, result, gas, deposit_nonce, canyon);
            &&& r.tx_type == tx_type
            &&& r.cumulative_gas_used == gas
            &&& tx_type == OpTxType::Deposit ==> r.deposit_nonce == deposit_nonce
            &&& tx_type != OpTxType::Deposit ==> r.deposit_nonce is None
            &&& r.deposit_receipt_version == (if tx_type == OpTxType::Deposit && canyon {
                Some(1u64)
            } else {
                None
            })
        }),
{
}

/// The logs of receipts are those of each, in order: the logs of two groups are those of the first and
/// then those of the second, and the logs of one receipt are its own.
pub proof fn law_logs_in_order(a: Seq<ReceiptView>, b: Seq<ReceiptView>, r: ReceiptView)
    ensures
        logs_of(a + b) == logs_of(a) + logs_of(b),
        logs_of(seq![r]) == r.logs,
        logs_of(Seq::empty()) == Seq::<LogView>::empty(),
    decreases b.len(),
{
    reveal_with_fuel(logs_of, 2);
    assert(seq![r].drop_last() =~= Seq::empty());
    assert(logs_of(seq![r]) =~= r.logs);
    if b.len() == 0 {
        assert(a + b =~= a);
    } else {
        law_logs_in_order(a, b.drop_last(), r);
        assert((a + b).drop_last() =~= a + b.drop_last());
        assert(logs_of(a + b) =~= logs_of(a) + logs_of(b));
    }
}

/// The filter over the logs of receipts.
pub fn logs_bloom(receipts: &Vec<OpReceipt>) -> (r: Bloom)
    ensures
        r == bloom_of(logs_of(model::views(receipts@))),
{
    let mut logs: Vec<Log> = Vec::new();
    let ghost all = model::views(receipts@);
    let mut i: usize = 0;
    while i < receipts.len()
        invariant
            i <= receipts.len(),
            all == model::views(receipts@),
            model::views(logs@) == logs_of(all.take(i as int)),
        decreases receipts.len() - i,
    {
        let mut more = model::clone_all(&receipts[i].logs);
        let ghost before = logs@;
        let ghost added = more@;
        logs.append(&mut more);
        proof {
            assert(all.take(i + 1).drop_last() =~= all.take(i as int));
            assert(all.take(i + 1).last() == receipts@[i as int]@);
            assert(model::views(logs@) =~= model::views(before) + model::views(added));
        }
        i += 1;
    }
    assert(all.take(i as int) =~= all);
    raw_logs_bloom(logs)
}

/// What logs, receipts and results of executions hold is what their fields hold.
pub proof fn law_views(log: Log, r: OpReceipt, result: ExecutionResult)
    ensures
        log@.address == log.address,
        log@.topics == log.topics@,
        log@.data == log.data@,
        r@.tx_type == r.tx_type,
        r@.success == r.success,
        r@.cumulative_gas_used == r.cumulative_gas_used,
        r@.deposit_nonce == r.deposit_nonce,
        r@.deposit_receipt_version == r.deposit_receipt_version,
        r@.logs.len() == r.logs@.len(),
        forall|i: int| 0 <= i < r.logs@.len() ==> (#[trigger] r@.logs[i]) == r.logs@[i]@,
        result@.success == result.success,
        result@.gas_used == result.gas_used,
        result@.logs.len() == result.logs@.len(),
        forall|i: int|
            0 <= i < result.logs@.len() ==> (#[trigger] result@.logs[i]) == result.logs@[i]@,
{
}

}
