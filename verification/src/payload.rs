//! Built payloads, and what they are built from.
use crate::block::{SealedBlock, SealedView};
use crate::flashblocks::primitives::{Address, B64, B256, Withdrawal};
use crate::model;
use crate::num::U256;
use crate::receipt::{OpReceipt, ReceiptView};
use crate::transaction::{Transaction, TxView};
use std::sync::Arc;
use vstd::prelude::*;

verus! {

/// What the consensus layer asks a payload to be built with.
#[derive(Debug, PartialEq, Eq)]
pub struct OpPayloadBuilderAttributes {
    /// Id of the payload.
    pub id: B64,
    /// Hash of the parent block.
    pub parent: B256,
    /// Timestamp of the block.
    pub timestamp: u64,
    /// Address that the fees go to.
    pub suggested_fee_recipient: Address,
    /// Randomness of the block.
    pub prev_randao: B256,
    /// Withdrawals of the block.
    pub withdrawals: Vec<Withdrawal>,
    /// Root of the parent beacon block.
    pub parent_beacon_block_root: Option<B256>,
    /// Whether only the transactions below go into the payload.
    pub no_tx_pool: bool,
    /// Transactions at the top of the block.
    pub transactions: Vec<Transaction>,
    /// Gas limit of the block, if there is one. Transactions are executed with the parent's otherwise.
    pub gas_limit: Option<u64>,
    /// Parameters of the base fee since Holocene.
    pub eip_1559_params: Option<B64>,
    /// Minimum base fee since Jovian.
    pub min_base_fee: Option<u64>,
}

/// What payload attributes hold.
#[verifier::ext_equal]
pub struct AttributesView {
    pub id: B64,
    pub parent: B256,
    pub timestamp: u64,
    pub suggested_fee_recipient: Address,
    pub prev_randao: B256,
    pub withdrawals: Seq<Withdrawal>,
    pub parent_beacon_block_root: Option<B256>,
    pub no_tx_pool: bool,
    pub transactions: Seq<TxView>,
    pub gas_limit: Option<u64>,
    pub eip_1559_params: Option<B64>,
    pub min_base_fee: Option<u64>,
}

impl View for OpPayloadBuilderAttributes {
    type V = AttributesView;

    open spec fn view(&self) -> AttributesView {
        AttributesView {
            id: self.id,
            parent: self.parent,
            timestamp: self.timestamp,
            suggested_fee_recipient: self.suggested_fee_recipient,
            prev_randao: self.prev_randao,
            withdrawals: self.withdrawals@,
            parent_beacon_block_root: self.parent_beacon_block_root,
            no_tx_pool: self.no_tx_pool,
            transactions: model::views(self.transactions@),
            gas_limit: self.gas_limit,
            eip_1559_params: self.eip_1559_params,
            min_base_fee: self.min_base_fee,
        }
    }
}

/// What executing a block has led to: the changes to the state, and the receipts block by block.
///
/// The library carries the changes to the state as they are: `B` is whatever holds them.
#[derive(Debug, PartialEq, Eq)]
pub struct ExecutedBlock<B> {
    pub bundle: B,
    pub receipts: Vec<Vec<OpReceipt>>,
}

/// What receipts hold, block by block.
pub open spec fn receipt_views(receipts: Seq<Vec<OpReceipt>>) -> Seq<Seq<ReceiptView>> {
    receipts.map_values(|r: Vec<OpReceipt>| model::views(r@))
}

/// What an executed block holds.
#[verifier::ext_equal]
pub struct ExecutedView<B> {
    pub bundle: B,
    pub receipts: Seq<Seq<ReceiptView>>,
}

impl<B> View for ExecutedBlock<B> {
    type V = ExecutedView<B>;

    open spec fn view(&self) -> ExecutedView<B> {
        ExecutedView { bundle: self.bundle, receipts: receipt_views(self.receipts@) }
    }
}

/// A built payload.
#[derive(Debug, PartialEq, Eq)]
pub struct OpBuiltPayload<B> {
    /// Id of the payload.
    pub id: B64,
    /// The block.
    pub block: SealedBlock,
    /// Fees of the block.
    pub fees: U256,
    /// What executing the block has led to, if it was executed.
    pub executed_block: Option<ExecutedBlock<B>>,
}

/// What a built payload holds.
#[verifier::ext_equal]
pub struct BuiltView<B> {
    pub id: B64,
    pub block: SealedView,
    pub fees: U256,
    pub executed_block: Option<ExecutedView<B>>,
}

impl<B> View for OpBuiltPayload<B> {
    type V = BuiltView<B>;

    open spec fn view(&self) -> BuiltView<B> {
        BuiltView {
            id: self.id,
            block: self.block@,
            fees: self.fees,
            executed_block: model::optional(self.executed_block),
        }
    }
}

/// What payload attributes and a built payload hold is what their fields hold.
pub proof fn law_views<B>(a: OpPayloadBuilderAttributes, p: OpBuiltPayload<B>)
    ensures
        a@.id == a.id,
        a@.parent == a.parent,
        a@.timestamp == a.timestamp,
        a@.suggested_fee_recipient == a.suggested_fee_recipient,
        a@.prev_randao == a.prev_randao,
        a@.withdrawals == a.withdrawals@,
        a@.parent_beacon_block_root == a.parent_beacon_block_root,
        a@.no_tx_pool == a.no_tx_pool,
        a@.transactions.len() == a.transactions@.len(),
        forall|i: int| 0 <= i < a.transactions@.len() ==> (#[trigger] a@.transactions[i])
            == a.transactions@[i]@,
        a@.gas_limit == a.gas_limit,
        a@.eip_1559_params == a.eip_1559_params,
        a@.min_base_fee == a.min_base_fee,
        p@.id == p.id,
        p@.block == p.block@,
        p@.fees == p.fees,
        p.executed_block is None <==> p@.executed_block is None,
        p.executed_block matches Some(e) ==> {
            &&& p@.executed_block is Some
            &&& (p@.executed_block->0).bundle == e.bundle
            &&& (p@.executed_block->0).receipts.len() == e.receipts@.len()
            &&& forall|i: int|
                0 <= i < e.receipts@.len() ==> (#[trigger] (p@.executed_block->0).receipts[i])
                    == model::views(e.receipts@[i]@)
        },
{
}

/// Another pointer to a payload.
///
/// Calls `Arc::clone` of the standard library: the contract claims that the pointer is to the same
/// payload.
#[verifier::external_body]
pub(crate) fn share<B>(payload: &Arc<OpBuiltPayload<B>>) -> (r: Arc<OpBuiltPayload<B>>)
    ensures
        r == *payload,
{
    payload.clone()
}

}
