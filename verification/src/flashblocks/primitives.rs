//! The parts of a flashblock.
use crate::num::U256;
use vstd::prelude::*;

verus! {

/// A byte string of eight bytes, such as a payload id.
pub type B64 = [u8; 8];

/// A hash.
pub type B256 = [u8; 32];

/// An account's address.
pub type Address = [u8; 20];

/// A filter over the logs of a block.
pub type Bloom = [u8; 256];

/// A byte string.
pub type Bytes = Vec<u8>;

/// The hash of zeros, which stands in where there is no hash.
pub const ZERO_HASH: [u8; 32] = [
    0, 0, 0, 0, 0, 0, 0, 0, 0, 0, 0, 0, 0, 0, 0, 0, 0, 0, 0, 0, 0, 0, 0, 0, 0, 0, 0, 0, 0, 0, 0, 0,
];

/// Zero bytes.
pub open spec fn zeros(n: nat) -> Seq<u8> {
    Seq::new(n, |i: int| 0u8)
}

/// The hash, or zeros where there is none.
pub open spec fn or_zero(hash: Option<B256>) -> B256 {
    match hash {
        Some(h) => h,
        None => ZERO_HASH,
    }
}

/// The hash, or zeros where there is none.
pub fn unwrap_or_zero(hash: Option<B256>) -> (r: B256)
    ensures
        r == or_zero(hash),
        hash matches Some(h) ==> r == h,
        hash is None ==> forall|i: int| 0 <= i < 32 ==> (#[trigger] r@[i]) == 0,
{
    match hash {
        Some(h) => h,
        None => ZERO_HASH,
    }
}

/// A hash that is there stands for itself, and zeros stand in for one that is not.
pub proof fn law_or_zero(hash: Option<B256>, n: nat)
    ensures
        hash matches Some(h) ==> or_zero(hash) == h,
        hash is None ==> forall|i: int| 0 <= i < 32 ==> (#[trigger] or_zero(hash)@[i]) == 0,
        zeros(n).len() == n,
        forall|i: int| 0 <= i < n ==> (#[trigger] zeros(n)[i]) == 0,
{
}

/// The contents of byte strings.
pub open spec fn contents(strings: Seq<Bytes>) -> Seq<Seq<u8>> {
    strings.map_values(|b: Bytes| b@)
}

/// Whether two byte strings of the same length are the same.
pub fn same_bytes<const N: usize>(a: &[u8; N], b: &[u8; N]) -> (r: bool)
    ensures
        r == (*a == *b),
{
    let mut i: usize = 0;
    while i < N
        invariant
            i <= N,
            forall|k: int| 0 <= k < i ==> a@[k] == b@[k],
        decreases N - i,
    {
        if a[i] != b[i] {
            return false;
        }
        i += 1;
    }
    assert(a@ =~= b@);
    assert(*a == *b);
    true
}

/// A copy of a list of byte strings.
pub fn clone_strings(strings: &Vec<Bytes>) -> (r: Vec<Bytes>)
    ensures
        contents(r@) == contents(strings@),
        r@.len() == strings@.len(),
        forall|i: int| 0 <= i < strings@.len() ==> (#[trigger] r@[i])@ == strings@[i]@,
{
    let mut r: Vec<Bytes> = Vec::new();
    let mut i: usize = 0;
    while i < strings.len()
        invariant
            i <= strings.len(),
            r@.len() == i,
            forall|k: int| 0 <= k < i ==> r@[k]@ == strings@[k]@,
        decreases strings.len() - i,
    {
        let copy = strings[i].clone();
        assert(copy@ =~= strings@[i as int]@);
        r.push(copy);
        i += 1;
    }
    assert(contents(r@) =~= contents(strings@));
    r
}

/// A withdrawal from the consensus layer.
#[derive(Clone, Copy, Debug, PartialEq, Eq)]
pub struct Withdrawal {
    /// Identifier issued by the consensus layer.
    pub index: u64,
    /// Index of the validator.
    pub validator_index: u64,
    /// Target address.
    pub address: Address,
    /// Amount in gwei.
    pub amount: u64,
}

/// The portions of an execution payload that can change while a block is built: state root,
/// receipts, logs and new transactions. What stays constant throughout the construction, like the
/// parent hash and the block number, is in [`ExecutionPayloadBaseV1`].
#[derive(Debug, PartialEq, Eq)]
pub struct ExecutionPayloadFlashblockDeltaV1 {
    /// The state root of the block.
    pub state_root: B256,
    /// The receipts root of the block.
    pub receipts_root: B256,
    /// The logs bloom of the block.
    pub logs_bloom: Bloom,
    /// The gas used of the block.
    pub gas_used: u64,
    /// The block hash of the block.
    pub block_hash: B256,
    /// The transactions of the block.
    pub transactions: Vec<Bytes>,
    /// The withdrawals of the block.
    pub withdrawals: Vec<Withdrawal>,
    /// The withdrawals root of the block.
    pub withdrawals_root: B256,
}

/// What a delta holds.
#[verifier::ext_equal]
pub struct DeltaView {
    pub state_root: B256,
    pub receipts_root: B256,
    pub logs_bloom: Bloom,
    pub gas_used: u64,
    pub block_hash: B256,
    pub transactions: Seq<Seq<u8>>,
    pub withdrawals: Seq<Withdrawal>,
    pub withdrawals_root: B256,
}

impl View for ExecutionPayloadFlashblockDeltaV1 {
    type V = DeltaView;

    open spec fn view(&self) -> DeltaView {
        DeltaView {
            state_root: self.state_root,
            receipts_root: self.receipts_root,
            logs_bloom: self.logs_bloom,
            gas_used: self.gas_used,
            block_hash: self.block_hash,
            transactions: contents(self.transactions@),
            withdrawals: self.withdrawals@,
            withdrawals_root: self.withdrawals_root,
        }
    }
}

impl Clone for ExecutionPayloadFlashblockDeltaV1 {
    fn clone(&self) -> (r: Self)
        ensures
            r@ == self@,
    {
        let withdrawals = self.withdrawals.clone();
        assert(withdrawals@ =~= self.withdrawals@);
        ExecutionPayloadFlashblockDeltaV1 {
            state_root: self.state_root,
            receipts_root: self.receipts_root,
            logs_bloom: self.logs_bloom,
            gas_used: self.gas_used,
            block_hash: self.block_hash,
            transactions: clone_strings(&self.transactions),
            withdrawals,
            withdrawals_root: self.withdrawals_root,
        }
    }
}

/// The properties of an execution payload that are determined at block creation and stay constant
/// throughout the construction of the block.
#[derive(Debug, PartialEq, Eq)]
pub struct ExecutionPayloadBaseV1 {
    /// Ecotone parent beacon block root.
    pub parent_beacon_block_root: B256,
    /// The parent hash of the block.
    pub parent_hash: B256,
    /// The fee recipient of the block.
    pub fee_recipient: Address,
    /// The previous randao of the block.
    pub prev_randao: B256,
    /// The block number.
    pub block_number: u64,
    /// The gas limit of the block.
    pub gas_limit: u64,
    /// The timestamp of the block.
    pub timestamp: u64,
    /// The extra data of the block.
    pub extra_data: Bytes,
    /// The base fee per gas of the block.
    pub base_fee_per_gas: U256,
}

/// What a base holds.
#[verifier::ext_equal]
pub struct BaseView {
    pub parent_beacon_block_root: B256,
    pub parent_hash: B256,
    pub fee_recipient: Address,
    pub prev_randao: B256,
    pub block_number: u64,
    pub gas_limit: u64,
    pub timestamp: u64,
    pub extra_data: Seq<u8>,
    pub base_fee_per_gas: U256,
}

impl View for ExecutionPayloadBaseV1 {
    type V = BaseView;

    open spec fn view(&self) -> BaseView {
        BaseView {
            parent_beacon_block_root: self.parent_beacon_block_root,
            parent_hash: self.parent_hash,
            fee_recipient: self.fee_recipient,
            prev_randao: self.prev_randao,
            block_number: self.block_number,
            gas_limit: self.gas_limit,
            timestamp: self.timestamp,
            extra_data: self.extra_data@,
            base_fee_per_gas: self.base_fee_per_gas,
        }
    }
}

impl Clone for ExecutionPayloadBaseV1 {
    fn clone(&self) -> (r: Self)
        ensures
            r@ == self@,
    {
        let extra_data = self.extra_data.clone();
        assert(extra_data@ =~= self.extra_data@);
        ExecutionPayloadBaseV1 {
            parent_beacon_block_root: self.parent_beacon_block_root,
            parent_hash: self.parent_hash,
            fee_recipient: self.fee_recipient,
            prev_randao: self.prev_randao,
            block_number: self.block_number,
            gas_limit: self.gas_limit,
            timestamp: self.timestamp,
            extra_data,
            base_fee_per_gas: self.base_fee_per_gas,
        }
    }
}

/// What an optional base holds.
pub open spec fn optional_base(base: Option<ExecutionPayloadBaseV1>) -> Option<BaseView> {
    match base {
        Some(b) => Some(b@),
        None => None,
    }
}

/// A copy of an optional base.
pub fn clone_base(base: &Option<ExecutionPayloadBaseV1>) -> (r: Option<ExecutionPayloadBaseV1>)
    ensures
        optional_base(r) == optional_base(*base),
        r is None <==> base is None,
        *base matches Some(b) ==> r is Some && r->0@ == b@,
{
    match base {
        Some(b) => Some(b.clone()),
        None => None,
    }
}

/// What a flashblock holds is what its fields hold.
pub proof fn law_views<M>(
    p: FlashblocksPayloadV1<M>,
    d: ExecutionPayloadFlashblockDeltaV1,
    b: ExecutionPayloadBaseV1,
)
    ensures
        p@.payload_id == p.payload_id,
        p@.index == p.index,
        p@.metadata == p.metadata,
        p@.diff == p.diff@,
        p.base is None <==> p@.base is None,
        p.base matches Some(base) ==> p@.base == Some(base@),
        d@.state_root == d.state_root,
        d@.receipts_root == d.receipts_root,
        d@.logs_bloom == d.logs_bloom,
        d@.gas_used == d.gas_used,
        d@.block_hash == d.block_hash,
        d@.withdrawals == d.withdrawals@,
        d@.withdrawals_root == d.withdrawals_root,
        d@.transactions.len() == d.transactions@.len(),
        forall|i: int| 0 <= i < d.transactions@.len() ==> (#[trigger] d@.transactions[i])
            == d.transactions@[i]@,
        b@.parent_beacon_block_root == b.parent_beacon_block_root,
        b@.parent_hash == b.parent_hash,
        b@.fee_recipient == b.fee_recipient,
        b@.prev_randao == b.prev_randao,
        b@.block_number == b.block_number,
        b@.gas_limit == b.gas_limit,
        b@.timestamp == b.timestamp,
        b@.extra_data == b.extra_data@,
        b@.base_fee_per_gas == b.base_fee_per_gas,
{
}

/// What goes with a flashblock besides the payload.
#[derive(Clone, Copy, Debug, PartialEq, Eq)]
pub struct FlashblockMetadata {
    /// Total fees collected by the proposer for this block.
    pub fees: U256,
    /// When the flashblock was created, in nanoseconds since the unix epoch.
    pub flashblock_timestamp: Option<i64>,
}

/// A flashblock as it goes over the wire.
#[derive(Debug, PartialEq, Eq)]
pub struct FlashblocksPayloadV1<M = FlashblockMetadata> {
    /// The payload id of the flashblock.
    pub payload_id: B64,
    /// The index of the flashblock in the block.
    pub index: u64,
    /// The modified portions of the execution payload.
    pub diff: ExecutionPayloadFlashblockDeltaV1,
    /// Additional metadata associated with the flashblock.
    pub metadata: M,
    /// The base execution payload configuration.
    pub base: Option<ExecutionPayloadBaseV1>,
}

/// What a flashblock holds.
#[verifier::ext_equal]
pub struct PayloadView<M> {
    pub payload_id: B64,
    pub index: u64,
    pub diff: DeltaView,
    pub metadata: M,
    pub base: Option<BaseView>,
}

impl<M> View for FlashblocksPayloadV1<M> {
    type V = PayloadView<M>;

    open spec fn view(&self) -> PayloadView<M> {
        PayloadView {
            payload_id: self.payload_id,
            index: self.index,
            diff: self.diff@,
            metadata: self.metadata,
            base: optional_base(self.base),
        }
    }
}

impl<M: Copy> Clone for FlashblocksPayloadV1<M> {
    fn clone(&self) -> (r: Self)
        ensures
            r@ == self@,
    {
        FlashblocksPayloadV1 {
            payload_id: self.payload_id,
            index: self.index,
            diff: self.diff.clone(),
            metadata: self.metadata,
            base: clone_base(&self.base),
        }
    }
}

}
