//! Blocks.
use crate::access_list::{self, ChangesView};
use crate::flashblocks::primitives::{Address, B256, Bloom, Bytes, Withdrawal};
use crate::model;
use crate::num::U256;
use crate::transaction::{Transaction, TxView};
use alloy_consensus::Header as ConsensusHeader;
use alloy_eip7928::bal::Bal as RawList;
use alloy_primitives::{B256 as Word, U256 as Integer};
use vstd::prelude::*;

verus! {

/// Withdrawals root of a block without withdrawals.
pub const EMPTY_WITHDRAWALS: [u8; 32] = [
    0x56, 0xe8, 0x1f, 0x17, 0x1b, 0xcc, 0x55, 0xa6, 0xff, 0x83, 0x45, 0xe6, 0x92, 0xc0, 0xf8, 0x6e,
    0x5b, 0x48, 0xe0, 0x1b, 0x99, 0x6c, 0xad, 0xc0, 0x01, 0x62, 0x2f, 0xb5, 0xe3, 0x63, 0xb4, 0x21,
];

/// Requests hash of a block without requests.
pub const EMPTY_REQUESTS_HASH: [u8; 32] = [
    0xe3, 0xb0, 0xc4, 0x42, 0x98, 0xfc, 0x1c, 0x14, 0x9a, 0xfb, 0xf4, 0xc8, 0x99, 0x6f, 0xb9, 0x24,
    0x27, 0xae, 0x41, 0xe4, 0x64, 0x9b, 0x93, 0x4c, 0xa4, 0x95, 0x99, 0x1b, 0x78, 0x52, 0xb8, 0x55,
];

/// The header of a block.
///
/// The ommers hash and the nonce are not held: they are those that every block has had since the
/// merge.
#[derive(Debug, PartialEq, Eq)]
pub struct Header {
    pub parent_hash: B256,
    pub beneficiary: Address,
    pub state_root: B256,
    pub transactions_root: B256,
    pub receipts_root: B256,
    pub logs_bloom: Bloom,
    pub difficulty: U256,
    pub number: u64,
    pub gas_limit: u64,
    pub gas_used: u64,
    pub timestamp: u64,
    pub extra_data: Bytes,
    pub mix_hash: B256,
    pub base_fee_per_gas: Option<u64>,
    pub withdrawals_root: Option<B256>,
    pub blob_gas_used: Option<u64>,
    pub excess_blob_gas: Option<u64>,
    pub parent_beacon_block_root: Option<B256>,
    pub requests_hash: Option<B256>,
    pub block_access_list_hash: Option<B256>,
}

/// What a header holds.
#[verifier::ext_equal]
pub struct HeaderView {
    pub parent_hash: B256,
    pub beneficiary: Address,
    pub state_root: B256,
    pub transactions_root: B256,
    pub receipts_root: B256,
    pub logs_bloom: Bloom,
    pub difficulty: U256,
    pub number: u64,
    pub gas_limit: u64,
    pub gas_used: u64,
    pub timestamp: u64,
    pub extra_data: Seq<u8>,
    pub mix_hash: B256,
    pub base_fee_per_gas: Option<u64>,
    pub withdrawals_root: Option<B256>,
    pub blob_gas_used: Option<u64>,
    pub excess_blob_gas: Option<u64>,
    pub parent_beacon_block_root: Option<B256>,
    pub requests_hash: Option<B256>,
    pub block_access_list_hash: Option<B256>,
}

impl View for Header {
    type V = HeaderView;

    open spec fn view(&self) -> HeaderView {
        HeaderView {
            parent_hash: self.parent_hash,
            beneficiary: self.beneficiary,
            state_root: self.state_root,
            transactions_root: self.transactions_root,
            receipts_root: self.receipts_root,
            logs_bloom: self.logs_bloom,
            difficulty: self.difficulty,
            number: self.number,
            gas_limit: self.gas_limit,
            gas_used: self.gas_used,
            timestamp: self.timestamp,
            extra_data: self.extra_data@,
            mix_hash: self.mix_hash,
            base_fee_per_gas: self.base_fee_per_gas,
            withdrawals_root: self.withdrawals_root,
            blob_gas_used: self.blob_gas_used,
            excess_blob_gas: self.excess_blob_gas,
            parent_beacon_block_root: self.parent_beacon_block_root,
            requests_hash: self.requests_hash,
            block_access_list_hash: self.block_access_list_hash,
        }
    }
}

impl Clone for Header {
    fn clone(&self) -> (r: Self)
        ensures
            r@ == self@,
    {
        let extra_data = self.extra_data.clone();
        assert(extra_data@ =~= self.extra_data@);
        Header {
            parent_hash: self.parent_hash,
            beneficiary: self.beneficiary,
            state_root: self.state_root,
            transactions_root: self.transactions_root,
            receipts_root: self.receipts_root,
            logs_bloom: self.logs_bloom,
            difficulty: self.difficulty,
            number: self.number,
            gas_limit: self.gas_limit,
            gas_used: self.gas_used,
            timestamp: self.timestamp,
            extra_data,
            mix_hash: self.mix_hash,
            base_fee_per_gas: self.base_fee_per_gas,
            withdrawals_root: self.withdrawals_root,
            blob_gas_used: self.blob_gas_used,
            excess_blob_gas: self.excess_blob_gas,
            parent_beacon_block_root: self.parent_beacon_block_root,
            requests_hash: self.requests_hash,
            block_access_list_hash: self.block_access_list_hash,
        }
    }
}

/// What `Header::hash_slow` of `alloy_consensus` gives for a header.
pub uninterp spec fn header_hash(header: HeaderView) -> B256;

/// The hash of a header.
///
/// Calls `Header::hash_slow` of `alloy_consensus`, with the ommers hash and the nonce that its
/// `Header::default` has: the contract claims that the hash depends on the header's fields alone.
#[verifier::external_body]
pub(crate) fn hash_slow(h: Header) -> (r: B256)
    ensures
        r == header_hash(h@),
{
    let [parent_hash, state_root, transactions_root, receipts_root, mix_hash] =
        [h.parent_hash, h.state_root, h.transactions_root, h.receipts_root, h.mix_hash].map(Word::new);
    let [withdrawals_root, parent_beacon_block_root, requests_hash, block_access_list_hash] =
        [h.withdrawals_root, h.parent_beacon_block_root, h.requests_hash, h.block_access_list_hash].map(|x| x.map(Word::new));
    let Header { number, gas_limit, gas_used, timestamp, base_fee_per_gas, blob_gas_used, excess_blob_gas, .. } = h;
    ConsensusHeader {
        parent_hash, state_root, transactions_root, receipts_root, mix_hash, withdrawals_root,
        parent_beacon_block_root, requests_hash, block_access_list_hash, number, gas_limit,
        gas_used, timestamp, base_fee_per_gas, blob_gas_used, excess_blob_gas,
        beneficiary: h.beneficiary.into(), logs_bloom: h.logs_bloom.into(),
        extra_data: h.extra_data.into(), difficulty: Integer::from_limbs(h.difficulty.limbs),
        ..Default::default()
    }.hash_slow().0
}

/// What `ordered_trie_root_encoded` of `alloy_consensus::proofs` gives for encoded items.
pub uninterp spec fn ordered_root(items: Seq<Seq<u8>>) -> B256;

/// The root of the trie of encoded items by their index.
///
/// Calls `ordered_trie_root_encoded` of `alloy_consensus::proofs`, which `calculate_transaction_root`
/// and `ordered_trie_root_with_encoder` agree with on items that are encoded already: the contract
/// claims that the root depends on the items alone.
#[verifier::external_body]
pub(crate) fn ordered_trie_root(items: &Vec<Bytes>) -> (r: B256)
    ensures
        r == ordered_root(model::views(items@)),
{
    alloy_consensus::proofs::ordered_trie_root_encoded(items.as_slice()).0
}

/// The bytes of transactions.
pub open spec fn encodings(transactions: Seq<TxView>) -> Seq<Seq<u8>> {
    transactions.map_values(|tx: TxView| tx.encoded)
}

/// The bytes of transactions are those of each, in order.
pub proof fn law_encodings(a: Seq<TxView>, b: Seq<TxView>)
    ensures
        encodings(a).len() == a.len(),
        forall|i: int| 0 <= i < a.len() ==> (#[trigger] encodings(a)[i]) == a[i].encoded,
        encodings(a + b) == encodings(a) + encodings(b),
{
    assert(encodings(a + b) =~= encodings(a) + encodings(b));
}

/// The transactions root of a block.
pub fn calculate_transaction_root(transactions: &Vec<Transaction>) -> (r: B256)
    ensures
        r == ordered_root(encodings(model::views(transactions@))),
        r == ordered_root(
            Seq::new(transactions@.len(), |i: int| transactions@[i].encoded@),
        ),
{
    let mut items: Vec<Bytes> = Vec::new();
    let ghost all = encodings(model::views(transactions@));
    let mut i: usize = 0;
    while i < transactions.len()
        invariant
            i <= transactions.len(),
            all == encodings(model::views(transactions@)),
            model::views(items@) == all.take(i as int),
        decreases transactions.len() - i,
    {
        let encoded = transactions[i].encoded.clone();
        assert(encoded@ =~= transactions@[i as int].encoded@);
        let ghost before = items@;
        items.push(encoded);
        assert(model::views(items@) =~= model::views(before).push(encoded@));
        assert(all[i as int] == encoded@);
        i += 1;
    }
    assert(all.take(i as int) =~= all);
    assert(all =~= Seq::new(transactions@.len(), |k: int| transactions@[k].encoded@));
    ordered_trie_root(&items)
}

/// A block with its hash.
#[derive(Clone, Debug, PartialEq, Eq)]
pub struct SealedBlock {
    /// Header of the block.
    pub header: Header,
    /// Hash of the block.
    pub hash: B256,
    /// Transactions of the block.
    pub transactions: Vec<Transaction>,
    /// Withdrawals of the block, if it is of an age that has them.
    pub withdrawals: Option<Vec<Withdrawal>>,
    /// What the block's transactions have read and written, if the block says so.
    pub block_access_list: Option<RawList>,
}

/// What a sealed block holds.
#[verifier::ext_equal]
pub struct SealedView {
    pub header: HeaderView,
    pub hash: B256,
    pub transactions: Seq<TxView>,
    pub withdrawals: Option<Seq<Withdrawal>>,
    pub block_access_list: Option<Seq<ChangesView>>,
}

/// What an optional access list holds.
pub open spec fn list_view(list: Option<RawList>) -> Option<Seq<ChangesView>> {
    match list {
        Some(list) => Some(access_list::accounts_of(list)),
        None => None,
    }
}

impl SealedView {
    /// Whether the block's hash is that of its header.
    pub open spec fn wf(self) -> bool {
        self.hash == header_hash(self.header)
    }
}

impl View for SealedBlock {
    type V = SealedView;

    open spec fn view(&self) -> SealedView {
        SealedView {
            header: self.header@,
            hash: self.hash,
            transactions: model::views(self.transactions@),
            withdrawals: match self.withdrawals {
                Some(w) => Some(w@),
                None => None,
            },
            block_access_list: list_view(self.block_access_list),
        }
    }
}

impl SealedBlock {
    /// The block of a header, transactions, withdrawals and an access list, with the hash of the
    /// header.
    pub fn seal(
        header: Header,
        transactions: Vec<Transaction>,
        withdrawals: Option<Vec<Withdrawal>>,
        block_access_list: Option<RawList>,
    ) -> (r: SealedBlock)
        ensures
            r@.wf(),
            r.hash == header_hash(header@),
            r.header == header,
            r.transactions == transactions,
            r.withdrawals == withdrawals,
            r.block_access_list == block_access_list,
    {
        let hash = hash_slow(header.clone());
        SealedBlock { header, hash, transactions, withdrawals, block_access_list }
    }
}

/// What a block holds is what its fields hold.
pub proof fn law_views(h: Header, b: SealedBlock)
    ensures
        h@.parent_hash == h.parent_hash,
        h@.beneficiary == h.beneficiary,
        h@.state_root == h.state_root,
        h@.transactions_root == h.transactions_root,
        h@.receipts_root == h.receipts_root,
        h@.logs_bloom == h.logs_bloom,
        h@.difficulty == h.difficulty,
        h@.number == h.number,
        h@.gas_limit == h.gas_limit,
        h@.gas_used == h.gas_used,
        h@.timestamp == h.timestamp,
        h@.extra_data == h.extra_data@,
        h@.mix_hash == h.mix_hash,
        h@.base_fee_per_gas == h.base_fee_per_gas,
        h@.withdrawals_root == h.withdrawals_root,
        h@.blob_gas_used == h.blob_gas_used,
        h@.excess_blob_gas == h.excess_blob_gas,
        h@.parent_beacon_block_root == h.parent_beacon_block_root,
        h@.requests_hash == h.requests_hash,
        h@.block_access_list_hash == h.block_access_list_hash,
        b@.header == b.header@,
        b@.hash == b.hash,
        b@.transactions.len() == b.transactions@.len(),
        forall|i: int| 0 <= i < b.transactions@.len() ==> (#[trigger] b@.transactions[i])
            == b.transactions@[i]@,
        b.withdrawals is None <==> b@.withdrawals is None,
        b.withdrawals matches Some(w) ==> b@.withdrawals == Some(w@),
        b.block_access_list is None <==> b@.block_access_list is None,
        b.block_access_list matches Some(list) ==> b@.block_access_list == Some(
            access_list::accounts_of(list),
        ),
        b@.wf() <==> b.hash == header_hash(b.header@),
{
}

/// A block with the senders of its transactions.
#[derive(Debug, PartialEq, Eq)]
pub struct RecoveredBlock {
    pub block: SealedBlock,
    pub senders: Vec<Address>,
}

}
