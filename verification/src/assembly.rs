//! Puts blocks together.
use crate::access_list::{self, ChangesView};
use crate::block::{
    self, EMPTY_REQUESTS_HASH, EMPTY_WITHDRAWALS, Header, HeaderView, SealedBlock,
};
use crate::flashblocks::primitives::{self, Address, B64, B256, Bytes, ZERO_HASH};
use crate::model;
use crate::num::U256;
use crate::payload::{self, BuiltView, ExecutedBlock, OpBuiltPayload};
use crate::receipt;
use crate::totals::{Totals, TotalsView};
use crate::transaction::{Transaction, TxView};
use alloy_eip7928::bal::Bal as RawList;
use vstd::prelude::*;

verus! {

/// Which upgrades of the chain are active at a block's time.
#[derive(Clone, Copy, Debug, PartialEq, Eq)]
pub struct Hardforks {
    pub canyon: bool,
    pub ecotone: bool,
    pub holocene: bool,
    pub isthmus: bool,
    pub jovian: bool,
}

/// What a block is built in.
#[derive(Debug, PartialEq, Eq)]
pub struct BlockEnv {
    /// Hash of the parent block.
    pub parent_hash: B256,
    /// Number of the block.
    pub number: u64,
    /// Address that the fees go to.
    pub beneficiary: Address,
    /// Timestamp of the block.
    pub timestamp: u64,
    /// Gas limit of the block.
    pub gas_limit: u64,
    /// Base fee of the block.
    pub basefee: u64,
    /// Difficulty of the block.
    pub difficulty: U256,
    /// Randomness of the block.
    pub prevrandao: Option<B256>,
    /// Extra data of the block.
    pub extra_data: Bytes,
    /// Root of the parent beacon block.
    pub parent_beacon_block_root: Option<B256>,
    /// Data that the block's transactions take, as far as it is known.
    pub da_footprint: Option<u64>,
}

/// What the state and the receipts of a block come down to.
#[derive(Clone, Copy, Debug, PartialEq, Eq)]
pub struct Roots {
    /// Root of the state behind the block.
    pub state_root: B256,
    /// Root of the block's receipts.
    pub receipts_root: B256,
    /// Storage root of the message passer behind the block.
    pub message_passer_root: B256,
}

/// The withdrawals root of a block: since Isthmus the storage root of the message passer, and since
/// Canyon that of no withdrawals.
pub open spec fn withdrawals_root(forks: Hardforks, message_passer_root: B256) -> Option<B256> {
    if forks.isthmus {
        Some(message_passer_root)
    } else if forks.canyon {
        Some(EMPTY_WITHDRAWALS)
    } else {
        None
    }
}

/// The requests hash of a block: since Isthmus that of no requests.
pub open spec fn requests_hash(forks: Hardforks) -> Option<B256> {
    if forks.isthmus {
        Some(EMPTY_REQUESTS_HASH)
    } else {
        None
    }
}

/// The blob gas of a block: since Jovian the data that its transactions take, and since Ecotone
/// none.
pub open spec fn blob_gas_used(forks: Hardforks, da_footprint: Option<u64>) -> Option<u64> {
    if forks.jovian {
        match da_footprint {
            Some(n) => Some(n),
            None => Some(0),
        }
    } else if forks.ecotone {
        Some(0)
    } else {
        None
    }
}

/// The excess blob gas of a block: none since Ecotone.
pub open spec fn excess_blob_gas(forks: Hardforks) -> Option<u64> {
    if forks.jovian || forks.ecotone {
        Some(0)
    } else {
        None
    }
}

/// The hash of a block's access list, if it has one.
pub open spec fn hash_of(list: Option<Seq<ChangesView>>) -> Option<B256> {
    match list {
        Some(list) => Some(access_list::list_hash(list)),
        None => None,
    }
}

/// Whether `header` is the header of the block that is built in `env`, with these transactions,
/// totals and access list.
pub open spec fn is_header(
    header: HeaderView,
    env: BlockEnv,
    forks: Hardforks,
    roots: Roots,
    transactions: Seq<TxView>,
    totals: TotalsView,
    list: Option<Seq<ChangesView>>,
) -> bool {
    &&& header.parent_hash == env.parent_hash
    &&& header.beneficiary == env.beneficiary
    &&& header.state_root == roots.state_root
    &&& header.transactions_root == block::ordered_root(block::encodings(transactions))
    &&& header.receipts_root == roots.receipts_root
    &&& header.logs_bloom == receipt::bloom_of(receipt::logs_of(totals.receipts))
    &&& header.difficulty == env.difficulty
    &&& header.number == env.number
    &&& header.gas_limit == env.gas_limit
    &&& header.gas_used == totals.cumulative_gas_used
    &&& header.timestamp == env.timestamp
    &&& header.extra_data == env.extra_data@
    &&& header.mix_hash == primitives::or_zero(env.prevrandao)
    &&& header.base_fee_per_gas == Some(env.basefee)
    &&& header.withdrawals_root == withdrawals_root(forks, roots.message_passer_root)
    &&& header.blob_gas_used == blob_gas_used(forks, env.da_footprint)
    &&& header.excess_blob_gas == excess_blob_gas(forks)
    &&& header.parent_beacon_block_root == env.parent_beacon_block_root
    &&& header.requests_hash == requests_hash(forks)
    &&& header.block_access_list_hash == hash_of(list)
}

/// Whether `built` is the payload of the block that is built in `env`, with these transactions,
/// totals and access list, where `bundle` holds the changes to the state.
pub open spec fn is_built<B>(
    built: BuiltView<B>,
    id: B64,
    env: BlockEnv,
    forks: Hardforks,
    roots: Roots,
    transactions: Seq<TxView>,
    totals: TotalsView,
    list: Option<Seq<ChangesView>>,
    bundle: B,
) -> bool {
    &&& built.id == id
    &&& built.block.wf()
    &&& is_header(built.block.header, env, forks, roots, transactions, totals, list)
    &&& built.block.transactions == transactions
    &&& built.block.withdrawals is Some
    &&& built.block.withdrawals->0.len() == 0
    &&& built.block.block_access_list == list
    &&& built.fees.value() == totals.fees
    &&& built.executed_block is Some
    &&& built.executed_block->0.bundle == bundle
    &&& built.executed_block->0.receipts == seq![totals.receipts]
}

/// The header of the block that is built in `env`, with these transactions, totals and access list.
fn assemble_header(
    env: BlockEnv,
    forks: Hardforks,
    roots: Roots,
    transactions: &Vec<Transaction>,
    totals: &Totals,
    list: &Option<RawList>,
) -> (r: Header)
    ensures
        is_header(
            r@,
            env,
            forks,
            roots,
            model::views(transactions@),
            totals@,
            block::list_view(*list),
        ),
        ({
            let header = r;
            &&& header.parent_hash == env.parent_hash
            &&& header.number == env.number
            &&& header.beneficiary == env.beneficiary
            &&& header.timestamp == env.timestamp
            &&& header.gas_limit == env.gas_limit
            &&& header.gas_used == totals.cumulative_gas_used
            &&& header.base_fee_per_gas == Some(env.basefee)
            &&& header.difficulty == env.difficulty
            &&& header.extra_data == env.extra_data
            &&& header.parent_beacon_block_root == env.parent_beacon_block_root
            &&& env.prevrandao matches Some(randao) ==> header.mix_hash == randao
            &&& env.prevrandao is None ==> header.mix_hash == ZERO_HASH
            &&& header.state_root == roots.state_root
            &&& header.receipts_root == roots.receipts_root
            &&& header.transactions_root == block::ordered_root(
                Seq::new(transactions@.len(), |i: int| transactions@[i].encoded@),
            )
            &&& header.logs_bloom == receipt::bloom_of(
                receipt::logs_of(model::views(totals.receipts@)),
            )
            &&& forks.isthmus ==> header.withdrawals_root == Some(roots.message_passer_root)
            &&& !forks.isthmus && forks.canyon ==> header.withdrawals_root == Some(
                EMPTY_WITHDRAWALS,
            )
            &&& !forks.isthmus && !forks.canyon ==> header.withdrawals_root is None
            &&& forks.isthmus ==> header.requests_hash == Some(EMPTY_REQUESTS_HASH)
            &&& !forks.isthmus ==> header.requests_hash is None
            &&& forks.jovian && env.da_footprint is Some ==> header.blob_gas_used
                == env.da_footprint
            &&& forks.jovian && env.da_footprint is None ==> header.blob_gas_used == Some(0u64)
            &&& !forks.jovian && forks.ecotone ==> header.blob_gas_used == Some(0u64)
            &&& !forks.jovian && !forks.ecotone ==> header.blob_gas_used is None
            &&& forks.jovian || forks.ecotone ==> header.excess_blob_gas == Some(0u64)
            &&& !forks.jovian && !forks.ecotone ==> header.excess_blob_gas is None
            &&& *list is None ==> header.block_access_list_hash is None
            &&& *list matches Some(l) ==> header.block_access_list_hash == Some(
                access_list::list_hash(access_list::accounts_of(l)),
            )
        }),
{
    let withdrawals_root = if forks.isthmus {
        Some(roots.message_passer_root)
    } else if forks.canyon {
        Some(EMPTY_WITHDRAWALS)
    } else {
        None
    };
    let requests_hash = if forks.isthmus {
        Some(EMPTY_REQUESTS_HASH)
    } else {
        None
    };
    let (excess_blob_gas, blob_gas_used) = if forks.jovian {
        match env.da_footprint {
            Some(n) => (Some(0), Some(n)),
            None => (Some(0), Some(0)),
        }
    } else if forks.ecotone {
        (Some(0), Some(0))
    } else {
        (None, None)
    };
    let block_access_list_hash = match list {
        Some(list) => Some(access_list::block_access_list_hash(list)),
        None => None,
    };
    Header {
        parent_hash: env.parent_hash,
        beneficiary: env.beneficiary,
        state_root: roots.state_root,
        transactions_root: block::calculate_transaction_root(transactions),
        receipts_root: roots.receipts_root,
        logs_bloom: receipt::logs_bloom(&totals.receipts),
        difficulty: env.difficulty,
        number: env.number,
        gas_limit: env.gas_limit,
        gas_used: totals.cumulative_gas_used,
        timestamp: env.timestamp,
        extra_data: env.extra_data,
        mix_hash: primitives::unwrap_or_zero(env.prevrandao),
        base_fee_per_gas: Some(env.basefee),
        withdrawals_root,
        blob_gas_used,
        excess_blob_gas,
        parent_beacon_block_root: env.parent_beacon_block_root,
        requests_hash,
        block_access_list_hash,
    }
}

/// The payload of the block that is built in `env`, with these transactions, totals and access list,
/// where `bundle` holds the changes to the state. The block has no withdrawals.
pub fn assemble_payload<B>(
    id: B64,
    env: BlockEnv,
    forks: Hardforks,
    roots: Roots,
    transactions: Vec<Transaction>,
    totals: Totals,
    list: Option<RawList>,
    bundle: B,
) -> (r: OpBuiltPayload<B>)
    ensures
        is_built(
            r@,
            id,
            env,
            forks,
            roots,
            model::views(transactions@),
            totals@,
            block::list_view(list),
            bundle,
        ),
        r.id == id,
        r.fees == totals.fees,
        r.block.hash == block::header_hash(r.block.header@),
        r.block.transactions == transactions,
        r.block.withdrawals is Some,
        r.block.withdrawals->0@.len() == 0,
        r.block.block_access_list == list,
        r.executed_block is Some,
        (r.executed_block->0).bundle == bundle,
        (r.executed_block->0).receipts@ == seq![totals.receipts],
        ({
            let header = r.block.header;
            &&& header.parent_hash == env.parent_hash
            &&& header.number == env.number
            &&& header.beneficiary == env.beneficiary
            &&& header.timestamp == env.timestamp
            &&& header.gas_limit == env.gas_limit
            &&& header.gas_used == totals.cumulative_gas_used
            &&& header.base_fee_per_gas == Some(env.basefee)
            &&& header.difficulty == env.difficulty
            &&& header.extra_data == env.extra_data
            &&& header.parent_beacon_block_root == env.parent_beacon_block_root
            &&& env.prevrandao matches Some(randao) ==> header.mix_hash == randao
            &&& env.prevrandao is None ==> header.mix_hash == ZERO_HASH
            &&& header.state_root == roots.state_root
            &&& header.receipts_root == roots.receipts_root
            &&& header.transactions_root == block::ordered_root(
                Seq::new(transactions@.len(), |i: int| transactions@[i].encoded@),
            )
            &&& header.logs_bloom == receipt::bloom_of(
                receipt::logs_of(model::views(totals.receipts@)),
            )
            &&& forks.isthmus ==> header.withdrawals_root == Some(roots.message_passer_root)
            &&& !forks.isthmus && forks.canyon ==> header.withdrawals_root == Some(
                EMPTY_WITHDRAWALS,
            )
            &&& !forks.isthmus && !forks.canyon ==> header.withdrawals_root is None
            &&& forks.isthmus ==> header.requests_hash == Some(EMPTY_REQUESTS_HASH)
            &&& !forks.isthmus ==> header.requests_hash is None
            &&& forks.jovian && env.da_footprint is Some ==> header.blob_gas_used
                == env.da_footprint
            &&& forks.jovian && env.da_footprint is None ==> header.blob_gas_used == Some(0u64)
            &&& !forks.jovian && forks.ecotone ==> header.blob_gas_used == Some(0u64)
            &&& !forks.jovian && !forks.ecotone ==> header.blob_gas_used is None
            &&& forks.jovian || forks.ecotone ==> header.excess_blob_gas == Some(0u64)
            &&& !forks.jovian && !forks.ecotone ==> header.excess_blob_gas is None
            &&& list is None ==> header.block_access_list_hash is None
            &&& list matches Some(l) ==> header.block_access_list_hash == Some(
                access_list::list_hash(access_list::accounts_of(l)),
            )
        }),
{
    let header = assemble_header(env, forks, roots, &transactions, &totals, &list);
    let block = SealedBlock::seal(header, transactions, Some(Vec::new()), list);
    let fees = totals.fees;
    let ghost views = model::views(totals.receipts@);
    let mut receipts = Vec::new();
    receipts.push(totals.receipts);
    assert(payload::receipt_views(receipts@) =~= seq![views]);
    OpBuiltPayload {
        id,
        block,
        fees,
        executed_block: Some(ExecutedBlock { bundle, receipts }),
    }
}

/// The header of a block says what the block was built in and what came of it: two blocks with one
/// header were built in the same environment, with the same roots, gas and access list.
pub proof fn law_header_tells(
    header: HeaderView,
    env: BlockEnv,
    forks: Hardforks,
    roots: Roots,
    transactions: Seq<TxView>,
    totals: TotalsView,
    list: Option<Seq<ChangesView>>,
)
    requires
        is_header(header, env, forks, roots, transactions, totals, list),
    ensures
        env.parent_hash == header.parent_hash,
        env.number == header.number,
        env.beneficiary == header.beneficiary,
        env.timestamp == header.timestamp,
        env.gas_limit == header.gas_limit,
        header.base_fee_per_gas == Some(env.basefee),
        env.difficulty == header.difficulty,
        env.extra_data@ == header.extra_data,
        env.parent_beacon_block_root == header.parent_beacon_block_root,
        env.prevrandao matches Some(randao) ==> header.mix_hash == randao,
        env.prevrandao is None ==> header.mix_hash == ZERO_HASH,
        roots.state_root == header.state_root,
        roots.receipts_root == header.receipts_root,
        totals.cumulative_gas_used == header.gas_used,
        header.transactions_root == block::ordered_root(
            transactions.map_values(|tx: TxView| tx.encoded),
        ),
        header.logs_bloom == receipt::bloom_of(receipt::logs_of(totals.receipts)),
        list is None <==> header.block_access_list_hash is None,
        list matches Some(l) ==> header.block_access_list_hash == Some(access_list::list_hash(l)),
{
    assert(block::encodings(transactions) =~= transactions.map_values(|tx: TxView| tx.encoded));
}

/// Which fields a header has goes by the upgrades: each upgrade adds some and takes none away.
pub proof fn law_header_of_upgrades(
    header: HeaderView,
    env: BlockEnv,
    forks: Hardforks,
    roots: Roots,
    transactions: Seq<TxView>,
    totals: TotalsView,
    list: Option<Seq<ChangesView>>,
)
    requires
        is_header(header, env, forks, roots, transactions, totals, list),
    ensures
        header.withdrawals_root is Some <==> forks.canyon || forks.isthmus,
        forks.isthmus ==> header.withdrawals_root == Some(roots.message_passer_root),
        forks.canyon && !forks.isthmus ==> header.withdrawals_root == Some(EMPTY_WITHDRAWALS),
        header.requests_hash is Some <==> forks.isthmus,
        forks.isthmus ==> header.requests_hash == Some(EMPTY_REQUESTS_HASH),
        header.blob_gas_used is Some <==> forks.ecotone || forks.jovian,
        header.excess_blob_gas is Some <==> forks.ecotone || forks.jovian,
        header.excess_blob_gas matches Some(n) ==> n == 0,
        header.blob_gas_used matches Some(n) ==> n == if forks.jovian && env.da_footprint is Some {
            env.da_footprint->0
        } else {
            0
        },
{
}

/// A built payload is the block that its header is of, with the transactions that its root is of, and
/// with one list of receipts, whose logs its filter is of.
pub proof fn law_built_is_whole<B>(
    built: BuiltView<B>,
    id: B64,
    env: BlockEnv,
    forks: Hardforks,
    roots: Roots,
    transactions: Seq<TxView>,
    totals: TotalsView,
    list: Option<Seq<ChangesView>>,
    bundle: B,
)
    requires
        is_built(built, id, env, forks, roots, transactions, totals, list, bundle),
    ensures
        built.id == id,
        built.fees.value() == totals.fees,
        built.block.hash == block::header_hash(built.block.header),
        built.block.transactions == transactions,
        built.block.header.transactions_root == block::ordered_root(
            block::encodings(built.block.transactions),
        ),
        built.block.withdrawals matches Some(w) && w.len() == 0,
        built.block.block_access_list == list,
        built.block.header.block_access_list_hash == match built.block.block_access_list {
            Some(l) => Some(access_list::list_hash(l)),
            None => None,
        },
        built.block.header.gas_used == totals.cumulative_gas_used,
        built.executed_block matches Some(e) && {
            &&& e.bundle == bundle
            &&& e.receipts.len() == 1
            &&& e.receipts[0] == totals.receipts
            &&& built.block.header.logs_bloom == receipt::bloom_of(
                receipt::logs_of(e.receipts[0]),
            )
        },
{
}

}
