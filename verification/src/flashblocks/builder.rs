//! Builds payloads out of flashblocks.
//!
//! A payload is built in steps. The first steps are defined by the protocol:
//!
//! 1. The system calls are applied, unless the payload builds on one that has been built.
//! 2. The transactions of the payload attributes are executed.
//! 3. Transactions of the pool are executed, unless the attributes rule them out.
//!
//! Finally the block is put together. What executes transactions stands outside: the builder says
//! which transactions are executed, and under which index, and takes what came of them.
use crate::access_list;
use crate::assembly::{self, BlockEnv, Hardforks, Roots};
use crate::block::{self, EMPTY_REQUESTS_HASH, EMPTY_WITHDRAWALS};
use crate::bal::{self, BalView};
use crate::flashblocks::block_builder::{self, FlashblocksBlockBuilder, OpNextBlockEnvAttributes};
use crate::flashblocks::block_executor::FlashblocksBlockExecutor;
use crate::flashblocks::collection;
use crate::flashblocks::primitives::{Address, B64, B256, Bytes, ZERO_HASH};
use crate::holocene::{self, BaseFeeParams, HoloceneError};
use crate::model;
use crate::num::U256;
use crate::payload::{self, AttributesView, BuiltView, OpBuiltPayload, OpPayloadBuilderAttributes};
use crate::receipt::{self, ExecutionResult, OpReceipt, ReceiptView};
use crate::reverts::{self, BundleState};
use crate::totals::{self, ExecutedTx, Totals, TotalsView};
use crate::transaction::{self, Recovered, RecoveredView, Transaction, TxView};
use alloy_evm::revm::state::bal::Bal as RawBal;
use vstd::prelude::*;

verus! {

/// Why a payload is not built.
pub enum BuildError {
    /// The payload to build on was not executed.
    MissingPayload,
    /// The sender of a transaction cannot be recovered.
    Recovery,
    /// There is no extra data for the block.
    ExtraData(HoloceneError),
}

/// Transactions with their senders, where these can be recovered.
pub open spec fn recovered(transactions: Seq<TxView>) -> Seq<RecoveredView> {
    Seq::new(
        transactions.len(),
        |i: int| RecoveredView {
            tx: transactions[i],
            signer: collection::senders_of(transactions)[i],
        },
    )
}

/// Transactions without their senders.
pub open spec fn unsigned(transactions: Seq<RecoveredView>) -> Seq<TxView> {
    transactions.map_values(|r: RecoveredView| r.tx)
}

/// Recovers the senders of transactions.
fn recover_all(transactions: &Vec<Transaction>) -> (r: Option<Vec<Recovered>>)
    ensures
        ({
            let s = model::views(transactions@);
            match r {
                Some(v) => collection::all_recover(s) && model::views(v@) == recovered(s),
                None => !collection::all_recover(s),
            }
        }),
{
    let ghost s = model::views(transactions@);
    let senders = match collection::recover_signers(transactions) {
        Some(v) => v,
        None => {
            return None;
        },
    };
    let mut v: Vec<Recovered> = Vec::new();
    let mut i: usize = 0;
    while i < transactions.len()
        invariant
            i <= transactions.len(),
            s == model::views(transactions@),
            senders@ == collection::senders_of(s),
            model::views(v@) == recovered(s).take(i as int),
        decreases transactions.len() - i,
    {
        let ghost before = v@;
        let tx = Recovered { tx: transactions[i].clone(), signer: senders[i] };
        v.push(tx);
        proof {
            assert(s[i as int] == transactions@[i as int]@);
            assert(model::views(v@) =~= model::views(before).push(tx@));
            assert(recovered(s)[i as int] == tx@);
            assert(recovered(s).take(i + 1) =~= recovered(s).take(i as int).push(tx@));
        }
        i += 1;
    }
    assert(recovered(s).take(i as int) =~= recovered(s));
    Some(v)
}

/// The transactions that are executed for payload attributes: theirs, and those of the pool where
/// the attributes do not rule them out.
pub open spec fn to_execute(
    attributes: AttributesView,
    pool: Seq<RecoveredView>,
) -> Seq<RecoveredView> {
    if attributes.no_tx_pool {
        recovered(attributes.transactions)
    } else {
        recovered(attributes.transactions) + pool
    }
}

/// Transactions with their senders are the transactions, one for one, each with the sender that its
/// bytes say.
proof fn lemma_recovered(given: Seq<Transaction>, r: Seq<Recovered>)
    requires
        collection::all_recover(model::views(given)),
        model::views(r) == recovered(model::views(given)),
    ensures
        r.len() == given.len(),
        forall|i: int|
            0 <= i < given.len() ==> {
                &&& (#[trigger] r[i]).tx@ == given[i]@
                &&& transaction::recovered_signer(given[i].encoded@) == Some(r[i].signer)
            },
{
    let s = model::views(given);
    assert(model::views(r).len() == r.len());
    assert(recovered(s).len() == given.len());
    assert forall|i: int| 0 <= i < given.len() implies ({
        &&& (#[trigger] r[i]).tx@ == given[i]@
        &&& transaction::recovered_signer(given[i].encoded@) == Some(r[i].signer)
    }) by {
        assert(model::views(r)[i] == recovered(s)[i]);
        assert(s[i] == given[i]@);
        assert(transaction::recovered_signer(s[i].encoded) is Some);
        assert(collection::senders_of(s)[i] == transaction::recovered_signer(s[i].encoded)->0);
    }
}

/// Receipts of several blocks, one after the other.
pub open spec fn flat_receipts(receipts: Seq<Seq<ReceiptView>>) -> Seq<ReceiptView>
    decreases receipts.len(),
{
    if receipts.len() == 0 {
        Seq::empty()
    } else {
        flat_receipts(receipts.drop_last()) + receipts.last()
    }
}

/// A copy of the receipts of several blocks, one after the other.
fn flatten_receipts(receipts: &Vec<Vec<OpReceipt>>) -> (r: Vec<OpReceipt>)
    ensures
        model::views(r@) == flat_receipts(payload::receipt_views(receipts@)),
{
    let ghost all = payload::receipt_views(receipts@);
    let mut r: Vec<OpReceipt> = Vec::new();
    let mut i: usize = 0;
    while i < receipts.len()
        invariant
            i <= receipts.len(),
            all == payload::receipt_views(receipts@),
            model::views(r@) == flat_receipts(all.take(i as int)),
        decreases receipts.len() - i,
    {
        let mut more = model::clone_all(&receipts[i]);
        let ghost before = r@;
        let ghost added = more@;
        r.append(&mut more);
        proof {
            assert(all.take(i + 1).drop_last() =~= all.take(i as int));
            assert(all.take(i + 1).last() == model::views(receipts@[i as int]@));
            assert(model::views(r@) =~= model::views(before) + model::views(added));
        }
        i += 1;
    }
    assert(all.take(i as int) =~= all);
    r
}

/// What came of executing one of a payload's transactions on its own. The library carries changes to
/// the state as they are: `B` is whatever holds them.
#[derive(Debug, PartialEq, Eq)]
pub struct ParallelResult<B> {
    /// Index of the transaction in the block.
    pub index: u64,
    /// Changes to the state.
    pub bundle_state: B,
    /// What came of the transaction.
    pub exec_result: ExecutionResult,
    /// The transaction.
    pub tx: Recovered,
    /// Nonce of the sender, if the transaction is a deposit and the sender's account exists.
    pub deposit_nonce: Option<u64>,
    /// What the transaction has read and written, if that was recorded.
    pub bal: Option<RawBal>,
}

impl<B> ParallelResult<B> {
    /// The transaction and what came of it.
    pub open spec fn executed(self) -> ExecutedTx {
        ExecutedTx {
            tx: self.tx@.tx,
            result: self.exec_result@,
            deposit_nonce: self.deposit_nonce,
        }
    }

    /// What the transaction has read and written.
    pub open spec fn accessed(self) -> Seq<(Address, BalView)> {
        match self.bal {
            Some(bal) => bal::accesses_of(bal),
            None => Seq::empty(),
        }
    }
}

/// The transactions of results and what came of them, in order.
pub open spec fn executions<B>(results: Seq<ParallelResult<B>>) -> Seq<ExecutedTx> {
    results.map_values(|r: ParallelResult<B>| r.executed())
}

/// The changes to the state, in order.
pub open spec fn bundles<B>(results: Seq<ParallelResult<B>>) -> Seq<B> {
    results.map_values(|r: ParallelResult<B>| r.bundle_state)
}

/// What the transactions of results have read and written, in order.
pub open spec fn accesses<B>(results: Seq<ParallelResult<B>>) -> Seq<(Address, BalView)>
    decreases results.len(),
{
    if results.len() == 0 {
        Seq::empty()
    } else {
        accesses(results.drop_last()) + results.last().accessed()
    }
}

/// Whether results stand in the order of their indices.
pub open spec fn in_order<B>(results: Seq<ParallelResult<B>>) -> bool {
    forall|i: int, j: int| 0 <= i < j < results.len() ==> (#[trigger] results[i]).index <= (
    #[trigger] results[j]).index
}

/// Puts results into the order of their indices.
pub fn sort_results<B>(results: Vec<ParallelResult<B>>) -> (r: Vec<ParallelResult<B>>)
    ensures
        in_order(r@),
        forall|i: int, j: int|
            0 <= i < j < r@.len() ==> (#[trigger] r@[i]).index <= (#[trigger] r@[j]).index,
        r@.to_multiset() == results@.to_multiset(),
        totals::gas_of(executions(r@)) == totals::gas_of(executions(results@)),
{
    let ghost all = results@;
    let mut sorted: Vec<ParallelResult<B>> = Vec::new();
    proof {
        assert(all.take(0) =~= sorted@);
        assert(executions(all.take(0)) =~= executions(sorted@));
    }
    for result in it: results
        invariant
            it.seq() == all,
            in_order(sorted@),
            sorted@.to_multiset() == all.take(it.index() as int).to_multiset(),
            totals::gas_of(executions(sorted@)) == totals::gas_of(
                executions(all.take(it.index() as int)),
            ),
    {
        let ghost n = it.index() as int;
        let ghost before = sorted@;
        let mut i: usize = sorted.len();
        while i > 0 && sorted[i - 1].index > result.index
            invariant
                i <= sorted@.len(),
                sorted@ == before,
                forall|k: int| i <= k < before.len() ==> (#[trigger] before[k]).index > result.index,
            decreases i,
        {
            i -= 1;
        }
        sorted.insert(i, result);
        proof {
            lemma_insert_multiset(before, i as int, result);
            lemma_insert_gas(executions(before), i as int, result.executed());
            assert(executions(sorted@) =~= executions(before).insert(i as int, result.executed()));
            assert(executions(all.take(n + 1)).drop_last() =~= executions(all.take(n)));
            assert(executions(all.take(n + 1)).last() == result.executed());
            all.take(n).to_multiset_ensures();
            assert(all.take(n + 1) =~= all.take(n).push(result));
            assert forall|a: int, b: int| 0 <= a < b < sorted@.len() implies (#[trigger] sorted@[a]).index
                <= (#[trigger] sorted@[b]).index by {
                let old_a = if a < i { a } else { a - 1 };
                let old_b = if b < i { b } else { b - 1 };
                if a != i && b != i {
                    assert(before[old_a].index <= before[old_b].index);
                } else if a == i {
                    assert(before[old_b].index > result.index);
                } else if i > 0 {
                    if a < i - 1 {
                        assert(before[a].index <= before[i - 1].index);
                    }
                }
            }
        }
    }
    assert(all.take(all.len() as int) =~= all);
    sorted
}

/// Gas of transactions with one more inserted.
proof fn lemma_insert_gas(s: Seq<ExecutedTx>, i: int, x: ExecutedTx)
    requires
        0 <= i <= s.len(),
    ensures
        totals::gas_of(s.insert(i, x)) == totals::gas_of(s) + x.result.gas_used,
    decreases s.len(),
{
    let t = s.insert(i, x);
    if i == s.len() {
        assert(t.drop_last() =~= s);
    } else {
        lemma_insert_gas(s.drop_last(), i, x);
        assert(t.drop_last() =~= s.drop_last().insert(i, x));
        assert(t.last() == s.last());
    }
}

/// The elements of a sequence with one more inserted.
proof fn lemma_insert_multiset<T>(s: Seq<T>, i: int, x: T)
    requires
        0 <= i <= s.len(),
    ensures
        s.insert(i, x).to_multiset() == s.to_multiset().insert(x),
{
    let t = s.insert(i, x);
    t.to_multiset_ensures();
    assert(t.remove(i) =~= s);
    assert(t[i] == x);
    assert(t.contains(x));
    assert(t.to_multiset() =~= s.to_multiset().insert(x));
}

/// Builds a payload, on top of one that has been built or from the start.
#[derive(Debug, PartialEq, Eq)]
pub struct FlashblockBuilder {
    /// Transactions that are in the block already.
    pub committed: Vec<Recovered>,
    /// Transactions that are added to the block.
    pub added: Vec<Recovered>,
    /// Receipts, fees and gas of the block.
    pub totals: Totals,
    /// Gas that the committed transactions have used, if there is a payload that the block builds
    /// on.
    pub gas_used: Option<u64>,
    /// Index of the next transaction. It is 0 as long as the system calls have not been applied.
    pub transactions_offset: u64,
}

/// What a builder holds.
#[verifier::ext_equal]
pub struct BuilderView {
    pub committed: Seq<RecoveredView>,
    pub added: Seq<RecoveredView>,
    pub totals: TotalsView,
    pub gas_used: Option<u64>,
    pub transactions_offset: nat,
}

impl View for FlashblockBuilder {
    type V = BuilderView;

    open spec fn view(&self) -> BuilderView {
        BuilderView {
            committed: model::views(self.committed@),
            added: model::views(self.added@),
            totals: self.totals@,
            gas_used: self.gas_used,
            transactions_offset: self.transactions_offset as nat,
        }
    }
}

/// What is to be executed.
#[derive(Debug, PartialEq, Eq)]
pub struct Plan {
    /// Whether the system calls are applied first.
    pub apply_pre_execution_changes: bool,
    /// The transactions, with their indices in the block.
    pub transactions: Vec<(u64, Recovered)>,
}

/// Transactions with their indices in the block, where the first has the index `first`.
pub open spec fn indexed(transactions: Seq<RecoveredView>, first: nat) -> Seq<(u64, RecoveredView)> {
    Seq::new(transactions.len(), |i: int| ((first + i) as u64, transactions[i]))
}

/// What a built payload is, compared to the best one so far.
#[derive(Debug, PartialEq, Eq)]
pub enum BuildOutcomeKind<P> {
    /// It is better.
    Better { payload: P },
    /// It is worse than the best one.
    Aborted { fees: U256 },
    /// Building it was cancelled.
    Cancelled,
    /// It is the payload, and will stay that.
    Freeze(P),
}

impl<P> BuildOutcomeKind<P> {
    /// The payload, if there is one.
    pub open spec fn payload_view(self) -> Option<P> {
        match self {
            BuildOutcomeKind::Better { payload } => Some(payload),
            BuildOutcomeKind::Freeze(payload) => Some(payload),
            _ => None,
        }
    }

    /// The payload, if there is one.
    pub fn into_payload(self) -> (r: Option<P>)
        ensures
            r == self.payload_view(),
            self matches BuildOutcomeKind::Better { payload } ==> r == Some(payload),
            self matches BuildOutcomeKind::Freeze(payload) ==> r == Some(payload),
            self is Aborted || self is Cancelled ==> r is None,
    {
        match self {
            BuildOutcomeKind::Better { payload } => Some(payload),
            BuildOutcomeKind::Freeze(payload) => Some(payload),
            _ => None,
        }
    }
}

/// What the header of the parent block says.
#[derive(Clone, Copy, Debug, PartialEq, Eq)]
pub struct ParentHeader {
    pub hash: B256,
    pub number: u64,
    pub gas_limit: u64,
}

/// What transactions are executed in.
#[derive(Clone, Copy, Debug, PartialEq, Eq)]
pub struct EvmEnv {
    pub beneficiary: Address,
    pub basefee: u64,
    pub difficulty: U256,
    pub prevrandao: Option<B256>,
}

/// Where building on `committed` starts.
pub open spec fn start_of<B>(committed: Option<BuiltView<B>>) -> BuilderView {
    let none = Seq::<RecoveredView>::empty();
    match committed {
        Some(p) => BuilderView {
            committed: recovered(p.block.transactions),
            added: none,
            totals: TotalsView {
                receipts: flat_receipts(p.executed_block->0.receipts),
                fees: p.fees.value(),
                cumulative_gas_used: p.block.header.gas_used as nat,
            },
            gas_used: Some(p.block.header.gas_used),
            transactions_offset: p.block.transactions.len() + 1,
        },
        None => BuilderView {
            committed: none,
            added: none,
            totals: TotalsView {
                receipts: Seq::empty(),
                fees: 0,
                cumulative_gas_used: 0,
            },
            gas_used: None,
            transactions_offset: 0,
        },
    }
}

impl FlashblockBuilder {
    /// Starts to build on top of `committed`, if there is such a payload.
    pub fn new<B>(committed: Option<&OpBuiltPayload<B>>) -> (r: Result<Self, BuildError>)
        requires
            committed is Some ==> committed->0@.block.transactions.len() < usize::MAX,
        ensures
            match r {
                Ok(b) => {
                    &&& committed is Some ==> committed->0@.executed_block is Some
                        && collection::all_recover(committed->0@.block.transactions)
                    &&& b@ == start_of(
                        match committed {
                            Some(p) => Some(p@),
                            None => None::<BuiltView<B>>,
                        },
                    )
                },
                Err(BuildError::MissingPayload) => committed is Some
                    && committed->0@.executed_block is None,
                Err(BuildError::Recovery) => committed is Some && committed->0@.executed_block is Some
                    && !collection::all_recover(committed->0@.block.transactions),
                Err(BuildError::ExtraData(_)) => false,
            },
            r matches Ok(b) ==> {
                &&& b.added@.len() == 0
                &&& committed is None ==> {
                    &&& b.committed@.len() == 0
                    &&& b.totals.receipts@.len() == 0
                    &&& b.totals.fees.value() == 0
                    &&& b.totals.cumulative_gas_used == 0
                    &&& b.gas_used is None
                    &&& b.transactions_offset == 0
                }
                &&& committed matches Some(p) ==> {
                    let given = p.block.transactions@;
                    &&& b.totals.fees == p.fees
                    &&& b.totals.cumulative_gas_used == p.block.header.gas_used
                    &&& b.gas_used == Some(p.block.header.gas_used)
                    &&& b.transactions_offset == given.len() + 1
                    &&& b.committed@.len() == given.len()
                    &&& forall|i: int|
                        0 <= i < given.len() ==> {
                            &&& (#[trigger] b.committed@[i]).tx@ == given[i]@
                            &&& transaction::recovered_signer(given[i].encoded@) == Some(
                                b.committed@[i].signer,
                            )
                        }
                }
            },
    {
        match committed {
            Some(payload) => {
                let executed = match &payload.executed_block {
                    Some(executed) => executed,
                    None => {
                        return Err(BuildError::MissingPayload);
                    },
                };
                let receipts = flatten_receipts(&executed.receipts);
                let transactions_offset = (payload.block.transactions.len() + 1) as u64;
                let committed = match recover_all(&payload.block.transactions) {
                    Some(v) => v,
                    None => {
                        return Err(BuildError::Recovery);
                    },
                };
                let gas_used = payload.block.header.gas_used;
                let b = FlashblockBuilder {
                    committed,
                    added: Vec::new(),
                    totals: Totals { receipts, fees: payload.fees, cumulative_gas_used: gas_used },
                    gas_used: Some(gas_used),
                    transactions_offset,
                };
                assert(b@ =~= start_of(Some(payload@)));
                proof {
                    lemma_recovered(payload.block.transactions@, b.committed@);
                }
                Ok(b)
            },
            None => {
                let b = FlashblockBuilder {
                    committed: Vec::new(),
                    added: Vec::new(),
                    totals: Totals::new(),
                    gas_used: None,
                    transactions_offset: 0,
                };
                assert(b@ =~= start_of(None::<BuiltView<B>>));
                Ok(b)
            },
        }
    }

    /// What is to be executed for the payload attributes: the system calls, unless the block builds
    /// on a payload, then the transactions of the attributes, and then those of the pool, unless the
    /// attributes rule them out, with indices that follow those of the block.
    pub fn plan(
        &mut self,
        attributes: &OpPayloadBuilderAttributes,
        pool: Vec<Recovered>,
    ) -> (r: Result<Plan, BuildError>)
        requires
            old(self)@.transactions_offset + attributes@.transactions.len() + pool@.len() < u64::MAX,
        ensures
            match r {
                Ok(plan) => {
                    let first = if old(self)@.transactions_offset == 0 {
                        1
                    } else {
                        old(self)@.transactions_offset
                    };
                    &&& collection::all_recover(attributes@.transactions)
                    &&& plan.apply_pre_execution_changes == (old(self)@.transactions_offset == 0)
                    &&& plan.transactions@.map_values(|e: (u64, Recovered)| (e.0, e.1@)) == indexed(
                        to_execute(attributes@, model::views(pool@)),
                        first,
                    )
                    &&& final(self)@ == (BuilderView {
                        added: to_execute(attributes@, model::views(pool@)),
                        transactions_offset: first,
                        ..old(self)@
                    })
                },
                Err(BuildError::Recovery) => {
                    &&& !collection::all_recover(attributes@.transactions)
                    &&& final(self)@ == (BuilderView {
                        transactions_offset: if old(self)@.transactions_offset == 0 {
                            1
                        } else {
                            old(self)@.transactions_offset
                        },
                        ..old(self)@
                    })
                },
                Err(_) => false,
            },
            r matches Ok(plan) ==> {
                let given = attributes.transactions@;
                let first = if old(self).transactions_offset == 0 {
                    1
                } else {
                    old(self).transactions_offset as int
                };
                let t = plan.transactions@;
                &&& plan.apply_pre_execution_changes <==> old(self).transactions_offset == 0
                &&& attributes.no_tx_pool ==> t.len() == given.len()
                &&& !attributes.no_tx_pool ==> t.len() == given.len() + pool@.len()
                &&& forall|i: int| 0 <= i < t.len() ==> (#[trigger] t[i]).0 == first + i
                &&& forall|i: int|
                    0 <= i < given.len() ==> {
                        &&& (#[trigger] t[i]).1.tx@ == given[i]@
                        &&& transaction::recovered_signer(given[i].encoded@) == Some(t[i].1.signer)
                    }
                &&& forall|i: int|
                    given.len() <= i < t.len() ==> (#[trigger] t[i]).1@ == pool@[i
                        - given.len()]@
                &&& final(self).added@.len() == t.len()
                &&& forall|i: int|
                    0 <= i < t.len() ==> (#[trigger] final(self).added@[i])@ == t[i].1@
                &&& final(self).committed == old(self).committed
                &&& final(self).totals == old(self).totals
                &&& final(self).gas_used == old(self).gas_used
            },
    {
        let apply_pre_execution_changes = self.transactions_offset == 0;
        if apply_pre_execution_changes {
            self.transactions_offset = self.transactions_offset + 1;
        }
        let first = self.transactions_offset;
        let mut added = match recover_all(&attributes.transactions) {
            Some(v) => v,
            None => {
                return Err(BuildError::Recovery);
            },
        };
        let ghost all = to_execute(attributes@, model::views(pool@));
        let ghost signed = added@;
        let ghost given = attributes.transactions@;
        let ghost offered = pool@;
        proof {
            lemma_recovered(given, signed);
        }
        if !attributes.no_tx_pool {
            let mut pool = pool;
            let ghost own = added@;
            let ghost best = pool@;
            added.append(&mut pool);
            assert(model::views(added@) =~= model::views(own) + model::views(best));
            assert(added@ =~= signed + offered);
        } else {
            assert(added@ =~= signed);
        }
        assert(model::views(added@) == all);
        assert(model::views(added@).len() == added@.len());
        let mut transactions: Vec<(u64, Recovered)> = Vec::new();
        let mut i: usize = 0;
        while i < added.len()
            invariant
                i <= added.len(),
                model::views(added@) == all,
                first + added.len() <= u64::MAX,
                transactions@.len() == i,
                forall|k: int| 0 <= k < i ==> (#[trigger] transactions@[k]).0 == first + k,
                forall|k: int| 0 <= k < i ==> (#[trigger] transactions@[k]).1@ == added@[k]@,
                transactions@.map_values(|e: (u64, Recovered)| (e.0, e.1@)) == indexed(
                    all,
                    first as nat,
                ).take(i as int),
            decreases added.len() - i,
        {
            let tx = added[i].clone();
            let ghost before = transactions@.map_values(|e: (u64, Recovered)| (e.0, e.1@));
            let index = first + i as u64;
            transactions.push((index, tx));
            proof {
                assert(all[i as int] == added@[i as int]@);
                let want = indexed(all, first as nat);
                assert(want[i as int] == (index, tx@));
                assert(want.take(i + 1) =~= want.take(i as int).push((index, tx@)));
                assert(transactions@.map_values(|e: (u64, Recovered)| (e.0, e.1@)) =~= before.push(
                    (index, tx@),
                ));
            }
            i += 1;
        }
        proof {
            let want = indexed(all, first as nat);
            assert(want.take(i as int) =~= want);
        }
        proof {
            let t = transactions@;
            assert forall|k: int| 0 <= k < given.len() implies ({
                &&& (#[trigger] t[k]).1.tx@ == given[k]@
                &&& transaction::recovered_signer(given[k].encoded@) == Some(t[k].1.signer)
            }) by {
                assert(t[k].1@ == added@[k]@);
                assert(added@[k] == signed[k]);
                assert(signed[k].tx@ == given[k]@);
            }
            assert forall|k: int| given.len() <= k < t.len() implies (#[trigger] t[k]).1@
                == offered[k - given.len()]@ by {
                assert(t[k].1@ == added@[k]@);
            }
        }
        self.added = added;
        Ok(Plan { apply_pre_execution_changes, transactions })
    }

    /// Takes what came of executing the transactions, in the order of their indices: adds their gas,
    /// fees and receipts, and gives the changes to the state, with which `extend` extends those in
    /// `start`, and what the transactions have read and written.
    pub fn collect<B, F: Fn(B, &B) -> B>(
        &mut self,
        results: Vec<ParallelResult<B>>,
        base_fee: u64,
        canyon: bool,
        start: B,
        extend: F,
    ) -> (r: (B, RawBal))
        requires
            forall|a: B, b: &B| #[trigger] extend.requires((a, b)),
            old(self)@.totals.cumulative_gas_used + totals::gas_of(executions(results@)) <= u64::MAX,
            totals::all_pay(executions(results@), base_fee),
        ensures
            bal::distinct(bal::accesses_of(r.1)),
            final(self).committed == old(self).committed,
            final(self).added == old(self).added,
            final(self).gas_used == old(self).gas_used,
            final(self).transactions_offset == old(self).transactions_offset,
            final(self).totals.receipts@.len() == old(self).totals.receipts@.len() + results@.len(),
            final(self).totals.cumulative_gas_used == old(self).totals.cumulative_gas_used
                + totals::gas_of(executions(results@)),
            exists|s: Seq<ParallelResult<B>>|
                {
                    &&& #[trigger] in_order(s)
                    &&& s.to_multiset() == results@.to_multiset()
                    &&& final(self)@ == (BuilderView {
                        totals: old(self)@.totals.with_all(executions(s), base_fee, canyon),
                        ..old(self)@
                    })
                    &&& reverts::extended(extend, start, bundles(s), r.0)
                    &&& bal::accesses_of(r.1) == bal::merged(accesses(s))
                },
    {
        let sorted = sort_results(results);
        let ghost all = sorted@;
        let ghost first = self@;
        let ghost before = *self;
        proof {
            lemma_pay_permuted(results@, all, base_fee);
        }
        let mut bundle = start;
        let mut list = bal::empty_bal();
        proof {
            assert(executions(all.take(0)) =~= Seq::empty());
            assert(accesses(all.take(0)) =~= Seq::empty());
            assert(bundles(all.take(0)) =~= Seq::empty());
            reverts::lemma_not_extended(extend, start);
            assert(bal::accesses_of(list) =~= bal::merged(Seq::empty()));
        }
        for result in it: sorted
            invariant
                it.seq() == all,
                totals::all_pay(executions(all), base_fee),
                first.totals.cumulative_gas_used + totals::gas_of(executions(all)) <= u64::MAX,
                self@ == (BuilderView {
                    totals: first.totals.with_all(
                        executions(all.take(it.index() as int)),
                        base_fee,
                        canyon,
                    ),
                    ..first
                }),
                forall|a: B, b: &B| #[trigger] extend.requires((a, b)),
                reverts::extended(extend, start, bundles(all.take(it.index() as int)), bundle),
                self.committed == before.committed,
                self.added == before.added,
                self.gas_used == before.gas_used,
                self.transactions_offset == before.transactions_offset,
                self.totals.receipts@.len() == before.totals.receipts@.len() + it.index(),
                bal::accesses_of(list) == bal::merged(accesses(all.take(it.index() as int))),
        {
            let ghost n = it.index() as int;
            let ghost now = all.take(n);
            let ghost next = all.take(n + 1);
            proof {
                assert(next.drop_last() =~= now);
                assert(next.last() == result);
                assert(executions(next).drop_last() =~= executions(now));
                assert(executions(next).last() == result.executed());
                assert(executions(all)[n] == result.executed());
                lemma_gas_prefix(executions(all), n + 1);
                assert(executions(next) =~= executions(all).take(n + 1));
                totals::law_cumulative_gas(first.totals, executions(now), base_fee, canyon);
                assert(bundles(next) =~= bundles(now).push(result.bundle_state));
            }
            let ParallelResult { index: _, bundle_state, exec_result, tx, deposit_nonce, bal } = result;
            match bal {
                Some(more) => {
                    bal::extend(&mut list, more, Ghost(accesses(now)));
                },
                None => {
                    assert(accesses(next) =~= accesses(now));
                },
            }
            let ghost mid = bundle;
            bundle = extend(bundle, &bundle_state);
            proof {
                reverts::lemma_extended_push(
                    extend,
                    start,
                    bundles(now),
                    mid,
                    bundle_state,
                    bundle,
                );
            }
            self.totals.add_transaction(&tx.tx, exec_result, deposit_nonce, base_fee, canyon);
        }
        proof {
            assert(all.take(all.len() as int) =~= all);
            assert(in_order(all));
            all.to_multiset_ensures();
            results@.to_multiset_ensures();
            assert(executions(all.take(all.len() as int)) =~= executions(all));
            totals::law_cumulative_gas(first.totals, executions(all), base_fee, canyon);
            bal::law_accounts_distinct(accesses(all));
        }
        (bundle, list)
    }
}

/// Gas of the first transactions is no more than that of all.
pub proof fn lemma_gas_prefix(executed: Seq<ExecutedTx>, n: int)
    requires
        0 <= n <= executed.len(),
    ensures
        totals::gas_of(executed.take(n)) <= totals::gas_of(executed),
    decreases executed.len(),
{
    if n < executed.len() {
        lemma_gas_prefix(executed.drop_last(), n);
        assert(executed.drop_last().take(n) =~= executed.take(n));
    } else {
        assert(executed.take(n) =~= executed);
    }
}

/// That all transactions pay does not depend on their order.
proof fn lemma_pay_permuted<B>(
    a: Seq<ParallelResult<B>>,
    b: Seq<ParallelResult<B>>,
    base_fee: u64,
)
    requires
        a.to_multiset() == b.to_multiset(),
        totals::all_pay(executions(a), base_fee),
    ensures
        totals::all_pay(executions(b), base_fee),
{
    a.to_multiset_ensures();
    b.to_multiset_ensures();
    assert forall|i: int| 0 <= i < executions(b).len() implies (#[trigger] executions(b)[i]).pays(base_fee) by {
        assert(b.contains(b[i]));
        assert(b.to_multiset().count(b[i]) > 0);
        assert(a.to_multiset().count(b[i]) > 0);
        assert(a.contains(b[i]));
        let k = choose|k: int| 0 <= k < a.len() && a[k] == b[i];
        assert(executions(a)[k].pays(base_fee));
    }
}

/// The gas limit of the next block: that of the payload attributes, or else the parent's.
pub open spec fn next_gas_limit(attributes: AttributesView, parent: ParentHeader) -> u64 {
    match attributes.gas_limit {
        Some(limit) => limit,
        None => parent.gas_limit,
    }
}

/// Whether `env` is what a block for the payload attributes is built in. The header of a block whose
/// attributes have no gas limit has 0 in its place.
pub open spec fn is_env(
    env: BlockEnv,
    attributes: AttributesView,
    parent: ParentHeader,
    evm: EvmEnv,
    extra_data: Seq<u8>,
) -> bool {
    &&& env.parent_hash == parent.hash
    &&& env.number == parent.number + 1
    &&& env.beneficiary == evm.beneficiary
    &&& env.timestamp == attributes.timestamp
    &&& env.gas_limit == match attributes.gas_limit {
        Some(limit) => limit,
        None => 0,
    }
    &&& env.basefee == evm.basefee
    &&& env.difficulty == evm.difficulty
    &&& env.prevrandao == evm.prevrandao
    &&& env.extra_data@ == extra_data
    &&& env.parent_beacon_block_root == attributes.parent_beacon_block_root
    &&& env.da_footprint is None
}

/// Whether `built` is the payload that a builder stands for, in `env`, where `accounts` is what the
/// block's transactions have read and written, and `bundle` holds the changes to the state.
pub open spec fn is_payload_of<I, S, R>(
    built: BuiltView<BundleState<I, S, R>>,
    b: BuilderView,
    id: B64,
    env: BlockEnv,
    forks: Hardforks,
    roots: Roots,
    accounts: Seq<(Address, BalView)>,
    bundle: BundleState<I, S, R>,
) -> bool {
    let flat = (built.executed_block->0).bundle;
    &&& reverts::is_flat(flat, bundle)
    &&& built.block.block_access_list matches Some(list) && access_list::is_list(list, accounts)
    &&& assembly::is_built(
        built,
        id,
        env,
        forks,
        roots,
        block_transactions(b),
        b.totals,
        built.block.block_access_list,
        flat,
    )
}

/// The transactions of the block that a builder stands for.
pub open spec fn block_transactions(b: BuilderView) -> Seq<TxView> {
    unsigned(b.committed + b.added)
}

impl FlashblockBuilder {
    /// Builds the payload on top of what executing its transactions has led to, where `bundle` holds
    /// the changes to the state, which come down to these roots, and `bal` what the transactions have
    /// read and written. Without transactions from the pool the payload stays as it is.
    pub fn build<I, S, R>(
        self,
        attributes: &OpPayloadBuilderAttributes,
        parent: ParentHeader,
        evm_env: EvmEnv,
        extra_data: Bytes,
        forks: Hardforks,
        roots: Roots,
        bal: RawBal,
        bundle: BundleState<I, S, R>,
    ) -> (r: BuildOutcomeKind<OpBuiltPayload<BundleState<I, S, R>>>)
        requires
            parent.number < u64::MAX,
        ensures
            exists|env: BlockEnv| #[trigger]
                is_env(env, attributes@, parent, evm_env, extra_data@) && match r {
                    BuildOutcomeKind::Freeze(p) => attributes.no_tx_pool && is_payload_of(
                        p@,
                        self@,
                        attributes.id,
                        env,
                        forks,
                        roots,
                        bal::accesses_of(bal),
                        bundle,
                    ),
                    BuildOutcomeKind::Better { payload } => !attributes.no_tx_pool && is_payload_of(
                        payload@,
                        self@,
                        attributes.id,
                        env,
                        forks,
                        roots,
                        bal::accesses_of(bal),
                        bundle,
                    ),
                    _ => false,
                },
            r is Freeze <==> attributes.no_tx_pool,
            r is Better <==> !attributes.no_tx_pool,
            ({
                let p = match r {
                    BuildOutcomeKind::Freeze(p) => p,
                    BuildOutcomeKind::Better { payload } => payload,
                    _ => arbitrary(),
                };
                let header = p.block.header;
                let t = p.block.transactions@;
                let committed = self.committed@;
                let added = self.added@;
                &&& p.id == attributes.id
                &&& p.fees == self.totals.fees
                &&& p.block.hash == block::header_hash(header@)
                &&& header.parent_hash == parent.hash
                &&& header.number == parent.number + 1
                &&& header.timestamp == attributes.timestamp
                &&& header.extra_data == extra_data
                &&& header.parent_beacon_block_root == attributes.parent_beacon_block_root
                &&& header.beneficiary == evm_env.beneficiary
                &&& header.base_fee_per_gas == Some(evm_env.basefee)
                &&& header.difficulty == evm_env.difficulty
                &&& evm_env.prevrandao matches Some(randao) ==> header.mix_hash == randao
                &&& evm_env.prevrandao is None ==> header.mix_hash == ZERO_HASH
                &&& attributes.gas_limit matches Some(limit) ==> header.gas_limit == limit
                &&& attributes.gas_limit is None ==> header.gas_limit == 0
                &&& header.gas_used == self.totals.cumulative_gas_used
                &&& header.state_root == roots.state_root
                &&& header.receipts_root == roots.receipts_root
                &&& forks.isthmus ==> header.withdrawals_root == Some(roots.message_passer_root)
                &&& !forks.isthmus && forks.canyon ==> header.withdrawals_root == Some(
                    EMPTY_WITHDRAWALS,
                )
                &&& !forks.isthmus && !forks.canyon ==> header.withdrawals_root is None
                &&& forks.isthmus ==> header.requests_hash == Some(EMPTY_REQUESTS_HASH)
                &&& !forks.isthmus ==> header.requests_hash is None
                &&& forks.jovian || forks.ecotone ==> header.blob_gas_used == Some(0u64)
                    && header.excess_blob_gas == Some(0u64)
                &&& !forks.jovian && !forks.ecotone ==> header.blob_gas_used is None
                    && header.excess_blob_gas is None
                &&& header.transactions_root == block::ordered_root(
                    Seq::new(t.len(), |i: int| t[i].encoded@),
                )
                &&& header.logs_bloom == receipt::bloom_of(
                    receipt::logs_of(model::views(self.totals.receipts@)),
                )
                &&& t.len() == committed.len() + added.len()
                &&& forall|i: int|
                    0 <= i < committed.len() ==> (#[trigger] t[i])@ == committed[i].tx@
                &&& forall|i: int|
                    committed.len() <= i < t.len() ==> (#[trigger] t[i])@ == added[i
                        - committed.len()].tx@
                &&& p.block.withdrawals is Some
                &&& p.block.withdrawals->0@.len() == 0
                &&& p.block.block_access_list matches Some(list) && {
                    &&& header.block_access_list_hash == Some(
                        access_list::list_hash(access_list::accounts_of(list)),
                    )
                    &&& access_list::is_list(access_list::accounts_of(list), bal::accesses_of(bal))
                }
                &&& p.executed_block matches Some(executed) && {
                    &&& executed.receipts@ == seq![self.totals.receipts]
                    &&& executed.bundle.changes == bundle.changes
                    &&& executed.bundle.reverts@.len() == 1
                    &&& reverts::transition(executed.bundle.reverts@[0]@) == reverts::flattened(
                        reverts::history(bundle.reverts@),
                    )
                }
            }),
    {
        let env = BlockEnv {
            parent_hash: parent.hash,
            number: parent.number + 1,
            beneficiary: evm_env.beneficiary,
            timestamp: attributes.timestamp,
            gas_limit: match attributes.gas_limit {
                Some(limit) => limit,
                None => 0,
            },
            basefee: evm_env.basefee,
            difficulty: evm_env.difficulty,
            prevrandao: evm_env.prevrandao,
            extra_data,
            parent_beacon_block_root: attributes.parent_beacon_block_root,
            da_footprint: None,
        };
        assert(is_env(env, attributes@, parent, evm_env, extra_data@));
        let mut all = self.committed;
        let mut added = self.added;
        all.append(&mut added);
        assert(model::views(all@) =~= self@.committed + self@.added);
        let (transactions, _) = block_builder::into_parts(all);
        proof {
            let t = transactions@;
            let both = self.committed@ + self.added@;
            assert(model::views(t) == unsigned(model::views(all@)));
            assert(model::views(t).len() == t.len());
            assert(all@ =~= both);
            assert forall|i: int| 0 <= i < t.len() implies (#[trigger] t[i])@ == both[i].tx@ by {
                assert(model::views(t)[i] == unsigned(model::views(all@))[i]);
            }
        }
        let list = access_list::into_list(bal);
        let payload = assembly::assemble_payload(
            attributes.id,
            env,
            forks,
            roots,
            transactions,
            self.totals,
            Some(list),
            bundle.flatten(),
        );
        if attributes.no_tx_pool {
            BuildOutcomeKind::Freeze(payload)
        } else {
            BuildOutcomeKind::Better { payload }
        }
    }

    /// The block that executing the payload's transactions starts with: what it is executed with,
    /// and the transactions, receipts and gas that are in it already.
    pub fn block_builder(
        attributes: &OpPayloadBuilderAttributes,
        parent: ParentHeader,
        forks: Hardforks,
        base_fee_params: BaseFeeParams,
        transactions: Vec<Recovered>,
        receipts: Vec<OpReceipt>,
        cumulative_gas_used: Option<u64>,
    ) -> (r: Result<FlashblocksBlockBuilder, BuildError>)
        ensures
            match r {
                Ok(b) => {
                    &&& b.parent == parent
                    &&& b.ctx.timestamp == attributes.timestamp
                    &&& b.ctx.suggested_fee_recipient == attributes.suggested_fee_recipient
                    &&& b.ctx.prev_randao == attributes.prev_randao
                    &&& b.ctx.gas_limit == next_gas_limit(attributes@, parent)
                    &&& attributes.gas_limit matches Some(limit) ==> b.ctx.gas_limit == limit
                    &&& attributes.gas_limit is None ==> b.ctx.gas_limit == parent.gas_limit
                    &&& b.ctx.parent_beacon_block_root == attributes.parent_beacon_block_root
                    &&& if forks.holocene {
                        &&& attributes.eip_1559_params is Some
                        &&& holocene::is_default(attributes.eip_1559_params->0@)
                            ==> holocene::default_fits(base_fee_params)
                        &&& b.ctx.extra_data@ == holocene::extra_data(
                            attributes.eip_1559_params->0@,
                            base_fee_params,
                        )
                    } else {
                        b.ctx.extra_data@.len() == 0
                    }
                    &&& b.executor@.receipts == model::views(receipts@)
                    &&& cumulative_gas_used matches Some(gas) ==> b.executor.gas_used == gas
                    &&& cumulative_gas_used is None ==> b.executor.gas_used == 0
                    &&& forks.holocene ==> b.ctx.extra_data@.len() == 9 && b.ctx.extra_data@[0] == 0
                    &&& b.executor@.gas_used == match cumulative_gas_used {
                        Some(gas) => gas as nat,
                        None => 0,
                    }
                    &&& b.transactions == transactions
                },
                Err(BuildError::ExtraData(HoloceneError::NoParams)) => forks.holocene
                    && attributes.eip_1559_params is None,
                Err(BuildError::ExtraData(HoloceneError::Params(_))) => {
                    &&& forks.holocene
                    &&& attributes.eip_1559_params is Some
                    &&& holocene::is_default(attributes.eip_1559_params->0@)
                    &&& !holocene::default_fits(base_fee_params)
                },
                Err(_) => false,
            },
    {
        let extra_data = if forks.holocene {
            match holocene::get_holocene_extra_data(attributes.eip_1559_params, base_fee_params) {
                Ok(data) => data,
                Err(e) => {
                    return Err(BuildError::ExtraData(e));
                },
            }
        } else {
            Vec::new()
        };
        let ctx = OpNextBlockEnvAttributes {
            timestamp: attributes.timestamp,
            suggested_fee_recipient: attributes.suggested_fee_recipient,
            prev_randao: attributes.prev_randao,
            gas_limit: match attributes.gas_limit {
                Some(limit) => limit,
                None => parent.gas_limit,
            },
            parent_beacon_block_root: attributes.parent_beacon_block_root,
            extra_data,
        };
        let executor = FlashblocksBlockExecutor::new().with_receipts(receipts);
        let executor = match cumulative_gas_used {
            Some(gas) => executor.with_gas_used(gas),
            None => executor,
        };
        assert(executor@.receipts =~= model::views(receipts@));
        Ok(FlashblocksBlockBuilder::new(ctx, parent, executor, transactions))
    }
}

/// A payload that is built on top of another one keeps the transactions and receipts of that one,
/// in front of its own.
pub proof fn law_builds_on<B>(
    committed: BuiltView<B>,
    added: Seq<RecoveredView>,
    executed: Seq<ExecutedTx>,
    base_fee: u64,
    canyon: bool,
)
    requires
        committed.executed_block is Some,
        committed.block.header.gas_used + totals::gas_of(executed) <= u64::MAX,
    ensures
        ({
            let start = start_of(Some(committed));
            let end = BuilderView {
                added,
                totals: start.totals.with_all(executed, base_fee, canyon),
                ..start
            };
            let n = committed.block.transactions.len() as int;
            let before = flat_receipts(committed.executed_block->0.receipts);
            &&& block_transactions(end).take(n) == committed.block.transactions
            &&& block_transactions(end).skip(n) == unsigned(added)
            &&& end.totals.receipts.take(before.len() as int) == before
            &&& end.totals.cumulative_gas_used == committed.block.header.gas_used + totals::gas_of(
                executed,
            )
        }),
{
    let start = start_of(Some(committed));
    totals::law_cumulative_gas(start.totals, executed, base_fee, canyon);
    let all = unsigned(start.committed + added);
    let n = committed.block.transactions.len() as int;
    assert(all.take(n) =~= committed.block.transactions);
    assert(all.skip(n) =~= unsigned(added));
}

/// Indices count a block's transactions from 1, behind the system calls: the index of an added
/// transaction is its place in the block, plus 1, whether the block builds on a payload or not.
pub proof fn law_indices<B>(committed: Option<BuiltView<B>>, added: Seq<RecoveredView>, i: int)
    requires
        0 <= i < added.len(),
        start_of(committed).transactions_offset + added.len() < u64::MAX,
    ensures
        ({
            let start = start_of(committed);
            let first = if start.transactions_offset == 0 {
                1
            } else {
                start.transactions_offset
            };
            let place = start.committed.len() + i;
            &&& indexed(added, first)[i].0 == place + 1
            &&& block_transactions(BuilderView { added, ..start })[place] == added[i].tx
        }),
{
}

/// The header of a payload that is built says what the payload attributes ask for, and which block it
/// stands on.
pub proof fn law_header_of_attributes<I, S, R>(
    built: BuiltView<BundleState<I, S, R>>,
    b: BuilderView,
    attributes: AttributesView,
    parent: ParentHeader,
    evm: EvmEnv,
    extra_data: Seq<u8>,
    env: BlockEnv,
    forks: Hardforks,
    roots: Roots,
    accounts: Seq<(Address, BalView)>,
    bundle: BundleState<I, S, R>,
)
    requires
        is_env(env, attributes, parent, evm, extra_data),
        is_payload_of(built, b, attributes.id, env, forks, roots, accounts, bundle),
    ensures
        ({
            let header = built.block.header;
            &&& built.id == attributes.id
            &&& header.parent_beacon_block_root == attributes.parent_beacon_block_root
            &&& header.timestamp == attributes.timestamp
            &&& attributes.gas_limit matches Some(limit) ==> header.gas_limit == limit
            &&& header.parent_hash == parent.hash
            &&& header.number == parent.number + 1
            &&& header.extra_data == extra_data
            &&& header.beneficiary == evm.beneficiary
            &&& header.base_fee_per_gas == Some(evm.basefee)
            &&& header.difficulty == evm.difficulty
            &&& evm.prevrandao matches Some(randao) ==> header.mix_hash == randao
            &&& header.state_root == roots.state_root
            &&& header.receipts_root == roots.receipts_root
            &&& header.gas_used == b.totals.cumulative_gas_used
            &&& built.fees.value() == b.totals.fees
            &&& built.block.hash == block::header_hash(header)
            &&& built.block.transactions == unsigned(b.committed) + unsigned(b.added)
            &&& forks.jovian || forks.ecotone ==> header.blob_gas_used == Some(0u64)
            &&& built.block.block_access_list matches Some(list) && access_list::is_list(
                list,
                accounts,
            )
            &&& built.executed_block matches Some(e) && {
                &&& e.receipts == seq![b.totals.receipts]
                &&& e.bundle.changes == bundle.changes
                &&& e.bundle.reverts@.len() == 1
            }
        }),
{
    assert(unsigned(b.committed + b.added) =~= unsigned(b.committed) + unsigned(b.added));
}

/// Payloads whose headers are the same were built for the same time, on the same block and on the same
/// beacon block, with the same extra data: the header, and so the block's hash, goes by all of these.
pub proof fn law_same_header<I, S, R>(
    one: BuiltView<BundleState<I, S, R>>,
    one_env: BlockEnv,
    one_attributes: AttributesView,
    other: BuiltView<BundleState<I, S, R>>,
    other_env: BlockEnv,
    other_attributes: AttributesView,
    b: BuilderView,
    one_parent: ParentHeader,
    other_parent: ParentHeader,
    one_extra: Seq<u8>,
    other_extra: Seq<u8>,
    evm: EvmEnv,
    forks: Hardforks,
    roots: Roots,
    accounts: Seq<(Address, BalView)>,
    bundle: BundleState<I, S, R>,
)
    requires
        is_env(one_env, one_attributes, one_parent, evm, one_extra),
        is_env(other_env, other_attributes, other_parent, evm, other_extra),
        is_payload_of(one, b, one_attributes.id, one_env, forks, roots, accounts, bundle),
        is_payload_of(other, b, other_attributes.id, other_env, forks, roots, accounts, bundle),
        one.block.header == other.block.header,
    ensures
        one_attributes.parent_beacon_block_root == other_attributes.parent_beacon_block_root,
        one_attributes.timestamp == other_attributes.timestamp,
        one_attributes.gas_limit is Some && other_attributes.gas_limit is Some
            ==> one_attributes.gas_limit == other_attributes.gas_limit,
        one_parent.hash == other_parent.hash,
        one_parent.number == other_parent.number,
        one_extra == other_extra,
{
    law_header_of_attributes(
        one,
        b,
        one_attributes,
        one_parent,
        evm,
        one_extra,
        one_env,
        forks,
        roots,
        accounts,
        bundle,
    );
    law_header_of_attributes(
        other,
        b,
        other_attributes,
        other_parent,
        evm,
        other_extra,
        other_env,
        forks,
        roots,
        accounts,
        bundle,
    );
}

/// The attributes' transactions are executed in any case, first and in order; those of the pool are
/// exactly if the attributes do not rule them out.
pub proof fn law_to_execute(attributes: AttributesView, pool: Seq<RecoveredView>)
    ensures
        ({
            let t = to_execute(attributes, pool);
            let n = attributes.transactions.len() as int;
            &&& t.len() >= n
            &&& unsigned(t.take(n)) == attributes.transactions
            &&& attributes.no_tx_pool ==> t.len() == n
            &&& !attributes.no_tx_pool ==> t.skip(n) == pool
            &&& forall|i: int|
                0 <= i < n && transaction::recovered_signer(attributes.transactions[i].encoded)
                    is Some ==> transaction::recovered_signer(attributes.transactions[i].encoded)
                    == Some((#[trigger] t[i]).signer)
        }),
{
    let t = to_execute(attributes, pool);
    let n = attributes.transactions.len() as int;
    assert(unsigned(t.take(n)) =~= attributes.transactions);
    if !attributes.no_tx_pool {
        assert(t.skip(n) =~= pool);
    }
}

/// What is made of results is made of each, in order.
pub proof fn law_results<B>(results: Seq<ParallelResult<B>>, more: Seq<ParallelResult<B>>)
    ensures
        executions(results).len() == results.len(),
        bundles(results).len() == results.len(),
        forall|i: int| #![trigger results[i]]
            0 <= i < results.len() ==> {
                &&& executions(results)[i].tx == results[i].tx.tx@
                &&& executions(results)[i].result.success == results[i].exec_result.success
                &&& executions(results)[i].result.gas_used == results[i].exec_result.gas_used
                &&& executions(results)[i].result.logs == model::views(results[i].exec_result.logs@)
                &&& executions(results)[i].deposit_nonce == results[i].deposit_nonce
                &&& bundles(results)[i] == results[i].bundle_state
            },
        accesses(results + more) == accesses(results) + accesses(more),
        results.len() == 1 ==> {
            &&& results[0].bal matches Some(bal) ==> accesses(results) == bal::accesses_of(bal)
            &&& results[0].bal is None ==> accesses(results).len() == 0
        },
    decreases more.len(),
{
    if more.len() == 0 {
        assert(results + more =~= results);
    } else {
        law_results(results, more.drop_last());
        assert((results + more).drop_last() =~= results + more.drop_last());
        assert(accesses(results + more) =~= accesses(results) + accesses(more));
    }
    if results.len() == 1 {
        reveal_with_fuel(accesses, 2);
        assert(results.drop_last() =~= Seq::empty());
        assert(accesses(results) =~= results[0].accessed());
    }
}

/// A block that builds on a payload starts with all of the payload's transactions and receipts, and
/// with its fees and gas; a block that builds on none starts with nothing.
pub proof fn law_start<B>(p: BuiltView<B>)
    requires
        p.executed_block is Some,
    ensures
        ({
            let b = start_of(Some(p));
            &&& unsigned(b.committed) == p.block.transactions
            &&& b.added.len() == 0
            &&& b.totals.fees == p.fees.value()
            &&& b.totals.cumulative_gas_used == p.block.header.gas_used
            &&& b.gas_used == Some(p.block.header.gas_used)
            &&& b.transactions_offset == p.block.transactions.len() + 1
            &&& (p.executed_block->0).receipts.len() == 1 ==> b.totals.receipts == (
            p.executed_block->0).receipts[0]
        }),
        start_of(None::<BuiltView<B>>).committed.len() == 0,
        start_of(None::<BuiltView<B>>).totals.receipts.len() == 0,
        start_of(None::<BuiltView<B>>).totals.fees == 0,
        start_of(None::<BuiltView<B>>).totals.cumulative_gas_used == 0,
        start_of(None::<BuiltView<B>>).transactions_offset == 0,
{
    let b = start_of(Some(p));
    let receipts = (p.executed_block->0).receipts;
    assert(unsigned(b.committed) =~= p.block.transactions);
    if receipts.len() == 1 {
        reveal_with_fuel(flat_receipts, 2);
        assert(receipts.drop_last() =~= Seq::empty());
        assert(flat_receipts(receipts) =~= receipts[0]);
    }
}

/// The receipts of several blocks are those of each, one after the other.
pub proof fn law_flat_receipts(a: Seq<Seq<ReceiptView>>, b: Seq<Seq<ReceiptView>>)
    ensures
        flat_receipts(a + b) == flat_receipts(a) + flat_receipts(b),
        a.len() == 1 ==> flat_receipts(a) == a[0],
    decreases b.len(),
{
    if b.len() == 0 {
        assert(a + b =~= a);
    } else {
        law_flat_receipts(a, b.drop_last());
        assert((a + b).drop_last() =~= a + b.drop_last());
        assert(flat_receipts(a + b) =~= flat_receipts(a) + flat_receipts(b));
    }
    if a.len() == 1 {
        reveal_with_fuel(flat_receipts, 2);
        assert(a.drop_last() =~= Seq::empty());
        assert(flat_receipts(a) =~= a[0]);
    }
}

}
