//! Block builders that go on from what previous flashblocks have led to.
use crate::flashblocks::block_executor::FlashblocksBlockExecutor;
use crate::flashblocks::builder::{self, ParentHeader};
use crate::flashblocks::primitives::{Address, B256, Bytes};
use crate::model;
use crate::receipt::OpReceipt;
use crate::reverts::{self, BundleState};
use crate::transaction::{Recovered, RecoveredView, Transaction};
use vstd::prelude::*;

verus! {

/// What the next block is executed with.
#[derive(Debug, PartialEq, Eq)]
pub struct OpNextBlockEnvAttributes {
    /// Timestamp of the block.
    pub timestamp: u64,
    /// Address that the fees go to.
    pub suggested_fee_recipient: Address,
    /// Randomness of the block.
    pub prev_randao: B256,
    /// Gas limit of the block.
    pub gas_limit: u64,
    /// Root of the parent beacon block.
    pub parent_beacon_block_root: Option<B256>,
    /// Extra data of the block.
    pub extra_data: Bytes,
}

/// A block under construction.
#[derive(Debug, PartialEq, Eq)]
pub struct FlashblocksBlockBuilder {
    /// What the block is executed with.
    pub ctx: OpNextBlockEnvAttributes,
    /// The block that it builds on.
    pub parent: ParentHeader,
    /// What has been executed.
    pub executor: FlashblocksBlockExecutor,
    /// Transactions of the block.
    pub transactions: Vec<Recovered>,
}

/// The senders of transactions.
pub open spec fn signers(transactions: Seq<RecoveredView>) -> Seq<Address> {
    transactions.map_values(|r: RecoveredView| r.signer)
}

/// What a block is assembled from, beside its receipts and the changes to the state.
#[derive(Debug, PartialEq, Eq)]
pub struct BlockAssemblerInput {
    /// What the block is executed with.
    pub ctx: OpNextBlockEnvAttributes,
    /// The block that it builds on.
    pub parent: ParentHeader,
    /// Transactions of the block.
    pub transactions: Vec<Transaction>,
    /// Gas that they have used.
    pub gas_used: u64,
    /// Root of the state behind the block.
    pub state_root: B256,
}

/// What finishing a block leads to: the block and the senders of its transactions, what executing
/// them has led to, and the changes to the state, with what they are hashed to. The library carries
/// the block and that as they are: `K` and `H` are whatever holds them.
#[derive(Debug, PartialEq, Eq)]
pub struct BlockBuilderOutcome<I, S, R, H, K> {
    pub block: K,
    pub senders: Vec<Address>,
    pub receipts: Vec<OpReceipt>,
    pub gas_used: u64,
    pub bundle: BundleState<I, S, R>,
    pub hashed_state: H,
}

impl FlashblocksBlockBuilder {
    /// A block with what is in it so far.
    pub fn new(
        ctx: OpNextBlockEnvAttributes,
        parent: ParentHeader,
        executor: FlashblocksBlockExecutor,
        transactions: Vec<Recovered>,
    ) -> (r: Self)
        ensures
            r == (FlashblocksBlockBuilder { ctx, parent, executor, transactions }),
    {
        FlashblocksBlockBuilder { ctx, parent, executor, transactions }
    }

    /// Whether `input` is what the block is assembled from, where its state has that root.
    pub open spec fn is_input(self, input: BlockAssemblerInput, state_root: B256) -> bool {
        &&& input.ctx == self.ctx
        &&& input.parent == self.parent
        &&& model::views(input.transactions@) == builder::unsigned(model::views(self.transactions@))
        &&& input.gas_used == self.executor.gas_used
        &&& input.state_root == state_root
    }

    /// Finishes the block, where `bundle` holds the changes to the state that executing it has led
    /// to: they are then reverted in a single transition. `state` hashes the changes and finds the
    /// root of the state behind them, and `assemble` puts the block together.
    pub fn finish<I, S, R, H, K, E, F, A>(
        self,
        bundle: BundleState<I, S, R>,
        state: F,
        assemble: A,
    ) -> (r: Result<BlockBuilderOutcome<I, S, R, H, K>, E>) where
        F: FnOnce(&BundleState<I, S, R>) -> Result<(H, B256), E>,
        A: FnOnce(BlockAssemblerInput, &Vec<OpReceipt>, &BundleState<I, S, R>) -> Result<K, E>,

        requires
            forall|b: &BundleState<I, S, R>| #[trigger] state.requires((b,)),
            forall|input: BlockAssemblerInput, receipts: &Vec<OpReceipt>, b: &BundleState<I, S, R>|
                #[trigger]
                assemble.requires((input, receipts, b)),
        ensures
            match r {
                Ok(o) => {
                    &&& reverts::is_flat(o.bundle, bundle)
                    &&& o.receipts == self.executor.receipts
                    &&& o.gas_used == self.executor.gas_used
                    &&& o.senders@ == signers(model::views(self.transactions@))
                    &&& exists|root: B256, input: BlockAssemblerInput|
                        {
                            &&& #[trigger] self.is_input(input, root)
                            &&& state.ensures((&o.bundle,), Ok((o.hashed_state, root)))
                            &&& assemble.ensures(
                                (input, &o.receipts, &o.bundle),
                                Ok(o.block),
                            )
                        }
                },
                Err(e) => exists|flat: BundleState<I, S, R>|
                    {
                        &&& #[trigger] reverts::is_flat(flat, bundle)
                        &&& {
                            ||| state.ensures((&flat,), Err(e))
                            ||| exists|h: H, root: B256, input: BlockAssemblerInput|
                                {
                                    &&& #[trigger] self.is_input(input, root)
                                    &&& #[trigger] state.ensures((&flat,), Ok((h, root)))
                                    &&& assemble.ensures(
                                        (input, &self.executor.receipts, &flat),
                                        Err(e),
                                    )
                                }
                        }
                    },
            },
            r matches Ok(o) ==> {
                &&& o.bundle.changes == bundle.changes
                &&& o.bundle.reverts@.len() == 1
                &&& reverts::transition(o.bundle.reverts@[0]@) == reverts::flattened(
                    reverts::history(bundle.reverts@),
                )
                &&& o.senders@.len() == self.transactions@.len()
                &&& forall|i: int|
                    0 <= i < self.transactions@.len() ==> (#[trigger] o.senders@[i])
                        == self.transactions@[i].signer
            },
    {
        let flat = bundle.flatten();
        let (hashed_state, state_root) = match state(&flat) {
            Ok(r) => r,
            Err(e) => {
                return Err(e);
            },
        };
        let (transactions, senders) = into_parts(self.transactions);
        let receipts = self.executor.receipts;
        let gas_used = self.executor.gas_used;
        let input = BlockAssemblerInput {
            ctx: self.ctx,
            parent: self.parent,
            transactions,
            gas_used,
            state_root,
        };
        assert(self.is_input(input, state_root));
        match assemble(input, &receipts, &flat) {
            Ok(block) => Ok(
                BlockBuilderOutcome {
                    block,
                    senders,
                    receipts,
                    gas_used,
                    bundle: flat,
                    hashed_state,
                },
            ),
            Err(e) => Err(e),
        }
    }
}

/// Transactions and their senders apart.
pub fn into_parts(recovered: Vec<Recovered>) -> (r: (Vec<Transaction>, Vec<Address>))
    ensures
        model::views(r.0@) == builder::unsigned(model::views(recovered@)),
        r.1@ == signers(model::views(recovered@)),
        r.0@.len() == recovered@.len(),
        r.1@.len() == recovered@.len(),
        forall|i: int| #![trigger recovered@[i]]
            0 <= i < recovered@.len() ==> r.0@[i]@ == recovered@[i].tx@ && r.1@[i]
                == recovered@[i].signer,
{
    let ghost all = model::views(recovered@);
    let ghost given = recovered@;
    let mut transactions: Vec<Transaction> = Vec::new();
    let mut senders: Vec<Address> = Vec::new();
    proof {
        assert(model::views(transactions@) =~= builder::unsigned(all.take(0)));
        assert(senders@ =~= signers(all.take(0)));
    }
    for one in it: recovered
        invariant
            it.seq() == given,
            all == model::views(given),
            model::views(transactions@) == builder::unsigned(all.take(it.index() as int)),
            senders@ == signers(all.take(it.index() as int)),
    {
        let ghost n = it.index() as int;
        let ghost before = transactions@;
        let Recovered { tx, signer } = one;
        transactions.push(tx);
        senders.push(signer);
        proof {
            assert(all[n] == one@);
            assert(model::views(transactions@) =~= model::views(before).push(tx@));
            assert(builder::unsigned(all.take(n + 1)) =~= builder::unsigned(all.take(n)).push(tx@));
            assert(signers(all.take(n + 1)) =~= signers(all.take(n)).push(signer));
        }
    }
    assert(all.take(all.len() as int) =~= all);
    proof {
        assert(model::views(transactions@).len() == transactions@.len());
        assert forall|i: int| #![trigger given[i]] 0 <= i < given.len() implies transactions@[i]@
            == given[i].tx@ && senders@[i] == given[i].signer by {
            assert(model::views(transactions@)[i] == builder::unsigned(all)[i]);
        }
    }
    (transactions, senders)
}

/// Transactions without their senders, and the senders, are those of each transaction, in order.
pub proof fn law_parts(t: Seq<RecoveredView>)
    ensures
        builder::unsigned(t).len() == t.len(),
        signers(t).len() == t.len(),
        forall|i: int| #![trigger t[i]]
            0 <= i < t.len() ==> builder::unsigned(t)[i] == t[i].tx && signers(t)[i] == t[i].signer,
{
}

/// A block is assembled from what it is executed with and builds on, from its transactions in order, and
/// from what executing them has led to.
pub proof fn law_assembled_from(
    b: FlashblocksBlockBuilder,
    input: BlockAssemblerInput,
    state_root: B256,
)
    requires
        b.is_input(input, state_root),
    ensures
        input.ctx == b.ctx,
        input.parent == b.parent,
        input.gas_used == b.executor.gas_used,
        input.state_root == state_root,
        input.transactions@.len() == b.transactions@.len(),
        forall|i: int|
            0 <= i < b.transactions@.len() ==> (#[trigger] input.transactions@[i])@
                == b.transactions@[i].tx@,
{
    assert(model::views(input.transactions@).len() == input.transactions@.len());
    assert forall|i: int| 0 <= i < b.transactions@.len() implies (#[trigger] input.transactions@[i])@
        == b.transactions@[i].tx@ by {
        assert(model::views(input.transactions@)[i] == builder::unsigned(
            model::views(b.transactions@),
        )[i]);
    }
}

}
