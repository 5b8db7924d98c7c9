//! Goes on from the preconfirmations that are known of a payload.
use crate::block::{self, RecoveredBlock};
use crate::context::WorldContext;
use crate::flashblocks::collection::{self, BlockError, Flashblock, Flashblocks};
use crate::flashblocks::primitives::{self, B64, FlashblockMetadata, PayloadView};
use crate::payload::{BuiltView, OpBuiltPayload};
use crate::transaction;
use std::sync::Arc;
use vstd::prelude::*;

verus! {

/// Goes on from the preconfirmations that are known of a payload.
#[derive(Clone, Copy, Debug, PartialEq, Eq)]
pub struct FetchPreState;

/// Whether a payload is the one that its flashblocks stand for.
pub open spec fn is_preconfirmed<B>(
    built: BuiltView<B>,
    f: PayloadView<FlashblockMetadata>,
    payload_id: B64,
) -> bool {
    &&& built.id == payload_id
    &&& built.fees == f.metadata.fees
    &&& built.executed_block is None
    &&& exists|b: RecoveredBlock| #[trigger] collection::is_block(b, f) && built.block == b.block@
}

impl FetchPreState {
    /// The context of a barrier with the payload that the known flashblocks stand for, if they are
    /// those of the payload under construction. Otherwise there is none, and the payload stays as it
    /// is.
    pub fn step<B>(flashblocks: Flashblocks, payload_id: B64) -> (r: Result<
        Option<WorldContext<B>>,
        BlockError,
    >)
        requires
            flashblocks.wf(),
            flashblocks@[0].payload_id == payload_id ==> {
                let base = collection::reduced(flashblocks@).base;
                base is Some ==> base->0.base_fee_per_gas.value() <= u64::MAX
            },
        ensures
            ({
                let f = collection::reduced(flashblocks@);
                let same = flashblocks@[0].payload_id == payload_id;
                match r {
                    Ok(Some(context)) => {
                        &&& same
                        &&& collection::all_decode(f.diff.transactions)
                        &&& collection::all_recover(collection::decoded(f.diff.transactions))
                        &&& context.maybe_built_payload is Some
                        &&& is_preconfirmed(context.maybe_built_payload->0@, f, payload_id)
                    },
                    Ok(None) => !same,
                    Err(BlockError::Decode(_)) => same && !collection::all_decode(
                        f.diff.transactions,
                    ),
                    Err(BlockError::Recover) => same && collection::all_decode(f.diff.transactions)
                        && !collection::all_recover(collection::decoded(f.diff.transactions)),
                    Err(_) => false,
                }
            }),
            flashblocks@[0].payload_id != payload_id <==> r matches Ok(None),
            r matches Ok(Some(context)) ==> {
                let p = context.maybe_built_payload->0;
                let base = flashblocks@[0].base->0;
                let last = flashblocks@.last();
                let strings = collection::all_transactions(flashblocks@);
                let header = p.block.header;
                &&& p.id == payload_id
                &&& p.fees == last.metadata.fees
                &&& p.executed_block is None
                &&& p.block.hash == block::header_hash(header@)
                &&& header.state_root == last.diff.state_root
                &&& header.receipts_root == last.diff.receipts_root
                &&& header.logs_bloom == last.diff.logs_bloom
                &&& header.gas_used == last.diff.gas_used
                &&& header.number == base.block_number
                &&& header.parent_hash == base.parent_hash
                &&& header.timestamp == base.timestamp
                &&& header.gas_limit == base.gas_limit
                &&& header.beneficiary == base.fee_recipient
                &&& header.mix_hash == base.prev_randao
                &&& header.extra_data@ == base.extra_data
                &&& p.block.transactions@.len() == strings.len()
                &&& forall|i: int|
                    0 <= i < strings.len() ==> {
                        &&& transaction::leading_transaction(#[trigger] strings[i]) matches Some(
                            (tx, _),
                        )
                        &&& tx == p.block.transactions@[i]@
                    }
            },
    {
        proof {
            collection::law_base_of_payload(flashblocks@);
        }
        let flashblock = match Flashblock::reduce(flashblocks) {
            Some(f) => f,
            None => {
                return Ok(None);
            },
        };
        if !primitives::same_bytes(flashblock.payload_id(), &payload_id) {
            return Ok(None);
        }
        let fees = flashblock.flashblock.metadata.fees;
        let ghost f = flashblock@;
        match flashblock.try_into_block() {
            Ok(block) => {
                let built = OpBuiltPayload {
                    id: payload_id,
                    block: block.block,
                    fees,
                    executed_block: None,
                };
                assert(collection::is_block(block, f));
                proof {
                    let strings = collection::all_transactions(flashblocks@);
                    let t = block.block.transactions@;
                    let given = flashblock.flashblock.diff.transactions@;
                    assert(primitives::contents(given) == strings);
                    assert(strings.len() == given.len());
                    assert forall|i: int| 0 <= i < strings.len() implies ({
                        &&& transaction::leading_transaction(#[trigger] strings[i]) matches Some(
                            (tx, _),
                        )
                        &&& tx == t[i]@
                    }) by {
                        assert(strings[i] == given[i]@);
                    }
                }
                Ok(Some(WorldContext::new(Arc::new(built))))
            },
            Err(e) => Err(e),
        }
    }
}

}
