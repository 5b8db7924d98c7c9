//! Single flashblocks, and the flashblocks of a payload.
use crate::block::{self, Header, HeaderView, RecoveredBlock, SealedBlock};
use crate::flashblocks::primitives::{
    self, Address, B64, BaseView, Bytes, DeltaView, ExecutionPayloadBaseV1,
    ExecutionPayloadFlashblockDeltaV1, FlashblockMetadata, FlashblocksPayloadV1, PayloadView,
    Withdrawal, ZERO_HASH,
};
use crate::model;
use crate::num::U256;
use crate::payload::{AttributesView, BuiltView, OpBuiltPayload, OpPayloadBuilderAttributes};
use crate::transaction::{self, Transaction, TransactionError, TxView};
use vstd::prelude::*;

verus! {

/// A single flashblock.
#[derive(Debug, PartialEq, Eq)]
pub struct Flashblock {
    pub flashblock: FlashblocksPayloadV1,
}

impl View for Flashblock {
    type V = PayloadView<FlashblockMetadata>;

    open spec fn view(&self) -> PayloadView<FlashblockMetadata> {
        self.flashblock@
    }
}

impl Clone for Flashblock {
    fn clone(&self) -> (r: Self)
        ensures
            r@ == self@,
    {
        Flashblock { flashblock: self.flashblock.clone() }
    }
}

/// What is left of a sequence behind its first `n` elements.
pub open spec fn beyond<T>(s: Seq<T>, n: nat) -> Seq<T> {
    if n <= s.len() {
        s.skip(n as int)
    } else {
        Seq::empty()
    }
}

/// Whether `base` is what the first flashblock of a payload says of the block.
pub open spec fn is_base<B>(base: BaseView, payload: BuiltView<B>, attributes: AttributesView) -> bool {
    let header = payload.block.header;
    &&& base.parent_beacon_block_root == primitives::or_zero(attributes.parent_beacon_block_root)
    &&& base.parent_hash == attributes.parent
    &&& base.fee_recipient == attributes.suggested_fee_recipient
    &&& base.prev_randao == attributes.prev_randao
    &&& base.block_number == header.number
    &&& base.gas_limit == header.gas_limit
    &&& base.timestamp == attributes.timestamp
    &&& base.extra_data == header.extra_data
    &&& base.base_fee_per_gas.value() == match header.base_fee_per_gas {
        Some(fee) => fee as nat,
        None => 0,
    }
}

/// Whether `diff` is what a flashblock with these offsets says of the block.
pub open spec fn is_diff<B>(
    diff: DeltaView,
    payload: BuiltView<B>,
    transactions_offset: nat,
    withdrawal_offset: nat,
) -> bool {
    let header = payload.block.header;
    &&& diff.state_root == header.state_root
    &&& diff.receipts_root == header.receipts_root
    &&& diff.logs_bloom == header.logs_bloom
    &&& diff.gas_used == header.gas_used
    &&& diff.block_hash == payload.block.hash
    &&& diff.transactions == beyond(block::encodings(payload.block.transactions), transactions_offset)
    &&& diff.withdrawals == match payload.block.withdrawals {
        Some(w) => beyond(w, withdrawal_offset),
        None => Seq::empty(),
    }
    &&& diff.withdrawals_root == primitives::or_zero(header.withdrawals_root)
}

impl Flashblock {
    /// The flashblock at `index` of a payload, created at the time `now`, with the transactions and
    /// withdrawals behind the first ones. The first flashblock of a payload has the base.
    pub fn new<B>(
        payload: &OpBuiltPayload<B>,
        attributes: &OpPayloadBuilderAttributes,
        index: u64,
        transactions_offset: usize,
        withdrawal_offset: usize,
        now: i64,
    ) -> (r: Self)
        ensures
            r@.payload_id == attributes.id,
            r@.index == index,
            r@.metadata == (FlashblockMetadata {
                fees: payload.fees,
                flashblock_timestamp: Some(now),
            }),
            match r@.base {
                Some(base) => index == 0 && is_base(base, payload@, attributes@),
                None => index != 0,
            },
            is_diff(r@.diff, payload@, transactions_offset as nat, withdrawal_offset as nat),
            r.flashblock.payload_id == attributes.id,
            r.flashblock.index == index,
            r.flashblock.metadata.fees == payload.fees,
            r.flashblock.metadata.flashblock_timestamp == Some(now),
            ({
                let diff = r.flashblock.diff;
                let block = payload.block;
                &&& diff.state_root == block.header.state_root
                &&& diff.receipts_root == block.header.receipts_root
                &&& diff.logs_bloom == block.header.logs_bloom
                &&& diff.gas_used == block.header.gas_used
                &&& diff.block_hash == block.hash
                &&& block.header.withdrawals_root matches Some(root) ==> diff.withdrawals_root == root
                &&& block.header.withdrawals_root is None ==> diff.withdrawals_root == ZERO_HASH
                &&& diff.transactions@.len() == if transactions_offset
                    < block.transactions@.len() {
                    block.transactions@.len() - transactions_offset
                } else {
                    0
                }
                &&& forall|i: int|
                    0 <= i < diff.transactions@.len() ==> (#[trigger] diff.transactions@[i])@
                        == block.transactions@[transactions_offset + i].encoded@
                &&& block.withdrawals is None ==> diff.withdrawals@.len() == 0
                &&& block.withdrawals matches Some(w) ==> {
                    &&& diff.withdrawals@.len() == if withdrawal_offset < w@.len() {
                        w@.len() - withdrawal_offset
                    } else {
                        0
                    }
                    &&& forall|i: int|
                        0 <= i < diff.withdrawals@.len() ==> #[trigger] diff.withdrawals@[i]
                            == w@[withdrawal_offset + i]
                }
            }),
            r.flashblock.base is Some <==> index == 0,
            r.flashblock.base matches Some(base) ==> {
                let header = payload.block.header;
                &&& attributes.parent_beacon_block_root matches Some(root)
                    ==> base.parent_beacon_block_root == root
                &&& attributes.parent_beacon_block_root is None ==> base.parent_beacon_block_root
                    == ZERO_HASH
                &&& base.parent_hash == attributes.parent
                &&& base.fee_recipient == attributes.suggested_fee_recipient
                &&& base.prev_randao == attributes.prev_randao
                &&& base.block_number == header.number
                &&& base.gas_limit == header.gas_limit
                &&& base.timestamp == attributes.timestamp
                &&& base.extra_data@ == header.extra_data@
                &&& header.base_fee_per_gas matches Some(fee) ==> base.base_fee_per_gas.value()
                    == fee
                &&& header.base_fee_per_gas is None ==> base.base_fee_per_gas.value() == 0
            },
    {
        let header = &payload.block.header;
        let base = if index == 0 {
            let extra_data = header.extra_data.clone();
            assert(extra_data@ =~= header.extra_data@);
            Some(
                ExecutionPayloadBaseV1 {
                    parent_beacon_block_root: primitives::unwrap_or_zero(attributes.parent_beacon_block_root),
                    parent_hash: attributes.parent,
                    fee_recipient: attributes.suggested_fee_recipient,
                    prev_randao: attributes.prev_randao,
                    block_number: header.number,
                    gas_limit: header.gas_limit,
                    timestamp: attributes.timestamp,
                    extra_data,
                    base_fee_per_gas: match header.base_fee_per_gas {
                        Some(fee) => U256::from_u64(fee),
                        None => U256::zero(),
                    },
                },
            )
        } else {
            None
        };
        let transactions = encoded_beyond(&payload.block.transactions, transactions_offset);
        let withdrawals = match &payload.block.withdrawals {
            Some(w) => withdrawals_beyond(w, withdrawal_offset),
            None => Vec::new(),
        };
        proof {
            let want = beyond(
                block::encodings(model::views(payload.block.transactions@)),
                transactions_offset as nat,
            );
            assert(primitives::contents(transactions@).len() == transactions@.len());
            assert forall|i: int| 0 <= i < transactions@.len() implies (#[trigger] transactions@[i])@
                == payload.block.transactions@[transactions_offset + i].encoded@ by {
                assert(primitives::contents(transactions@)[i] == want[i]);
            }
        }
        Flashblock {
            flashblock: FlashblocksPayloadV1 {
                payload_id: attributes.id,
                index,
                base,
                diff: ExecutionPayloadFlashblockDeltaV1 {
                    state_root: header.state_root,
                    receipts_root: header.receipts_root,
                    logs_bloom: header.logs_bloom,
                    gas_used: header.gas_used,
                    block_hash: payload.block.hash,
                    transactions,
                    withdrawals,
                    withdrawals_root: primitives::unwrap_or_zero(header.withdrawals_root),
                },
                metadata: FlashblockMetadata {
                    fees: payload.fees,
                    flashblock_timestamp: Some(now),
                },
            },
        }
    }

    /// The flashblock's payload.
    pub fn flashblock(&self) -> (r: &FlashblocksPayloadV1)
        ensures
            *r == self.flashblock,
    {
        &self.flashblock
    }

    /// The flashblock's payload.
    pub fn into_flashblock(self) -> (r: FlashblocksPayloadV1)
        ensures
            r == self.flashblock,
    {
        self.flashblock
    }

    /// The flashblock's payload id.
    pub fn payload_id(&self) -> (r: &B64)
        ensures
            *r == self@.payload_id,
    {
        &self.flashblock.payload_id
    }

    /// The flashblock's base.
    pub fn base(&self) -> (r: Option<&ExecutionPayloadBaseV1>)
        ensures
            match r {
                Some(base) => self.flashblock.base == Some(*base),
                None => self.flashblock.base is None,
            },
    {
        self.flashblock.base.as_ref()
    }

    /// The flashblock's delta.
    pub fn diff(&self) -> (r: &ExecutionPayloadFlashblockDeltaV1)
        ensures
            *r == self.flashblock.diff,
    {
        &self.flashblock.diff
    }
}

/// The bytes of the transactions behind the first `offset`.
pub fn encoded_beyond(transactions: &Vec<Transaction>, offset: usize) -> (r: Vec<Bytes>)
    ensures
        primitives::contents(r@) == beyond(
            block::encodings(model::views(transactions@)),
            offset as nat,
        ),
        r@.len() == if offset < transactions@.len() {
            transactions@.len() - offset
        } else {
            0
        },
        forall|i: int| 0 <= i < r@.len() ==> (#[trigger] r@[i])@ == transactions@[offset
            + i].encoded@,
{
    let ghost all = block::encodings(model::views(transactions@));
    let mut r: Vec<Bytes> = Vec::new();
    if offset >= transactions.len() {
        assert(primitives::contents(r@) =~= beyond(all, offset as nat));
        return r;
    }
    let mut i: usize = offset;
    while i < transactions.len()
        invariant
            offset <= i <= transactions.len(),
            all == block::encodings(model::views(transactions@)),
            r@.len() == i - offset,
            forall|k: int| 0 <= k < r@.len() ==> (#[trigger] r@[k])@ == transactions@[offset
                + k].encoded@,
            primitives::contents(r@) =~= all.subrange(offset as int, i as int),
        decreases transactions.len() - i,
    {
        let encoded = transactions[i].encoded.clone();
        assert(encoded@ =~= transactions@[i as int].encoded@);
        assert(all[i as int] == encoded@);
        let ghost before = r@;
        r.push(encoded);
        assert(primitives::contents(r@) =~= primitives::contents(before).push(encoded@));
        i += 1;
    }
    assert(all.subrange(offset as int, i as int) =~= all.skip(offset as int));
    r
}

/// The withdrawals behind the first `offset`.
fn withdrawals_beyond(withdrawals: &Vec<Withdrawal>, offset: usize) -> (r: Vec<Withdrawal>)
    ensures
        r@ == beyond(withdrawals@, offset as nat),
{
    let mut r: Vec<Withdrawal> = Vec::new();
    if offset >= withdrawals.len() {
        assert(r@ =~= beyond(withdrawals@, offset as nat));
        return r;
    }
    let mut i: usize = offset;
    while i < withdrawals.len()
        invariant
            offset <= i <= withdrawals.len(),
            r@ =~= withdrawals@.subrange(offset as int, i as int),
        decreases withdrawals.len() - i,
    {
        r.push(withdrawals[i]);
        i += 1;
    }
    assert(withdrawals@.subrange(offset as int, i as int) =~= withdrawals@.skip(offset as int));
    r
}

/// The flashblocks of a payload, in order: there is at least one, they have one payload id, their
/// indices count up from 0, and the first has the base.
pub open spec fn is_payload(s: Seq<PayloadView<FlashblockMetadata>>) -> bool {
    &&& s.len() > 0
    &&& s[0].base is Some
    &&& forall|i: int| 0 <= i < s.len() ==> (#[trigger] s[i]).payload_id == s[0].payload_id
    &&& forall|i: int| 0 <= i < s.len() ==> (#[trigger] s[i]).index == i
}

/// The flashblocks of a payload, in order.
///
/// There is at least one, they have one payload id, their indices count up from 0, and the first
/// has the base.
#[derive(Debug, PartialEq, Eq)]
pub struct Flashblocks {
    list: Vec<Flashblock>,
}

impl View for Flashblocks {
    type V = Seq<PayloadView<FlashblockMetadata>>;

    closed spec fn view(&self) -> Seq<PayloadView<FlashblockMetadata>> {
        model::views(self.list@)
    }
}

impl Clone for Flashblocks {
    fn clone(&self) -> (r: Self)
        ensures
            r@ == self@,
    {
        Flashblocks { list: model::clone_all(&self.list) }
    }
}

/// Why flashblocks are not those of a payload.
#[derive(Clone, Copy, Debug, PartialEq, Eq)]
pub enum FlashblocksError {
    /// There are none.
    Empty,
    /// The first has no base.
    MissingBase,
    /// They have different payload ids.
    DifferentPayloadIds,
    /// Their indices do not count up from 0.
    NotContiguous,
}

/// Why a flashblock does not go with those of the current payload.
#[derive(Clone, Copy, Debug, PartialEq, Eq)]
pub enum PushError {
    /// It has another payload id, and does not have the index 0.
    NewPayloadIndex,
    /// It has another payload id, and no base.
    NewPayloadMissingBase,
    /// It has another payload id, and no later timestamp than the current base.
    NewPayloadTimestamp,
    /// It has the same payload id, and does not have the next index.
    IndexGap { expected: u64, got: u64, payload_id: B64 },
}

/// Whether a flashblock starts a new payload, where `s` are the flashblocks of the current one.
pub open spec fn starts_new(
    s: Seq<PayloadView<FlashblockMetadata>>,
    f: PayloadView<FlashblockMetadata>,
) -> Result<bool, PushError> {
    if f.payload_id != s[0].payload_id {
        if f.index != 0 {
            Err(PushError::NewPayloadIndex)
        } else if f.base is None {
            Err(PushError::NewPayloadMissingBase)
        } else if f.base->0.timestamp <= s[0].base->0.timestamp {
            Err(PushError::NewPayloadTimestamp)
        } else {
            Ok(true)
        }
    } else if f.index != s.len() {
        Err(
            PushError::IndexGap {
                expected: s.len() as u64,
                got: f.index,
                payload_id: s[0].payload_id,
            },
        )
    } else {
        Ok(false)
    }
}

/// The flashblocks of the current payload once `f` has been pushed, where that is possible.
pub open spec fn pushed(
    s: Seq<PayloadView<FlashblockMetadata>>,
    f: PayloadView<FlashblockMetadata>,
) -> Seq<PayloadView<FlashblockMetadata>> {
    match starts_new(s, f) {
        Ok(true) => seq![f],
        Ok(false) => s.push(f),
        Err(_) => s,
    }
}

/// The flashblocks of the current payload once all of `f` have been pushed, one after the other.
pub open spec fn pushed_all(
    s: Seq<PayloadView<FlashblockMetadata>>,
    f: Seq<PayloadView<FlashblockMetadata>>,
) -> Seq<PayloadView<FlashblockMetadata>>
    decreases f.len(),
{
    if f.len() == 0 {
        s
    } else {
        pushed(pushed_all(s, f.drop_last()), f.last())
    }
}

impl Flashblocks {
    /// Whether these are the flashblocks of a payload.
    pub open spec fn wf(self) -> bool {
        is_payload(self@)
    }

    /// The flashblocks of a payload. They have to be at least one, have one payload id, and have
    /// contiguous indices from 0, and the first has to have the base.
    pub fn new(flashblocks: Vec<Flashblock>) -> (r: Result<Self, FlashblocksError>)
        ensures
            ({
                let s = model::views(flashblocks@);
                match r {
                    Ok(f) => f@ == s && is_payload(s),
                    Err(FlashblocksError::Empty) => s.len() == 0,
                    Err(FlashblocksError::MissingBase) => s.len() > 0 && s[0].base is None,
                    Err(FlashblocksError::DifferentPayloadIds) => {
                        &&& s.len() > 0
                        &&& s[0].base is Some
                        &&& exists|i: int| 0 <= i < s.len() && (#[trigger] s[i]).payload_id != s[0].payload_id
                    },
                    Err(FlashblocksError::NotContiguous) => {
                        &&& s.len() > 0
                        &&& s[0].base is Some
                        &&& forall|i: int| 0 <= i < s.len() ==> (#[trigger] s[i]).payload_id == s[0].payload_id
                        &&& exists|i: int| 0 <= i < s.len() && (#[trigger] s[i]).index != i
                    },
                }
            }),
            r matches Ok(f) ==> {
                &&& f@.len() == flashblocks@.len()
                &&& f@.len() > 0
                &&& f@[0].base is Some
                &&& forall|i: int| #![trigger f@[i]]
                    0 <= i < f@.len() ==> {
                        &&& f@[i] == flashblocks@[i]@
                        &&& f@[i].payload_id == f@[0].payload_id
                        &&& f@[i].index == i
                    }
            },
    {
        let ghost s = model::views(flashblocks@);
        if flashblocks.len() == 0 {
            return Err(FlashblocksError::Empty);
        }
        assert(s[0] == flashblocks@[0]@);
        if flashblocks[0].flashblock.base.is_none() {
            return Err(FlashblocksError::MissingBase);
        }
        let mut i: usize = 1;
        while i < flashblocks.len()
            invariant
                1 <= i <= flashblocks.len(),
                s == model::views(flashblocks@),
                forall|k: int| 0 <= k < i ==> (#[trigger] s[k]).payload_id == s[0].payload_id,
                s[0].base is Some,
            decreases flashblocks.len() - i,
        {
            assert(s[i as int] == flashblocks@[i as int]@);
            assert(s[0] == flashblocks@[0]@);
            if !primitives::same_bytes(flashblocks[i].payload_id(), flashblocks[0].payload_id()) {
                return Err(FlashblocksError::DifferentPayloadIds);
            }
            i += 1;
        }
        let mut i: usize = 0;
        while i < flashblocks.len()
            invariant
                i <= flashblocks.len(),
                s == model::views(flashblocks@),
                s.len() > 0,
                s[0].base is Some,
                forall|k: int| 0 <= k < s.len() ==> (#[trigger] s[k]).payload_id == s[0].payload_id,
                forall|k: int| 0 <= k < i ==> (#[trigger] s[k]).index == k,
            decreases flashblocks.len() - i,
        {
            assert(s[i as int] == flashblocks@[i as int]@);
            if flashblocks[i].flashblock.index != i as u64 {
                return Err(FlashblocksError::NotContiguous);
            }
            i += 1;
        }
        Ok(Flashblocks { list: flashblocks })
    }

    /// Pushes a flashblock.
    ///
    /// One with another payload id starts a new payload: it takes the place of the flashblocks
    /// there, has to have the index 0 and the base, and has to be of a later time. One with the same
    /// payload id goes behind the others, and has to have the next index. Gives whether a new
    /// payload was started.
    pub fn push(&mut self, flashblock: Flashblock) -> (r: Result<bool, PushError>)
        requires
            old(self).wf(),
        ensures
            r == starts_new(old(self)@, flashblock@),
            final(self)@ == pushed(old(self)@, flashblock@),
            final(self).wf(),
            match r {
                Ok(true) => {
                    &&& flashblock@.payload_id != old(self)@[0].payload_id
                    &&& final(self)@ == seq![flashblock@]
                },
                Ok(false) => {
                    &&& flashblock@.payload_id == old(self)@[0].payload_id
                    &&& final(self)@ == old(self)@.push(flashblock@)
                },
                Err(_) => final(self)@ == old(self)@,
            },
    {
        let ghost s = self@;
        let ghost f = flashblock@;
        let new = match self.is_new_payload(&flashblock) {
            Ok(new) => new,
            Err(e) => {
                return Err(e);
            },
        };
        if new {
            self.list.clear();
            self.list.push(flashblock);
            assert(self@ =~= seq![f]);
        } else {
            self.list.push(flashblock);
            assert(self@ =~= s.push(f));
        }
        Ok(new)
    }

    /// Whether a flashblock starts a new payload, or why it does not go with these.
    pub fn is_new_payload(&self, flashblock: &Flashblock) -> (r: Result<bool, PushError>)
        requires
            self.wf(),
        ensures
            r == starts_new(self@, flashblock@),
            ({
                let f = flashblock@;
                let first = self@[0];
                match r {
                    Ok(true) => {
                        &&& f.payload_id != first.payload_id
                        &&& f.index == 0
                        &&& f.base is Some
                        &&& f.base->0.timestamp > first.base->0.timestamp
                    },
                    Ok(false) => f.payload_id == first.payload_id && f.index == self@.len(),
                    Err(PushError::NewPayloadIndex) => f.payload_id != first.payload_id && f.index
                        != 0,
                    Err(PushError::NewPayloadMissingBase) => f.payload_id != first.payload_id
                        && f.index == 0 && f.base is None,
                    Err(PushError::NewPayloadTimestamp) => f.payload_id != first.payload_id
                        && f.index == 0 && f.base is Some && f.base->0.timestamp
                        <= first.base->0.timestamp,
                    Err(PushError::IndexGap { expected, got, payload_id }) => {
                        &&& f.payload_id == first.payload_id
                        &&& f.index != self@.len()
                        &&& expected == self@.len() as u64
                        &&& got == f.index
                        &&& payload_id == f.payload_id
                    },
                }
            }),
    {
        assert(self@[0] == self.list@[0]@);
        if !primitives::same_bytes(flashblock.payload_id(), self.payload_id()) {
            if flashblock.flashblock.index != 0 {
                return Err(PushError::NewPayloadIndex);
            }
            return match &flashblock.flashblock.base {
                None => Err(PushError::NewPayloadMissingBase),
                Some(base) => if base.timestamp <= self.base().timestamp {
                    Err(PushError::NewPayloadTimestamp)
                } else {
                    Ok(true)
                },
            };
        }
        if flashblock.flashblock.index != self.list.len() as u64 {
            return Err(
                PushError::IndexGap {
                    expected: self.list.len() as u64,
                    got: flashblock.flashblock.index,
                    payload_id: *self.payload_id(),
                },
            );
        }
        Ok(false)
    }

    /// The last flashblock.
    pub fn last(&self) -> (r: &Flashblock)
        requires
            self.wf(),
        ensures
            r@ == self@.last(),
    {
        assert(self@.last() == self.list@[self@.len() - 1]@);
        &self.list[self.list.len() - 1]
    }

    /// The flashblocks.
    pub fn flashblocks(&self) -> (r: &[Flashblock])
        ensures
            model::views(r@) == self@,
    {
        self.list.as_slice()
    }

    /// The payload id.
    pub fn payload_id(&self) -> (r: &B64)
        requires
            self.wf(),
        ensures
            *r == self@[0].payload_id,
    {
        assert(self@[0] == self.list@[0]@);
        self.list[0].payload_id()
    }

    /// The base.
    pub fn base(&self) -> (r: &ExecutionPayloadBaseV1)
        requires
            self.wf(),
        ensures
            Some(r@) == self@[0].base,
    {
        assert(self@[0] == self.list@[0]@);
        self.list[0].flashblock.base.as_ref().unwrap()
    }
}

/// The transactions of flashblocks, one after the other.
pub open spec fn all_transactions(s: Seq<PayloadView<FlashblockMetadata>>) -> Seq<Seq<u8>>
    decreases s.len(),
{
    if s.len() == 0 {
        Seq::empty()
    } else {
        all_transactions(s.drop_last()) + s.last().diff.transactions
    }
}

/// The withdrawals of flashblocks, one after the other.
pub open spec fn all_withdrawals(s: Seq<PayloadView<FlashblockMetadata>>) -> Seq<Withdrawal>
    decreases s.len(),
{
    if s.len() == 0 {
        Seq::empty()
    } else {
        all_withdrawals(s.drop_last()) + s.last().diff.withdrawals
    }
}

/// The first base that flashblocks have.
pub open spec fn first_base(s: Seq<PayloadView<FlashblockMetadata>>) -> Option<BaseView>
    decreases s.len(),
{
    if s.len() == 0 {
        None
    } else if first_base(s.drop_last()) is Some {
        first_base(s.drop_last())
    } else {
        s.last().base
    }
}

/// The flashblock that stands for all of `s`: it has the transactions and withdrawals of all of
/// them, the first base, and whatever else the last one says.
pub open spec fn reduced(s: Seq<PayloadView<FlashblockMetadata>>) -> PayloadView<FlashblockMetadata> {
    PayloadView {
        payload_id: s[0].payload_id,
        index: s.last().index,
        metadata: s.last().metadata,
        base: first_base(s),
        diff: DeltaView {
            transactions: all_transactions(s),
            withdrawals: all_withdrawals(s),
            ..s.last().diff
        },
    }
}

proof fn lemma_contents_append(a: Seq<Bytes>, b: Seq<Bytes>)
    ensures
        primitives::contents(a + b) == primitives::contents(a) + primitives::contents(b),
{
    assert(primitives::contents(a + b) =~= primitives::contents(a) + primitives::contents(b));
}

/// What one flashblock reduces to.
proof fn lemma_reduced_one(s: Seq<PayloadView<FlashblockMetadata>>)
    requires
        s.len() > 0,
    ensures
        reduced(s.take(1)) == s[0],
{
    let one = s.take(1);
    assert(one.drop_last() =~= Seq::<PayloadView<FlashblockMetadata>>::empty());
    assert(all_transactions(one.drop_last()) =~= Seq::empty());
    assert(all_withdrawals(one.drop_last()) =~= Seq::empty());
    assert(all_transactions(one) =~= s[0].diff.transactions);
    assert(all_withdrawals(one) =~= s[0].diff.withdrawals);
    assert(first_base(one.drop_last()) is None);
    assert(reduced(one) =~= s[0]);
}

impl Flashblock {
    /// The flashblock that stands for all of a payload's flashblocks.
    pub fn reduce(flashblocks: Flashblocks) -> (r: Option<Flashblock>)
        ensures
            match r {
                Some(f) => flashblocks@.len() > 0 && f@ == reduced(flashblocks@),
                None => flashblocks@.len() == 0,
            },
            r matches Some(f) ==> {
                let last = flashblocks@.last();
                &&& f@.payload_id == flashblocks@[0].payload_id
                &&& f@.index == last.index
                &&& f@.metadata == last.metadata
                &&& f@.diff.state_root == last.diff.state_root
                &&& f@.diff.receipts_root == last.diff.receipts_root
                &&& f@.diff.logs_bloom == last.diff.logs_bloom
                &&& f@.diff.gas_used == last.diff.gas_used
                &&& f@.diff.block_hash == last.diff.block_hash
                &&& f@.diff.withdrawals_root == last.diff.withdrawals_root
            },
    {
        let ghost s = flashblocks@;
        let mut list = flashblocks.list;
        if list.len() == 0 {
            return None;
        }
        let n = list.len();
        let mut acc = list[0].flashblock.clone();
        proof {
            lemma_reduced_one(s);
            assert(s[0] == list@[0]@);
        }
        let mut i: usize = 1;
        while i < n
            invariant
                1 <= i <= n,
                n == list@.len(),
                s == model::views(list@),
                acc@ == reduced(s.take(i as int)),
            decreases n - i,
        {
            let ghost so_far = s.take(i as int);
            let ghost more = s.take(i + 1);
            let next = list[i].flashblock.clone();
            proof {
                assert(s[i as int] == list@[i as int]@);
                assert(more.drop_last() =~= so_far);
                assert(more.last() == s[i as int]);
                assert(more[0] == so_far[0]);
                lemma_contents_append(acc.diff.transactions@, next.diff.transactions@);
            }
            if acc.base.is_none() && next.base.is_some() {
                acc.base = next.base;
            }
            acc.index = next.index;
            acc.metadata = next.metadata;
            acc.diff.gas_used = next.diff.gas_used;
            let mut transactions = next.diff.transactions;
            acc.diff.transactions.append(&mut transactions);
            let mut withdrawals = next.diff.withdrawals;
            acc.diff.withdrawals.append(&mut withdrawals);
            acc.diff.state_root = next.diff.state_root;
            acc.diff.receipts_root = next.diff.receipts_root;
            acc.diff.logs_bloom = next.diff.logs_bloom;
            acc.diff.withdrawals_root = next.diff.withdrawals_root;
            acc.diff.block_hash = next.diff.block_hash;
            assert(acc@ =~= reduced(more));
            i += 1;
        }
        assert(s.take(n as int) =~= s);
        Some(Flashblock { flashblock: acc })
    }
}

/// Why a flashblock is not that of a whole block.
pub enum BlockError {
    /// It has no base.
    MissingBase,
    /// A transaction cannot be decoded.
    Decode(TransactionError),
    /// There are no flashblocks.
    Empty,
    /// The sender of a transaction cannot be recovered.
    Recover,
}

/// Whether `header` is the header of the block that a reduced flashblock stands for.
pub open spec fn is_header(header: HeaderView, f: PayloadView<FlashblockMetadata>) -> bool {
    let base = f.base->0;
    let diff = f.diff;
    &&& header.parent_hash == base.parent_hash
    &&& header.beneficiary == base.fee_recipient
    &&& header.state_root == diff.state_root
    &&& header.transactions_root == block::ordered_root(diff.transactions)
    &&& header.receipts_root == diff.receipts_root
    &&& header.logs_bloom == diff.logs_bloom
    &&& header.difficulty.value() == 0
    &&& header.number == base.block_number
    &&& header.gas_limit == base.gas_limit
    &&& header.gas_used == diff.gas_used
    &&& header.timestamp == base.timestamp
    &&& header.extra_data == base.extra_data
    &&& header.mix_hash == base.prev_randao
    &&& header.base_fee_per_gas == Some(base.base_fee_per_gas.value() as u64)
    &&& header.withdrawals_root == Some(diff.withdrawals_root)
    &&& header.blob_gas_used == Some(0u64)
    &&& header.excess_blob_gas == Some(0u64)
    &&& header.parent_beacon_block_root is None
    &&& header.requests_hash is None
    &&& header.block_access_list_hash == Some(ZERO_HASH)
}

/// Whether each of the byte strings begins with a transaction.
pub open spec fn all_decode(strings: Seq<Seq<u8>>) -> bool {
    forall|i: int| 0 <= i < strings.len() ==> transaction::leading_transaction(#[trigger] strings[i]) is Some
}

/// The transactions that byte strings begin with.
pub open spec fn decoded(strings: Seq<Seq<u8>>) -> Seq<TxView> {
    strings.map_values(|s: Seq<u8>| (transaction::leading_transaction(s)->0).0)
}

/// Whether the sender of each transaction can be recovered.
pub open spec fn all_recover(transactions: Seq<TxView>) -> bool {
    forall|i: int| 0 <= i < transactions.len() ==> transaction::recovered_signer(
        (#[trigger] transactions[i]).encoded,
    ) is Some
}

/// The senders of transactions.
pub open spec fn senders_of(transactions: Seq<TxView>) -> Seq<Address> {
    transactions.map_values(|tx: TxView| transaction::recovered_signer(tx.encoded)->0)
}

/// Whether `b` is the block that a reduced flashblock stands for.
pub open spec fn is_block(b: RecoveredBlock, f: PayloadView<FlashblockMetadata>) -> bool {
    &&& b.block@.wf()
    &&& is_header(b.block@.header, f)
    &&& b.block@.transactions == decoded(f.diff.transactions)
    &&& b.block@.withdrawals == Some(f.diff.withdrawals)
    &&& b.block@.block_access_list is None
    &&& b.senders@ == senders_of(b.block@.transactions)
}

/// Decodes transactions.
fn decode_all(strings: &Vec<Bytes>) -> (r: Result<Vec<Transaction>, TransactionError>)
    ensures
        ({
            let s = primitives::contents(strings@);
            match r {
                Ok(v) => all_decode(s) && model::views(v@) == decoded(s),
                Err(_) => !all_decode(s),
            }
        }),
        r matches Ok(v) ==> {
            &&& v@.len() == strings@.len()
            &&& forall|i: int|
                0 <= i < strings@.len() ==> {
                    &&& transaction::leading_transaction((#[trigger] strings@[i])@) matches Some((tx, _))
                    &&& tx == v@[i]@
                }
        },
{
    let ghost s = primitives::contents(strings@);
    let mut v: Vec<Transaction> = Vec::new();
    let mut i: usize = 0;
    while i < strings.len()
        invariant
            i <= strings.len(),
            s == primitives::contents(strings@),
            forall|k: int| 0 <= k < i ==> transaction::leading_transaction(#[trigger] s[k]) is Some,
            model::views(v@) == decoded(s.take(i as int)),
        decreases strings.len() - i,
    {
        assert(s[i as int] == strings@[i as int]@);
        match Transaction::decode_2718(strings[i].as_slice()) {
            Ok((tx, _)) => {
                let ghost before = v@;
                v.push(tx);
                proof {
                    assert(model::views(v@) =~= model::views(before).push(tx@));
                    assert(s.take(i + 1) =~= s.take(i as int).push(s[i as int]));
                    assert(decoded(s.take(i + 1)) =~= decoded(s.take(i as int)).push(tx@));
                }
            },
            Err(e) => {
                assert(transaction::leading_transaction(s[i as int]) is None);
                return Err(e);
            },
        }
        i += 1;
    }
    assert(s.take(i as int) =~= s);
    proof {
        assert(model::views(v@).len() == v@.len());
        assert(decoded(s).len() == strings@.len());
        assert forall|k: int| 0 <= k < strings@.len() implies ({
            &&& transaction::leading_transaction((#[trigger] strings@[k])@) matches Some((tx, _))
            &&& tx == v@[k]@
        }) by {
            assert(s[k] == strings@[k]@);
            assert(model::views(v@)[k] == decoded(s)[k]);
        }
    }
    Ok(v)
}

/// Recovers the senders of transactions.
pub fn recover_signers(transactions: &Vec<Transaction>) -> (r: Option<Vec<Address>>)
    ensures
        ({
            let s = model::views(transactions@);
            match r {
                Some(v) => all_recover(s) && v@ == senders_of(s),
                None => !all_recover(s),
            }
        }),
        r matches Some(v) ==> {
            &&& v@.len() == transactions@.len()
            &&& forall|i: int|
                0 <= i < transactions@.len() ==> transaction::recovered_signer(
                    (#[trigger] transactions@[i]).encoded@,
                ) == Some(v@[i])
        },
        r is None ==> exists|i: int|
            0 <= i < transactions@.len() && transaction::recovered_signer(
                (#[trigger] transactions@[i]).encoded@,
            ) is None,
{
    let ghost s = model::views(transactions@);
    let mut v: Vec<Address> = Vec::new();
    let mut i: usize = 0;
    while i < transactions.len()
        invariant
            i <= transactions.len(),
            s == model::views(transactions@),
            forall|k: int| 0 <= k < i ==> transaction::recovered_signer((#[trigger] s[k]).encoded) is Some,
            v@ == senders_of(s.take(i as int)),
        decreases transactions.len() - i,
    {
        assert(s[i as int] == transactions@[i as int]@);
        match transactions[i].clone().try_into_recovered() {
            Some(tx) => {
                let ghost before = v@;
                v.push(tx.signer);
                proof {
                    assert(s.take(i + 1) =~= s.take(i as int).push(s[i as int]));
                    assert(senders_of(s.take(i + 1)) =~= senders_of(s.take(i as int)).push(tx.signer));
                }
            },
            None => {
                return None;
            },
        }
        i += 1;
    }
    assert(s.take(i as int) =~= s);
    proof {
        assert forall|k: int| 0 <= k < transactions@.len() implies transaction::recovered_signer(
            (#[trigger] transactions@[k]).encoded@,
        ) == Some(v@[k]) by {
            assert(s[k] == transactions@[k]@);
        }
    }
    Some(v)
}

impl Flashblock {
    /// The block that the flashblock stands for. It has to be what all of the payload's flashblocks
    /// reduce to.
    pub fn try_into_block(self) -> (r: Result<RecoveredBlock, BlockError>)
        requires
            self@.base is Some ==> self@.base->0.base_fee_per_gas.value() <= u64::MAX,
        ensures
            match r {
                Ok(b) => {
                    &&& self@.base is Some
                    &&& all_decode(self@.diff.transactions)
                    &&& all_recover(decoded(self@.diff.transactions))
                    &&& is_block(b, self@)
                },
                Err(BlockError::MissingBase) => self@.base is None,
                Err(BlockError::Decode(_)) => self@.base is Some && !all_decode(
                    self@.diff.transactions,
                ),
                Err(BlockError::Recover) => {
                    &&& self@.base is Some
                    &&& all_decode(self@.diff.transactions)
                    &&& !all_recover(decoded(self@.diff.transactions))
                },
                Err(BlockError::Empty) => false,
            },
            r matches Ok(b) ==> {
                let header = b.block.header;
                let base = self.flashblock.base->0;
                let diff = self.flashblock.diff;
                &&& b.block.hash == block::header_hash(header@)
                &&& header.parent_hash == base.parent_hash
                &&& header.beneficiary == base.fee_recipient
                &&& header.state_root == diff.state_root
                &&& header.receipts_root == diff.receipts_root
                &&& header.logs_bloom == diff.logs_bloom
                &&& header.difficulty.value() == 0
                &&& header.number == base.block_number
                &&& header.gas_limit == base.gas_limit
                &&& header.gas_used == diff.gas_used
                &&& header.timestamp == base.timestamp
                &&& header.extra_data@ == base.extra_data@
                &&& header.mix_hash == base.prev_randao
                &&& header.base_fee_per_gas matches Some(fee) && fee
                    == base.base_fee_per_gas.value()
                &&& header.withdrawals_root == Some(diff.withdrawals_root)
                &&& header.blob_gas_used == Some(0u64)
                &&& header.excess_blob_gas == Some(0u64)
                &&& header.parent_beacon_block_root is None
                &&& header.requests_hash is None
                &&& header.block_access_list_hash == Some(ZERO_HASH)
                &&& header.transactions_root == block::ordered_root(
                    Seq::new(diff.transactions@.len(), |i: int| diff.transactions@[i]@),
                )
                &&& b.block.transactions@.len() == diff.transactions@.len()
                &&& b.senders@.len() == diff.transactions@.len()
                &&& forall|i: int|
                    0 <= i < diff.transactions@.len() ==> {
                        &&& transaction::leading_transaction(
                            (#[trigger] diff.transactions@[i])@,
                        ) matches Some((tx, _))
                        &&& tx == b.block.transactions@[i]@
                        &&& transaction::recovered_signer(tx.encoded) == Some(b.senders@[i])
                    }
                &&& b.block.withdrawals == Some(diff.withdrawals)
                &&& b.block.block_access_list is None
            },
    {
        let base = match self.flashblock.base {
            Some(base) => base,
            None => {
                return Err(BlockError::MissingBase);
            },
        };
        let diff = self.flashblock.diff;
        proof {
            assert(model::views(diff.transactions@) =~= primitives::contents(diff.transactions@));
        }
        let header = Header {
            parent_hash: base.parent_hash,
            beneficiary: base.fee_recipient,
            state_root: diff.state_root,
            transactions_root: block::ordered_trie_root(&diff.transactions),
            receipts_root: diff.receipts_root,
            logs_bloom: diff.logs_bloom,
            difficulty: U256::zero(),
            number: base.block_number,
            gas_limit: base.gas_limit,
            gas_used: diff.gas_used,
            timestamp: base.timestamp,
            extra_data: base.extra_data,
            mix_hash: base.prev_randao,
            base_fee_per_gas: Some(base.base_fee_per_gas.to_u64()),
            withdrawals_root: Some(diff.withdrawals_root),
            blob_gas_used: Some(0),
            excess_blob_gas: Some(0),
            parent_beacon_block_root: None,
            requests_hash: None,
            block_access_list_hash: Some(ZERO_HASH),
        };
        let transactions = match decode_all(&diff.transactions) {
            Ok(v) => v,
            Err(e) => {
                return Err(BlockError::Decode(e));
            },
        };
        let senders = match recover_signers(&transactions) {
            Some(v) => v,
            None => {
                return Err(BlockError::Recover);
            },
        };
        proof {
            assert(primitives::contents(diff.transactions@) =~= Seq::new(
                diff.transactions@.len(),
                |i: int| diff.transactions@[i]@,
            ));
            assert forall|i: int| 0 <= i < diff.transactions@.len() implies ({
                &&& transaction::leading_transaction(
                    (#[trigger] diff.transactions@[i])@,
                ) matches Some((tx, _))
                &&& tx == transactions@[i]@
                &&& transaction::recovered_signer(tx.encoded) == Some(senders@[i])
            }) by {
                assert(transaction::recovered_signer(transactions@[i].encoded@) == Some(senders@[i]));
            }
        }
        let block = SealedBlock::seal(header, transactions, Some(diff.withdrawals), None);
        Ok(RecoveredBlock { block, senders })
    }
}

impl Flashblocks {
    /// The block that the flashblocks of a payload stand for together.
    pub fn try_into_block(self) -> (r: Result<RecoveredBlock, BlockError>)
        requires
            first_base(self@) is Some ==> first_base(self@)->0.base_fee_per_gas.value() <= u64::MAX,
        ensures
            ({
                let f = reduced(self@);
                match r {
                    Ok(b) => {
                        &&& self@.len() > 0
                        &&& f.base is Some
                        &&& all_decode(f.diff.transactions)
                        &&& all_recover(decoded(f.diff.transactions))
                        &&& is_block(b, f)
                    },
                    Err(BlockError::Empty) => self@.len() == 0,
                    Err(BlockError::MissingBase) => self@.len() > 0 && f.base is None,
                    Err(BlockError::Decode(_)) => self@.len() > 0 && f.base is Some && !all_decode(
                        f.diff.transactions,
                    ),
                    Err(BlockError::Recover) => {
                        &&& self@.len() > 0
                        &&& f.base is Some
                        &&& all_decode(f.diff.transactions)
                        &&& !all_recover(decoded(f.diff.transactions))
                    },
                }
            }),
    {
        match Flashblock::reduce(self) {
            Some(f) => f.try_into_block(),
            None => Err(BlockError::Empty),
        }
    }
}

/// The base of a payload's flashblocks is the first one's.
pub proof fn law_base_of_payload(s: Seq<PayloadView<FlashblockMetadata>>)
    requires
        is_payload(s),
    ensures
        reduced(s).base == s[0].base,
    decreases s.len(),
{
    if s.len() > 1 {
        law_base_of_payload(s.drop_last());
    } else {
        assert(s.take(1) =~= s);
        lemma_reduced_one(s);
    }
}

/// A flashblock that is pushed to a payload adds its transactions and withdrawals behind those that
/// are there, and decides everything else but the base and the payload id.
pub proof fn law_push_extends(
    s: Seq<PayloadView<FlashblockMetadata>>,
    f: PayloadView<FlashblockMetadata>,
)
    requires
        is_payload(s),
        starts_new(s, f) == Ok::<bool, PushError>(false),
    ensures
        ({
            let before = reduced(s);
            let after = reduced(pushed(s, f));
            &&& after.payload_id == before.payload_id
            &&& after.base == before.base
            &&& after.index == f.index
            &&& after.metadata == f.metadata
            &&& after.diff.transactions == before.diff.transactions + f.diff.transactions
            &&& after.diff.withdrawals == before.diff.withdrawals + f.diff.withdrawals
            &&& after.diff == (DeltaView {
                transactions: after.diff.transactions,
                withdrawals: after.diff.withdrawals,
                ..f.diff
            })
        }),
{
    assert(s.push(f).drop_last() =~= s);
    law_base_of_payload(s);
}

/// A flashblock that starts a new payload leaves nothing of the payload before.
pub proof fn law_new_payload_forgets(
    s: Seq<PayloadView<FlashblockMetadata>>,
    f: PayloadView<FlashblockMetadata>,
)
    requires
        is_payload(s),
        starts_new(s, f) == Ok::<bool, PushError>(true),
    ensures
        pushed(s, f) == seq![f],
        reduced(pushed(s, f)) == f,
        f.base->0.timestamp > s[0].base->0.timestamp,
{
    assert(seq![f].take(1) =~= seq![f]);
    lemma_reduced_one(seq![f]);
}

/// The transactions of flashblocks can be taken together in any grouping.
pub proof fn law_transactions_split(
    a: Seq<PayloadView<FlashblockMetadata>>,
    b: Seq<PayloadView<FlashblockMetadata>>,
)
    ensures
        all_transactions(a + b) == all_transactions(a) + all_transactions(b),
        all_withdrawals(a + b) == all_withdrawals(a) + all_withdrawals(b),
    decreases b.len(),
{
    if b.len() == 0 {
        assert(a + b =~= a);
    } else {
        assert((a + b).drop_last() =~= a + b.drop_last());
        law_transactions_split(a, b.drop_last());
        assert(all_transactions(a + b) =~= all_transactions(a) + all_transactions(b));
        assert(all_withdrawals(a + b) =~= all_withdrawals(a) + all_withdrawals(b));
    }
}

/// The first flashblock of a payload turns back into the payload's block, where it carries all of it:
/// the block has the roots, the filter, the gas and the transactions of the payload's, and stands on
/// what the payload attributes ask for.
pub proof fn law_flashblock_is_the_block<B>(
    payload: BuiltView<B>,
    attributes: AttributesView,
    f: PayloadView<FlashblockMetadata>,
    b: RecoveredBlock,
)
    requires
        f.base matches Some(base) && is_base(base, payload, attributes),
        is_diff(f.diff, payload, 0, 0),
        is_block(b, f),
        forall|i: int|
            0 <= i < payload.block.transactions.len() ==> {
                &&& transaction::leading_transaction(
                    (#[trigger] payload.block.transactions[i]).encoded,
                ) matches Some((tx, _))
                &&& tx == payload.block.transactions[i]
            },
    ensures
        ({
            let header = b.block@.header;
            let built = payload.block.header;
            &&& header.state_root == built.state_root
            &&& header.receipts_root == built.receipts_root
            &&& header.logs_bloom == built.logs_bloom
            &&& header.gas_used == built.gas_used
            &&& header.number == built.number
            &&& header.gas_limit == built.gas_limit
            &&& header.extra_data == built.extra_data
            &&& built.base_fee_per_gas is Some ==> header.base_fee_per_gas
                == built.base_fee_per_gas
            &&& built.withdrawals_root is Some ==> header.withdrawals_root
                == built.withdrawals_root
            &&& header.transactions_root == block::ordered_root(
                block::encodings(payload.block.transactions),
            )
            &&& header.parent_hash == attributes.parent
            &&& header.beneficiary == attributes.suggested_fee_recipient
            &&& header.mix_hash == attributes.prev_randao
            &&& header.timestamp == attributes.timestamp
            &&& f.diff.block_hash == payload.block.hash
            &&& b.block@.transactions == payload.block.transactions
            &&& b.block@.hash == block::header_hash(header)
            &&& payload.block.withdrawals is Some ==> b.block@.withdrawals
                == payload.block.withdrawals
        }),
{
    let all = block::encodings(payload.block.transactions);
    assert(all.skip(0) =~= all);
    assert(f.diff.transactions == all);
    assert(decoded(all) =~= payload.block.transactions);
    if payload.block.withdrawals is Some {
        let w = payload.block.withdrawals->0;
        assert(w.skip(0) =~= w);
    }
}

/// A flashblock behind the first carries what is left of the payload: the transactions before the
/// offset and those that it carries are all of the block's, in order.
pub proof fn law_rest_of_the_payload<B>(
    payload: BuiltView<B>,
    diff: DeltaView,
    transactions_offset: nat,
    withdrawal_offset: nat,
)
    requires
        is_diff(diff, payload, transactions_offset, withdrawal_offset),
        transactions_offset <= payload.block.transactions.len(),
        payload.block.withdrawals matches Some(w) ==> withdrawal_offset <= w.len(),
    ensures
        block::encodings(payload.block.transactions.take(transactions_offset as int))
            + diff.transactions == block::encodings(payload.block.transactions),
        payload.block.withdrawals matches Some(w) ==> w.take(withdrawal_offset as int)
            + diff.withdrawals == w,
        payload.block.withdrawals is None ==> diff.withdrawals.len() == 0,
        diff.state_root == payload.block.header.state_root,
        diff.receipts_root == payload.block.header.receipts_root,
        diff.logs_bloom == payload.block.header.logs_bloom,
        diff.gas_used == payload.block.header.gas_used,
        diff.block_hash == payload.block.hash,
{
    let all = block::encodings(payload.block.transactions);
    let n = transactions_offset as int;
    assert(block::encodings(payload.block.transactions.take(n)) + diff.transactions =~= all);
    if payload.block.withdrawals is Some {
        let w = payload.block.withdrawals->0;
        assert(w.take(withdrawal_offset as int) + diff.withdrawals =~= w);
    }
}

/// The base of a payload's first flashblock says what the payload attributes ask for, and of the block
/// what its header does.
pub proof fn law_base_tells<B>(base: BaseView, payload: BuiltView<B>, attributes: AttributesView)
    requires
        is_base(base, payload, attributes),
    ensures
        attributes.parent_beacon_block_root matches Some(root) ==> base.parent_beacon_block_root
            == root,
        base.parent_hash == attributes.parent,
        base.fee_recipient == attributes.suggested_fee_recipient,
        base.prev_randao == attributes.prev_randao,
        base.timestamp == attributes.timestamp,
        base.block_number == payload.block.header.number,
        base.gas_limit == payload.block.header.gas_limit,
        base.extra_data == payload.block.header.extra_data,
        payload.block.header.base_fee_per_gas matches Some(fee) ==> base.base_fee_per_gas.value()
            == fee,
{
}

/// What all of a payload's flashblocks reduce to is of the last one, but for the transactions and
/// withdrawals, which are those of all, and for the payload id and the base, which are the first
/// one's.
pub proof fn law_reduced(s: Seq<PayloadView<FlashblockMetadata>>)
    requires
        is_payload(s),
    ensures
        reduced(s).payload_id == s[0].payload_id,
        reduced(s).base == s[0].base,
        reduced(s).index == s.len() - 1,
        reduced(s).metadata == s.last().metadata,
        reduced(s).diff == (DeltaView {
            transactions: all_transactions(s),
            withdrawals: all_withdrawals(s),
            ..s.last().diff
        }),
        forall|i: int, k: int|
            0 <= i < s.len() && 0 <= k < s[i].diff.transactions.len() ==> all_transactions(
                s,
            ).contains(#[trigger] s[i].diff.transactions[k]),
    decreases s.len(),
{
    law_base_of_payload(s);
    assert forall|i: int, k: int|
        0 <= i < s.len() && 0 <= k < s[i].diff.transactions.len() implies all_transactions(s).contains(
        #[trigger] s[i].diff.transactions[k],
    ) by {
        let a = s.take(i);
        let b = s.skip(i);
        assert(s =~= a + b);
        law_transactions_split(a, b);
        law_transactions_split(seq![s[i]], b.skip(1));
        assert(b =~= seq![s[i]] + b.skip(1));
        law_transactions_of_one(s[i]);
        let at = all_transactions(a).len() + k;
        assert(all_transactions(s)[at as int] == s[i].diff.transactions[k]);
    }
}

/// The transactions and withdrawals of one flashblock are its own.
pub proof fn law_transactions_of_one(f: PayloadView<FlashblockMetadata>)
    ensures
        all_transactions(seq![f]) == f.diff.transactions,
        all_withdrawals(seq![f]) == f.diff.withdrawals,
        reduced(seq![f]) == f,
{
    assert(seq![f].take(1) =~= seq![f]);
    lemma_reduced_one(seq![f]);
    assert(reduced(seq![f]).diff.transactions == f.diff.transactions);
    assert(reduced(seq![f]).diff.withdrawals == f.diff.withdrawals);
}

/// A flashblock goes with those of the current payload exactly if it is the next one of the payload, or
/// the first one, with a base, of a payload of a later time.
pub proof fn law_goes_with(
    s: Seq<PayloadView<FlashblockMetadata>>,
    f: PayloadView<FlashblockMetadata>,
)
    requires
        is_payload(s),
        s.len() <= u64::MAX,
    ensures
        starts_new(s, f) is Ok <==> {
            ||| f.payload_id == s[0].payload_id && f.index == s.last().index + 1
            ||| f.payload_id != s[0].payload_id && f.index == 0 && f.base is Some
                && f.base->0.timestamp > s[0].base->0.timestamp
        },
        starts_new(s, f) is Ok ==> pushed(s, f).last() == f && is_payload(pushed(s, f)),
        starts_new(s, f) is Err ==> pushed(s, f) == s,
        starts_new(s, f) == Ok::<bool, PushError>(true) ==> pushed(s, f).len() == 1,
        starts_new(s, f) == Ok::<bool, PushError>(false) ==> pushed(s, f).len() == s.len() + 1
            && pushed(s, f).take(s.len() as int) == s,
{
    assert(s.last() == s[s.len() - 1]);
    if starts_new(s, f) == Ok::<bool, PushError>(false) {
        assert(s.push(f).take(s.len() as int) =~= s);
        assert forall|i: int| 0 <= i < s.push(f).len() implies (#[trigger] s.push(f)[i]).index == i
            && s.push(f)[i].payload_id == s.push(f)[0].payload_id by {
            if i < s.len() {
                assert(s[i].index == i);
            }
        }
    }
}

/// Nothing that is known yet stands in the way of a payload: the first flashblock of any takes the place
/// of that of the empty payload, where its time is not that of the unix epoch.
pub proof fn law_any_payload_can_start(
    s: Seq<PayloadView<FlashblockMetadata>>,
    f: PayloadView<FlashblockMetadata>,
)
    requires
        s.len() == 1,
        is_empty_payload(s[0]),
        f.payload_id != s[0].payload_id,
        f.index == 0,
        f.base matches Some(base) && base.timestamp > 0,
    ensures
        pushed(s, f) == seq![f],
{
}

/// Whether a flashblock is the one of an empty payload, in which everything is zero or empty.
pub open spec fn is_empty_payload(f: PayloadView<FlashblockMetadata>) -> bool {
    &&& f.payload_id@ == primitives::zeros(8)
    &&& f.index == 0
    &&& f.diff.state_root@ == primitives::zeros(32)
    &&& f.diff.receipts_root@ == primitives::zeros(32)
    &&& f.diff.logs_bloom@ == primitives::zeros(256)
    &&& f.diff.gas_used == 0
    &&& f.diff.block_hash@ == primitives::zeros(32)
    &&& f.diff.transactions.len() == 0
    &&& f.diff.withdrawals.len() == 0
    &&& f.diff.withdrawals_root@ == primitives::zeros(32)
    &&& f.metadata.fees.value() == 0
    &&& f.metadata.flashblock_timestamp is None
    &&& f.base matches Some(base) && {
        &&& base.parent_beacon_block_root@ == primitives::zeros(32)
        &&& base.parent_hash@ == primitives::zeros(32)
        &&& base.fee_recipient@ == primitives::zeros(20)
        &&& base.prev_randao@ == primitives::zeros(32)
        &&& base.block_number == 0
        &&& base.gas_limit == 0
        &&& base.timestamp == 0
        &&& base.extra_data.len() == 0
        &&& base.base_fee_per_gas.value() == 0
    }
}

impl Default for Flashblocks {
    /// The flashblocks of an empty payload: one flashblock in which everything is zero or empty.
    fn default() -> (r: Self)
        ensures
            r.wf(),
            r@.len() == 1,
            is_empty_payload(r@[0]),
            r@[0].index == 0,
            r@[0].base is Some,
            r@[0].base->0.timestamp == 0,
            r@[0].base->0.block_number == 0,
            r@[0].base->0.gas_limit == 0,
            r@[0].diff.transactions.len() == 0,
            r@[0].diff.withdrawals.len() == 0,
            r@[0].diff.gas_used == 0,
            r@[0].metadata.fees.value() == 0,
            forall|i: int| 0 <= i < 8 ==> (#[trigger] r@[0].payload_id@[i]) == 0,
            forall|i: int| 0 <= i < 32 ==> (#[trigger] r@[0].diff.block_hash@[i]) == 0,
    {
        let payload = FlashblocksPayloadV1 {
            payload_id: [0;8],
            index: 0,
            diff: ExecutionPayloadFlashblockDeltaV1 {
                state_root: [0;32],
                receipts_root: [0;32],
                logs_bloom: [0;256],
                gas_used: 0,
                block_hash: [0;32],
                transactions: Vec::new(),
                withdrawals: Vec::new(),
                withdrawals_root: [0;32],
            },
            metadata: FlashblockMetadata { fees: U256::zero(), flashblock_timestamp: None },
            base: Some(
                ExecutionPayloadBaseV1 {
                    parent_beacon_block_root: [0;32],
                    parent_hash: [0;32],
                    fee_recipient: [0;20],
                    prev_randao: [0;32],
                    block_number: 0,
                    gas_limit: 0,
                    timestamp: 0,
                    extra_data: Vec::new(),
                    base_fee_per_gas: U256::zero(),
                },
            ),
        };
        proof {
            let base = payload.base->0;
            assert(payload.payload_id@ =~= primitives::zeros(8));
            assert(payload.diff.state_root@ =~= primitives::zeros(32));
            assert(payload.diff.receipts_root@ =~= primitives::zeros(32));
            assert(payload.diff.logs_bloom@ =~= primitives::zeros(256));
            assert(payload.diff.block_hash@ =~= primitives::zeros(32));
            assert(payload.diff.withdrawals_root@ =~= primitives::zeros(32));
            assert(base.parent_beacon_block_root@ =~= primitives::zeros(32));
            assert(base.parent_hash@ =~= primitives::zeros(32));
            assert(base.fee_recipient@ =~= primitives::zeros(20));
            assert(base.prev_randao@ =~= primitives::zeros(32));
        }
        let mut list: Vec<Flashblock> = Vec::new();
        list.push(Flashblock { flashblock: payload });
        let r = Flashblocks { list };
        assert(r@[0] == list@[0]@);
        r
    }
}

/// The transactions of a flashblock can be read if each of them can, and are then what each is read as;
/// their senders can be recovered if each can, and are then that of each.
pub proof fn law_each_transaction(strings: Seq<Seq<u8>>, transactions: Seq<TxView>)
    ensures
        all_decode(strings) <==> forall|i: int|
            0 <= i < strings.len() ==> transaction::leading_transaction(#[trigger] strings[i]) is Some,
        decoded(strings).len() == strings.len(),
        all_decode(strings) ==> forall|i: int| #![trigger strings[i]]
            0 <= i < strings.len() ==> decoded(strings)[i] == (transaction::leading_transaction(
                strings[i],
            )->0).0,
        all_recover(transactions) <==> forall|i: int| #![trigger transactions[i]]
            0 <= i < transactions.len() ==> transaction::recovered_signer(transactions[i].encoded)
                is Some,
        senders_of(transactions).len() == transactions.len(),
        all_recover(transactions) ==> forall|i: int| #![trigger transactions[i]]
            0 <= i < transactions.len() ==> transaction::recovered_signer(transactions[i].encoded)
                == Some(senders_of(transactions)[i]),
{
}

}
