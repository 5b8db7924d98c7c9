//! Executors that go on from what previous flashblocks have led to.
use crate::model;
use crate::receipt::{OpReceipt, ReceiptView};
use vstd::prelude::*;

verus! {

/// What an executor has done so far.
#[derive(Debug, PartialEq, Eq)]
pub struct FlashblocksBlockExecutor {
    /// Receipts of the transactions that were executed.
    pub receipts: Vec<OpReceipt>,
    /// Gas that the transactions have used.
    pub gas_used: u64,
}

/// What is known of an executor.
#[verifier::ext_equal]
pub struct ExecutorView {
    pub receipts: Seq<ReceiptView>,
    pub gas_used: nat,
}

impl View for FlashblocksBlockExecutor {
    type V = ExecutorView;

    open spec fn view(&self) -> ExecutorView {
        ExecutorView { receipts: model::views(self.receipts@), gas_used: self.gas_used as nat }
    }
}

impl FlashblocksBlockExecutor {
    /// An executor that has done nothing.
    pub fn new() -> (r: Self)
        ensures
            r@.receipts.len() == 0,
            r@.gas_used == 0,
            r.receipts@.len() == 0,
            r.gas_used == 0,
    {
        FlashblocksBlockExecutor { receipts: Vec::new(), gas_used: 0 }
    }

    /// The executor with further receipts behind its own.
    pub fn with_receipts(self, receipts: Vec<OpReceipt>) -> (r: Self)
        ensures
            r@.receipts == self@.receipts + model::views(receipts@),
            r@.gas_used == self@.gas_used,
            r.receipts@ == self.receipts@ + receipts@,
            r.gas_used == self.gas_used,
    {
        let mut all = self.receipts;
        let mut more = receipts;
        all.append(&mut more);
        assert(model::views(all@) =~= model::views(self.receipts@) + model::views(receipts@));
        FlashblocksBlockExecutor { receipts: all, gas_used: self.gas_used }
    }

    /// The executor with gas on top of its own.
    pub fn with_gas_used(self, gas_used: u64) -> (r: Self)
        requires
            self@.gas_used + gas_used <= u64::MAX,
        ensures
            r@.receipts == self@.receipts,
            r@.gas_used == self@.gas_used + gas_used,
            r.receipts == self.receipts,
            r.gas_used == self.gas_used + gas_used,
    {
        FlashblocksBlockExecutor { receipts: self.receipts, gas_used: self.gas_used + gas_used }
    }
}

/// Makes executors, which go on from a state if there is one. The library carries changes to the
/// state as they are: `B` is whatever holds them.
#[derive(Debug, PartialEq, Eq)]
pub struct FlashblocksBlockExecutorFactory<B> {
    pre_state: Option<B>,
}

impl<B> FlashblocksBlockExecutorFactory<B> {
    /// The state that executors go on from.
    pub closed spec fn state(self) -> Option<B> {
        self.pre_state
    }

    /// A factory whose executors start afresh.
    pub fn new() -> (r: Self)
        ensures
            r.state() is None,
    {
        FlashblocksBlockExecutorFactory { pre_state: None }
    }

    /// The state that executors go on from, which they do not from then on.
    pub fn take_bundle(&mut self) -> (r: Option<B>)
        ensures
            r == old(self).state(),
            final(self).state() is None,
    {
        self.pre_state.take()
    }

    /// Has executors go on from a state.
    pub fn set_pre_state(&mut self, pre_state: B)
        ensures
            final(self).state() == Some(pre_state),
    {
        self.pre_state = Some(pre_state);
    }

    /// A new executor, and the state that it is given to go on from.
    pub fn create_executor(&self) -> (r: (FlashblocksBlockExecutor, Option<&B>))
        ensures
            r.0@.receipts.len() == 0,
            r.0@.gas_used == 0,
            r.0.receipts@.len() == 0,
            r.0.gas_used == 0,
            match r.1 {
                Some(b) => self.state() == Some(*b),
                None => self.state() is None,
            },
    {
        (FlashblocksBlockExecutor::new(), self.pre_state.as_ref())
    }
}

}
