//! Puts the sequencer's transactions at the top of a payload.
use vstd::prelude::*;

verus! {

/// Why the sequencer's transactions cannot be put at the top of a payload.
#[derive(Clone, Copy, Debug, PartialEq, Eq)]
pub enum OptimismPrologueError {
    /// The payload already has that many transactions.
    TransactionsNotEmpty(usize),
    /// The sequencer's transaction at this place cannot be executed.
    TransactionExecution(usize),
    /// The sequencer's transactions use more gas than the block may.
    GasLimit(u64, u64),
    /// The sequencer's transactions take more data than the block may.
    DataAvailability(u64, u64),
}

/// What a block may use.
#[derive(Clone, Copy, Debug, PartialEq, Eq)]
pub struct Limits {
    /// Gas.
    pub gas_limit: u64,
    /// Data, if it is limited.
    pub max_block_da: Option<u64>,
}

/// Puts the transactions that the consensus layer asks for in the payload attributes at the top of
/// the payload. The payload may not have any transactions yet, since the sequencer expects its own at
/// the top of the block.
#[derive(Clone, Copy, Debug, PartialEq, Eq)]
pub struct OptimismPrologue;

/// What a transaction makes of the payload: the gas and the data that the payload's checkpoint then
/// uses.
pub type Applied = (u64, u64);

/// Gas that the checkpoints behind transactions use together.
pub open spec fn total_gas(applied: Seq<Applied>) -> nat
    decreases applied.len(),
{
    if applied.len() == 0 {
        0
    } else {
        total_gas(applied.drop_last()) + applied.last().0 as nat
    }
}

/// Data that the checkpoints behind transactions take together.
pub open spec fn total_da(applied: Seq<Applied>) -> nat
    decreases applied.len(),
{
    if applied.len() == 0 {
        0
    } else {
        total_da(applied.drop_last()) + applied.last().1 as nat
    }
}

/// Whether that much gas and data is within the limits.
pub open spec fn within(gas: nat, da: nat, limits: Limits) -> bool {
    &&& gas <= limits.gas_limit
    &&& limits.max_block_da matches Some(max) ==> da <= max
}

/// What is done next.
#[derive(Clone, Copy, Debug, PartialEq, Eq)]
pub enum PrologueAction {
    /// Apply the sequencer's transaction at this place to the payload.
    Apply(usize),
    /// Fail: there is no valid payload.
    Fail(OptimismPrologueError),
    /// Put a barrier behind the payload's transactions, so that they are not reordered or changed by
    /// later steps. The step is then done.
    Barrier,
    /// The step is done.
    Done,
}

/// What has come of applying a transaction.
#[derive(Clone, Copy, Debug, PartialEq, Eq)]
pub enum PrologueEvent {
    /// The payload's checkpoint behind the transaction uses that much.
    Applied {
        /// Gas.
        gas_used: u64,
        /// Data.
        da_bytes_used: u64,
    },
    /// The transaction cannot be executed.
    Rejected,
}

/// What is done once these of the sequencer's transactions have been applied: the next one is, and
/// behind the last one stands a barrier. If they exceed a limit, no valid payload can be built.
pub open spec fn action_after(
    transactions: nat,
    applied: Seq<Applied>,
    limits: Limits,
) -> PrologueAction {
    if total_gas(applied) > limits.gas_limit {
        PrologueAction::Fail(
            OptimismPrologueError::GasLimit(total_gas(applied) as u64, limits.gas_limit),
        )
    } else if !within(total_gas(applied), total_da(applied), limits) {
        PrologueAction::Fail(
            OptimismPrologueError::DataAvailability(
                total_da(applied) as u64,
                limits.max_block_da->0,
            ),
        )
    } else if applied.len() < transactions {
        PrologueAction::Apply(applied.len() as usize)
    } else {
        PrologueAction::Barrier
    }
}

/// How far the sequencer's transactions have been applied.
pub struct PrologueRun {
    /// What the block may use.
    limits: Limits,
    /// Number of the sequencer's transactions.
    transactions: usize,
    /// Number of those that have been applied.
    applied: usize,
    /// Gas that they have used.
    gas_used: u64,
    /// Data that they have taken.
    da_bytes_used: u64,
    /// What they have made of the payload.
    done: Ghost<Seq<Applied>>,
}

impl PrologueRun {
    /// What the block may use.
    pub closed spec fn limits(self) -> Limits {
        self.limits
    }

    /// Number of the sequencer's transactions.
    pub closed spec fn transactions(self) -> nat {
        self.transactions as nat
    }

    /// What the transactions that have been applied have made of the payload, in order.
    pub closed spec fn applied(self) -> Seq<Applied> {
        self.done@
    }

    /// Whether what has been used is kept up with what has been applied.
    pub closed spec fn wf(self) -> bool {
        &&& self.applied == self.done@.len()
        &&& self.gas_used == total_gas(self.done@)
        &&& self.da_bytes_used == total_da(self.done@)
    }

    /// Goes on once something has come of the transaction that was to be applied.
    pub fn step(&mut self, event: PrologueEvent) -> (r: PrologueAction)
        requires
            old(self).wf(),
            old(self).applied().len() < old(self).transactions(),
            event matches PrologueEvent::Applied { gas_used, da_bytes_used } ==> {
                &&& total_gas(old(self).applied()) + gas_used <= u64::MAX
                &&& total_da(old(self).applied()) + da_bytes_used <= u64::MAX
            },
        ensures
            final(self).wf(),
            final(self).limits() == old(self).limits(),
            final(self).transactions() == old(self).transactions(),
            match event {
                PrologueEvent::Applied { gas_used, da_bytes_used } => {
                    &&& final(self).applied() == old(self).applied().push((gas_used, da_bytes_used))
                    &&& r == action_after(
                        old(self).transactions(),
                        final(self).applied(),
                        old(self).limits(),
                    )
                },
                PrologueEvent::Rejected => {
                    &&& final(self).applied() == old(self).applied()
                    &&& r == PrologueAction::Fail(
                        OptimismPrologueError::TransactionExecution(
                            old(self).applied().len() as usize,
                        ),
                    )
                },
            },
            event is Rejected <==> r matches PrologueAction::Fail(
                OptimismPrologueError::TransactionExecution(_),
            ),
            event matches PrologueEvent::Applied { gas_used, da_bytes_used } ==> {
                let gas = total_gas(old(self).applied()) + gas_used;
                let da = total_da(old(self).applied()) + da_bytes_used;
                let limits = old(self).limits();
                let n = old(self).applied().len() + 1;
                &&& gas == total_gas(final(self).applied())
                &&& da == total_da(final(self).applied())
                &&& gas > limits.gas_limit <==> r == PrologueAction::Fail(
                    OptimismPrologueError::GasLimit(gas as u64, limits.gas_limit),
                )
                &&& limits.max_block_da matches Some(max) ==> (gas <= limits.gas_limit && da > max
                    <==> r == PrologueAction::Fail(
                    OptimismPrologueError::DataAvailability(da as u64, max),
                ))
                &&& limits.max_block_da is None ==> (gas > limits.gas_limit <==> r is Fail)
                &&& r !is Fail && n < old(self).transactions() <==> r == PrologueAction::Apply(
                    n as usize,
                )
                &&& r !is Fail && n == old(self).transactions() <==> r is Barrier
            },
    {
        let (gas_used, da_bytes_used) = match event {
            PrologueEvent::Applied { gas_used, da_bytes_used } => (gas_used, da_bytes_used),
            PrologueEvent::Rejected => {
                return PrologueAction::Fail(
                    OptimismPrologueError::TransactionExecution(self.applied),
                );
            },
        };
        proof {
            let next = self.done@.push((gas_used, da_bytes_used));
            assert(next.drop_last() =~= self.done@);
            self.done@ = next;
        }
        self.applied = self.applied + 1;
        self.gas_used = self.gas_used + gas_used;
        self.da_bytes_used = self.da_bytes_used + da_bytes_used;
        if self.gas_used > self.limits.gas_limit {
            return PrologueAction::Fail(
                OptimismPrologueError::GasLimit(self.gas_used, self.limits.gas_limit),
            );
        }
        if let Some(max) = self.limits.max_block_da {
            if self.da_bytes_used > max {
                return PrologueAction::Fail(
                    OptimismPrologueError::DataAvailability(self.da_bytes_used, max),
                );
            }
        }
        if self.applied < self.transactions {
            PrologueAction::Apply(self.applied)
        } else {
            PrologueAction::Barrier
        }
    }
}

impl OptimismPrologue {
    /// Begins the step, for a payload with `existing` transactions in `depth` checkpoints, where the
    /// sequencer has that many transactions. A payload that goes on from one that was built has the
    /// sequencer's transactions already, and nothing is done.
    pub fn begin(
        has_built_payload: bool,
        existing: usize,
        depth: usize,
        transactions: usize,
        limits: Limits,
    ) -> (r: (PrologueRun, PrologueAction))
        ensures
            r.0.wf(),
            r.0.limits() == limits,
            r.0.transactions() == transactions,
            r.0.applied() == Seq::<Applied>::empty(),
            r.1 == if has_built_payload {
                PrologueAction::Done
            } else if existing > 0 {
                PrologueAction::Fail(OptimismPrologueError::TransactionsNotEmpty(existing))
            } else if transactions > 0 {
                PrologueAction::Apply(0)
            } else if depth > 0 {
                PrologueAction::Barrier
            } else {
                PrologueAction::Done
            },
            !has_built_payload && existing == 0 && transactions > 0 ==> r.1 == action_after(
                transactions as nat,
                r.0.applied(),
                limits,
            ),
    {
        let run = PrologueRun {
            limits,
            transactions,
            applied: 0,
            gas_used: 0,
            da_bytes_used: 0,
            done: Ghost(Seq::empty()),
        };
        let action = if has_built_payload {
            PrologueAction::Done
        } else if existing > 0 {
            PrologueAction::Fail(OptimismPrologueError::TransactionsNotEmpty(existing))
        } else if transactions > 0 {
            PrologueAction::Apply(0)
        } else if depth > 0 {
            PrologueAction::Barrier
        } else {
            PrologueAction::Done
        };
        (run, action)
    }
}

/// Whether these reports come in one after the other: each but the last leads to a further
/// transaction.
pub open spec fn goes_on(transactions: nat, reports: Seq<Applied>, limits: Limits) -> bool {
    forall|n: int|
        0 <= n < reports.len() ==> action_after(transactions, #[trigger] reports.take(n), limits)
            is Apply
}

/// The sequencer's transactions are applied in order, each of them once.
pub proof fn law_applied_in_order(transactions: nat, reports: Seq<Applied>, limits: Limits)
    requires
        transactions <= usize::MAX,
        goes_on(transactions, reports, limits),
    ensures
        reports.len() <= transactions,
        forall|n: int|
            0 <= n < reports.len() ==> action_after(transactions, #[trigger] reports.take(n), limits)
                == PrologueAction::Apply(n as usize),
{
    if reports.len() > 0 {
        let n = reports.len() - 1;
        assert(action_after(transactions, reports.take(n), limits) is Apply);
    }
}

/// A barrier goes behind the sequencer's transactions once all of them have been applied, and
/// exactly if they are within the limits together.
pub proof fn law_barrier_behind_all(transactions: nat, reports: Seq<Applied>, limits: Limits)
    requires
        0 < transactions <= usize::MAX,
    ensures
        goes_on(transactions, reports, limits) && action_after(transactions, reports, limits)
            is Barrier <==> reports.len() == transactions && within(
            total_gas(reports),
            total_da(reports),
            limits,
        ),
{
    law_all_within(reports, limits);
    if goes_on(transactions, reports, limits) {
        law_applied_in_order(transactions, reports, limits);
    }
    if reports.len() == transactions && within(total_gas(reports), total_da(reports), limits) {
        assert forall|n: int| 0 <= n < reports.len() implies action_after(
            transactions,
            #[trigger] reports.take(n),
            limits,
        ) is Apply by {
            assert(within(total_gas(reports.take(n)), total_da(reports.take(n)), limits));
        }
    }
}

/// The sequencer's transactions pass one after the other exactly if they are within the limits
/// together.
pub proof fn law_all_within(applied: Seq<Applied>, limits: Limits)
    ensures
        within(total_gas(applied), total_da(applied), limits) <==> forall|n: int|
            0 <= n <= applied.len() ==> within(
                total_gas(#[trigger] applied.take(n)),
                total_da(applied.take(n)),
                limits,
            ),
{
    assert forall|n: int| 0 <= n <= applied.len() implies total_gas(#[trigger] applied.take(n))
        <= total_gas(applied) && total_da(applied.take(n)) <= total_da(applied) by {
        lemma_totals_grow(applied, n);
    }
    assert(applied.take(applied.len() as int) =~= applied);
}

proof fn lemma_totals_grow(applied: Seq<Applied>, n: int)
    requires
        0 <= n <= applied.len(),
    ensures
        total_gas(applied.take(n)) <= total_gas(applied),
        total_da(applied.take(n)) <= total_da(applied),
    decreases applied.len(),
{
    if n < applied.len() {
        lemma_totals_grow(applied.drop_last(), n);
        assert(applied.drop_last().take(n) =~= applied.take(n));
    } else {
        assert(applied.take(n) =~= applied);
    }
}

/// Gas and data add up: those of several transactions are those of the first ones and of the last one,
/// and none without a transaction.
pub proof fn law_totals_add_up(applied: Seq<Applied>, gas: u64, da: u64)
    ensures
        total_gas(Seq::<Applied>::empty()) == 0,
        total_da(Seq::<Applied>::empty()) == 0,
        total_gas(applied.push((gas, da))) == total_gas(applied) + gas,
        total_da(applied.push((gas, da))) == total_da(applied) + da,
{
    assert(applied.push((gas, da)).drop_last() =~= applied);
}

/// The step fails exactly if the transactions use more gas than the block may, or take more data than a
/// limit that is set, and says how much was used and what the limit is; the gas comes first.
pub proof fn law_fails_beyond_limits(transactions: nat, applied: Seq<Applied>, limits: Limits)
    requires
        applied.len() <= transactions <= usize::MAX,
        total_gas(applied) <= u64::MAX,
        total_da(applied) <= u64::MAX,
    ensures
        ({
            let gas = total_gas(applied);
            let da = total_da(applied);
            let next = action_after(transactions, applied, limits);
            &&& next is Fail <==> gas > limits.gas_limit || (limits.max_block_da is Some && da
                > limits.max_block_da->0)
            &&& next matches PrologueAction::Fail(OptimismPrologueError::GasLimit(used, limit))
                ==> used == gas && limit == limits.gas_limit && used > limit
            &&& next matches PrologueAction::Fail(
                OptimismPrologueError::DataAvailability(used, limit),
            ) ==> used == da && limits.max_block_da == Some(limit) && used > limit && gas
                <= limits.gas_limit
            &&& next is Apply || next is Fail || next is Barrier
            &&& next matches PrologueAction::Apply(n) ==> n == applied.len() && n < transactions
            &&& next is Barrier ==> applied.len() == transactions
        }),
{
}

}
