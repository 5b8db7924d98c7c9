//! Gas, fees and receipts of a block, transaction by transaction.
use crate::model;
use crate::num::{self, U256};
use crate::receipt::{self, ExecutionResult, OpReceipt, ReceiptView, ResultView};
use crate::transaction::{OpTxType, Transaction, TxView};
use vstd::prelude::*;

verus! {

/// A transaction that has been executed.
pub ghost struct ExecutedTx {
    /// The transaction.
    pub tx: TxView,
    /// What came of it.
    pub result: ResultView,
    /// Nonce of its sender, if it is a deposit and the sender's account exists.
    pub deposit_nonce: Option<u64>,
}

impl ExecutedTx {
    /// Whether the transaction pays the base fee, or does not have to.
    pub open spec fn pays(self, base_fee: u64) -> bool {
        self.tx.is_deposit() || self.tx.effective_tip_per_gas(base_fee) is Some
    }

    /// What the proposer gets for the transaction. Deposits pay nothing.
    pub open spec fn fee(self, base_fee: u64) -> nat {
        if self.tx.is_deposit() {
            0
        } else {
            (self.tx.effective_tip_per_gas(base_fee)->0 * self.result.gas_used) as nat
        }
    }
}

/// Gas that transactions have used.
pub open spec fn gas_of(executed: Seq<ExecutedTx>) -> nat
    decreases executed.len(),
{
    if executed.len() == 0 {
        0
    } else {
        gas_of(executed.drop_last()) + executed.last().result.gas_used as nat
    }
}

/// Whether all transactions pay the base fee, or do not have to.
pub open spec fn all_pay(executed: Seq<ExecutedTx>, base_fee: u64) -> bool {
    forall|i: int| 0 <= i < executed.len() ==> (#[trigger] executed[i]).pays(base_fee)
}

/// The receipts, fees and gas of the transactions that are in a block so far.
#[derive(Debug, PartialEq, Eq)]
pub struct Totals {
    /// Receipts of the transactions.
    pub receipts: Vec<OpReceipt>,
    /// What the proposer gets.
    pub fees: U256,
    /// Gas that the transactions have used.
    pub cumulative_gas_used: u64,
}

/// What totals hold.
#[verifier::ext_equal]
pub struct TotalsView {
    pub receipts: Seq<ReceiptView>,
    pub fees: nat,
    pub cumulative_gas_used: nat,
}

impl View for Totals {
    type V = TotalsView;

    open spec fn view(&self) -> TotalsView {
        TotalsView {
            receipts: model::views(self.receipts@),
            fees: self.fees.value(),
            cumulative_gas_used: self.cumulative_gas_used as nat,
        }
    }
}

impl TotalsView {
    /// The totals with one more transaction.
    pub open spec fn with(self, e: ExecutedTx, base_fee: u64, canyon: bool) -> TotalsView {
        let gas = self.cumulative_gas_used + e.result.gas_used as nat;
        TotalsView {
            receipts: self.receipts.push(
                receipt::receipt_of(e.tx.tx_type, e.result, gas as u64, e.deposit_nonce, canyon),
            ),
            fees: (self.fees + e.fee(base_fee)) % num::word_base(),
            cumulative_gas_used: gas,
        }
    }

    /// The totals with more transactions.
    pub open spec fn with_all(self, executed: Seq<ExecutedTx>, base_fee: u64, canyon: bool) -> TotalsView
        decreases executed.len(),
    {
        if executed.len() == 0 {
            self
        } else {
            self.with_all(executed.drop_last(), base_fee, canyon).with(
                executed.last(),
                base_fee,
                canyon,
            )
        }
    }
}

impl Totals {
    /// The totals of a block without transactions.
    pub fn new() -> (r: Self)
        ensures
            r@.receipts.len() == 0,
            r@.fees == 0,
            r@.cumulative_gas_used == 0,
    {
        Totals { receipts: Vec::new(), fees: U256::zero(), cumulative_gas_used: 0 }
    }

    /// Adds a transaction, of which `result` came, where the base fee is `base_fee` and `canyon` says
    /// whether Canyon is active.
    pub fn add_transaction(
        &mut self,
        tx: &Transaction,
        result: ExecutionResult,
        deposit_nonce: Option<u64>,
        base_fee: u64,
        canyon: bool,
    )
        requires
            old(self)@.cumulative_gas_used + result.gas_used <= u64::MAX,
            (ExecutedTx { tx: tx@, result: result@, deposit_nonce }).pays(base_fee),
        ensures
            final(self)@ == old(self)@.with(
                (ExecutedTx { tx: tx@, result: result@, deposit_nonce }),
                base_fee,
                canyon,
            ),
            final(self).cumulative_gas_used == old(self).cumulative_gas_used + result.gas_used,
            tx.tx_type == OpTxType::Deposit ==> final(self).fees.value() == old(self).fees.value(),
            tx.tx_type != OpTxType::Deposit ==> {
                let room = tx.max_fee_per_gas - base_fee;
                let tip = match tx.max_priority_fee_per_gas {
                    Some(most) => if most < room {
                        most as int
                    } else {
                        room
                    },
                    None => room,
                };
                final(self).fees.value() == (old(self).fees.value() + tip * result.gas_used)
                    % (num::word_base() as int)
            },
            final(self).receipts@.len() == old(self).receipts@.len() + 1,
            final(self).receipts@.take(old(self).receipts@.len() as int) == old(self).receipts@,
            ({
                let last = final(self).receipts@.last();
                &&& last.tx_type == tx.tx_type
                &&& last.success == result.success
                &&& last.logs == result.logs
                &&& last.cumulative_gas_used == old(self).cumulative_gas_used + result.gas_used
                &&& tx.tx_type == OpTxType::Deposit ==> last.deposit_nonce == deposit_nonce
                &&& tx.tx_type != OpTxType::Deposit ==> last.deposit_nonce is None
                &&& last.deposit_receipt_version is Some <==> tx.tx_type == OpTxType::Deposit && canyon
            }),
    {
        let ghost e = ExecutedTx { tx: tx@, result: result@, deposit_nonce };
        let ghost before = self@;
        proof {
            num::lemma_value_bound(self.fees);
        }
        self.cumulative_gas_used = self.cumulative_gas_used + result.gas_used;
        if !tx.is_deposit() {
            if let Some(tip) = tx.effective_tip_per_gas(base_fee) {
                let fee = U256::from_u128(tip).wrapping_mul(U256::from_u64(result.gas_used));
                proof {
                    lemma_fee_fits(tip, result.gas_used);
                }
                self.fees = self.fees.wrapping_add(fee);
            }
        } else {
            assert(before.fees % num::word_base() == before.fees) by (nonlinear_arith)
                requires
                    before.fees < num::word_base(),
            ;
        }
        let receipt = receipt::build_receipt(
            tx.tx_type,
            result,
            self.cumulative_gas_used,
            deposit_nonce,
            canyon,
        );
        let ghost receipts = self.receipts@;
        self.receipts.push(receipt);
        assert(model::views(self.receipts@) =~= model::views(receipts).push(receipt@));
        assert(self@ =~= before.with(e, base_fee, canyon));
        assert(self.receipts@.take(receipts.len() as int) =~= receipts);
    }
}

/// A tip times gas fits into a word.
proof fn lemma_fee_fits(tip: u128, gas: u64)
    ensures
        0 <= tip * gas < num::word_base(),
        (tip * gas) as nat % num::word_base() == tip * gas,
{
    assert(0 <= tip * gas <= 0xffff_ffff_ffff_ffff_ffff_ffff_ffff_ffffint * 0xffff_ffff_ffff_ffffint)
        by (nonlinear_arith)
        requires
            0 <= tip <= 0xffff_ffff_ffff_ffff_ffff_ffff_ffff_ffffint,
            0 <= gas <= 0xffff_ffff_ffff_ffffint,
    ;
}

/// Each receipt says how much gas the block's transactions have used up to its own, and the totals
/// say how much all of them have used.
pub proof fn law_cumulative_gas(
    start: TotalsView,
    executed: Seq<ExecutedTx>,
    base_fee: u64,
    canyon: bool,
)
    requires
        start.cumulative_gas_used + gas_of(executed) <= u64::MAX,
    ensures
        ({
            let end = start.with_all(executed, base_fee, canyon);
            &&& end.cumulative_gas_used == start.cumulative_gas_used + gas_of(executed)
            &&& end.receipts.len() == start.receipts.len() + executed.len()
            &&& end.receipts.take(start.receipts.len() as int) == start.receipts
            &&& forall|i: int| #![trigger executed[i]]
                0 <= i < executed.len() ==> end.receipts[start.receipts.len() + i].cumulative_gas_used
                    == start.cumulative_gas_used + gas_of(executed.take(i + 1))
        }),
    decreases executed.len(),
{
    let end = start.with_all(executed, base_fee, canyon);
    let n = start.receipts.len();
    if executed.len() == 0 {
        assert(end.receipts.take(n as int) =~= start.receipts);
    } else {
        let before = executed.drop_last();
        law_cumulative_gas(start, before, base_fee, canyon);
        let mid = start.with_all(before, base_fee, canyon);
        assert(end.receipts.take(n as int) =~= mid.receipts.take(n as int));
        assert forall|i: int| #![trigger executed[i]] 0 <= i < executed.len() implies end.receipts[n
            + i].cumulative_gas_used == start.cumulative_gas_used + gas_of(executed.take(i + 1)) by {
            if i < before.len() {
                assert(before[i] == executed[i]);
                assert(before.take(i + 1) =~= executed.take(i + 1));
            } else {
                assert(executed.take(i + 1) =~= executed);
            }
        }
    }
}

/// The receipts that are added are those of the executed transactions, one for one and in order: each
/// says of its transaction what came of it.
pub proof fn law_receipts_of_results(
    start: TotalsView,
    executed: Seq<ExecutedTx>,
    base_fee: u64,
    canyon: bool,
)
    ensures
        ({
            let end = start.with_all(executed, base_fee, canyon);
            let n = start.receipts.len();
            &&& end.receipts.len() == n + executed.len()
            &&& forall|i: int| #![trigger end.receipts[i]] 0 <= i < n ==> end.receipts[i] == start.receipts[i]
            &&& forall|i: int| #![trigger executed[i]]
                0 <= i < executed.len() ==> {
                    let r = end.receipts[n + i];
                    let e = executed[i];
                    &&& r.success == e.result.success
                    &&& r.logs == e.result.logs
                    &&& r.tx_type == e.tx.tx_type
                    &&& e.tx.tx_type == OpTxType::Deposit ==> r.deposit_nonce == e.deposit_nonce
                    &&& e.tx.tx_type != OpTxType::Deposit ==> r.deposit_nonce is None
                    &&& r.deposit_receipt_version is Some <==> e.tx.tx_type == OpTxType::Deposit
                        && canyon
                }
        }),
    decreases executed.len(),
{
    let end = start.with_all(executed, base_fee, canyon);
    let n = start.receipts.len();
    if executed.len() > 0 {
        let before = executed.drop_last();
        law_receipts_of_results(start, before, base_fee, canyon);
        let mid = start.with_all(before, base_fee, canyon);
        assert forall|i: int| #![trigger executed[i]] 0 <= i < executed.len() implies ({
            let r = end.receipts[n + i];
            let e = executed[i];
            &&& r.success == e.result.success
            &&& r.logs == e.result.logs
            &&& r.tx_type == e.tx.tx_type
            &&& e.tx.tx_type == OpTxType::Deposit ==> r.deposit_nonce == e.deposit_nonce
            &&& e.tx.tx_type != OpTxType::Deposit ==> r.deposit_nonce is None
            &&& r.deposit_receipt_version is Some <==> e.tx.tx_type == OpTxType::Deposit && canyon
        }) by {
            if i < before.len() {
                assert(before[i] == executed[i]);
                assert(end.receipts[n + i] == mid.receipts[n + i]);
            }
        }
        assert forall|i: int| #![trigger end.receipts[i]] 0 <= i < n implies end.receipts[i]
            == start.receipts[i] by {
            assert(mid.receipts[i] == start.receipts[i]);
        }
    }
}

/// The gas of transactions is that of each together.
pub proof fn law_gas_is_a_sum(a: Seq<ExecutedTx>, b: Seq<ExecutedTx>, e: ExecutedTx)
    ensures
        gas_of(a + b) == gas_of(a) + gas_of(b),
        gas_of(seq![e]) == e.result.gas_used,
        gas_of(Seq::empty()) == 0,
    decreases b.len(),
{
    reveal_with_fuel(gas_of, 2);
    assert(seq![e].drop_last() =~= Seq::empty());
    if b.len() == 0 {
        assert(a + b =~= a);
    } else {
        law_gas_is_a_sum(a, b.drop_last(), e);
        assert((a + b).drop_last() =~= a + b.drop_last());
    }
}

/// A transaction that is not a deposit pays no more per gas than it offers on top of the base fee, and
/// no more than its priority fee; it pays one of the two. A deposit pays nothing. The fees of a block
/// go up by that much times the gas, as far as a word holds them.
pub proof fn law_fee(start: TotalsView, e: ExecutedTx, base_fee: u64, canyon: bool)
    requires
        e.pays(base_fee),
    ensures
        start.with_all(seq![e], base_fee, canyon).fees == (start.fees + e.fee(base_fee))
            % num::word_base(),
        e.tx.tx_type == OpTxType::Deposit ==> e.fee(base_fee) == 0,
        e.tx.tx_type != OpTxType::Deposit ==> {
            let room = e.tx.max_fee_per_gas - base_fee;
            &&& 0 <= room
            &&& e.tx.max_priority_fee_per_gas is None ==> e.fee(base_fee) == room
                * e.result.gas_used
            &&& e.tx.max_priority_fee_per_gas matches Some(most) ==> {
                &&& most <= room ==> e.fee(base_fee) == most * e.result.gas_used
                &&& most >= room ==> e.fee(base_fee) == room * e.result.gas_used
            }
        },
{
    assert(seq![e].drop_last() =~= Seq::empty());
    assert(seq![e].last() == e);
    assert(start.with_all(Seq::empty(), base_fee, canyon) == start);
    if e.tx.tx_type != OpTxType::Deposit {
        let tip = e.tx.effective_tip_per_gas(base_fee)->0;
        lemma_fee_fits(tip, e.result.gas_used);
    }
}

/// The gas that a block's totals say is that of its last receipt.
pub proof fn law_last_receipt(start: TotalsView, executed: Seq<ExecutedTx>, base_fee: u64, canyon: bool)
    requires
        executed.len() > 0,
        start.cumulative_gas_used + gas_of(executed) <= u64::MAX,
    ensures
        ({
            let end = start.with_all(executed, base_fee, canyon);
            end.receipts.last().cumulative_gas_used == end.cumulative_gas_used
        }),
{
    law_cumulative_gas(start, executed, base_fee, canyon);
    assert(executed.take(executed.len() as int) =~= executed);
    assert(executed[executed.len() - 1] == executed.last());
}

/// A block that is built in two parts has the totals of the whole: building on what the first part
/// has led to is the same as building all of it at once.
pub proof fn law_totals_split(
    start: TotalsView,
    first: Seq<ExecutedTx>,
    second: Seq<ExecutedTx>,
    base_fee: u64,
    canyon: bool,
)
    ensures
        start.with_all(first, base_fee, canyon).with_all(second, base_fee, canyon) == start.with_all(
            first + second,
            base_fee,
            canyon,
        ),
    decreases second.len(),
{
    if second.len() == 0 {
        assert(first + second =~= first);
    } else {
        law_totals_split(start, first, second.drop_last(), base_fee, canyon);
        assert((first + second).drop_last() =~= first + second.drop_last());
    }
}

/// What totals hold is what their fields hold.
pub proof fn law_views(t: Totals)
    ensures
        t@.receipts.len() == t.receipts@.len(),
        forall|i: int| 0 <= i < t.receipts@.len() ==> (#[trigger] t@.receipts[i]) == t.receipts@[i]@,
        t@.fees == t.fees.value(),
        t@.cumulative_gas_used == t.cumulative_gas_used,
{
}

}
