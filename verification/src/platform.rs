//! Builds the final payload of a job.
use crate::context::WorldContext;
use crate::flashblocks::primitives::{self, B256};
use crate::model;
use crate::payload::{self, OpBuiltPayload};
use crate::transaction::{Recovered, RecoveredView, TxView};
use std::sync::Arc;
use vstd::prelude::*;

verus! {

/// The World Chain platform.
#[derive(Clone, Copy, Debug, PartialEq, Eq)]
pub struct WorldChain;

/// Where the final payload of a job comes from.
pub enum FinalPayload<B> {
    /// It is the payload that was built up to the last barrier, and nothing is executed again.
    Built(Arc<OpBuiltPayload<B>>),
    /// It is built as for any chain of the kind, out of all transactions.
    Vanilla,
}

impl Default for WorldChain {
    fn default() -> (r: Self)
        ensures
            r == WorldChain,
    {
        WorldChain
    }
}

impl WorldChain {
    /// Decides where the final payload of a job comes from, where `barrier` goes with the last
    /// barrier: it is the payload that was built up to there, if there is one, in which case nothing
    /// is to be executed.
    pub fn build_payload<B>(barrier: Option<&WorldContext<B>>) -> (r: FinalPayload<B>)
        ensures
            r == match barrier {
                Some(context) => match context.maybe_built_payload {
                    Some(built) => FinalPayload::Built(built),
                    None => FinalPayload::Vanilla,
                },
                None => FinalPayload::Vanilla,
            },
    {
        if let Some(context) = barrier {
            if let Some(built) = &context.maybe_built_payload {
                return FinalPayload::Built(payload::share(built));
            }
        }
        FinalPayload::Vanilla
    }
}

/// Whether a transaction is one of those with these hashes.
pub open spec fn is_among(tx: TxView, hashes: Seq<B256>) -> bool {
    hashes.contains(tx.hash)
}

/// The transactions that are not among those with these hashes, in order.
pub open spec fn external(history: Seq<RecoveredView>, hashes: Seq<B256>) -> Seq<RecoveredView>
    decreases history.len(),
{
    if history.len() == 0 {
        Seq::empty()
    } else if is_among(history.last().tx, hashes) {
        external(history.drop_last(), hashes)
    } else {
        external(history.drop_last(), hashes).push(history.last())
    }
}

/// Whether a hash is among others.
fn contains_hash(hashes: &Vec<B256>, hash: &B256) -> (r: bool)
    ensures
        r == hashes@.contains(*hash),
{
    let mut i: usize = 0;
    while i < hashes.len()
        invariant
            i <= hashes.len(),
            forall|k: int| 0 <= k < i ==> hashes@[k] != *hash,
        decreases hashes.len() - i,
    {
        if primitives::same_bytes(&hashes[i], hash) {
            assert(hashes@[i as int] == *hash);
            return true;
        }
        i += 1;
    }
    false
}

/// The transactions of a payload without the sequencer's, whose hashes are given.
///
/// Whatever builds a payload for the payload attributes puts the sequencer's transactions into it on
/// its own. Where they are among the transactions of the payload, because a step has applied them,
/// they are taken out, so that they do not go in twice.
pub fn extract_external_txs(history: &Vec<Recovered>, sequencer: &Vec<B256>) -> (r: Vec<Recovered>)
    ensures
        model::views(r@) == external(model::views(history@), sequencer@),
{
    let ghost all = model::views(history@);
    let mut r: Vec<Recovered> = Vec::new();
    let mut i: usize = 0;
    assert(all.take(0) =~= Seq::empty());
    assert(model::views(r@) =~= Seq::empty());
    while i < history.len()
        invariant
            i <= history.len(),
            all == model::views(history@),
            model::views(r@) == external(all.take(i as int), sequencer@),
        decreases history.len() - i,
    {
        proof {
            assert(all.take(i + 1).drop_last() =~= all.take(i as int));
            assert(all.take(i + 1).last() == history@[i as int]@);
        }
        if !contains_hash(sequencer, &history[i].tx.hash) {
            let copy = history[i].clone();
            let ghost before = r@;
            r.push(copy);
            assert(model::views(r@) =~= model::views(before).push(copy@));
        }
        i += 1;
    }
    assert(all.take(i as int) =~= all);
    r
}

/// The hashes of transactions.
pub open spec fn hashes_of(transactions: Seq<RecoveredView>) -> Seq<B256> {
    transactions.map_values(|r: RecoveredView| r.tx.hash)
}

/// None of the sequencer's transactions is left, and every other transaction is.
pub proof fn law_external(history: Seq<RecoveredView>, hashes: Seq<B256>)
    ensures
        forall|tx: RecoveredView| #[trigger]
            external(history, hashes).contains(tx) <==> history.contains(tx) && !is_among(
                tx.tx,
                hashes,
            ),
    decreases history.len(),
{
    let e = external(history, hashes);
    if history.len() > 0 {
        let before = history.drop_last();
        let last = history.last();
        let d = external(before, hashes);
        law_external(before, hashes);
        assert forall|tx: RecoveredView| #[trigger] e.contains(tx) <==> history.contains(tx)
            && !is_among(tx.tx, hashes) by {
            lemma_contains_last(history, tx);
            if !is_among(last.tx, hashes) {
                lemma_contains_last(e, tx);
                assert(e.drop_last() =~= d);
            }
            assert(d.contains(tx) <==> before.contains(tx) && !is_among(tx.tx, hashes));
        }
    }
}

proof fn lemma_contains_last(s: Seq<RecoveredView>, tx: RecoveredView)
    requires
        s.len() > 0,
    ensures
        s.contains(tx) <==> s.drop_last().contains(tx) || s.last() == tx,
{
    if s.contains(tx) {
        let i = choose|i: int| 0 <= i < s.len() && s[i] == tx;
        if i < s.len() - 1 {
            assert(s.drop_last()[i] == tx);
        }
    }
    if s.drop_last().contains(tx) {
        let i = choose|i: int| 0 <= i < s.len() - 1 && s.drop_last()[i] == tx;
        assert(s[i] == tx);
    }
    assert(s[s.len() - 1] == s.last());
}

/// Where a payload begins with the sequencer's transactions, and has them nowhere else, the
/// transactions behind them are left.
pub proof fn law_prologue_taken_out(sequencer: Seq<RecoveredView>, others: Seq<RecoveredView>)
    requires
        forall|i: int| 0 <= i < others.len() ==> !is_among(
            (#[trigger] others[i]).tx,
            hashes_of(sequencer),
        ),
    ensures
        external(sequencer + others, hashes_of(sequencer)) == others,
    decreases others.len(),
{
    let hashes = hashes_of(sequencer);
    if others.len() == 0 {
        assert(sequencer + others =~= sequencer);
        lemma_none_left(sequencer, sequencer.len() as int);
        assert(sequencer.take(sequencer.len() as int) =~= sequencer);
    } else {
        let all = sequencer + others;
        assert(all.drop_last() =~= sequencer + others.drop_last());
        assert forall|i: int| 0 <= i < others.drop_last().len() implies !is_among(
            (#[trigger] others.drop_last()[i]).tx,
            hashes,
        ) by {
            assert(others.drop_last()[i] == others[i]);
        }
        law_prologue_taken_out(sequencer, others.drop_last());
        assert(!is_among(others[others.len() - 1].tx, hashes));
        assert(external(all, hashes) =~= others);
    }
}

proof fn lemma_none_left(sequencer: Seq<RecoveredView>, n: int)
    requires
        0 <= n <= sequencer.len(),
    ensures
        external(sequencer.take(n), hashes_of(sequencer)) == Seq::<RecoveredView>::empty(),
    decreases n,
{
    if n > 0 {
        lemma_none_left(sequencer, n - 1);
        let s = sequencer.take(n);
        assert(s.drop_last() =~= sequencer.take(n - 1));
        assert(s.last() == sequencer[n - 1]);
        assert(hashes_of(sequencer)[n - 1] == sequencer[n - 1].tx.hash);
    }
}

/// Taking out the sequencer's transactions looks at each transaction on its own, and keeps the order:
/// what is left of two parts of a payload is what is left of the first and then of the second, and a
/// transaction is left exactly if its hash is none of the given ones.
pub proof fn law_external_in_order(
    a: Seq<RecoveredView>,
    b: Seq<RecoveredView>,
    hashes: Seq<B256>,
    tx: RecoveredView,
)
    ensures
        external(a + b, hashes) == external(a, hashes) + external(b, hashes),
        hashes.contains(tx.tx.hash) ==> external(seq![tx], hashes).len() == 0,
        !hashes.contains(tx.tx.hash) ==> external(seq![tx], hashes) == seq![tx],
    decreases b.len(),
{
    reveal_with_fuel(external, 2);
    assert(seq![tx].drop_last() =~= Seq::empty());
    assert(seq![tx].last() == tx);
    if !hashes.contains(tx.tx.hash) {
        assert(external(seq![tx], hashes) =~= seq![tx]);
    }
    if b.len() == 0 {
        assert(a + b =~= a);
        assert(external(a + b, hashes) =~= external(a, hashes) + external(b, hashes));
    } else {
        law_external_in_order(a, b.drop_last(), hashes, tx);
        assert((a + b).drop_last() =~= a + b.drop_last());
        assert((a + b).last() == b.last());
        assert(external(a + b, hashes) =~= external(a, hashes) + external(b, hashes));
    }
}

}
