//! Block access lists: what a block's transactions read and write, account by account.
//!
//! The lists are those of `revm`, which records them while it executes transactions. The library
//! joins the lists of transactions that were executed on their own.
use crate::flashblocks::primitives::Address;
use crate::grouping;
use alloy_evm::revm::state::bal::{
    AccountBal as RawAccount, AccountInfoBal as RawInfo, Bal as RawBal,
};
use vstd::prelude::*;

verus! {

/// What transactions have done to an account, as `revm` has it.
#[verifier::external_type_specification]
#[verifier::external_body]
pub struct ExRawAccount(RawAccount);

/// What transactions have done to an account's info, as `revm` has it.
#[verifier::external_type_specification]
#[verifier::external_body]
pub struct ExRawInfo(RawInfo);

/// What transactions have done, account by account, as `revm` has it.
#[verifier::external_type_specification]
#[verifier::external_body]
pub struct ExRawBal(RawBal);

/// The writes to an account's nonce, each with the index of the transaction that made it.
pub uninterp spec fn nonces_of(account: RawAccount) -> Seq<(u64, u64)>;

/// The writes to an account's balance, each with the index of the transaction that made it.
pub uninterp spec fn balances_of(account: RawAccount) -> Seq<(u64, nat)>;

/// The writes to an account's code, each with the index of the transaction that made it.
pub uninterp spec fn codes_of(account: RawAccount) -> Seq<(u64, Seq<u8>)>;

/// The writes to an account's slots by their number, each with the index of the transaction that made
/// it. A slot that was only read has none.
pub uninterp spec fn slots_of(account: RawAccount) -> Map<nat, Seq<(u64, nat)>>;

/// The accounts of an access list, in the order in which they came in, with what was done to them.
pub uninterp spec fn accesses_of(bal: RawBal) -> Seq<(Address, BalView)>;

/// What transactions have done to an account.
#[verifier::ext_equal]
pub struct BalView {
    pub nonce: Seq<(u64, u64)>,
    pub balance: Seq<(u64, nat)>,
    pub code: Seq<(u64, Seq<u8>)>,
    pub storage: Map<nat, Seq<(u64, nat)>>,
}

/// What transactions have done to an account.
pub open spec fn account_view(account: RawAccount) -> BalView {
    BalView {
        nonce: nonces_of(account),
        balance: balances_of(account),
        code: codes_of(account),
        storage: slots_of(account),
    }
}

/// What transactions have done to accounts.
pub open spec fn entries(accounts: Seq<(Address, RawAccount)>) -> Seq<(Address, BalView)> {
    accounts.map_values(|e: (Address, RawAccount)| (e.0, account_view(e.1)))
}

/// The writes to a slot, of which there are none where it does not appear.
pub open spec fn at(writes: Map<nat, Seq<(u64, nat)>>, slot: nat) -> Seq<(u64, nat)> {
    if writes.dom().contains(slot) {
        writes[slot]
    } else {
        Seq::empty()
    }
}

/// The writes to slots in two lists, those of the second behind those of the first.
pub open spec fn joined_slots(
    a: Map<nat, Seq<(u64, nat)>>,
    b: Map<nat, Seq<(u64, nat)>>,
) -> Map<nat, Seq<(u64, nat)>> {
    Map::new(
        |slot: nat| a.dom().contains(slot) || b.dom().contains(slot),
        |slot: nat| at(a, slot) + at(b, slot),
    )
}

/// Two access lists of an account, the second behind the first.
pub open spec fn joined(a: BalView, b: BalView) -> BalView {
    BalView {
        nonce: a.nonce + b.nonce,
        balance: a.balance + b.balance,
        code: a.code + b.code,
        storage: joined_slots(a.storage, b.storage),
    }
}

/// The access lists of an account, one behind the other.
pub open spec fn joined_all(r: Seq<BalView>) -> BalView
    decreases r.len(),
{
    if r.len() <= 1 {
        r[0]
    } else {
        joined(joined_all(r.drop_last()), r.last())
    }
}

/// The access list of all transactions whose lists stand in a history.
pub open spec fn merged(h: Seq<(Address, BalView)>) -> Seq<(Address, BalView)> {
    grouping::keys(h).map_values(|a: Address| (a, joined_all(grouping::values_of(h, a))))
}

/// Whether no account stands in a list twice.
pub open spec fn distinct(accounts: Seq<(Address, BalView)>) -> bool {
    forall|i: int, j: int|
        0 <= i < j < accounts.len() ==> (#[trigger] accounts[i]).0 != (#[trigger] accounts[j]).0
}

/// No account stands twice in the access list of several transactions.
pub proof fn law_accounts_distinct(h: Seq<(Address, BalView)>)
    ensures
        distinct(merged(h)),
{
    grouping::lemma_keys(h);
    let m = merged(h);
    assert forall|i: int, j: int| 0 <= i < j < m.len() implies (#[trigger] m[i]).0 != (#[trigger] m[j]).0 by {
        assert(m[i].0 == grouping::keys(h)[i]);
        assert(m[j].0 == grouping::keys(h)[j]);
    }
}

/// Adds the writes to an account's info behind those that are there.
///
/// Calls `AccountInfoBal::extend` of `revm`: the contract claims that the writes to the nonce, the
/// balance and the code are appended, and that the slots stay as they are.
#[verifier::external_body]
fn extend_info(account: &mut RawAccount, more: &RawAccount)
    ensures
        nonces_of(*final(account)) == nonces_of(*old(account)) + nonces_of(*more),
        balances_of(*final(account)) == balances_of(*old(account)) + balances_of(*more),
        codes_of(*final(account)) == codes_of(*old(account)) + codes_of(*more),
        slots_of(*final(account)) == slots_of(*old(account)),
{
    account.account_info.extend(more.account_info.clone())
}

/// Adds the writes to an account's slots behind those that are there.
///
/// Calls `StorageBal::extend` of `revm`: the contract claims that the writes to each slot are
/// appended, and that the account's info stays as it is.
#[verifier::external_body]
fn extend_storage(account: &mut RawAccount, more: &RawAccount)
    ensures
        nonces_of(*final(account)) == nonces_of(*old(account)),
        balances_of(*final(account)) == balances_of(*old(account)),
        codes_of(*final(account)) == codes_of(*old(account)),
        slots_of(*final(account)) == joined_slots(slots_of(*old(account)), slots_of(*more)),
{
    account.storage.extend(more.storage.clone())
}

/// Adds an access list of an account behind another one.
pub fn extend_account(account: &mut RawAccount, more: &RawAccount)
    ensures
        account_view(*final(account)) == joined(account_view(*old(account)), account_view(*more)),
        nonces_of(*final(account)) == nonces_of(*old(account)) + nonces_of(*more),
        balances_of(*final(account)) == balances_of(*old(account)) + balances_of(*more),
        codes_of(*final(account)) == codes_of(*old(account)) + codes_of(*more),
        slots_of(*final(account)) == joined_slots(slots_of(*old(account)), slots_of(*more)),
{
    extend_info(account, more);
    extend_storage(account, more);
}

/// The access list of no transactions.
///
/// Calls `Bal::new` of `revm`: the contract claims that there is nothing in it.
#[verifier::external_body]
pub(crate) fn empty_bal() -> (r: RawBal)
    ensures
        accesses_of(r) == Seq::<(Address, BalView)>::empty(),
{
    RawBal::new()
}

/// The accounts of an access list.
///
/// Walks through the map of a `Bal` of `revm`, which keeps the order of insertion: the contract claims
/// that these are the list's accounts, in order.
#[verifier::external_body]
fn accounts(bal: RawBal) -> (r: Vec<(Address, RawAccount)>)
    ensures
        entries(r@) == accesses_of(bal),
{
    bal.accounts.into_iter().map(|e| (e.0.into(), e.1)).collect()
}

/// A list with an account added to it: behind the others, or behind what the list has of it.
pub open spec fn added(
    list: Seq<(Address, BalView)>,
    account: Address,
    bal: BalView,
) -> Seq<(Address, BalView)> {
    if exists|i: int| 0 <= i < list.len() && (#[trigger] list[i]).0 == account {
        list.map_values(
            |e: (Address, BalView)|
                if e.0 == account {
                    (e.0, joined(e.1, bal))
                } else {
                    e
                },
        )
    } else {
        list.push((account, bal))
    }
}

/// Adds an account to an access list.
///
/// Calls `entry` on the map of a `Bal` of `revm`, with `and_modify` and `or_insert`: the contract
/// claims that the account's entry is extended where there is one, and that it comes behind the others
/// where there is none.
#[verifier::external_body]
fn add_account(bal: &mut RawBal, account: Address, more: RawAccount)
    ensures
        accesses_of(*final(bal)) == added(accesses_of(*old(bal)), account, account_view(more)),
{
    let entry = bal.accounts.entry(account.into());
    entry.and_modify(|known| extend_account(known, &more)).or_insert_with(|| more.clone());
}

/// One more account in the history of an access list.
proof fn lemma_added(h: Seq<(Address, BalView)>, account: Address, bal: BalView)
    ensures
        added(merged(h), account, bal) == merged(h.push((account, bal))),
{
    let before = merged(h);
    let more = h.push((account, bal));
    let known = grouping::keys(h);
    let want = merged(more);
    let after = added(before, account, bal);
    assert(more.drop_last() =~= h);
    grouping::lemma_keys(h);
    assert(before.len() == known.len());
    assert forall|k: int| 0 <= k < known.len() implies (#[trigger] before[k]) == (
        known[k],
        joined_all(grouping::values_of(h, known[k])),
    ) by {}
    if known.contains(account) {
        let i = choose|i: int| 0 <= i < known.len() && known[i] == account;
        assert(before[i].0 == account);
        let r = grouping::values_of(h, account);
        assert(r.push(bal).drop_last() =~= r);
        assert(grouping::keys(more) == known);
        assert forall|k: int| 0 <= k < known.len() implies after[k] == want[k] by {
            assert(before[k].0 == known[k]);
            if known[k] != account {
                assert(grouping::values_of(more, known[k]) == grouping::values_of(h, known[k]));
            }
        }
        assert(after =~= want);
    } else {
        assert forall|i: int| 0 <= i < before.len() implies (#[trigger] before[i]).0 != account by {
            assert(known.contains(known[i]));
        }
        assert(grouping::values_of(h, account) =~= Seq::empty());
        assert(grouping::values_of(more, account) =~= seq![bal]);
        assert(grouping::keys(more) == known.push(account));
        assert forall|k: int| 0 <= k < after.len() implies after[k] == want[k] by {
            if k < known.len() {
                assert(after[k] == before[k]);
                assert(known.contains(known[k]));
                assert(grouping::values_of(more, known[k]) == grouping::values_of(h, known[k]));
            }
        }
        assert(after =~= want);
    }
}

/// Adds the access list of further transactions, where `h` is the history that the list stands for.
pub(crate) fn extend(bal: &mut RawBal, later: RawBal, Ghost(h): Ghost<Seq<(Address, BalView)>>)
    requires
        accesses_of(*old(bal)) == merged(h),
    ensures
        accesses_of(*final(bal)) == merged(h + accesses_of(later)),
{
    let ghost given = accesses_of(later);
    let list = accounts(later);
    let ghost all = list@;
    assert(h + entries(all.take(0)) =~= h);
    for entry in it: list
        invariant
            it.seq() == all,
            accesses_of(*bal) == merged(h + entries(all.take(it.index() as int))),
    {
        let ghost n = it.index() as int;
        let (account, more) = entry;
        let ghost so_far = h + entries(all.take(n));
        proof {
            lemma_added(so_far, account, account_view(more));
            assert(so_far.push((account, account_view(more))) =~= h + entries(all.take(n + 1)));
        }
        add_account(bal, account, more);
    }
    assert(all.take(all.len() as int) =~= all);
}

/// Access lists of an account that are joined have the writes of each, in order: to the nonce, the
/// balance, the code, and each slot.
pub proof fn law_joined(r: Seq<BalView>, next: BalView, slot: nat)
    requires
        r.len() > 0,
    ensures
        joined_all(seq![next]) == next,
        ({
            let before = joined_all(r);
            let after = joined_all(r.push(next));
            &&& after.nonce == before.nonce + next.nonce
            &&& after.balance == before.balance + next.balance
            &&& after.code == before.code + next.code
            &&& after.storage.dom().contains(slot) <==> before.storage.dom().contains(slot)
                || next.storage.dom().contains(slot)
            &&& before.storage.dom().contains(slot) && next.storage.dom().contains(slot)
                ==> after.storage[slot] == before.storage[slot] + next.storage[slot]
            &&& before.storage.dom().contains(slot) && !next.storage.dom().contains(slot)
                ==> after.storage[slot] == before.storage[slot]
            &&& !before.storage.dom().contains(slot) && next.storage.dom().contains(slot)
                ==> after.storage[slot] == next.storage[slot]
        }),
{
    let before = joined_all(r);
    let after = joined_all(r.push(next));
    assert(r.push(next).drop_last() =~= r);
    assert(r.push(next).last() == next);
    assert(after == joined(before, next));
    if before.storage.dom().contains(slot) && !next.storage.dom().contains(slot) {
        assert(after.storage[slot] =~= before.storage[slot]);
    }
    if !before.storage.dom().contains(slot) && next.storage.dom().contains(slot) {
        assert(after.storage[slot] =~= next.storage[slot]);
    }
}

/// The access list of several transactions has every account that one of them has, with what all of
/// them have done to it, in order.
pub proof fn law_merged(h: Seq<(Address, BalView)>, k: int)
    requires
        0 <= k < h.len(),
    ensures
        exists|i: int|
            0 <= i < merged(h).len() && (#[trigger] merged(h)[i]) == (
                h[k].0,
                joined_all(grouping::values_of(h, h[k].0)),
            ),
        merged(h).len() <= h.len(),
        distinct(merged(h)),
{
    let names = grouping::keys(h);
    grouping::lemma_keys(h);
    assert(h[k].0 == h[k].0);
    assert(names.contains(h[k].0));
    let i = choose|i: int| 0 <= i < names.len() && names[i] == h[k].0;
    assert(merged(h)[i] == (h[k].0, joined_all(grouping::values_of(h, h[k].0))));
    law_accounts_distinct(h);
    lemma_keys_bounded(h);
}

proof fn lemma_keys_bounded(h: Seq<(Address, BalView)>)
    ensures
        grouping::keys(h).len() <= h.len(),
    decreases h.len(),
{
    if h.len() > 0 {
        lemma_keys_bounded(h.drop_last());
    }
}

}
