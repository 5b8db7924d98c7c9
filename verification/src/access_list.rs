//! Block access lists as blocks carry them.
//!
//! The accounts stand in the order of their addresses. Each has the slots that were written with
//! their writes, the slots that were only read, and the writes to its balance, nonce and code. Slots
//! stand in the order of their numbers, and writes in the order in which they were made.
use crate::bal::{self, BalView};
use crate::flashblocks::primitives::{Address, B256};
use crate::rlp;
use alloy_eip7928::bal::Bal as RawList;
use alloy_eip7928::{self, AccountChanges as RawChanges};
use alloy_evm::revm::state::bal::Bal as RawBal;
use vstd::prelude::*;

verus! {

/// What a block's transactions have done to an account.
#[verifier::ext_equal]
pub struct ChangesView {
    pub address: Address,
    pub storage_changes: Seq<(nat, Seq<(u64, nat)>)>,
    pub storage_reads: Seq<nat>,
    pub balance_changes: Seq<(u64, nat)>,
    pub nonce_changes: Seq<(u64, u64)>,
    pub code_changes: Seq<(u64, Seq<u8>)>,
}

/// A block access list of `alloy_eip7928`.
#[verifier::external_type_specification]
#[verifier::external_body]
pub struct ExRawList(RawList);

/// An account of such a list.
#[verifier::external_type_specification]
#[verifier::external_body]
pub struct ExRawChanges(RawChanges);

/// The accounts of a list, in order.
pub uninterp spec fn accounts_of(list: RawList) -> Seq<ChangesView>;

/// What `alloy_eip7928::compute_block_access_list_hash` gives for a list with these accounts.
pub uninterp spec fn list_hash(accounts: Seq<ChangesView>) -> B256;

/// Whether `s` has the members of a set, each of them once, in the order of their keys.
pub open spec fn is_ordered<T>(s: Seq<T>, members: Set<T>, key: spec_fn(T) -> nat) -> bool {
    &&& forall|i: int, j: int| 0 <= i < j < s.len() ==> key(#[trigger] s[i]) < key(#[trigger] s[j])
    &&& forall|e: T| #[trigger] members.contains(e) <==> s.contains(e)
}

/// There is one order of the members of a set.
proof fn lemma_one_order<T>(s: Seq<T>, t: Seq<T>, members: Set<T>, key: spec_fn(T) -> nat)
    requires
        is_ordered(s, members, key),
        is_ordered(t, members, key),
    ensures
        s == t,
    decreases s.len(),
{
    if s.len() == 0 || t.len() == 0 {
        if s.len() > 0 {
            assert(s.contains(s[0]));
            assert(members.contains(s[0]));
            assert(t.contains(s[0]));
        }
        if t.len() > 0 {
            assert(t.contains(t[0]));
            assert(members.contains(t[0]));
            assert(s.contains(t[0]));
        }
        assert(s =~= t);
    } else {
        let a = s.last();
        let b = t.last();
        lemma_last_is_greatest(s, t, members, key);
        lemma_last_is_greatest(t, s, members, key);
        let n = t.len() - 1;
        assert(s.contains(b)) by {
            assert(t.contains(t[n]));
            assert(members.contains(b));
        }
        let i = choose|i: int| 0 <= i < s.len() && s[i] == b;
        assert(i == s.len() - 1);
        assert(a == b);
        let rest = members.remove(a);
        lemma_without_last(s, members, key);
        lemma_without_last(t, members, key);
        lemma_one_order(s.drop_last(), t.drop_last(), rest, key);
        assert(s =~= s.drop_last().push(a));
        assert(t =~= t.drop_last().push(b));
    }
}

proof fn lemma_last_is_greatest<T>(s: Seq<T>, t: Seq<T>, members: Set<T>, key: spec_fn(T) -> nat)
    requires
        is_ordered(s, members, key),
        is_ordered(t, members, key),
        s.len() > 0,
        t.len() > 0,
    ensures
        key(t.last()) <= key(s.last()),
{
    let b = t[t.len() - 1];
    assert(t.contains(b));
    assert(members.contains(b));
    let i = choose|i: int| 0 <= i < s.len() && s[i] == b;
    if i < s.len() - 1 {
        assert(key(s[i]) < key(s[s.len() - 1]));
    }
}

proof fn lemma_without_last<T>(s: Seq<T>, members: Set<T>, key: spec_fn(T) -> nat)
    requires
        is_ordered(s, members, key),
        s.len() > 0,
    ensures
        is_ordered(s.drop_last(), members.remove(s.last()), key),
{
    let d = s.drop_last();
    let last = s[s.len() - 1];
    assert forall|e: T| #[trigger] members.remove(last).contains(e) <==> d.contains(e) by {
        if members.remove(last).contains(e) {
            let i = choose|i: int| 0 <= i < s.len() && s[i] == e;
            assert(d[i] == e);
        }
        if d.contains(e) {
            let i = choose|i: int| 0 <= i < d.len() && d[i] == e;
            assert(s[i] == e);
            assert(s.contains(e));
            assert(key(s[i]) < key(last));
        }
    }
    assert forall|i: int, j: int| 0 <= i < j < d.len() implies key(#[trigger] d[i]) < key(
        #[trigger] d[j],
    ) by {
        assert(key(s[i]) < key(s[j]));
    }
}

/// The slots that were written.
pub open spec fn written(storage: Map<nat, Seq<(u64, nat)>>) -> Set<nat> {
    Set::new(|slot: nat| storage.dom().contains(slot) && storage[slot].len() > 0)
}

/// The slots that were only read.
pub open spec fn only_read(storage: Map<nat, Seq<(u64, nat)>>) -> Set<nat> {
    Set::new(|slot: nat| storage.dom().contains(slot) && storage[slot].len() == 0)
}

/// The order of slots: that of their numbers.
pub open spec fn by_number() -> spec_fn(nat) -> nat {
    |n: nat| n
}

/// The order of accounts: that of their addresses.
pub open spec fn by_address() -> spec_fn(Address) -> nat {
    |a: Address| rlp::from_be(a@)
}

/// The slots of changes to a storage.
pub open spec fn slots(changes: Seq<(nat, Seq<(u64, nat)>)>) -> Seq<nat> {
    changes.map_values(|c: (nat, Seq<(u64, nat)>)| c.0)
}

/// The addresses of accounts.
pub open spec fn addresses(list: Seq<ChangesView>) -> Seq<Address> {
    list.map_values(|c: ChangesView| c.address)
}

/// The addresses of accounts.
pub open spec fn accessed(accesses: Seq<(Address, BalView)>) -> Set<Address> {
    Set::new(|a: Address| exists|i: int| 0 <= i < accesses.len() && (#[trigger] accesses[i]).0 == a)
}

/// Whether `c` has what transactions have done to an account, in order.
pub open spec fn is_changes(c: ChangesView, account: Address, bal: BalView) -> bool {
    &&& c.address == account
    &&& is_ordered(slots(c.storage_changes), written(bal.storage), by_number())
    &&& forall|i: int|
        0 <= i < c.storage_changes.len() ==> (#[trigger] c.storage_changes[i]).1
            == bal.storage[c.storage_changes[i].0]
    &&& is_ordered(c.storage_reads, only_read(bal.storage), by_number())
    &&& c.balance_changes == bal.balance
    &&& c.nonce_changes == bal.nonce
    &&& c.code_changes == bal.code
}

/// Whether `list` has what transactions have done, account by account, in order.
pub open spec fn is_list(list: Seq<ChangesView>, accesses: Seq<(Address, BalView)>) -> bool {
    &&& is_ordered(addresses(list), accessed(accesses), by_address())
    &&& forall|i: int, j: int|
        0 <= i < list.len() && 0 <= j < accesses.len() && (#[trigger] list[i]).address == (
        #[trigger] accesses[j]).0 ==> is_changes(list[i], accesses[j].0, accesses[j].1)
}

/// Changes to an account are the same if they have what the same transactions have done to it.
proof fn lemma_one_changes(a: ChangesView, b: ChangesView, account: Address, bal: BalView)
    requires
        is_changes(a, account, bal),
        is_changes(b, account, bal),
    ensures
        a == b,
{
    lemma_one_order(
        slots(a.storage_changes),
        slots(b.storage_changes),
        written(bal.storage),
        by_number(),
    );
    lemma_one_order(a.storage_reads, b.storage_reads, only_read(bal.storage), by_number());
    assert(slots(a.storage_changes).len() == a.storage_changes.len());
    assert forall|i: int| 0 <= i < a.storage_changes.len() implies a.storage_changes[i]
        == b.storage_changes[i] by {
        assert(slots(a.storage_changes)[i] == slots(b.storage_changes)[i]);
        assert(a.storage_changes[i].0 == b.storage_changes[i].0);
    }
    assert(a =~= b);
}

/// A block carries one access list for what its transactions have done, in whatever order the accounts
/// were found.
pub proof fn law_one_list(
    a: Seq<ChangesView>,
    b: Seq<ChangesView>,
    one: Seq<(Address, BalView)>,
    other: Seq<(Address, BalView)>,
)
    requires
        one.to_set() == other.to_set(),
        is_list(a, one),
        is_list(b, other),
    ensures
        a == b,
{
    assert forall|e: (Address, BalView)| one.contains(e) <==> #[trigger] other.contains(e) by {
        if one.contains(e) {
            assert(one.to_set().contains(e));
            assert(other.to_set().contains(e));
        }
        if other.contains(e) {
            assert(other.to_set().contains(e));
            assert(one.to_set().contains(e));
        }
    }
    assert(accessed(one) =~= accessed(other)) by {
        assert forall|x: Address| accessed(one).contains(x) <==> accessed(other).contains(x) by {
            if accessed(one).contains(x) {
                let i = choose|i: int| 0 <= i < one.len() && (#[trigger] one[i]).0 == x;
                assert(other.contains(one[i]));
                let j = choose|j: int| 0 <= j < other.len() && other[j] == one[i];
                assert(other[j].0 == x);
            }
            if accessed(other).contains(x) {
                let j = choose|j: int| 0 <= j < other.len() && (#[trigger] other[j]).0 == x;
                assert(other.contains(other[j]));
                assert(one.contains(other[j]));
                let i = choose|i: int| 0 <= i < one.len() && one[i] == other[j];
                assert(one[i].0 == x);
            }
        }
    }
    lemma_one_order(addresses(a), addresses(b), accessed(one), by_address());
    assert(addresses(a).len() == a.len());
    assert(addresses(b).len() == b.len());
    assert forall|i: int| 0 <= i < a.len() implies a[i] == b[i] by {
        let x = a[i].address;
        assert(addresses(a)[i] == addresses(b)[i]);
        assert(addresses(a).contains(x));
        assert(accessed(one).contains(x));
        let k = choose|k: int| 0 <= k < one.len() && (#[trigger] one[k]).0 == x;
        assert(other.contains(one[k]));
        let j = choose|j: int| 0 <= j < other.len() && other[j] == one[k];
        assert(other[j].0 == b[i].address);
        lemma_one_changes(a[i], b[i], x, one[k].1);
    }
    assert(a =~= b);
}

/// What a block's transactions have done, account by account, as blocks carry it.
///
/// Calls `Bal::into_alloy_bal` of `revm`: the contract claims that the accounts stand in the order of
/// their addresses, and that each has its slots in the order of their numbers, those that were
/// written apart from those that were only read, and its writes as they are.
#[verifier::external_body]
pub(crate) fn into_list(bal: RawBal) -> (r: RawList)
    ensures
        is_list(accounts_of(r), bal::accesses_of(bal)),
{
    bal.into_alloy_bal().into()
}

/// The hash of a block access list, as the block's header carries it.
///
/// Calls `alloy_eip7928::compute_block_access_list_hash`: the contract claims that the hash depends on
/// the list's accounts and their order alone.
#[verifier::external_body]
pub(crate) fn block_access_list_hash(list: &RawList) -> (r: B256)
    ensures
        r == list_hash(accounts_of(*list)),
{
    alloy_eip7928::compute_block_access_list_hash(list).0
}

}
