//! What it takes to revert the changes that blocks have made to the state.
use crate::flashblocks::primitives::{self, Address};
use crate::grouping;
use crate::num::U256;
use vstd::prelude::*;

verus! {

/// What it takes to revert the changes to an account's info.
#[derive(Debug, PartialEq, Eq)]
pub enum AccountInfoRevert<I> {
    /// There is nothing to be done.
    DoNothing,
    /// The account is deleted.
    DeleteIt,
    /// The account's info is put back.
    RevertTo(I),
}

/// What a storage slot is reverted to.
#[derive(Clone, Copy, Debug, PartialEq, Eq)]
pub enum RevertToSlot {
    /// To this value.
    Value(U256),
    /// To what it was before the account was destroyed.
    Destroyed,
}

/// What it takes to revert the changes to an account. The library carries account infos and statuses
/// as they are: `I` and `S` are whatever holds them.
#[derive(Debug, PartialEq, Eq)]
pub struct AccountRevert<I, S> {
    /// How the account's info is reverted.
    pub account: AccountInfoRevert<I>,
    /// How slots are reverted. A slot's first entry counts.
    pub storage: Vec<(U256, RevertToSlot)>,
    /// The account's status before.
    pub previous_status: S,
    /// Whether the account's storage is wiped.
    pub wipe_storage: bool,
}

/// What slots are reverted to, by their number.
pub open spec fn slots(storage: Seq<(U256, RevertToSlot)>) -> Map<nat, RevertToSlot>
    decreases storage.len(),
{
    if storage.len() == 0 {
        Map::empty()
    } else {
        let before = slots(storage.drop_last());
        let slot = storage.last().0.value();
        if before.dom().contains(slot) {
            before
        } else {
            before.insert(slot, storage.last().1)
        }
    }
}

/// What the revert of an account holds.
#[verifier::ext_equal]
pub struct RevertView<I, S> {
    pub account: AccountInfoRevert<I>,
    pub storage: Map<nat, RevertToSlot>,
    pub previous_status: S,
    pub wipe_storage: bool,
}

impl<I, S> View for AccountRevert<I, S> {
    type V = RevertView<I, S>;

    open spec fn view(&self) -> RevertView<I, S> {
        RevertView {
            account: self.account,
            storage: slots(self.storage@),
            previous_status: self.previous_status,
            wipe_storage: self.wipe_storage,
        }
    }
}

/// What the reverts of one transition hold, account by account.
pub open spec fn transition<I, S>(t: Seq<(Address, AccountRevert<I, S>)>) -> Seq<
    (Address, RevertView<I, S>),
> {
    t.map_values(|e: (Address, AccountRevert<I, S>)| (e.0, e.1@))
}

/// The reverts of all transitions, from the earliest to the latest.
pub open spec fn history<I, S>(reverts: Seq<Vec<(Address, AccountRevert<I, S>)>>) -> Seq<
    (Address, RevertView<I, S>),
>
    decreases reverts.len(),
{
    if reverts.len() == 0 {
        Seq::empty()
    } else {
        history(reverts.drop_last()) + transition(reverts.last()@)
    }
}

/// The earliest account-info revert that does something.
pub open spec fn earliest_info<I, S>(r: Seq<RevertView<I, S>>) -> AccountInfoRevert<I>
    decreases r.len(),
{
    if r.len() == 0 {
        AccountInfoRevert::DoNothing
    } else {
        let before = earliest_info(r.drop_last());
        if before is DoNothing {
            r.last().account
        } else {
            before
        }
    }
}

/// What each slot is reverted to the earliest time.
pub open spec fn earliest_slots<I, S>(r: Seq<RevertView<I, S>>) -> Map<nat, RevertToSlot>
    decreases r.len(),
{
    if r.len() == 0 {
        Map::empty()
    } else {
        r.last().storage.union_prefer_right(earliest_slots(r.drop_last()))
    }
}

/// One revert for all of an account's reverts: the earliest status, the earliest account-info revert
/// that does something, and for each slot the earliest value. The storage is wiped if any of them
/// wipes it.
pub open spec fn merged<I, S>(r: Seq<RevertView<I, S>>) -> RevertView<I, S> {
    RevertView {
        account: earliest_info(r),
        storage: earliest_slots(r),
        previous_status: r[0].previous_status,
        wipe_storage: exists|i: int| 0 <= i < r.len() && (#[trigger] r[i]).wipe_storage,
    }
}

/// The single transition that a history is flattened into.
pub open spec fn flattened<I, S>(h: Seq<(Address, RevertView<I, S>)>) -> Seq<
    (Address, RevertView<I, S>),
> {
    grouping::keys(h).map_values(|a: Address| (a, merged(grouping::values_of(h, a))))
}

/// What the reverts of an account become with one more behind them.
proof fn lemma_merged_push<I, S>(r: Seq<RevertView<I, S>>, later: RevertView<I, S>)
    requires
        r.len() > 0,
    ensures
        merged(r.push(later)) == (RevertView {
            account: if merged(r).account is DoNothing {
                later.account
            } else {
                merged(r).account
            },
            storage: later.storage.union_prefer_right(merged(r).storage),
            previous_status: merged(r).previous_status,
            wipe_storage: merged(r).wipe_storage || later.wipe_storage,
        }),
{
    let more = r.push(later);
    assert(more.drop_last() =~= r);
    assert(more[r.len() as int] == later);
    if merged(r).wipe_storage {
        let i = choose|i: int| 0 <= i < r.len() && (#[trigger] r[i]).wipe_storage;
        assert(more[i].wipe_storage);
    }
    if merged(more).wipe_storage {
        let i = choose|i: int| 0 <= i < more.len() && (#[trigger] more[i]).wipe_storage;
        if i < r.len() {
            assert(r[i].wipe_storage);
        }
    }
}

/// What a single revert merges into: itself.
proof fn lemma_merged_one<I, S>(r: RevertView<I, S>)
    ensures
        merged(seq![r]) == r,
{
    let one = seq![r];
    assert(one.drop_last() =~= Seq::<RevertView<I, S>>::empty());
    assert(earliest_info(one.drop_last()) is DoNothing);
    assert(earliest_slots(one.drop_last()) =~= Map::empty());
    assert(earliest_slots(one) =~= r.storage);
    assert(one[0] == r);
    assert(merged(one) =~= r);
}

/// The slots of a list with one more entry behind it.
proof fn lemma_slots_push(storage: Seq<(U256, RevertToSlot)>, entry: (U256, RevertToSlot))
    ensures
        slots(storage.push(entry)) == if slots(storage).dom().contains(entry.0.value()) {
            slots(storage)
        } else {
            slots(storage).insert(entry.0.value(), entry.1)
        },
{
    assert(storage.push(entry).drop_last() =~= storage);
}

/// Which slots a list has entries for.
proof fn lemma_slots_domain(storage: Seq<(U256, RevertToSlot)>)
    ensures
        forall|slot: nat| #[trigger] slots(storage).dom().contains(slot) <==> exists|i: int|
            0 <= i < storage.len() && (#[trigger] storage[i]).0.value() == slot,
    decreases storage.len(),
{
    if storage.len() > 0 {
        let before = storage.drop_last();
        lemma_slots_domain(before);
        assert forall|slot: nat| #[trigger] slots(storage).dom().contains(slot) <==> exists|i: int|
            0 <= i < storage.len() && (#[trigger] storage[i]).0.value() == slot by {
            assert(storage[storage.len() - 1] == storage.last());
            if slots(before).dom().contains(slot) {
                let i = choose|i: int| 0 <= i < before.len() && (#[trigger] before[i]).0.value() == slot;
                assert(storage[i].0.value() == slot);
            }
            if exists|i: int| 0 <= i < storage.len() && (#[trigger] storage[i]).0.value() == slot {
                let i = choose|i: int| 0 <= i < storage.len() && (#[trigger] storage[i]).0.value() == slot;
                if i < before.len() {
                    assert(before[i].0.value() == slot);
                }
            }
        }
    }
}

/// Whether a list has an entry for a slot.
fn has_slot(storage: &Vec<(U256, RevertToSlot)>, slot: U256) -> (r: bool)
    ensures
        r == slots(storage@).dom().contains(slot.value()),
{
    let mut i: usize = 0;
    while i < storage.len()
        invariant
            i <= storage.len(),
            forall|k: int| 0 <= k < i ==> (#[trigger] storage@[k]).0.value() != slot.value(),
        decreases storage.len() - i,
    {
        if storage[i].0.equals(slot) {
            proof {
                lemma_slots_domain(storage@);
                assert(storage@[i as int].0.value() == slot.value());
            }
            return true;
        }
        i += 1;
    }
    proof {
        lemma_slots_domain(storage@);
    }
    false
}

/// Adds the slots of a later revert to those of an earlier one, which keep their values.
fn add_slots(storage: &mut Vec<(U256, RevertToSlot)>, later: &Vec<(U256, RevertToSlot)>)
    ensures
        slots(final(storage)@) == slots(later@).union_prefer_right(slots(old(storage)@)),
{
    let ghost start = slots(storage@);
    assert(slots(later@.take(0)) =~= Map::empty());
    assert(slots(storage@) =~= slots(later@.take(0)).union_prefer_right(start));
    let mut i: usize = 0;
    while i < later.len()
        invariant
            i <= later.len(),
            slots(storage@) == slots(later@.take(i as int)).union_prefer_right(start),
        decreases later.len() - i,
    {
        let (slot, value) = later[i];
        let ghost so_far = later@.take(i as int);
        proof {
            assert(later@.take(i + 1) =~= so_far.push(later@[i as int]));
            lemma_slots_push(so_far, later@[i as int]);
            lemma_slots_push(storage@, later@[i as int]);
        }
        if !has_slot(storage, slot) {
            storage.push((slot, value));
        }
        assert(slots(storage@) =~= slots(later@.take(i + 1)).union_prefer_right(start));
        i += 1;
    }
    assert(later@.take(i as int) =~= later@);
}

/// Adds a later revert of an account to what its reverts so far have been merged into.
fn absorb<I, S>(entry: &mut AccountRevert<I, S>, later: AccountRevert<I, S>)
    ensures
        final(entry)@ == (RevertView {
            account: if old(entry)@.account is DoNothing {
                later@.account
            } else {
                old(entry)@.account
            },
            storage: later@.storage.union_prefer_right(old(entry)@.storage),
            previous_status: old(entry)@.previous_status,
            wipe_storage: old(entry)@.wipe_storage || later@.wipe_storage,
        }),
{
    entry.wipe_storage = entry.wipe_storage || later.wipe_storage;
    add_slots(&mut entry.storage, &later.storage);
    let nothing = match &entry.account {
        AccountInfoRevert::DoNothing => true,
        _ => false,
    };
    if nothing {
        entry.account = later.account;
    }
}

/// The place of an account in a transition.
fn find<I, S>(list: &Vec<(Address, AccountRevert<I, S>)>, account: &Address) -> (r: Option<usize>)
    ensures
        match r {
            Some(i) => i < list@.len() && list@[i as int].0 == *account,
            None => forall|i: int| 0 <= i < list@.len() ==> (#[trigger] list@[i]).0 != *account,
        },
{
    let mut i: usize = 0;
    while i < list.len()
        invariant
            i <= list.len(),
            forall|k: int| 0 <= k < i ==> (#[trigger] list@[k]).0 != *account,
        decreases list.len() - i,
    {
        if primitives::same_bytes(&list[i].0, account) {
            return Some(i);
        }
        i += 1;
    }
    None
}

/// Adds one more revert to the single transition that those so far are flattened into.
fn add_revert<I, S>(
    list: &mut Vec<(Address, AccountRevert<I, S>)>,
    account: Address,
    revert: AccountRevert<I, S>,
    Ghost(h): Ghost<Seq<(Address, RevertView<I, S>)>>,
)
    requires
        transition(old(list)@) == flattened(h),
    ensures
        transition(final(list)@) == flattened(h.push((account, revert@))),
{
    let ghost before = transition(list@);
    let ghost more = h.push((account, revert@));
    let ghost known = grouping::keys(h);
    proof {
        assert(more.drop_last() =~= h);
        grouping::lemma_keys(h);
        assert(flattened(h).len() == known.len());
        assert(transition(list@).len() == list@.len());
        assert forall|k: int| 0 <= k < known.len() implies (#[trigger] list@[k]).0 == known[k] by {
            assert(before[k].0 == known[k]);
        }
    }
    match find(list, &account) {
        Some(i) => {
            proof {
                assert(known[i as int] == account);
                assert(known.contains(account));
                assert(before[i as int] == (account, merged(grouping::values_of(h, account))));
                lemma_merged_push(grouping::values_of(h, account), revert@);
            }
            absorb(&mut list[i].1, revert);
            proof {
                let after = transition(list@);
                let want = flattened(more);
                assert(grouping::keys(more) == known);
                assert forall|k: int| 0 <= k < known.len() implies after[k] == want[k] by {
                    assert(before[k] == (known[k], merged(grouping::values_of(h, known[k]))));
                    if k != i {
                        assert(known[k] != account);
                        assert(after[k] == before[k]);
                        assert(grouping::values_of(more, known[k]) == grouping::values_of(h, known[k]));
                    }
                }
                assert(after =~= want);
            }
        },
        None => {
            proof {
                if known.contains(account) {
                    let k = choose|k: int| 0 <= k < known.len() && known[k] == account;
                    assert(list@[k].0 == account);
                }
                assert(grouping::values_of(h, account) =~= Seq::empty());
                assert(grouping::values_of(more, account) =~= seq![revert@]);
                lemma_merged_one(revert@);
            }
            list.push((account, revert));
            proof {
                let after = transition(list@);
                let want = flattened(more);
                assert(grouping::keys(more) == known.push(account));
                assert forall|k: int| 0 <= k < after.len() implies after[k] == want[k] by {
                    if k < known.len() {
                        assert(before[k] == (known[k], merged(grouping::values_of(h, known[k]))));
                        assert(after[k] == before[k]);
                        assert(known.contains(known[k]));
                        assert(grouping::values_of(more, known[k]) == grouping::values_of(h, known[k]));
                    }
                }
                assert(after =~= want);
            }
        },
    }
}

/// Flattens the reverts of several transitions into those of a single one, account by account.
///
/// For each account the earliest status is kept, the earliest account-info revert that does
/// something, and for each slot the earliest value. The storage is wiped if any transition wipes
/// it.
pub fn flatten_reverts<I, S>(reverts: Vec<Vec<(Address, AccountRevert<I, S>)>>) -> (r: Vec<
    Vec<(Address, AccountRevert<I, S>)>,
>)
    ensures
        r@.len() == 1,
        transition(r@[0]@) == flattened(history(reverts@)),
{
    let ghost all = reverts@;
    let mut list: Vec<(Address, AccountRevert<I, S>)> = Vec::new();
    proof {
        assert(history(all.take(0)) =~= Seq::empty());
        assert(transition(list@) =~= flattened(history(all.take(0))));
    }
    for one in it: reverts
        invariant
            it.seq() == all,
            transition(list@) == flattened(history(all.take(it.index() as int))),
    {
        let ghost n = it.index() as int;
        let ghost before = history(all.take(n));
        let ghost entries = one@;
        proof {
            assert(all.take(n + 1).drop_last() =~= all.take(n));
            assert(all.take(n + 1).last() == one);
            assert(before + transition(entries.take(0)) =~= before);
        }
        for entry in inner: one
            invariant
                inner.seq() == entries,
                transition(list@) == flattened(
                    before + transition(entries.take(inner.index() as int)),
                ),
        {
            let ghost k = inner.index() as int;
            let (account, revert) = entry;
            let ghost h = before + transition(entries.take(k));
            add_revert(&mut list, account, revert, Ghost(h));
            proof {
                assert(h.push((account, revert@)) =~= before + transition(entries.take(k + 1)));
            }
        }
        proof {
            assert(entries.take(entries.len() as int) =~= entries);
        }
    }
    assert(all.take(all.len() as int) =~= all);
    let mut r: Vec<Vec<(Address, AccountRevert<I, S>)>> = Vec::new();
    r.push(list);
    r
}

/// Each account stands once in a flattened transition, and every account of the history stands in
/// it.
pub proof fn law_accounts_once<I, S>(h: Seq<(Address, RevertView<I, S>)>)
    ensures
        forall|i: int, j: int| 0 <= i < j < flattened(h).len() ==> (#[trigger] flattened(h)[i]).0 != (
        #[trigger] flattened(h)[j]).0,
        forall|i: int| 0 <= i < h.len() ==> exists|j: int| 0 <= j < flattened(h).len() && (
        #[trigger] flattened(h)[j]).0 == (#[trigger] h[i]).0,
{
    grouping::lemma_keys(h);
    let a = grouping::keys(h);
    let f = flattened(h);
    assert forall|i: int, j: int| 0 <= i < j < f.len() implies (#[trigger] f[i]).0 != (#[trigger] f[j]).0 by {
        assert(f[i].0 == a[i] && f[j].0 == a[j]);
    }
    assert forall|i: int| 0 <= i < h.len() implies exists|j: int| 0 <= j < f.len() && (#[trigger] f[j]).0
        == (#[trigger] h[i]).0 by {
        assert(a.contains(h[i].0));
        let j = choose|j: int| 0 <= j < a.len() && a[j] == h[i].0;
        assert(f[j].0 == h[i].0);
    }
}

/// Flattening what has been flattened changes nothing.
pub proof fn law_flatten_idempotent<I, S>(h: Seq<(Address, RevertView<I, S>)>)
    ensures
        flattened(flattened(h)) == flattened(h),
{
    let f = flattened(h);
    law_accounts_once(h);
    grouping::lemma_distinct(f);
    assert forall|i: int| 0 <= i < f.len() implies flattened(f)[i] == f[i] by {
        assert(grouping::keys(f)[i] == f[i].0);
        assert(grouping::values_of(f, f[i].0) == seq![f[i].1]);
        lemma_merged_one(f[i].1);
    }
    assert(flattened(f) =~= f);
}

/// The merged status, account info, slots and wiping of an account come from its earliest reverts,
/// whatever comes behind them: reverts that are added can only fill what was left open.
pub proof fn law_earliest_wins<I, S>(r: Seq<RevertView<I, S>>, later: Seq<RevertView<I, S>>)
    requires
        r.len() > 0,
    ensures
        ({
            let first = merged(r);
            let all = merged(r + later);
            &&& all.previous_status == first.previous_status
            &&& !(first.account is DoNothing) ==> all.account == first.account
            &&& forall|slot: nat| #[trigger]
                first.storage.dom().contains(slot) ==> all.storage.dom().contains(slot)
                    && all.storage[slot] == first.storage[slot]
            &&& first.wipe_storage ==> all.wipe_storage
        }),
    decreases later.len(),
{
    if later.len() == 0 {
        assert(r + later =~= r);
    } else {
        law_earliest_wins(r, later.drop_last());
        lemma_merged_push(r + later.drop_last(), later.last());
        assert(r + later =~= (r + later.drop_last()).push(later.last()));
    }
}

/// The changes to the state that a block has led to, with what it takes to revert them. The library
/// carries the changes as they are: `R` is whatever holds them.
#[derive(Debug, PartialEq, Eq)]
pub struct BundleState<I, S, R> {
    /// What it takes to revert the changes, transition by transition.
    pub reverts: Vec<Vec<(Address, AccountRevert<I, S>)>>,
    /// The changes.
    pub changes: R,
}

/// Whether `r` has the changes of `bundle`, and reverts them in a single transition.
pub open spec fn is_flat<I, S, R>(r: BundleState<I, S, R>, bundle: BundleState<I, S, R>) -> bool {
    &&& r.changes == bundle.changes
    &&& r.reverts@.len() == 1
    &&& transition(r.reverts@[0]@) == flattened(history(bundle.reverts@))
}

impl<I, S, R> BundleState<I, S, R> {
    /// The same changes, which are reverted in a single transition: what a block is built with has
    /// the reverts of one block, in however many steps it was built.
    pub fn flatten(self) -> (r: Self)
        ensures
            is_flat(r, self),
            r.changes == self.changes,
            r.reverts@.len() == 1,
            transition(r.reverts@[0]@) == flattened(history(self.reverts@)),
    {
        BundleState { reverts: flatten_reverts(self.reverts), changes: self.changes }
    }
}

/// Whether changes to the state are extended with `more`, one after the other, and each of `steps` is
/// what the one before is extended to.
pub open spec fn is_extended_by<B, F: Fn(B, &B) -> B>(
    extend: F,
    steps: Seq<B>,
    more: Seq<B>,
) -> bool {
    &&& steps.len() == more.len() + 1
    &&& forall|i: int|
        0 <= i < more.len() ==> extend.ensures((steps[i], &#[trigger] more[i]), steps[i + 1])
}

/// Whether `r` can come of extending the changes to the state in `start` with `more`, one after the
/// other.
pub open spec fn extended<B, F: Fn(B, &B) -> B>(extend: F, start: B, more: Seq<B>, r: B) -> bool {
    exists|steps: Seq<B>| #[trigger]
        is_extended_by(extend, steps, more) && steps[0] == start && steps.last() == r
}

/// Changes to the state that are not extended.
pub proof fn lemma_not_extended<B, F: Fn(B, &B) -> B>(extend: F, start: B)
    ensures
        extended(extend, start, Seq::empty(), start),
{
    assert(is_extended_by(extend, seq![start], Seq::empty()));
}

/// Changes to the state that are extended with further ones.
pub proof fn lemma_extended_push<B, F: Fn(B, &B) -> B>(
    extend: F,
    start: B,
    more: Seq<B>,
    mid: B,
    next: B,
    r: B,
)
    requires
        extended(extend, start, more, mid),
        extend.ensures((mid, &next), r),
    ensures
        extended(extend, start, more.push(next), r),
{
    let steps = choose|steps: Seq<B>| #[trigger]
        is_extended_by(extend, steps, more) && steps[0] == start && steps.last() == mid;
    let all = more.push(next);
    let through = steps.push(r);
    assert forall|i: int| 0 <= i < all.len() implies extend.ensures(
        (through[i], &#[trigger] all[i]),
        through[i + 1],
    ) by {
        if i < more.len() {
            assert(all[i] == more[i]);
        }
    }
    assert(is_extended_by(extend, through, all));
}

/// What it takes to revert the changes to an account in several transitions is what it takes in the
/// first of them that says anything: of the status, the first; of the account's info, the first that
/// does something; of each slot, the first that names it. The storage is wiped if any wipes it.
pub proof fn law_first_counts<I, S>(r: Seq<RevertView<I, S>>, k: int, slot: nat)
    requires
        0 <= k < r.len(),
    ensures
        merged(r).previous_status == r[0].previous_status,
        merged(r).wipe_storage <==> exists|i: int| 0 <= i < r.len() && (#[trigger] r[i]).wipe_storage,
        (forall|i: int| 0 <= i < k ==> (#[trigger] r[i]).account is DoNothing) && !(r[k].account
            is DoNothing) ==> merged(r).account == r[k].account,
        (forall|i: int| 0 <= i < r.len() ==> (#[trigger] r[i]).account is DoNothing) ==> merged(
            r,
        ).account is DoNothing,
        (forall|i: int| 0 <= i < k ==> !(#[trigger] r[i]).storage.dom().contains(slot))
            && r[k].storage.dom().contains(slot) ==> merged(r).storage.dom().contains(slot)
            && merged(r).storage[slot] == r[k].storage[slot],
        (forall|i: int| 0 <= i < r.len() ==> !(#[trigger] r[i]).storage.dom().contains(slot))
            ==> !merged(r).storage.dom().contains(slot),
    decreases r.len(),
{
    let before = r.drop_last();
    if k < before.len() {
        law_first_counts(before, k, slot);
        assert forall|i: int| 0 <= i < before.len() implies (#[trigger] before[i]) == r[i] by {}
    } else {
        lemma_nothing_said(before, slot);
        assert forall|i: int| 0 <= i < before.len() implies (#[trigger] before[i]) == r[i] by {}
    }
    assert(r.last() == r[r.len() - 1]);
}

proof fn lemma_nothing_said<I, S>(r: Seq<RevertView<I, S>>, slot: nat)
    ensures
        (forall|i: int| 0 <= i < r.len() ==> (#[trigger] r[i]).account is DoNothing)
            ==> earliest_info(r) is DoNothing,
        (forall|i: int| 0 <= i < r.len() ==> !(#[trigger] r[i]).storage.dom().contains(slot))
            ==> !earliest_slots(r).dom().contains(slot),
    decreases r.len(),
{
    if r.len() > 0 {
        let before = r.drop_last();
        lemma_nothing_said(before, slot);
        assert forall|i: int| 0 <= i < before.len() implies (#[trigger] before[i]) == r[i] by {}
        assert(r.last() == r[r.len() - 1]);
    }
}

/// What several transitions revert is what each of them does, in order.
pub proof fn law_history<I, S>(
    a: Seq<Vec<(Address, AccountRevert<I, S>)>>,
    b: Seq<Vec<(Address, AccountRevert<I, S>)>>,
)
    ensures
        history(a + b) == history(a) + history(b),
        a.len() == 1 ==> {
            &&& history(a).len() == a[0]@.len()
            &&& forall|i: int| #![trigger a[0]@[i]]
                0 <= i < a[0]@.len() ==> {
                    let e = a[0]@[i];
                    &&& history(a)[i].0 == e.0
                    &&& history(a)[i].1.account == e.1.account
                    &&& history(a)[i].1.previous_status == e.1.previous_status
                    &&& history(a)[i].1.wipe_storage == e.1.wipe_storage
                    &&& history(a)[i].1.storage == slots(e.1.storage@)
                }
        },
    decreases b.len(),
{
    if b.len() == 0 {
        assert(a + b =~= a);
    } else {
        law_history(a, b.drop_last());
        assert((a + b).drop_last() =~= a + b.drop_last());
        assert((a + b).last() == b.last());
        assert(history(a + b) =~= history(a) + history(b));
    }
    if a.len() == 1 {
        reveal_with_fuel(history, 2);
        assert(a.drop_last() =~= Seq::empty());
        assert(a.last() == a[0]);
        assert(history(a) =~= transition(a[0]@));
    }
}

/// Of a slot's entries in the revert of an account, the first counts.
pub proof fn law_first_entry(storage: Seq<(U256, RevertToSlot)>, k: int)
    requires
        0 <= k < storage.len(),
        forall|i: int| 0 <= i < k ==> (#[trigger] storage[i]).0.value() != storage[k].0.value(),
    ensures
        slots(storage).dom().contains(storage[k].0.value()),
        slots(storage)[storage[k].0.value()] == storage[k].1,
    decreases storage.len(),
{
    let before = storage.drop_last();
    if k < before.len() {
        assert forall|i: int| 0 <= i < k implies (#[trigger] before[i]).0.value()
            != before[k].0.value() by {
            assert(storage[i].0.value() != storage[k].0.value());
        }
        law_first_entry(before, k);
    } else {
        lemma_no_entry(before, storage[k].0.value());
    }
}

proof fn lemma_no_entry(storage: Seq<(U256, RevertToSlot)>, slot: nat)
    requires
        forall|i: int| 0 <= i < storage.len() ==> (#[trigger] storage[i]).0.value() != slot,
    ensures
        !slots(storage).dom().contains(slot),
    decreases storage.len(),
{
    if storage.len() > 0 {
        let before = storage.drop_last();
        assert forall|i: int| 0 <= i < before.len() implies (#[trigger] before[i]).0.value() != slot by {
            assert(storage[i].0.value() != slot);
        }
        lemma_no_entry(before, slot);
        assert(storage[storage.len() - 1].0.value() != slot);
    }
}

/// Flattened reverts name every account that the transitions name, once, with what its reverts come to.
pub proof fn law_every_account<I, S>(h: Seq<(Address, RevertView<I, S>)>, k: int)
    requires
        0 <= k < h.len(),
    ensures
        exists|i: int|
            0 <= i < flattened(h).len() && (#[trigger] flattened(h)[i]) == (
                h[k].0,
                merged(grouping::values_of(h, h[k].0)),
            ),
        flattened(h)[0].0 == h[0].0,
        forall|i: int, j: int|
            0 <= i < j < flattened(h).len() ==> (#[trigger] flattened(h)[i]).0 != (
            #[trigger] flattened(h)[j]).0,
{
    let names = grouping::keys(h);
    grouping::lemma_keys(h);
    assert(h[k].0 == h[k].0);
    assert(names.contains(h[k].0));
    let i = choose|i: int| 0 <= i < names.len() && names[i] == h[k].0;
    assert(flattened(h)[i] == (h[k].0, merged(grouping::values_of(h, h[k].0))));
    lemma_first_key(h);
    assert forall|i: int, j: int| 0 <= i < j < flattened(h).len() implies (#[trigger] flattened(
        h,
    )[i]).0 != (#[trigger] flattened(h)[j]).0 by {
        assert(names[i] != names[j]);
    }
}

proof fn lemma_first_key<T>(h: Seq<(Address, T)>)
    requires
        h.len() > 0,
    ensures
        grouping::keys(h).len() > 0,
        grouping::keys(h)[0] == h[0].0,
    decreases h.len(),
{
    if h.len() > 1 {
        lemma_first_key(h.drop_last());
    } else {
        reveal_with_fuel(grouping::keys, 2);
        assert(h.drop_last() =~= Seq::empty());
    }
}

/// Changes to the state that are extended with others are extended with the first of them before the
/// next, and each goes in once.
pub proof fn law_extended_in_order<B, F: Fn(B, &B) -> B>(
    extend: F,
    start: B,
    more: Seq<B>,
    next: B,
    r: B,
)
    ensures
        extended(extend, start, Seq::empty(), r) <==> r == start,
        extended(extend, start, more.push(next), r) <==> exists|mid: B| #[trigger]
            extended(extend, start, more, mid) && extend.ensures((mid, &next), r),
{
    lemma_not_extended(extend, start);
    let all = more.push(next);
    if extended(extend, start, all, r) {
        let steps = choose|steps: Seq<B>| #[trigger]
            is_extended_by(extend, steps, all) && steps[0] == start && steps.last() == r;
        let first = steps.drop_last();
        assert forall|i: int| 0 <= i < more.len() implies extend.ensures(
            (first[i], &#[trigger] more[i]),
            first[i + 1],
        ) by {
            assert(all[i] == more[i]);
        }
        assert(is_extended_by(extend, first, more));
        assert(extended(extend, start, more, first.last()));
        assert(all[more.len() as int] == next);
    }
    if exists|mid: B| #[trigger]
        extended(extend, start, more, mid) && extend.ensures((mid, &next), r) {
        let mid = choose|mid: B| #[trigger]
            extended(extend, start, more, mid) && extend.ensures((mid, &next), r);
        lemma_extended_push(extend, start, more, mid, next, r);
    }
}

}
