//! Histories of entries that belong to accounts, taken account by account.
use crate::flashblocks::primitives::Address;
use vstd::prelude::*;

verus! {

/// The accounts in a history, each where it appears first.
pub open spec fn keys<T>(h: Seq<(Address, T)>) -> Seq<Address>
    decreases h.len(),
{
    if h.len() == 0 {
        Seq::empty()
    } else {
        let before = keys(h.drop_last());
        if before.contains(h.last().0) {
            before
        } else {
            before.push(h.last().0)
        }
    }
}

/// The entries of one account in a history, from the earliest to the latest.
pub open spec fn values_of<T>(h: Seq<(Address, T)>, account: Address) -> Seq<T>
    decreases h.len(),
{
    if h.len() == 0 {
        Seq::empty()
    } else {
        let before = values_of(h.drop_last(), account);
        if h.last().0 == account {
            before.push(h.last().1)
        } else {
            before
        }
    }
}

/// Whether an account does not appear in a history.
pub open spec fn absent<T>(h: Seq<(Address, T)>, account: Address) -> bool {
    forall|i: int| 0 <= i < h.len() ==> (#[trigger] h[i]).0 != account
}

proof fn lemma_contains_push(s: Seq<Address>, last: Address, a: Address)
    ensures
        s.push(last).contains(a) <==> s.contains(a) || a == last,
{
    if s.contains(a) {
        let i = choose|i: int| 0 <= i < s.len() && s[i] == a;
        assert(s.push(last)[i] == a);
    }
    assert(s.push(last)[s.len() as int] == last);
}

/// Which accounts a history holds.
pub proof fn lemma_keys<T>(h: Seq<(Address, T)>)
    ensures
        keys(h).no_duplicates(),
        forall|a: Address| #[trigger] keys(h).contains(a) <==> values_of(h, a).len() > 0,
        forall|a: Address| #[trigger] keys(h).contains(a) <==> exists|i: int|
            0 <= i < h.len() && (#[trigger] h[i]).0 == a,
    decreases h.len(),
{
    if h.len() > 0 {
        let before = h.drop_last();
        lemma_keys(before);
        let last = h.last().0;
        assert(h[h.len() - 1].0 == last);
        assert forall|a: Address| #[trigger] keys(h).contains(a) <==> values_of(h, a).len() > 0 by {
            lemma_contains_push(keys(before), last, a);
        }
        assert forall|a: Address| #[trigger] keys(h).contains(a) <==> exists|i: int|
            0 <= i < h.len() && (#[trigger] h[i]).0 == a by {
            lemma_contains_push(keys(before), last, a);
            if exists|i: int| 0 <= i < h.len() && (#[trigger] h[i]).0 == a {
                let i = choose|i: int| 0 <= i < h.len() && (#[trigger] h[i]).0 == a;
                if i < h.len() - 1 {
                    assert(before[i].0 == a);
                }
            }
            if exists|i: int| 0 <= i < before.len() && (#[trigger] before[i]).0 == a {
                let i = choose|i: int| 0 <= i < before.len() && (#[trigger] before[i]).0 == a;
                assert(h[i].0 == a);
            }
        }
    }
}

/// The accounts and entries of a history in which no account appears twice.
pub proof fn lemma_distinct<T>(h: Seq<(Address, T)>)
    requires
        forall|i: int, j: int| 0 <= i < j < h.len() ==> (#[trigger] h[i]).0 != (#[trigger] h[j]).0,
    ensures
        keys(h) == h.map_values(|e: (Address, T)| e.0),
        forall|i: int| 0 <= i < h.len() ==> values_of(h, (#[trigger] h[i]).0) == seq![h[i].1],
        forall|a: Address| absent(h, a) ==> #[trigger] values_of(h, a) == Seq::<T>::empty(),
    decreases h.len(),
{
    if h.len() == 0 {
        assert(keys(h) =~= h.map_values(|e: (Address, T)| e.0));
    } else {
        let before = h.drop_last();
        let last = h.last();
        assert forall|i: int, j: int| 0 <= i < j < before.len() implies (#[trigger] before[i]).0 != (
        #[trigger] before[j]).0 by {
            assert(h[i].0 != h[j].0);
        }
        lemma_distinct(before);
        assert forall|i: int| 0 <= i < before.len() implies (#[trigger] before[i]).0 != last.0 by {
            assert(h[i].0 != h[h.len() - 1].0);
        }
        let names = before.map_values(|e: (Address, T)| e.0);
        assert(!keys(before).contains(last.0)) by {
            if names.contains(last.0) {
                let k = choose|k: int| 0 <= k < names.len() && names[k] == last.0;
                assert(before[k].0 == last.0);
            }
        }
        assert(keys(h) =~= h.map_values(|e: (Address, T)| e.0));
        assert forall|i: int| 0 <= i < h.len() implies values_of(h, (#[trigger] h[i]).0) == seq![h[i].1] by {
            if i < before.len() {
                assert(before[i] == h[i]);
                assert(before[i].0 != last.0);
            } else {
                assert(absent(before, last.0));
                assert(values_of(before, last.0) =~= Seq::empty());
                assert(values_of(h, last.0) =~= seq![last.1]);
            }
        }
        assert forall|a: Address| absent(h, a) implies #[trigger] values_of(h, a) == Seq::<T>::empty() by {
            assert(h[h.len() - 1].0 != a);
            assert forall|i: int| 0 <= i < before.len() implies (#[trigger] before[i]).0 != a by {
                assert(h[i].0 != a);
            }
            assert(absent(before, a));
            assert(values_of(before, a) == Seq::<T>::empty());
        }
    }
}

/// The values of an account are all of its values in the history, in order, and those of no other.
pub proof fn law_values_of<T>(a: Seq<(Address, T)>, b: Seq<(Address, T)>, account: Address)
    ensures
        values_of(a + b, account) == values_of(a, account) + values_of(b, account),
        a.len() == 1 && a[0].0 == account ==> values_of(a, account) == seq![a[0].1],
        a.len() == 1 && a[0].0 != account ==> values_of(a, account).len() == 0,
    decreases b.len(),
{
    if b.len() == 0 {
        assert(a + b =~= a);
    } else {
        law_values_of(a, b.drop_last(), account);
        assert((a + b).drop_last() =~= a + b.drop_last());
        assert((a + b).last() == b.last());
        assert(values_of(a + b, account) =~= values_of(a, account) + values_of(b, account));
    }
    if a.len() == 1 {
        reveal_with_fuel(values_of, 2);
        assert(a.drop_last() =~= Seq::empty());
        assert(a.last() == a[0]);
        if a[0].0 == account {
            assert(values_of(a, account) =~= seq![a[0].1]);
        }
    }
}

/// The accounts of a history stand in the order in which each comes first, each of them once.
pub proof fn law_keys<T>(h: Seq<(Address, T)>, next: (Address, T))
    ensures
        keys(Seq::<(Address, T)>::empty()).len() == 0,
        absent(h, next.0) ==> keys(h.push(next)) == keys(h).push(next.0),
        !absent(h, next.0) ==> keys(h.push(next)) == keys(h),
        keys(h).contains(next.0) <==> !absent(h, next.0),
{
    lemma_keys(h);
    assert(h.push(next).drop_last() =~= h);
    assert(h.push(next).last() == next);
}

}
