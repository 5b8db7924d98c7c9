//! What lists of values hold.
use vstd::prelude::*;

verus! {

/// What the elements of a list hold.
pub open spec fn views<T: View>(s: Seq<T>) -> Seq<T::V> {
    s.map_values(|t: T| t@)
}

/// What an optional value holds.
pub open spec fn optional<T: View>(o: Option<T>) -> Option<T::V> {
    match o {
        Some(t) => Some(t@),
        None => None,
    }
}

/// A copy of a list whose elements' copies hold what they hold.
pub fn clone_all<T: Clone + View>(v: &Vec<T>) -> (r: Vec<T>)
    requires
        forall|a: T, b: T| #[trigger] cloned::<T>(a, b) ==> a@ == b@,
    ensures
        views(r@) == views(v@),
{
    let r = v.clone();
    assert forall|i: int| 0 <= i < v@.len() implies views(r@)[i] == views(v@)[i] by {
        assert(cloned::<T>(v@[i], r@[i]));
    }
    assert(views(r@) =~= views(v@));
    r
}

/// What the elements of a list hold is what each of them holds, in order.
pub proof fn law_views<T: View>(a: Seq<T>, b: Seq<T>, o: Option<T>)
    ensures
        views(a).len() == a.len(),
        forall|i: int| 0 <= i < a.len() ==> (#[trigger] views(a)[i]) == a[i]@,
        views(a + b) == views(a) + views(b),
        o is None <==> optional(o) is None,
        o matches Some(t) ==> optional(o) == Some(t@),
{
    assert(views(a + b) =~= views(a) + views(b));
}

}
