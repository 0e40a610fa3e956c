//! Views of sequences of records.

use vstd::prelude::*;

verus! {

/// The views of the items of `s`, in order.
pub open spec fn views<T: View>(s: Seq<T>) -> Seq<T::V> {
    Seq::new(s.len(), |i: int| s[i]@)
}

/// Pushing an item pushes its view.
pub proof fn lemma_views_push<T: View>(s: Seq<T>, x: T)
    ensures
        views(s.push(x)) == views(s).push(x@),
{
    assert(views(s.push(x)) =~= views(s).push(x@));
}

/// Inserting an item inserts its view at the same place.
pub proof fn lemma_views_insert<T: View>(s: Seq<T>, i: int, x: T)
    requires
        0 <= i <= s.len(),
    ensures
        views(s.insert(i, x)) == views(s).insert(i, x@),
{
    assert(views(s.insert(i, x)) =~= views(s).insert(i, x@));
}

/// Dropping the last item drops the last view.
pub proof fn lemma_views_drop_last<T: View>(s: Seq<T>)
    requires
        s.len() > 0,
    ensures
        views(s.drop_last()) == views(s).drop_last(),
        views(s).last() == s.last()@,
{
    assert(views(s.drop_last()) =~= views(s).drop_last());
}

/// The views of the first `i + 1` items are those of the first `i` items
/// and the view of the item at `i`.
pub proof fn lemma_views_prefix<T: View>(s: Seq<T>, i: int)
    requires
        0 <= i < s.len(),
    ensures
        views(s.subrange(0, i + 1)).drop_last() == views(s.subrange(0, i)),
        views(s.subrange(0, i + 1)).last() == s[i]@,
        views(s.subrange(0, i + 1)).len() == i + 1,
{
    assert(views(s.subrange(0, i + 1)).drop_last() =~= views(s.subrange(0, i)));
}

/// The views of no items, and of all of them.
pub proof fn lemma_views_ends<T: View>(s: Seq<T>)
    ensures
        views(s.subrange(0, 0)) == Seq::<T::V>::empty(),
        views(s.subrange(0, s.len() as int)) == views(s),
{
    assert(views(s.subrange(0, 0)) =~= Seq::<T::V>::empty());
    assert(s.subrange(0, s.len() as int) =~= s);
}

} // verus!
