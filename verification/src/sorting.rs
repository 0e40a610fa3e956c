//! A stable sort of a vector by a key of its items' views.
//!
//! The order is given by a type that implements [`SortKey`]. What the sort
//! returns is defined by [`stable_sorted`]: the items are taken from first to
//! last, and each is put behind the last item already placed that does not
//! come after it. A sorted sequence is ordered and holds what was given
//! ([`lemma_stable_sorted`]); sorting by one key and then by another is
//! sorting once by the second key with ties broken by the first
//! ([`lemma_sorted_twice`]).

use vstd::prelude::*;
use crate::sequences::{lemma_views_drop_last, lemma_views_insert, views};

verus! {

/// An order on the views of `T` by which a vector of `T` can be sorted.
pub trait SortKey<T: View> {
    /// Whether `a` may stand before `b`.
    spec fn le(a: T::V, b: T::V) -> bool;

    /// Decides `le` on two items.
    fn at_most(a: &T, b: &T) -> (r: bool)
        ensures
            r == Self::le(a@, b@),
    ;

    /// Of two views one may stand before the other.
    proof fn lemma_total(a: T::V, b: T::V)
        ensures
            Self::le(a, b) || Self::le(b, a),
    ;

    /// What may stand before a view may stand before all that this view may
    /// stand before.
    proof fn lemma_transitive(a: T::V, b: T::V, c: T::V)
        requires
            Self::le(a, b),
            Self::le(b, c),
        ensures
            Self::le(a, c),
    ;
}

/// `s` with `x` put behind the last item that may stand before it.
pub open spec fn placed<T: View, K: SortKey<T>>(s: Seq<T::V>, x: T::V) -> Seq<T::V>
    decreases s.len(),
{
    if s.len() == 0 {
        seq![x]
    } else if K::le(s.last(), x) {
        s.push(x)
    } else {
        placed::<T, K>(s.drop_last(), x).push(s.last())
    }
}

/// The items of `s` in the order of `K`; items of which each may stand before
/// the other keep the order they had in `s`.
pub open spec fn stable_sorted<T: View, K: SortKey<T>>(s: Seq<T::V>) -> Seq<T::V>
    decreases s.len(),
{
    if s.len() == 0 {
        s
    } else {
        placed::<T, K>(stable_sorted::<T, K>(s.drop_last()), s.last())
    }
}

/// Whether each item of `s` may stand before all that follow it.
pub open spec fn ordered<T: View, K: SortKey<T>>(s: Seq<T::V>) -> bool {
    forall|i: int, j: int| 0 <= i < j < s.len() ==> K::le(#[trigger] s[i], #[trigger] s[j])
}

/// Where `x` is put: at `at`, if nothing from `at` on may stand before `x`
/// and the item just before `at` may.
pub proof fn lemma_placed_at<T: View, K: SortKey<T>>(s: Seq<T::V>, x: T::V, at: int)
    requires
        0 <= at <= s.len(),
        forall|j: int| at <= j < s.len() ==> !K::le(#[trigger] s[j], x),
        at > 0 ==> K::le(s[at - 1], x),
    ensures
        placed::<T, K>(s, x) == s.insert(at, x),
    decreases s.len(),
{
    if at == s.len() {
        assert(s.push(x) =~= s.insert(at, x));
        if s.len() == 0 {
            assert(seq![x] =~= s.insert(at, x));
        }
    } else {
        let front = s.drop_last();
        assert(!K::le(s[s.len() - 1], x));
        assert forall|j: int| at <= j < front.len() implies !K::le(#[trigger] front[j], x) by {
            assert(front[j] == s[j]);
        }
        lemma_placed_at::<T, K>(front, x, at);
        assert(front.insert(at, x).push(s.last()) =~= s.insert(at, x));
    }
}

/// Putting an item into an ordered sequence leaves it ordered, keeps what was
/// there and adds the item.
pub proof fn lemma_placed_ordered<T: View, K: SortKey<T>>(s: Seq<T::V>, x: T::V)
    requires
        ordered::<T, K>(s),
    ensures
        ordered::<T, K>(placed::<T, K>(s, x)),
        placed::<T, K>(s, x).to_multiset() == s.to_multiset().insert(x),
        placed::<T, K>(s, x).len() == s.len() + 1,
    decreases s.len(),
{
    broadcast use vstd::seq_lib::group_to_multiset_ensures;

    if s.len() == 0 {
        assert(s =~= Seq::empty());
        assert(seq![x] =~= Seq::<T::V>::empty().push(x));
    } else if K::le(s.last(), x) {
        let r = s.push(x);
        assert forall|i: int, j: int| 0 <= i < j < r.len() implies K::le(
            #[trigger] r[i],
            #[trigger] r[j],
        ) by {
            if j == s.len() {
                if i < s.len() - 1 {
                    assert(K::le(s[i], s[s.len() - 1]));
                    K::lemma_transitive(s[i], s.last(), x);
                }
            } else {
                assert(K::le(s[i], s[j]));
            }
        }
    } else {
        let front = s.drop_last();
        let last = s.last();
        assert forall|i: int, j: int| 0 <= i < j < front.len() implies K::le(
            #[trigger] front[i],
            #[trigger] front[j],
        ) by {
            assert(K::le(s[i], s[j]));
        }
        lemma_placed_ordered::<T, K>(front, x);
        let p = placed::<T, K>(front, x);
        let r = p.push(last);
        K::lemma_total(last, x);
        assert forall|i: int, j: int| 0 <= i < j < r.len() implies K::le(
            #[trigger] r[i],
            #[trigger] r[j],
        ) by {
            if j == p.len() {
                // every item of `p` is `x` or an item of `front`
                assert(p.to_multiset().count(p[i]) > 0);
                if p[i] == x {
                } else {
                    assert(front.to_multiset().count(p[i]) > 0);
                    let k = choose|k: int| 0 <= k < front.len() && front[k] == p[i];
                    assert(K::le(s[k], s[s.len() - 1]));
                }
            } else {
                assert(K::le(p[i], p[j]));
            }
        }
        assert(s =~= front.push(last));
        assert(r.to_multiset() =~= s.to_multiset().insert(x));
    }
}

/// A sorted sequence is ordered and holds what the given one held, each item
/// as often.
pub proof fn lemma_stable_sorted<T: View, K: SortKey<T>>(s: Seq<T::V>)
    ensures
        ordered::<T, K>(stable_sorted::<T, K>(s)),
        stable_sorted::<T, K>(s).to_multiset() == s.to_multiset(),
        stable_sorted::<T, K>(s).len() == s.len(),
    decreases s.len(),
{
    broadcast use vstd::seq_lib::group_to_multiset_ensures;

    if s.len() > 0 {
        lemma_stable_sorted::<T, K>(s.drop_last());
        lemma_placed_ordered::<T, K>(stable_sorted::<T, K>(s.drop_last()), s.last());
        assert(s =~= s.drop_last().push(s.last()));
    }
}

/// Whether each item of `s` may stand before all that follow it, and none of
/// those before it.
pub open spec fn strictly_ordered<T: View, K: SortKey<T>>(s: Seq<T::V>) -> bool {
    forall|i: int, j: int|
        0 <= i < j < s.len() ==> K::le(#[trigger] s[i], #[trigger] s[j]) && !K::le(s[j], s[i])
}

/// A sequence in which `K` tells every two items apart is the only ordered
/// sequence of its items.
pub proof fn lemma_ordered_unique<T: View, K: SortKey<T>>(a: Seq<T::V>, b: Seq<T::V>)
    requires
        strictly_ordered::<T, K>(a),
        ordered::<T, K>(b),
        a.to_multiset() == b.to_multiset(),
    ensures
        a == b,
    decreases a.len(),
{
    broadcast use vstd::seq_lib::group_to_multiset_ensures;
    broadcast use vstd::multiset::group_multiset_axioms;

    assert(a.len() == b.len()) by {
        assert(a.to_multiset().len() == a.len());
        assert(b.to_multiset().len() == b.len());
    }
    if a.len() == 0 {
        assert(a =~= b);
    } else {
        let x = a.last();
        let front = a.drop_last();
        assert(a =~= front.push(x));
        assert(a.to_multiset().count(x) > 0);
        assert(b.to_multiset().count(x) > 0);
        assert(b.contains(x));
        let k = choose|k: int| 0 <= k < b.len() && b[k] == x;
        let rest = b.remove(k);
        assert(front.to_multiset() =~= a.to_multiset().remove(x));
        assert(rest.to_multiset() =~= b.to_multiset().remove(x));
        assert forall|i: int, j: int| 0 <= i < j < front.len() implies K::le(
            #[trigger] front[i],
            #[trigger] front[j],
        ) && !K::le(front[j], front[i]) by {
            assert(K::le(a[i], a[j]) && !K::le(a[j], a[i]));
        }
        assert forall|i: int, j: int| 0 <= i < j < rest.len() implies K::le(
            #[trigger] rest[i],
            #[trigger] rest[j],
        ) by {
            let p = if i < k { i } else { i + 1 };
            let q = if j < k { j } else { j + 1 };
            assert(K::le(b[p], b[q]));
        }
        lemma_ordered_unique::<T, K>(front, rest);
        if k < b.len() - 1 {
            let y = b[b.len() - 1];
            assert(rest[rest.len() - 1] == y);
            assert(a[a.len() - 2] == y);
            assert(K::le(a[a.len() - 2], a[a.len() - 1]) && !K::le(a[a.len() - 1], a[a.len() - 2]));
            assert(K::le(b[k], b[b.len() - 1]));
        }
        assert(rest =~= b.drop_last());
        assert(b =~= b.drop_last().push(b.last()));
    }
}

/// An ordered sequence is its own sorted sequence.
pub proof fn lemma_sorted_fixed<T: View, K: SortKey<T>>(s: Seq<T::V>)
    requires
        ordered::<T, K>(s),
    ensures
        stable_sorted::<T, K>(s) == s,
    decreases s.len(),
{
    if s.len() > 0 {
        let front = s.drop_last();
        assert forall|i: int, j: int| 0 <= i < j < front.len() implies K::le(
            #[trigger] front[i],
            #[trigger] front[j],
        ) by {
            assert(K::le(s[i], s[j]));
        }
        lemma_sorted_fixed::<T, K>(front);
        if front.len() > 0 {
            assert(K::le(s[s.len() - 2], s[s.len() - 1]));
            assert(front.last() == s[s.len() - 2]);
        }
        assert(front.push(s.last()) =~= s);
    }
}

/// The place at which `placed` puts `x` into `s`.
pub open spec fn place<T: View, K: SortKey<T>>(s: Seq<T::V>, x: T::V) -> int
    decreases s.len(),
{
    if s.len() == 0 {
        0
    } else if K::le(s.last(), x) {
        s.len() as int
    } else {
        place::<T, K>(s.drop_last(), x)
    }
}

/// `placed` puts `x` at `place`: behind an item that may stand before it, and
/// before items that may not.
pub proof fn lemma_place<T: View, K: SortKey<T>>(s: Seq<T::V>, x: T::V)
    ensures
        0 <= place::<T, K>(s, x) <= s.len(),
        placed::<T, K>(s, x) == s.insert(place::<T, K>(s, x), x),
        forall|j: int| place::<T, K>(s, x) <= j < s.len() ==> !K::le(#[trigger] s[j], x),
        place::<T, K>(s, x) > 0 ==> K::le(s[place::<T, K>(s, x) - 1], x),
    decreases s.len(),
{
    if s.len() > 0 && !K::le(s.last(), x) {
        let front = s.drop_last();
        lemma_place::<T, K>(front, x);
        let at = place::<T, K>(front, x);
        assert forall|j: int| at <= j < s.len() implies !K::le(#[trigger] s[j], x) by {
            if j < front.len() {
                assert(front[j] == s[j]);
            }
        }
        if at > 0 {
            assert(front[at - 1] == s[at - 1]);
        }
    }
    lemma_placed_at::<T, K>(s, x, place::<T, K>(s, x));
}

/// Whether `Both` orders by `First` and, where `First` does not tell two
/// items apart, by `Second`.
pub open spec fn breaks_ties<T: View, Both: SortKey<T>, First: SortKey<T>, Second: SortKey<T>>() -> bool {
    forall|x: T::V, y: T::V|
        #[trigger] Both::le(x, y) == (First::le(x, y) && (First::le(y, x) ==> Second::le(x, y)))
}

/// Where every item of `s` may stand before `x` by `Second`, `Both` puts `x`
/// where `First` puts it.
proof fn lemma_placed_alike<T: View, Both: SortKey<T>, First: SortKey<T>, Second: SortKey<T>>(
    s: Seq<T::V>,
    x: T::V,
)
    requires
        breaks_ties::<T, Both, First, Second>(),
        forall|j: int| 0 <= j < s.len() ==> Second::le(#[trigger] s[j], x),
    ensures
        placed::<T, Both>(s, x) == placed::<T, First>(s, x),
    decreases s.len(),
{
    if s.len() > 0 {
        let z = s.last();
        assert(Second::le(s[s.len() - 1], x));
        assert(Both::le(z, x) == (First::le(z, x) && (First::le(x, z) ==> Second::le(z, x))));
        if !First::le(z, x) {
            let front = s.drop_last();
            assert forall|j: int| 0 <= j < front.len() implies Second::le(#[trigger] front[j], x) by {
                assert(front[j] == s[j]);
            }
            lemma_placed_alike::<T, Both, First, Second>(front, x);
        }
    }
}

/// An item `y` that `Second` puts strictly behind `x` can be put by `First`
/// before or after `x` is put by `Both`: the outcome is the same.
proof fn lemma_placed_commute<T: View, Both: SortKey<T>, First: SortKey<T>, Second: SortKey<T>>(
    s: Seq<T::V>,
    x: T::V,
    y: T::V,
)
    requires
        breaks_ties::<T, Both, First, Second>(),
        !Second::le(y, x),
    ensures
        placed::<T, First>(placed::<T, Both>(s, x), y) == placed::<T, Both>(
            placed::<T, First>(s, y),
            x,
        ),
    decreases s.len(),
{
    First::lemma_total(x, y);
    assert(Both::le(y, x) == (First::le(y, x) && (First::le(x, y) ==> Second::le(y, x))));
    if s.len() == 0 {
        let sx = placed::<T, Both>(s, x);
        let sy = placed::<T, First>(s, y);
        assert(sx =~= seq![x]);
        assert(sy =~= seq![y]);
        assert(sx.drop_last() =~= s);
        assert(sy.drop_last() =~= s);
        reveal_with_fuel(placed, 2);
        if First::le(x, y) {
            assert(placed::<T, First>(sx, y) =~= seq![x, y]);
            assert(placed::<T, Both>(sy, x) =~= seq![x, y]);
        } else {
            assert(placed::<T, First>(sx, y) =~= seq![y, x]);
            assert(placed::<T, Both>(sy, x) =~= seq![y, x]);
        }
    } else {
        let z = s.last();
        let front = s.drop_last();
        assert(Both::le(z, x) == (First::le(z, x) && (First::le(x, z) ==> Second::le(z, x))));
        First::lemma_total(z, y);
        First::lemma_total(z, x);
        if Both::le(z, x) {
            let sx = s.push(x);
            assert(sx.drop_last() =~= s);
            if First::le(z, y) {
                let sy = s.push(y);
                assert(sy.drop_last() =~= s);
                if First::le(x, y) {
                    assert(placed::<T, First>(sx, y) == sx.push(y));
                    assert(placed::<T, Both>(sy, x) == placed::<T, Both>(s, x).push(y));
                } else {
                    assert(placed::<T, First>(sx, y) == placed::<T, First>(s, y).push(x));
                    assert(placed::<T, Both>(sy, x) == sy.push(x));
                }
            } else {
                // y stands strictly before z, and z before x
                if First::le(x, y) {
                    First::lemma_transitive(z, x, y);
                }
                let sy = placed::<T, First>(front, y).push(z);
                assert(sy.drop_last() =~= placed::<T, First>(front, y));
                assert(placed::<T, First>(sx, y) == placed::<T, First>(s, y).push(x));
                assert(placed::<T, Both>(sy, x) == sy.push(x));
            }
        } else {
            let sx = placed::<T, Both>(front, x).push(z);
            assert(sx.drop_last() =~= placed::<T, Both>(front, x));
            if First::le(z, y) {
                // x may stand before z by `First`, and z before y
                First::lemma_transitive(x, z, y);
                let sy = s.push(y);
                assert(sy.drop_last() =~= s);
                assert(placed::<T, First>(sx, y) == sx.push(y));
                assert(placed::<T, Both>(sy, x) == placed::<T, Both>(s, x).push(y));
            } else {
                let sy = placed::<T, First>(front, y).push(z);
                assert(sy.drop_last() =~= placed::<T, First>(front, y));
                lemma_placed_commute::<T, Both, First, Second>(front, x, y);
                assert(placed::<T, First>(sx, y) == placed::<T, First>(
                    placed::<T, Both>(front, x),
                    y,
                ).push(z));
                assert(placed::<T, Both>(sy, x) == placed::<T, Both>(
                    placed::<T, First>(front, y),
                    x,
                ).push(z));
            }
        }
    }
}

/// Sorting by `First` a sequence into which `x` was put, behind the items
/// that may stand before it by `Second` and before the others, is putting
/// `x` by `Both` into the sequence sorted by `First`.
proof fn lemma_sorted_insert<T: View, Both: SortKey<T>, First: SortKey<T>, Second: SortKey<T>>(
    s: Seq<T::V>,
    at: int,
    x: T::V,
)
    requires
        breaks_ties::<T, Both, First, Second>(),
        0 <= at <= s.len(),
        forall|j: int| 0 <= j < at ==> Second::le(#[trigger] s[j], x),
        forall|j: int| at <= j < s.len() ==> !Second::le(#[trigger] s[j], x),
    ensures
        stable_sorted::<T, First>(s.insert(at, x)) == placed::<T, Both>(
            stable_sorted::<T, First>(s),
            x,
        ),
    decreases s.len(),
{
    broadcast use vstd::seq_lib::group_to_multiset_ensures;

    let with_x = s.insert(at, x);
    if at == s.len() {
        assert(with_x =~= s.push(x));
        assert(with_x.drop_last() =~= s);
        let sorted = stable_sorted::<T, First>(s);
        lemma_stable_sorted::<T, First>(s);
        assert forall|j: int| 0 <= j < sorted.len() implies Second::le(#[trigger] sorted[j], x) by {
            assert(sorted.to_multiset().count(sorted[j]) > 0);
            assert(s.to_multiset().count(sorted[j]) > 0);
            assert(s.contains(sorted[j]));
            let k = choose|k: int| 0 <= k < s.len() && s[k] == sorted[j];
            assert(Second::le(s[k], x));
        }
        lemma_placed_alike::<T, Both, First, Second>(sorted, x);
    } else {
        let y = s.last();
        let front = s.drop_last();
        assert(!Second::le(s[s.len() - 1], x));
        assert(with_x =~= front.insert(at, x).push(y));
        assert(with_x.drop_last() =~= front.insert(at, x));
        assert forall|j: int| 0 <= j < at implies Second::le(#[trigger] front[j], x) by {
            assert(front[j] == s[j]);
        }
        assert forall|j: int| at <= j < front.len() implies !Second::le(#[trigger] front[j], x) by {
            assert(front[j] == s[j]);
        }
        lemma_sorted_insert::<T, Both, First, Second>(front, at, x);
        lemma_placed_commute::<T, Both, First, Second>(stable_sorted::<T, First>(front), x, y);
    }
}

/// Sorting by `Second` and then by `First` is sorting by `Both`.
pub proof fn lemma_sorted_twice<T: View, Both: SortKey<T>, First: SortKey<T>, Second: SortKey<T>>(
    s: Seq<T::V>,
)
    requires
        breaks_ties::<T, Both, First, Second>(),
    ensures
        stable_sorted::<T, First>(stable_sorted::<T, Second>(s)) == stable_sorted::<T, Both>(s),
    decreases s.len(),
{
    if s.len() > 0 {
        let front = s.drop_last();
        let x = s.last();
        let sorted = stable_sorted::<T, Second>(front);
        lemma_sorted_twice::<T, Both, First, Second>(front);
        lemma_stable_sorted::<T, Second>(front);
        lemma_place::<T, Second>(sorted, x);
        let at = place::<T, Second>(sorted, x);
        assert forall|j: int| 0 <= j < at implies Second::le(#[trigger] sorted[j], x) by {
            if j < at - 1 {
                assert(Second::le(sorted[j], sorted[at - 1]));
                Second::lemma_transitive(sorted[j], sorted[at - 1], x);
            }
        }
        lemma_sorted_insert::<T, Both, First, Second>(sorted, at, x);
    }
}

/// Sorts `v` by `K`, keeping the order of items that `K` does not tell apart.
pub fn sort_by_key<T: View, K: SortKey<T>>(v: &mut Vec<T>)
    ensures
        views(final(v)@) == stable_sorted::<T, K>(views(old(v)@)),
        final(v)@.len() == old(v)@.len(),
{
    let n = v.len();
    let mut i: usize = 0;
    proof {
        assert(views(v@.subrange(0, 0)) =~= Seq::<T::V>::empty());
    }
    while i < n
        invariant
            v@.len() == n,
            n == old(v)@.len(),
            i <= n,
            views(v@.subrange(0, i as int)) == stable_sorted::<T, K>(
                views(old(v)@.subrange(0, i as int)),
            ),
            forall|j: int| i <= j < n ==> v@[j] == old(v)@[j],
        decreases n - i,
    {
        let ghost before = v@;
        let ghost done = v@.subrange(0, i as int);
        let mut at: usize = i;
        while at > 0 && !K::at_most(&v[at - 1], &v[i])
            invariant
                at <= i < n,
                v@ == before,
                v@.len() == n,
                forall|j: int| at <= j < i ==> !K::le(#[trigger] v@[j]@, v@[i as int]@),
            decreases at,
        {
            at = at - 1;
        }
        let x = v.remove(i);
        v.insert(at, x);
        proof {
            let taken = old(v)@.subrange(0, i as int);
            let next = old(v)@.subrange(0, i + 1);
            assert(before[i as int] == old(v)@[i as int]);
            assert(next.drop_last() =~= taken);
            assert(next.last() == x);
            lemma_views_drop_last(next);
            assert forall|j: int| at <= j < done.len() implies !K::le(
                #[trigger] views(done)[j],
                x@,
            ) by {
                assert(views(done)[j] == before[j]@);
            }
            if at > 0 {
                assert(views(done)[at - 1] == before[at - 1]@);
            }
            lemma_placed_at::<T, K>(views(done), x@, at as int);
            lemma_views_insert(done, at as int, x);
            assert(v@.subrange(0, i + 1) =~= done.insert(at as int, x));
            assert forall|j: int| i + 1 <= j < n implies v@[j] == old(v)@[j] by {
                assert(v@[j] == before[j]);
            }
        }
        i = i + 1;
    }
    proof {
        assert(v@.subrange(0, n as int) =~= v@);
        assert(old(v)@.subrange(0, n as int) =~= old(v)@);
    }
}

} // verus!
