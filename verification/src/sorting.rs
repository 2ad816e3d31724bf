//! Stable sorting, stated as insertion: each element goes after every earlier
//! element it does not precede. This is the order `slice::sort_by` produces.

use vstd::prelude::*;

verus! {

/// `x` placed into `s` after the last element `e` with `le(e, x)`, scanning
/// from the back.
pub open spec fn insert_stable<T>(s: Seq<T>, x: T, le: spec_fn(T, T) -> bool) -> Seq<T>
    decreases s.len(),
{
    if s.len() == 0 {
        seq![x]
    } else if le(s.last(), x) {
        s.push(x)
    } else {
        insert_stable(s.drop_last(), x, le).push(s.last())
    }
}

/// The stable sort of `s` under the order `le`.
pub open spec fn sort_stable<T>(s: Seq<T>, le: spec_fn(T, T) -> bool) -> Seq<T>
    decreases s.len(),
{
    if s.len() == 0 {
        Seq::empty()
    } else {
        insert_stable(sort_stable(s.drop_last(), le), s.last(), le)
    }
}

/// Inserting at the place found by scanning from the back is `insert_stable`.
pub proof fn lemma_insert_stable_at<T>(s: Seq<T>, x: T, le: spec_fn(T, T) -> bool, j: int)
    requires
        0 <= j <= s.len(),
        forall|k: int| j <= k < s.len() ==> !le(#[trigger] s[k], x),
        j > 0 ==> le(s[j - 1], x),
    ensures
        insert_stable(s, x, le) == s.insert(j, x),
    decreases s.len(),
{
    if s.len() == 0 {
        assert(s.insert(j, x) =~= seq![x]);
    } else if le(s.last(), x) {
        assert(j == s.len()) by {
            if j < s.len() {
                assert(!le(s[s.len() - 1], x));
            }
        }
        assert(s.insert(j, x) =~= s.push(x));
    } else {
        assert(j < s.len());
        lemma_insert_stable_at(s.drop_last(), x, le, j);
        assert(s.drop_last().insert(j, x).push(s.last()) =~= s.insert(j, x));
    }
}

pub proof fn lemma_insert_stable_len<T>(s: Seq<T>, x: T, le: spec_fn(T, T) -> bool)
    ensures
        insert_stable(s, x, le).len() == s.len() + 1,
    decreases s.len(),
{
    if s.len() > 0 && !le(s.last(), x) {
        lemma_insert_stable_len(s.drop_last(), x, le);
    }
}

pub proof fn lemma_sort_stable_len<T>(s: Seq<T>, le: spec_fn(T, T) -> bool)
    ensures
        sort_stable(s, le).len() == s.len(),
    decreases s.len(),
{
    if s.len() > 0 {
        lemma_sort_stable_len(s.drop_last(), le);
        lemma_insert_stable_len(sort_stable(s.drop_last(), le), s.last(), le);
    }
}

/// `s` is ordered by `le`.
pub open spec fn is_sorted_by<T>(s: Seq<T>, le: spec_fn(T, T) -> bool) -> bool {
    forall|i: int, j: int| 0 <= i < j < s.len() ==> le(#[trigger] s[i], #[trigger] s[j])
}

/// `le` is a total preorder.
pub open spec fn total_preorder<T>(le: spec_fn(T, T) -> bool) -> bool {
    &&& forall|a: T, b: T| #[trigger] le(a, b) || le(b, a)
    &&& forall|a: T, b: T, c: T| #[trigger] le(a, b) && #[trigger] le(b, c) ==> le(a, c)
}

pub proof fn lemma_insert_stable_sorted<T>(s: Seq<T>, x: T, le: spec_fn(T, T) -> bool)
    requires
        total_preorder(le),
        is_sorted_by(s, le),
    ensures
        is_sorted_by(insert_stable(s, x, le), le),
        insert_stable(s, x, le).to_multiset() == s.to_multiset().insert(x),
    decreases s.len(),
{
    broadcast use vstd::seq_lib::group_to_multiset_ensures;
    if s.len() == 0 {
        assert(seq![x] =~= Seq::<T>::empty().push(x));
    } else if le(s.last(), x) {
        let r = s.push(x);
        assert forall|i: int, j: int| 0 <= i < j < r.len() implies le(#[trigger] r[i], #[trigger] r[j]) by {
            if j == s.len() {
                if i < s.len() - 1 {
                    assert(le(s[i], s[s.len() - 1]));
                }
            }
        }
    } else {
        let init = s.drop_last();
        assert(is_sorted_by(init, le));
        lemma_insert_stable_sorted(init, x, le);
        let mid = insert_stable(init, x, le);
        let r = mid.push(s.last());
        assert(le(x, s.last()));
        assert forall|i: int, j: int| 0 <= i < j < r.len() implies le(#[trigger] r[i], #[trigger] r[j]) by {
            if j == mid.len() {
                let e = mid[i];
                assert(mid.to_multiset().count(e) > 0);
                assert(init.to_multiset().insert(x).count(e) > 0);
                if e != x {
                    assert(init.to_multiset().count(e) > 0);
                    assert(init.contains(e));
                    let k = choose|k: int| 0 <= k < init.len() && init[k] == e;
                    assert(le(s[k], s[s.len() - 1]));
                }
            }
        }
        assert(s =~= init.push(s.last()));
    }
}

/// A stable sort under a total preorder is ordered and holds the same
/// elements.
pub proof fn lemma_sort_stable_sorted<T>(s: Seq<T>, le: spec_fn(T, T) -> bool)
    requires
        total_preorder(le),
    ensures
        is_sorted_by(sort_stable(s, le), le),
        sort_stable(s, le).to_multiset() == s.to_multiset(),
    decreases s.len(),
{
    broadcast use vstd::seq_lib::group_to_multiset_ensures;
    if s.len() > 0 {
        lemma_sort_stable_sorted(s.drop_last(), le);
        lemma_insert_stable_sorted(sort_stable(s.drop_last(), le), s.last(), le);
        assert(s =~= s.drop_last().push(s.last()));
    }
}

/// `s` and `t` agree position by position under `rel`.
pub open spec fn related<T>(s: Seq<T>, t: Seq<T>, rel: spec_fn(T, T) -> bool) -> bool {
    &&& s.len() == t.len()
    &&& forall|i: int| #![trigger s[i]] #![trigger t[i]] 0 <= i < s.len() ==> rel(s[i], t[i])
}

/// `le` cannot tell `rel`-related elements apart.
pub open spec fn respects<T>(le: spec_fn(T, T) -> bool, rel: spec_fn(T, T) -> bool) -> bool {
    forall|a: T, b: T, c: T, d: T|
        #![trigger rel(a, c), rel(b, d)]
        rel(a, c) && rel(b, d) ==> le(a, b) == le(c, d)
}

pub proof fn lemma_insert_stable_related<T>(
    s: Seq<T>,
    t: Seq<T>,
    x: T,
    y: T,
    le: spec_fn(T, T) -> bool,
    rel: spec_fn(T, T) -> bool,
)
    requires
        related(s, t, rel),
        rel(x, y),
        respects(le, rel),
    ensures
        related(insert_stable(s, x, le), insert_stable(t, y, le), rel),
    decreases s.len(),
{
    if s.len() == 0 {
    } else {
        assert(rel(s.last(), t.last()));
        assert(le(s.last(), x) == le(t.last(), y));
        if le(s.last(), x) {
        } else {
            lemma_insert_stable_related(s.drop_last(), t.drop_last(), x, y, le, rel);
        }
    }
}

/// Sorting sequences that agree position by position under a relation the
/// order cannot see through gives sequences that agree the same way.
pub proof fn lemma_sort_stable_related<T>(
    s: Seq<T>,
    t: Seq<T>,
    le: spec_fn(T, T) -> bool,
    rel: spec_fn(T, T) -> bool,
)
    requires
        related(s, t, rel),
        respects(le, rel),
    ensures
        related(sort_stable(s, le), sort_stable(t, le), rel),
    decreases s.len(),
{
    if s.len() > 0 {
        lemma_sort_stable_related(s.drop_last(), t.drop_last(), le, rel);
        assert(rel(s.last(), t.last()));
        lemma_insert_stable_related(
            sort_stable(s.drop_last(), le),
            sort_stable(t.drop_last(), le),
            s.last(),
            t.last(),
            le,
            rel,
        );
    }
}

/// `a` and `b` are each ordered before the other: the sort cannot tell
/// them apart.
pub open spec fn equivalent<T>(le: spec_fn(T, T) -> bool, a: T, b: T) -> bool {
    le(a, b) && le(b, a)
}

/// The first element of `s` equivalent to `x`.
pub open spec fn first_equivalent<T>(s: Seq<T>, le: spec_fn(T, T) -> bool, x: T) -> Option<T>
    decreases s.len(),
{
    if s.len() == 0 {
        None
    } else {
        match first_equivalent(s.drop_last(), le, x) {
            Some(e) => Some(e),
            None => if equivalent(le, s.last(), x) {
                Some(s.last())
            } else {
                None
            },
        }
    }
}

proof fn lemma_insert_stable_first_equivalent<T>(w: Seq<T>, y: T, le: spec_fn(T, T) -> bool, x: T)
    requires
        total_preorder(le),
    ensures
        first_equivalent(insert_stable(w, y, le), le, x) == (match first_equivalent(w, le, x) {
            Some(e) => Some(e),
            None => if equivalent(le, y, x) {
                Some(y)
            } else {
                None
            },
        }),
    decreases w.len(),
{
    if w.len() == 0 {
        assert(seq![y].drop_last() =~= Seq::<T>::empty());
        assert(first_equivalent(Seq::<T>::empty(), le, x) is None);
        assert(seq![y].last() == y);
    } else if le(w.last(), y) {
        assert(w.push(y).drop_last() =~= w);
        assert(w.push(y).last() == y);
    } else {
        let rest = w.drop_last();
        lemma_insert_stable_first_equivalent(rest, y, le, x);
        let u = insert_stable(rest, y, le);
        assert(u.push(w.last()).drop_last() =~= u);
        if first_equivalent(rest, le, x) is None && equivalent(le, y, x) && equivalent(le, w.last(), x) {
            assert(le(w.last(), x) && le(x, y));
            assert(le(w.last(), y));
        }
    }
}

/// A stable sort keeps, of each group of equivalent elements, the first one
/// first.
pub proof fn lemma_sort_stable_first_equivalent<T>(s: Seq<T>, le: spec_fn(T, T) -> bool, x: T)
    requires
        total_preorder(le),
    ensures
        first_equivalent(sort_stable(s, le), le, x) == first_equivalent(s, le, x),
    decreases s.len(),
{
    if s.len() > 0 {
        lemma_sort_stable_first_equivalent(s.drop_last(), le, x);
        lemma_insert_stable_first_equivalent(sort_stable(s.drop_last(), le), s.last(), le, x);
    }
}

/// The element at `k`, equivalent to `x` after none before it was, is the
/// first equivalent one.
pub proof fn lemma_first_equivalent_at<T>(s: Seq<T>, le: spec_fn(T, T) -> bool, x: T, k: int)
    requires
        0 <= k < s.len(),
        equivalent(le, s[k], x),
        forall|m: int| 0 <= m < k ==> !equivalent(le, #[trigger] s[m], x),
    ensures
        first_equivalent(s, le, x) == Some(s[k]),
    decreases s.len(),
{
    if k < s.len() - 1 {
        lemma_first_equivalent_at(s.drop_last(), le, x, k);
    } else {
        lemma_first_equivalent_none(s.drop_last(), le, x);
    }
}

proof fn lemma_first_equivalent_none<T>(s: Seq<T>, le: spec_fn(T, T) -> bool, x: T)
    requires
        forall|m: int| 0 <= m < s.len() ==> !equivalent(le, #[trigger] s[m], x),
    ensures
        first_equivalent(s, le, x) is None,
    decreases s.len(),
{
    if s.len() > 0 {
        lemma_first_equivalent_none(s.drop_last(), le, x);
    }
}

/// The first equivalent element sits at some place with none equivalent
/// before it.
pub proof fn lemma_first_equivalent_found<T>(s: Seq<T>, le: spec_fn(T, T) -> bool, x: T)
    requires
        first_equivalent(s, le, x) is Some,
    ensures
        exists|k: int|
            0 <= k < s.len() && #[trigger] s[k] == first_equivalent(s, le, x)->Some_0 && equivalent(le, s[k], x)
                && forall|m: int| 0 <= m < k ==> !equivalent(le, #[trigger] s[m], x),
    decreases s.len(),
{
    let rest = s.drop_last();
    if first_equivalent(rest, le, x) is Some {
        lemma_first_equivalent_found(rest, le, x);
        let k = choose|k: int|
            0 <= k < rest.len() && #[trigger] rest[k] == first_equivalent(rest, le, x)->Some_0 && equivalent(
                le,
                rest[k],
                x,
            ) && forall|m: int| 0 <= m < k ==> !equivalent(le, #[trigger] rest[m], x);
        assert(s[k] == rest[k]);
        assert forall|m: int| 0 <= m < k implies !equivalent(le, #[trigger] s[m], x) by {
            assert(s[m] == rest[m]);
        }
    } else {
        let k = s.len() - 1;
        assert forall|m: int| 0 <= m < k implies !equivalent(le, #[trigger] s[m], x) by {
            assert(s[m] == rest[m]);
            if equivalent(le, rest[m], x) {
                lemma_first_equivalent_some_if(rest, le, x, m);
            }
        }
        assert(s[k] == s.last());
    }
}

proof fn lemma_first_equivalent_some_if<T>(s: Seq<T>, le: spec_fn(T, T) -> bool, x: T, m: int)
    requires
        0 <= m < s.len(),
        equivalent(le, s[m], x),
    ensures
        first_equivalent(s, le, x) is Some,
    decreases s.len(),
{
    if m < s.len() - 1 {
        lemma_first_equivalent_some_if(s.drop_last(), le, x, m);
    }
}

} // verus!
