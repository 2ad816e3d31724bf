//! Picking an element out of a sequence: the first that satisfies a test.

use vstd::prelude::*;

verus! {

/// The position of the first element satisfying `p`, if any does.
pub open spec fn first_where<T>(s: Seq<T>, p: spec_fn(T) -> bool) -> Option<int> {
    if exists|i: int| 0 <= i < s.len() && #[trigger] p(s[i]) {
        Some(
            choose|i: int|
                0 <= i < s.len() && #[trigger] p(s[i]) && forall|j: int| 0 <= j < i ==> !p(#[trigger] s[j]),
        )
    } else {
        None
    }
}

/// An element that satisfies `p` after none did is the first.
pub proof fn lemma_first_where_at<T>(s: Seq<T>, p: spec_fn(T) -> bool, i: int)
    requires
        0 <= i < s.len(),
        p(s[i]),
        forall|j: int| 0 <= j < i ==> !p(#[trigger] s[j]),
    ensures
        first_where(s, p) == Some(i),
{
    assert(0 <= i < s.len() && p(s[i]) && forall|j: int| 0 <= j < i ==> !p(#[trigger] s[j]));
    let w = choose|w: int|
        0 <= w < s.len() && #[trigger] p(s[w]) && forall|j: int| 0 <= j < w ==> !p(#[trigger] s[j]);
    assert(w == i) by {
        if w < i {
            assert(!p(s[w]));
        }
        if w > i {
            assert(!p(s[i]));
        }
    }
}

/// No element satisfies `p`.
pub proof fn lemma_first_where_none<T>(s: Seq<T>, p: spec_fn(T) -> bool)
    requires
        forall|j: int| 0 <= j < s.len() ==> !p(#[trigger] s[j]),
    ensures
        first_where(s, p) is None,
{
}

/// What `first_where` picks satisfies the test, after none did.
pub proof fn lemma_first_where_some<T>(s: Seq<T>, p: spec_fn(T) -> bool)
    requires
        first_where(s, p) is Some,
    ensures
        first_where(s, p) matches Some(i) && 0 <= i < s.len() && p(s[i]) && forall|j: int|
            0 <= j < i ==> !p(#[trigger] s[j]),
{
    let k = choose|i: int| 0 <= i < s.len() && #[trigger] p(s[i]);
    lemma_first_where_min(s, p, k);
}

proof fn lemma_first_where_min<T>(s: Seq<T>, p: spec_fn(T) -> bool, k: int)
    requires
        0 <= k < s.len(),
        p(s[k]),
    ensures
        first_where(s, p) matches Some(i) && 0 <= i < s.len() && p(s[i]) && forall|j: int|
            0 <= j < i ==> !p(#[trigger] s[j]),
    decreases k,
{
    if exists|j: int| 0 <= j < k && #[trigger] p(s[j]) {
        let j = choose|j: int| 0 <= j < k && #[trigger] p(s[j]);
        lemma_first_where_min(s, p, j);
    } else {
        lemma_first_where_at(s, p, k);
    }
}

} // verus!
