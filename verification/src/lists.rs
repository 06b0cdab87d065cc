//! Searching lists.
use vstd::multiset::Multiset;
use vstd::prelude::*;

verus! {

/// The position of the first item of a kind.
pub open spec fn first_where<T>(s: Seq<T>, p: spec_fn(T) -> bool) -> Option<int>
    decreases s.len(),
{
    if s.len() == 0 {
        None
    } else if p(s[0]) {
        Some(0)
    } else {
        match first_where(s.skip(1), p) {
            Some(i) => Some(i + 1),
            None => None,
        }
    }
}

/// The first item of a kind.
pub open spec fn find_where<T>(s: Seq<T>, p: spec_fn(T) -> bool) -> Option<T> {
    match first_where(s, p) {
        Some(i) => Some(s[i]),
        None => None,
    }
}

/// An item of a kind that no other item of the kind precedes is the first.
pub proof fn lemma_first<T>(s: Seq<T>, p: spec_fn(T) -> bool, i: int)
    requires
        0 <= i < s.len(),
        p(s[i]),
        forall|k: int| 0 <= k < i ==> !p(#[trigger] s[k]),
    ensures
        first_where(s, p) == Some(i),
    decreases s.len(),
{
    if i > 0 {
        let t = s.skip(1);
        assert(!p(s[0]));
        assert forall|k: int| 0 <= k < i - 1 implies !p(#[trigger] t[k]) by {
            assert(t[k] == s[k + 1]);
        }
        assert(t[i - 1] == s[i]);
        lemma_first(t, p, i - 1);
    }
}

/// Where no item is of a kind there is no first.
pub proof fn lemma_no_first<T>(s: Seq<T>, p: spec_fn(T) -> bool)
    requires
        forall|k: int| 0 <= k < s.len() ==> !p(#[trigger] s[k]),
    ensures
        first_where(s, p) is None,
    decreases s.len(),
{
    if s.len() > 0 {
        let t = s.skip(1);
        assert forall|k: int| 0 <= k < t.len() implies !p(#[trigger] t[k]) by {
            assert(t[k] == s[k + 1]);
        }
        lemma_no_first(t, p);
    }
}

/// The first item of a kind is of that kind, and no other precedes it.
pub proof fn lemma_first_is<T>(s: Seq<T>, p: spec_fn(T) -> bool)
    ensures
        match first_where(s, p) {
            Some(i) => 0 <= i < s.len() && p(s[i]) && forall|k: int|
                0 <= k < i ==> !p(#[trigger] s[k]),
            None => forall|k: int| 0 <= k < s.len() ==> !p(#[trigger] s[k]),
        },
    decreases s.len(),
{
    if s.len() > 0 && !p(s[0]) {
        let t = s.skip(1);
        lemma_first_is(t, p);
        match first_where(t, p) {
            Some(j) => {
                assert forall|k: int| 0 <= k < j + 1 implies !p(#[trigger] s[k]) by {
                    if k > 0 {
                        assert(t[k - 1] == s[k]);
                    }
                }
                assert(t[j] == s[j + 1]);
            },
            None => {
                assert forall|k: int| 0 <= k < s.len() implies !p(#[trigger] s[k]) by {
                    if k > 0 {
                        assert(t[k - 1] == s[k]);
                    }
                }
            },
        }
    }
}

/// A list with one more item has that item once more.
pub proof fn lemma_insert_counts<T>(s: Seq<T>, i: int, item: T)
    requires
        0 <= i <= s.len(),
    ensures
        s.insert(i, item).to_multiset() == s.to_multiset().insert(item),
{
    let t = s.insert(i, item);
    assert(t.remove(i) =~= s);
    t.to_multiset_ensures();
    assert(t[i] == item);
    assert(t.contains(item));
    assert(t.to_multiset() =~= s.to_multiset().insert(item)) by {
        assert(s.to_multiset() == t.to_multiset().remove(item));
        assert forall|x: T| t.to_multiset().count(x) == s.to_multiset().insert(item).count(x) by {}
    }
}

/// What a filter keeps: the items that it is meant to keep.
pub proof fn lemma_filter_holds<B>(s: Seq<B>, p: spec_fn(B) -> bool)
    ensures
        forall|x: B| #[trigger] s.filter(p).contains(x) == (s.contains(x) && p(x)),
{
    assert forall|x: B| #[trigger] s.filter(p).contains(x) == (s.contains(x) && p(x)) by {
        if s.contains(x) && p(x) {
            let i = choose|i: int| 0 <= i < s.len() && s[i] == x;
            s.lemma_filter_contains(p, i);
        }
        if s.filter(p).contains(x) {
            s.lemma_filter_contains_rev(p, x);
            let i = choose|i: int| 0 <= i < s.filter(p).len() && s.filter(p)[i] == x;
            s.lemma_filter_pred(p, i);
        }
    }
}

} // verus!
