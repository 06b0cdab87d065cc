//! Grouping a sequence by key, and merging tables of lists.
use vstd::prelude::*;

use crate::table;

verus! {

/// How the items of a sequence are sorted into lists: which items count, the key of each, and
/// what is listed for it.
#[verifier::reject_recursive_types(A)]
pub struct Grouping<A, B> {
    pub keep: spec_fn(A) -> bool,
    pub key: spec_fn(A) -> Seq<char>,
    pub value: spec_fn(A) -> B,
}

/// The items that are kept under the key `k`.
pub open spec fn in_group<A, B>(g: Grouping<A, B>, k: Seq<char>) -> spec_fn(A) -> bool {
    |a: A| (g.keep)(a) && (g.key)(a) == k
}

/// What is listed for the items of `s` that are kept under the key `k`, in their order.
pub open spec fn group_at<A, B>(s: Seq<A>, g: Grouping<A, B>, k: Seq<char>) -> Seq<B> {
    s.filter(in_group(g, k)).map_values(g.value)
}

/// Whether some item of `s` is kept under the key `k`.
pub open spec fn has_group<A, B>(s: Seq<A>, g: Grouping<A, B>, k: Seq<char>) -> bool {
    exists|i: int| 0 <= i < s.len() && (g.keep)(#[trigger] s[i]) && (g.key)(s[i]) == k
}

/// The lists of the items of `s`, by key.
pub open spec fn grouped<A, B>(s: Seq<A>, g: Grouping<A, B>) -> Map<Seq<char>, Seq<B>> {
    Map::new(|k: Seq<char>| has_group(s, g, k), |k: Seq<char>| group_at(s, g, k))
}

/// One more item extends its own list and leaves the others.
pub proof fn lemma_grouped_push<A, B>(s: Seq<A>, a: A, g: Grouping<A, B>)
    ensures
        grouped(s.push(a), g) == (if (g.keep)(a) {
            grouped(s, g).insert(
                (g.key)(a),
                table::list_at(grouped(s, g), (g.key)(a)).push((g.value)(a)),
            )
        } else {
            grouped(s, g)
        }),
{
    let t = s.push(a);
    assert forall|k: Seq<char>| group_at(t, g, k) == (if (g.keep)(a) && (g.key)(a) == k {
        group_at(s, g, k).push((g.value)(a))
    } else {
        group_at(s, g, k)
    }) by {
        let p = in_group(g, k);
        s.lemma_filter_push(a, p);
        if p(a) {
            assert(t.filter(p) =~= s.filter(p).push(a));
            assert(s.filter(p).push(a).map_values(g.value) =~= s.filter(p).map_values(g.value).push(
                (g.value)(a),
            ));
        } else {
            assert(t.filter(p) =~= s.filter(p));
        }
    }
    assert forall|k: Seq<char>| has_group(t, g, k) == (has_group(s, g, k) || ((g.keep)(a) && (g.key)(
        a,
    ) == k)) by {
        if has_group(s, g, k) {
            let i = choose|i: int|
                0 <= i < s.len() && (g.keep)(#[trigger] s[i]) && (g.key)(s[i]) == k;
            assert(t[i] == s[i]);
        }
        if (g.keep)(a) && (g.key)(a) == k {
            assert(t[s.len() as int] == a);
        }
        if has_group(t, g, k) {
            let i = choose|i: int|
                0 <= i < t.len() && (g.keep)(#[trigger] t[i]) && (g.key)(t[i]) == k;
            if i < s.len() {
                assert(s[i] == t[i]);
            }
        }
    }
    assert forall|k: Seq<char>| !has_group(s, g, k) implies group_at(s, g, k) == Seq::<B>::empty() by {
        lemma_no_group(s, g, k);
    }
    if (g.keep)(a) {
        let want = grouped(s, g).insert(
            (g.key)(a),
            table::list_at(grouped(s, g), (g.key)(a)).push((g.value)(a)),
        );
        assert(grouped(t, g) =~= want);
    } else {
        assert(grouped(t, g) =~= grouped(s, g));
    }
}

/// Where no item is kept under a key, its list is empty.
pub proof fn lemma_no_group<A, B>(s: Seq<A>, g: Grouping<A, B>, k: Seq<char>)
    requires
        !has_group(s, g, k),
    ensures
        group_at(s, g, k) == Seq::<B>::empty(),
    decreases s.len(),
{
    let p = in_group(g, k);
    if s.len() > 0 {
        let t = s.drop_last();
        if has_group(t, g, k) {
            let i = choose|i: int|
                0 <= i < t.len() && (g.keep)(#[trigger] t[i]) && (g.key)(t[i]) == k;
            assert(s[i] == t[i]);
        }
        lemma_no_group(t, g, k);
        assert(s =~= t.push(s.last()));
        t.lemma_filter_push(s.last(), p);
        assert(s[s.len() - 1] == s.last());
        assert(s.filter(p) =~= t.filter(p));
        assert(t.filter(p).map_values(g.value).len() == 0);
    }
    assert(s.filter(p).len() == 0) by {
        reveal(Seq::filter);
    }
    assert(group_at(s, g, k) =~= Seq::<B>::empty());
}

/// No items make no lists.
pub proof fn lemma_grouped_empty<A, B>(s: Seq<A>, g: Grouping<A, B>)
    requires
        s.len() == 0,
    ensures
        grouped(s, g) == Map::<Seq<char>, Seq<B>>::empty(),
{
    assert(grouped(s, g) =~= Map::<Seq<char>, Seq<B>>::empty());
}

/// Each list of `a` followed by the list that `b` has at the same key.
pub open spec fn merged<B>(a: Map<Seq<char>, Seq<B>>, b: Map<Seq<char>, Seq<B>>) -> Map<
    Seq<char>,
    Seq<B>,
> {
    Map::new(
        |k: Seq<char>| a.dom().contains(k) || b.dom().contains(k),
        |k: Seq<char>| table::list_at(a, k) + table::list_at(b, k),
    )
}

/// Merging in nothing changes nothing.
pub proof fn lemma_merged_empty<B>(a: Map<Seq<char>, Seq<B>>)
    ensures
        merged(a, Map::<Seq<char>, Seq<B>>::empty()) == a,
        merged(Map::<Seq<char>, Seq<B>>::empty(), a) == a,
{
    assert forall|k: Seq<char>| a.dom().contains(k) implies a[k] + Seq::<B>::empty() == a[k]
        && Seq::<B>::empty() + a[k] == a[k] by {
        assert(a[k] + Seq::<B>::empty() =~= a[k]);
        assert(Seq::<B>::empty() + a[k] =~= a[k]);
    }
    assert(merged(a, Map::<Seq<char>, Seq<B>>::empty()) =~= a);
    assert(merged(Map::<Seq<char>, Seq<B>>::empty(), a) =~= a);
}

/// Merging in one more item of a list is appending it.
pub proof fn lemma_merged_insert<B>(
    a: Map<Seq<char>, Seq<B>>,
    b: Map<Seq<char>, Seq<B>>,
    k: Seq<char>,
    v: B,
)
    ensures
        merged(a, b.insert(k, table::list_at(b, k).push(v))) == merged(a, b).insert(
            k,
            table::list_at(merged(a, b), k).push(v),
        ),
{
    let l = merged(a, b.insert(k, table::list_at(b, k).push(v)));
    let r = merged(a, b).insert(k, table::list_at(merged(a, b), k).push(v));
    assert(table::list_at(a, k) + table::list_at(b, k).push(v) =~= (table::list_at(a, k)
        + table::list_at(b, k)).push(v));
    assert(table::list_at(merged(a, b), k) =~= table::list_at(a, k) + table::list_at(b, k));
    assert(l =~= r);
}

/// The map that gives each key the value of its last pair.
pub open spec fn last_wins<B>(pairs: Seq<(Seq<char>, B)>) -> Map<Seq<char>, B>
    decreases pairs.len(),
{
    if pairs.len() == 0 {
        Map::empty()
    } else {
        last_wins(pairs.drop_last()).insert(pairs.last().0, pairs.last().1)
    }
}

/// `a` with the values that `b` has in place of its own.
pub open spec fn overwritten<B>(a: Map<Seq<char>, B>, b: Map<Seq<char>, B>) -> Map<Seq<char>, B> {
    a.union_prefer_right(b)
}

pub proof fn lemma_overwritten_insert<B>(
    a: Map<Seq<char>, B>,
    b: Map<Seq<char>, B>,
    k: Seq<char>,
    v: B,
)
    ensures
        overwritten(a, b.insert(k, v)) == overwritten(a, b).insert(k, v),
        overwritten(a, Map::<Seq<char>, B>::empty()) == a,
{
    assert(overwritten(a, b.insert(k, v)) =~= overwritten(a, b).insert(k, v));
    assert(overwritten(a, Map::<Seq<char>, B>::empty()) =~= a);
}

/// How a list of a table takes in a list of the same key.
pub type Combine<B> = spec_fn(Seq<B>, Seq<B>) -> Seq<B>;

/// `a`, each of whose lists has taken in the list that `b` has at the same key.
pub open spec fn combined<B>(
    a: Map<Seq<char>, Seq<B>>,
    b: Map<Seq<char>, Seq<B>>,
    f: Combine<B>,
) -> Map<Seq<char>, Seq<B>> {
    Map::new(
        |k: Seq<char>| a.dom().contains(k) || b.dom().contains(k),
        |k: Seq<char>| if b.dom().contains(k) {
            f(table::list_at(a, k), b[k])
        } else {
            a[k]
        },
    )
}

/// Taking in one more key touches that key alone.
pub proof fn lemma_combined_insert<B>(
    a: Map<Seq<char>, Seq<B>>,
    b: Map<Seq<char>, Seq<B>>,
    k: Seq<char>,
    v: Seq<B>,
    f: Combine<B>,
)
    requires
        !b.dom().contains(k),
    ensures
        combined(a, b.insert(k, v), f) == combined(a, b, f).insert(k, f(table::list_at(a, k), v)),
        table::list_at(combined(a, b, f), k) == table::list_at(a, k),
{
    assert(combined(a, b.insert(k, v), f) =~= combined(a, b, f).insert(
        k,
        f(table::list_at(a, k), v),
    ));
}

pub proof fn lemma_combined_empty<B>(a: Map<Seq<char>, Seq<B>>, f: Combine<B>)
    ensures
        combined(a, Map::<Seq<char>, Seq<B>>::empty(), f) == a,
{
    assert(combined(a, Map::<Seq<char>, Seq<B>>::empty(), f) =~= a);
}

/// Appending.
pub open spec fn append<B>() -> Combine<B> {
    |a: Seq<B>, b: Seq<B>| a + b
}

/// Taking lists in by appending is merging.
pub proof fn lemma_combined_append<B>(a: Map<Seq<char>, Seq<B>>, b: Map<Seq<char>, Seq<B>>)
    ensures
        combined(a, b, append()) == merged(a, b),
{
    assert forall|k: Seq<char>| a.dom().contains(k) && !b.dom().contains(k) implies a[k]
        + Seq::<B>::empty() == a[k] by {
        assert(a[k] + Seq::<B>::empty() =~= a[k]);
    }
    assert(combined(a, b, append()) =~= merged(a, b));
}

/// `list` followed by the items that it does not hold yet, each once.
pub open spec fn with_new<B>(list: Seq<B>, items: Seq<B>) -> Seq<B>
    decreases items.len(),
{
    if items.len() == 0 {
        list
    } else {
        let before = with_new(list, items.drop_last());
        if before.contains(items.last()) {
            before
        } else {
            before.push(items.last())
        }
    }
}

/// Appending the items that are new.
pub open spec fn append_new<B>() -> Combine<B> {
    |a: Seq<B>, b: Seq<B>| with_new(a, b)
}

/// The keys of `m` among the first `n` of `order`.
pub open spec fn first_keys<B>(m: Map<Seq<char>, B>, order: Seq<Seq<char>>, n: int) -> Map<
    Seq<char>,
    B,
> {
    m.restrict(order.take(n).to_set())
}

/// Walking the keys of a table one by one reaches each once.
pub proof fn lemma_first_keys<B>(m: Map<Seq<char>, B>, order: Seq<Seq<char>>)
    requires
        order.no_duplicates(),
        forall|i: int| 0 <= i < order.len() ==> m.dom().contains(#[trigger] order[i]),
        forall|k: Seq<char>| #[trigger] m.dom().contains(k) ==> order.contains(k),
    ensures
        first_keys(m, order, 0) == Map::<Seq<char>, B>::empty(),
        first_keys(m, order, order.len() as int) == m,
        forall|n: int|
            0 <= n < order.len() ==> {
                &&& !(#[trigger] first_keys(m, order, n)).dom().contains(order[n])
                &&& first_keys(m, order, n + 1) == first_keys(m, order, n).insert(
                    order[n],
                    m[order[n]],
                )
            },
{
    assert(first_keys(m, order, 0) =~= Map::<Seq<char>, B>::empty());
    assert(order.take(order.len() as int) =~= order);
    assert forall|k: Seq<char>| m.dom().contains(k) implies order.to_set().contains(k) by {
        assert(order.contains(k));
    }
    assert(first_keys(m, order, order.len() as int) =~= m);
    assert forall|n: int| 0 <= n < order.len() implies {
        &&& !(#[trigger] first_keys(m, order, n)).dom().contains(order[n])
        &&& first_keys(m, order, n + 1) == first_keys(m, order, n).insert(order[n], m[order[n]])
    } by {
        let a = order.take(n);
        let b = order.take(n + 1);
        if a.contains(order[n]) {
            let j = choose|j: int| 0 <= j < a.len() && a[j] == order[n];
            assert(order[j] == order[n]);
        }
        assert(b =~= a.push(order[n]));
        assert forall|k: Seq<char>| b.contains(k) == (a.contains(k) || k == order[n]) by {
            if a.contains(k) {
                let j = choose|j: int| 0 <= j < a.len() && a[j] == k;
                assert(b[j] == k);
            }
            assert(b[n] == order[n]);
            if b.contains(k) {
                let j = choose|j: int| 0 <= j < b.len() && b[j] == k;
                if j < n {
                    assert(a[j] == k);
                }
            }
        }
        assert(first_keys(m, order, n + 1) =~= first_keys(m, order, n).insert(
            order[n],
            m[order[n]],
        ));
    }
}

} // verus!
