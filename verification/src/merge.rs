//! Taking the rows of one table into another.
use vstd::prelude::*;
use vstd::string::*;

use crate::group;
use crate::table;
use crate::table::Table;
use crate::text;
use crate::types::{Alike, ExtensionEntry, ExtensionView, Location, LocationView, Replicate};

verus! {

/// Takes the list at `key` out, to be put back by an `insert`.
pub(crate) fn take_list<T: DeepView>(t: &mut Table<Vec<T>>, key: &str) -> (r: Vec<T>)
    requires
        old(t).wf(),
    ensures
        final(t).wf(),
        r.deep_view() == table::list_at(old(t)@, key@),
        forall|v: Seq<T::V>| #[trigger]
            final(t)@.insert(key@, v) == old(t)@.insert(key@, v),
{
    match t.row_of(key) {
        Some(i) => {
            let r = t.swap_value(i, Vec::new());
            proof {
                assert forall|v: Seq<T::V>| #[trigger] t@.insert(key@, v) == old(t)@.insert(
                    key@,
                    v,
                ) by {
                    assert(t@.insert(key@, v) =~= old(t)@.insert(key@, v));
                }
            }
            r
        },
        None => {
            let r: Vec<T> = Vec::new();
            assert(r.deep_view() =~= Seq::empty());
            r
        },
    }
}

/// Appends each list of `from` to the list of the same key in `t`.
pub(crate) fn extend_all<T: Replicate>(t: &mut Table<Vec<T>>, from: &Table<Vec<T>>)
    requires
        old(t).wf(),
        from.wf(),
    ensures
        final(t).wf(),
        final(t)@ == group::merged(old(t)@, from@),
{
    let ghost f = group::append::<T::V>();
    let mut i: usize = 0;
    proof {
        from.lemma_order();
        group::lemma_first_keys(from@, from.order());
        group::lemma_combined_empty(t@, f);
        group::lemma_combined_append(old(t)@, from@);
    }
    while i < from.len()
        invariant
            i <= from.order().len(),
            t.wf(),
            from.wf(),
            f == group::append::<T::V>(),
            t@ == group::combined(old(t)@, group::first_keys(from@, from.order(), i as int), f),
        decreases from.order().len() - i,
    {
        let key = from.key_at(i);
        let items = from.value_at(i).replicate();
        proof {
            from.lemma_order();
            group::lemma_first_keys(from@, from.order());
            group::lemma_combined_insert(
                old(t)@,
                group::first_keys(from@, from.order(), i as int),
                key@,
                from@[key@],
                f,
            );
        }
        t.extend(key, items);
        i += 1;
    }
    proof {
        from.lemma_order();
        group::lemma_first_keys(from@, from.order());
    }
}

/// Appends to `list` the items that it does not hold yet.
pub(crate) fn push_new<T: Alike + Replicate>(list: &mut Vec<T>, items: &Vec<T>)
    ensures
        final(list).deep_view() == group::with_new(old(list).deep_view(), items.deep_view()),
{
    let ghost all = items.deep_view();
    let mut i: usize = 0;
    assert(all.take(0) =~= Seq::empty());
    while i < items.len()
        invariant
            i <= items@.len(),
            all == items.deep_view(),
            list.deep_view() == group::with_new(old(list).deep_view(), all.take(i as int)),
        decreases items@.len() - i,
    {
        let item = &items[i];
        let ghost before = list.deep_view();
        let mut found = false;
        let mut j: usize = 0;
        while j < list.len() && !found
            invariant
                j <= list@.len(),
                before == list.deep_view(),
                item.deep_view() == all[i as int],
                found ==> before.contains(all[i as int]),
                !found ==> forall|k: int| 0 <= k < j ==> before[k] != all[i as int],
            decreases list@.len() - j,
        {
            assert(before[j as int] == list@[j as int].deep_view());
            if list[j].alike(item) {
                found = true;
            }
            j += 1;
        }
        proof {
            assert(all.take(i + 1).drop_last() =~= all.take(i as int));
            assert(all.take(i + 1).last() == all[i as int]);
        }
        if !found {
            list.push(item.replicate());
            assert(list.deep_view() =~= before.push(all[i as int]));
        }
        i += 1;
    }
    assert(all.take(all.len() as int) =~= all);
}

/// Appends to each list of `t` the items of the list of the same key in `from` that it does not
/// hold yet.
pub(crate) fn extend_all_new<T: Alike + Replicate>(t: &mut Table<Vec<T>>, from: &Table<Vec<T>>)
    requires
        old(t).wf(),
        from.wf(),
    ensures
        final(t).wf(),
        final(t)@ == group::combined(old(t)@, from@, group::append_new()),
{
    let ghost f = group::append_new::<T::V>();
    let mut i: usize = 0;
    proof {
        from.lemma_order();
        group::lemma_first_keys(from@, from.order());
        group::lemma_combined_empty(t@, f);
    }
    while i < from.len()
        invariant
            i <= from.order().len(),
            t.wf(),
            from.wf(),
            f == group::append_new::<T::V>(),
            t@ == group::combined(old(t)@, group::first_keys(from@, from.order(), i as int), f),
        decreases from.order().len() - i,
    {
        let key = from.key_at(i);
        proof {
            from.lemma_order();
            group::lemma_first_keys(from@, from.order());
            group::lemma_combined_insert(
                old(t)@,
                group::first_keys(from@, from.order(), i as int),
                key@,
                from@[key@],
                f,
            );
        }
        let mut list = take_list(t, key);
        push_new(&mut list, from.value_at(i));
        t.insert(key, list);
        i += 1;
    }
    proof {
        from.lemma_order();
        group::lemma_first_keys(from@, from.order());
    }
}

/// Enters each row of `from` into `t`, in place of the value that its key had.
pub(crate) fn overwrite_all<T: Replicate>(t: &mut Table<T>, from: &Table<T>)
    requires
        old(t).wf(),
        from.wf(),
    ensures
        final(t).wf(),
        final(t)@ == group::overwritten(old(t)@, from@),
{
    let mut i: usize = 0;
    proof {
        from.lemma_order();
        group::lemma_first_keys(from@, from.order());
        group::lemma_overwritten_insert(t@, Map::empty(), Seq::empty(), from@[Seq::empty()]);
    }
    while i < from.len()
        invariant
            i <= from.order().len(),
            t.wf(),
            from.wf(),
            t@ == group::overwritten(old(t)@, group::first_keys(from@, from.order(), i as int)),
        decreases from.order().len() - i,
    {
        let key = from.key_at(i);
        let value = from.value_at(i).replicate();
        proof {
            from.lemma_order();
            group::lemma_first_keys(from@, from.order());
            group::lemma_overwritten_insert(
                old(t)@,
                group::first_keys(from@, from.order(), i as int),
                key@,
                from@[key@],
            );
        }
        t.insert(key, value);
        i += 1;
    }
    proof {
        from.lemma_order();
        group::lemma_first_keys(from@, from.order());
    }
}

// ---------------------------------------------------------------------------
// Extensions, replaced by file
// ---------------------------------------------------------------------------

/// Whether one of `entries` comes from the file `uri`.
pub open spec fn from_file(entries: Seq<ExtensionView>, uri: Seq<char>) -> bool {
    exists|i: int| 0 <= i < entries.len() && (#[trigger] entries[i]).file_uri == uri
}

/// The entries that come from files other than those of `entries`.
pub open spec fn of_other_files(entries: Seq<ExtensionView>) -> spec_fn(ExtensionView) -> bool {
    |e: ExtensionView| !from_file(entries, e.file_uri)
}

/// `b` in place of what `a` holds from the same files.
pub open spec fn replacing_files() -> group::Combine<ExtensionView> {
    |a: Seq<ExtensionView>, b: Seq<ExtensionView>| a.filter(of_other_files(b)) + b
}

fn is_from_file(entries: &Vec<ExtensionEntry>, uri: &str) -> (r: bool)
    ensures
        r == from_file(entries.deep_view(), uri@),
{
    let ghost all = entries.deep_view();
    let mut i: usize = 0;
    while i < entries.len()
        invariant
            i <= entries@.len(),
            all == entries.deep_view(),
            forall|k: int| 0 <= k < i ==> (#[trigger] all[k]).file_uri != uri@,
        decreases entries@.len() - i,
    {
        assert(all[i as int] == entries@[i as int].deep_view());
        if text::same(entries[i].file_uri.as_str(), uri) {
            return true;
        }
        i += 1;
    }
    false
}

/// Puts `entries` in place of what `list` holds from the same files.
fn replace_files(list: &Vec<ExtensionEntry>, entries: &Vec<ExtensionEntry>) -> (r: Vec<
    ExtensionEntry,
>)
    ensures
        r.deep_view() == replacing_files()(list.deep_view(), entries.deep_view()),
{
    let ghost all = list.deep_view();
    let ghost p = of_other_files(entries.deep_view());
    let mut out: Vec<ExtensionEntry> = Vec::new();
    let mut i: usize = 0;
    proof {
        reveal(Seq::filter);
        assert(out.deep_view() =~= all.take(0).filter(p));
    }
    while i < list.len()
        invariant
            i <= list@.len(),
            all == list.deep_view(),
            p == of_other_files(entries.deep_view()),
            out.deep_view() == all.take(i as int).filter(p),
        decreases list@.len() - i,
    {
        let ghost before = out.deep_view();
        proof {
            assert(all[i as int] == list@[i as int].deep_view());
            assert(all.take(i as int).push(all[i as int]) =~= all.take(i + 1));
            all.take(i as int).lemma_filter_push(all[i as int], p);
        }
        if !is_from_file(entries, list[i].file_uri.as_str()) {
            out.push(list[i].replicate());
            assert(out.deep_view() =~= before.push(all[i as int]));
        }
        i += 1;
    }
    let ghost kept = out.deep_view();
    assert(all.take(all.len() as int) =~= all);
    let mut rest = entries.replicate();
    out.append(&mut rest);
    assert(out.deep_view() =~= kept + entries.deep_view());
    out
}

/// Puts the lists of `from` in place of what the lists of `t` hold from the same files.
pub(crate) fn replace_all_files(
    t: &mut Table<Vec<ExtensionEntry>>,
    from: &Table<Vec<ExtensionEntry>>,
)
    requires
        old(t).wf(),
        from.wf(),
    ensures
        final(t).wf(),
        final(t)@ == group::combined(old(t)@, from@, replacing_files()),
{
    let ghost f = replacing_files();
    let mut i: usize = 0;
    proof {
        from.lemma_order();
        group::lemma_first_keys(from@, from.order());
        group::lemma_combined_empty(t@, f);
    }
    while i < from.len()
        invariant
            i <= from.order().len(),
            t.wf(),
            from.wf(),
            f == replacing_files(),
            t@ == group::combined(old(t)@, group::first_keys(from@, from.order(), i as int), f),
        decreases from.order().len() - i,
    {
        let key = from.key_at(i);
        proof {
            from.lemma_order();
            group::lemma_first_keys(from@, from.order());
            group::lemma_combined_insert(
                old(t)@,
                group::first_keys(from@, from.order(), i as int),
                key@,
                from@[key@],
                f,
            );
        }
        let list = take_list(t, key);
        let replaced = replace_files(&list, from.value_at(i));
        t.insert(key, replaced);
        i += 1;
    }
    proof {
        from.lemma_order();
        group::lemma_first_keys(from@, from.order());
    }
}

// ---------------------------------------------------------------------------
// Dropping what a file entered
// ---------------------------------------------------------------------------

/// The locations outside the document `uri`.
pub open spec fn outside(uri: Seq<char>) -> spec_fn(LocationView) -> bool {
    |l: LocationView| l.uri != uri
}

/// The strings other than `s`.
pub open spec fn other_names(s: Seq<char>) -> spec_fn(Seq<char>) -> bool {
    |n: Seq<char>| n != s
}

/// The extensions of files other than `uri`.
pub open spec fn of_others(uri: Seq<char>) -> spec_fn(ExtensionView) -> bool {
    |e: ExtensionView| e.file_uri != uri
}

/// Keeps the locations outside the document `uri`.
pub(crate) fn drop_locations(list: &Vec<Location>, uri: &str) -> (r: Vec<Location>)
    ensures
        r.deep_view() == list.deep_view().filter(outside(uri@)),
{
    let ghost all = list.deep_view();
    let ghost p = outside(uri@);
    let mut out: Vec<Location> = Vec::new();
    let mut i: usize = 0;
    proof {
        reveal(Seq::filter);
        assert(out.deep_view() =~= all.take(0).filter(p));
    }
    while i < list.len()
        invariant
            i <= list@.len(),
            all == list.deep_view(),
            p == outside(uri@),
            out.deep_view() == all.take(i as int).filter(p),
        decreases list@.len() - i,
    {
        let ghost before = out.deep_view();
        proof {
            assert(all[i as int] == list@[i as int].deep_view());
            assert(all.take(i as int).push(all[i as int]) =~= all.take(i + 1));
            all.take(i as int).lemma_filter_push(all[i as int], p);
        }
        if !text::same(list[i].uri.as_str(), uri) {
            out.push(list[i].replicate());
            assert(out.deep_view() =~= before.push(all[i as int]));
        }
        i += 1;
    }
    assert(all.take(all.len() as int) =~= all);
    out
}

/// Keeps the strings other than `name`.
pub(crate) fn drop_name(list: &Vec<String>, name: &str) -> (r: Vec<String>)
    ensures
        r.deep_view() == list.deep_view().filter(other_names(name@)),
{
    let ghost all = list.deep_view();
    let ghost p = other_names(name@);
    let mut out: Vec<String> = Vec::new();
    let mut i: usize = 0;
    proof {
        reveal(Seq::filter);
        assert(out.deep_view() =~= all.take(0).filter(p));
    }
    while i < list.len()
        invariant
            i <= list@.len(),
            all == list.deep_view(),
            p == other_names(name@),
            out.deep_view() == all.take(i as int).filter(p),
        decreases list@.len() - i,
    {
        let ghost before = out.deep_view();
        proof {
            assert(all[i as int] == list@[i as int].deep_view());
            assert(all.take(i as int).push(all[i as int]) =~= all.take(i + 1));
            all.take(i as int).lemma_filter_push(all[i as int], p);
        }
        if !text::same(list[i].as_str(), name) {
            out.push(list[i].clone());
            assert(out.deep_view() =~= before.push(all[i as int]));
        }
        i += 1;
    }
    assert(all.take(all.len() as int) =~= all);
    out
}

/// Keeps the extensions of files other than `uri`.
pub(crate) fn drop_extensions(list: &Vec<ExtensionEntry>, uri: &str) -> (r: Vec<ExtensionEntry>)
    ensures
        r.deep_view() == list.deep_view().filter(of_others(uri@)),
{
    let ghost all = list.deep_view();
    let ghost p = of_others(uri@);
    let mut out: Vec<ExtensionEntry> = Vec::new();
    let mut i: usize = 0;
    proof {
        reveal(Seq::filter);
        assert(out.deep_view() =~= all.take(0).filter(p));
    }
    while i < list.len()
        invariant
            i <= list@.len(),
            all == list.deep_view(),
            p == of_others(uri@),
            out.deep_view() == all.take(i as int).filter(p),
        decreases list@.len() - i,
    {
        let ghost before = out.deep_view();
        proof {
            assert(all[i as int] == list@[i as int].deep_view());
            assert(all.take(i as int).push(all[i as int]) =~= all.take(i + 1));
            all.take(i as int).lemma_filter_push(all[i as int], p);
        }
        if !text::same(list[i].file_uri.as_str(), uri) {
            out.push(list[i].replicate());
            assert(out.deep_view() =~= before.push(all[i as int]));
        }
        i += 1;
    }
    assert(all.take(all.len() as int) =~= all);
    out
}

/// `m`, each of whose lists keeps the items of `p`.
pub open spec fn all_kept<B>(m: Map<Seq<char>, Seq<B>>, p: spec_fn(B) -> bool) -> Map<
    Seq<char>,
    Seq<B>,
> {
    Map::new(|k: Seq<char>| m.dom().contains(k), |k: Seq<char>| m[k].filter(p))
}

/// `m`, whose lists at the keys of `keys` keep the items of `p`.
pub open spec fn kept_at<B>(
    m: Map<Seq<char>, Seq<B>>,
    keys: Seq<Seq<char>>,
    p: spec_fn(B) -> bool,
) -> Map<Seq<char>, Seq<B>> {
    Map::new(
        |k: Seq<char>| m.dom().contains(k),
        |k: Seq<char>| if keys.contains(k) {
            m[k].filter(p)
        } else {
            m[k]
        },
    )
}

/// Filtering a list twice is filtering it once.
pub proof fn lemma_filter_twice<B>(s: Seq<B>, p: spec_fn(B) -> bool)
    ensures
        s.filter(p).filter(p) == s.filter(p),
    decreases s.len(),
{
    reveal(Seq::filter);
    if s.len() > 0 {
        lemma_filter_twice(s.drop_last(), p);
        let t = s.drop_last().filter(p);
        if p(s.last()) {
            t.lemma_filter_push(s.last(), p);
        }
    }
}

proof fn lemma_kept_at_push<B>(
    m: Map<Seq<char>, Seq<B>>,
    keys: Seq<Seq<char>>,
    k: Seq<char>,
    p: spec_fn(B) -> bool,
)
    ensures
        !m.dom().contains(k) ==> kept_at(m, keys.push(k), p) == kept_at(m, keys, p),
        m.dom().contains(k) ==> kept_at(m, keys.push(k), p) == kept_at(m, keys, p).insert(
            k,
            kept_at(m, keys, p)[k].filter(p),
        ),
{
    let next = keys.push(k);
    assert forall|x: Seq<char>| next.contains(x) == (keys.contains(x) || x == k) by {
        if keys.contains(x) {
            let j = choose|j: int| 0 <= j < keys.len() && keys[j] == x;
            assert(next[j] == x);
        }
        assert(next[keys.len() as int] == k);
        if next.contains(x) {
            let j = choose|j: int| 0 <= j < next.len() && next[j] == x;
            if j < keys.len() {
                assert(keys[j] == x);
            }
        }
    }
    if m.dom().contains(k) {
        lemma_filter_twice(m[k], p);
        assert(kept_at(m, next, p) =~= kept_at(m, keys, p).insert(
            k,
            kept_at(m, keys, p)[k].filter(p),
        ));
    } else {
        assert(kept_at(m, next, p) =~= kept_at(m, keys, p));
    }
}

/// Drops the document `uri` from the lists at `keys`.
pub(crate) fn drop_locations_at(t: &mut Table<Vec<Location>>, keys: &Vec<String>, uri: &str)
    requires
        old(t).wf(),
    ensures
        final(t).wf(),
        final(t)@ == kept_at(old(t)@, keys.deep_view(), outside(uri@)),
{
    let ghost all = keys.deep_view();
    let ghost p = outside(uri@);
    let mut i: usize = 0;
    assert(t@ =~= kept_at(old(t)@, all.take(0), p));
    while i < keys.len()
        invariant
            i <= keys@.len(),
            t.wf(),
            all == keys.deep_view(),
            p == outside(uri@),
            t@ == kept_at(old(t)@, all.take(i as int), p),
        decreases keys@.len() - i,
    {
        let name = keys[i].as_str();
        proof {
            assert(all[i as int] == name@);
            assert(all.take(i as int).push(name@) =~= all.take(i + 1));
            lemma_kept_at_push(old(t)@, all.take(i as int), name@, p);
        }
        match t.row_of(name) {
            Some(row) => {
                let kept = drop_locations(t.value_at(row), uri);
                t.swap_value(row, kept);
            },
            None => {},
        }
        i += 1;
    }
    assert(all.take(all.len() as int) =~= all);
}

/// Drops the document `uri` from every list.
pub(crate) fn drop_locations_everywhere(t: &mut Table<Vec<Location>>, uri: &str)
    requires
        old(t).wf(),
    ensures
        final(t).wf(),
        final(t)@ == all_kept(old(t)@, outside(uri@)),
{
    let ghost order = t.order();
    let ghost p = outside(uri@);
    let n: usize = t.len();
    let mut i: usize = 0;
    assert(t@ =~= kept_at(old(t)@, order.take(0), p));
    while i < n
        invariant
            i <= n == order.len(),
            t.wf(),
            t.order() == order,
            p == outside(uri@),
            t@ == kept_at(old(t)@, order.take(i as int), p),
        decreases n - i,
    {
        let kept = drop_locations(t.value_at(i), uri);
        proof {
            assert(order.take(i as int).push(order[i as int]) =~= order.take(i + 1));
            lemma_kept_at_push(old(t)@, order.take(i as int), order[i as int], p);
        }
        t.swap_value(i, kept);
        i += 1;
    }
    proof {
        assert(order.take(n as int) =~= order);
        old(t).lemma_order();
        assert(t@ =~= all_kept(old(t)@, p));
    }
}

/// Drops the file `uri` from every list.
pub(crate) fn drop_extensions_everywhere(t: &mut Table<Vec<ExtensionEntry>>, uri: &str)
    requires
        old(t).wf(),
    ensures
        final(t).wf(),
        final(t)@ == all_kept(old(t)@, of_others(uri@)),
{
    let ghost order = t.order();
    let ghost p = of_others(uri@);
    let n: usize = t.len();
    let mut i: usize = 0;
    assert(t@ =~= kept_at(old(t)@, order.take(0), p));
    while i < n
        invariant
            i <= n == order.len(),
            t.wf(),
            t.order() == order,
            p == of_others(uri@),
            t@ == kept_at(old(t)@, order.take(i as int), p),
        decreases n - i,
    {
        let kept = drop_extensions(t.value_at(i), uri);
        proof {
            assert(order.take(i as int).push(order[i as int]) =~= order.take(i + 1));
            lemma_kept_at_push(old(t)@, order.take(i as int), order[i as int], p);
        }
        t.swap_value(i, kept);
        i += 1;
    }
    proof {
        assert(order.take(n as int) =~= order);
        old(t).lemma_order();
        assert(t@ =~= all_kept(old(t)@, p));
    }
}

/// `m` without the keys of `keys`.
pub open spec fn without_keys<B>(m: Map<Seq<char>, B>, keys: Seq<Seq<char>>) -> Map<Seq<char>, B> {
    m.remove_keys(keys.to_set())
}

/// Takes the keys `keys` out of `t`.
pub(crate) fn remove_keys(t: &mut Table<Location>, keys: &Vec<String>)
    requires
        old(t).wf(),
    ensures
        final(t).wf(),
        final(t)@ == without_keys(old(t)@, keys.deep_view()),
{
    let ghost all = keys.deep_view();
    let mut i: usize = 0;
    assert(t@ =~= without_keys(old(t)@, all.take(0)));
    while i < keys.len()
        invariant
            i <= keys@.len(),
            t.wf(),
            all == keys.deep_view(),
            t@ == without_keys(old(t)@, all.take(i as int)),
        decreases keys@.len() - i,
    {
        let key = keys[i].as_str();
        t.remove(key);
        proof {
            assert(all[i as int] == key@);
            let a = all.take(i as int);
            let b = all.take(i + 1);
            assert(b =~= a.push(key@));
            assert forall|k: Seq<char>| b.contains(k) == (a.contains(k) || k == key@) by {
                if a.contains(k) {
                    let j = choose|j: int| 0 <= j < a.len() && a[j] == k;
                    assert(b[j] == k);
                }
                assert(b[i as int] == key@);
                if b.contains(k) {
                    let j = choose|j: int| 0 <= j < b.len() && b[j] == k;
                    if j < i {
                        assert(a[j] == k);
                    }
                }
            }
            assert(t@ =~= without_keys(old(t)@, b));
        }
        i += 1;
    }
    assert(all.take(all.len() as int) =~= all);
}

} // verus!
