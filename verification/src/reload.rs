//! Libraries that come as sources, entered a second time.
use vstd::prelude::*;

use crate::apply;
use crate::contributions;
use crate::contributions::ContributionsView;
use crate::group;
use crate::index::IndexView;
use crate::jar_index;
use crate::laws;
use crate::lists;
use crate::merge;
use crate::sources_jar;
use crate::table;
use crate::types::{ExtensionView, FileView, LocationView, SourceSet};
use crate::urls;

verus! {

// ---------------------------------------------------------------------------
// What is entered
// ---------------------------------------------------------------------------

/// Whether what a file contributes is what its data tell, and its subtypes stand in the file.
pub open spec fn at_home(c: ContributionsView) -> bool {
    &&& c.hash_key == c.uri
    &&& c.definitions == contributions::definitions_of(c.file, c.uri)
    &&& c.qualified == contributions::qualified_of(c.file, c.uri)
    &&& c.packages == contributions::package_of(c.file, c.uri)
    &&& c.extensions == contributions::extensions_of(c.file, c.uri)
    &&& forall|k: Seq<char>, l: LocationView| #[trigger]
        laws::lists(c.subtypes, k, l) ==> l.uri == c.uri
}

/// Whether files have URIs, and no two have the same.
pub open spec fn distinct(added: Seq<ContributionsView>) -> bool {
    &&& forall|i: int|
        0 <= i < added.len() ==> urls::parsed_url((#[trigger] added[i]).uri) is Some
    &&& forall|i: int, j: int|
        0 <= i < j < added.len() ==> (#[trigger] added[i]).uri != (#[trigger] added[j]).uri
}

/// Whether files are at home, have URIs, and no two have the same.
pub open spec fn separate(added: Seq<ContributionsView>) -> bool {
    &&& forall|i: int| 0 <= i < added.len() ==> at_home(#[trigger] added[i])
    &&& distinct(added)
}

/// Whether all that is listed for a file goes away with it.
pub open spec fn replaceable(v: IndexView, uri: Seq<char>) -> bool {
    v.files.dom().contains(uri) || laws::unlisted(v, uri)
}

/// Whether a file is among the first `n`.
pub open spec fn among(added: Seq<ContributionsView>, n: int, uri: Seq<char>) -> bool {
    exists|i: int| 0 <= i < n && (#[trigger] added[i]).uri == uri
}

/// The places outside of the first `n` files.
pub open spec fn places_outside(added: Seq<ContributionsView>, n: int) -> spec_fn(
    LocationView,
) -> bool {
    |l: LocationView| !among(added, n, l.uri)
}

/// The names of files other than the first `n`.
pub open spec fn names_outside(added: Seq<ContributionsView>, n: int) -> spec_fn(
    Seq<char>,
) -> bool {
    |u: Seq<char>| !among(added, n, u)
}

/// The extensions outside of the first `n` files.
pub open spec fn extensions_outside(added: Seq<ContributionsView>, n: int) -> spec_fn(
    ExtensionView,
) -> bool {
    |e: ExtensionView| !among(added, n, e.file_uri)
}

// ---------------------------------------------------------------------------
// Lists
// ---------------------------------------------------------------------------

proof fn lemma_filter_both<B>(
    s: Seq<B>,
    p: spec_fn(B) -> bool,
    q: spec_fn(B) -> bool,
    r: spec_fn(B) -> bool,
)
    requires
        forall|x: B| #[trigger] r(x) == (p(x) && q(x)),
    ensures
        s.filter(p).filter(q) == s.filter(r),
    decreases s.len(),
{
    reveal(Seq::filter);
    if s.len() > 0 {
        let c = s.drop_last();
        lemma_filter_both(c, p, q, r);
        assert(r(s.last()) == (p(s.last()) && q(s.last())));
        if p(s.last()) {
            c.filter(p).lemma_filter_push(s.last(), q);
        }
    } else {
        assert(s.filter(p).filter(q) =~= s.filter(r));
    }
}

proof fn lemma_filter_same<B>(s: Seq<B>, p: spec_fn(B) -> bool, q: spec_fn(B) -> bool)
    requires
        forall|x: B| #[trigger] q(x) == p(x),
    ensures
        s.filter(p) == s.filter(q),
    decreases s.len(),
{
    reveal(Seq::filter);
    if s.len() > 0 {
        lemma_filter_same(s.drop_last(), p, q);
        assert(q(s.last()) == p(s.last()));
    } else {
        assert(s.filter(p) =~= s.filter(q));
    }
}

proof fn lemma_filter_none<B>(s: Seq<B>, p: spec_fn(B) -> bool)
    requires
        forall|x: B| s.contains(x) ==> !#[trigger] p(x),
    ensures
        s.filter(p) == Seq::<B>::empty(),
{
    lists::lemma_filter_holds(s, p);
    if s.filter(p).len() > 0 {
        assert(s.filter(p).contains(s.filter(p)[0]));
    }
    assert(s.filter(p) =~= Seq::empty());
}

/// What the first `n` tables list under a key, one after the other.
pub open spec fn gathered<B>(tables: Seq<Map<Seq<char>, Seq<B>>>, k: Seq<char>, n: int) -> Seq<B>
    decreases n,
{
    if n <= 0 || n > tables.len() {
        Seq::empty()
    } else {
        gathered(tables, k, n - 1) + table::list_at(tables[n - 1], k)
    }
}

proof fn lemma_gathered_from<B>(
    tables: Seq<Map<Seq<char>, Seq<B>>>,
    k: Seq<char>,
    n: int,
    x: B,
) -> (i: int)
    requires
        0 <= n <= tables.len(),
        gathered(tables, k, n).contains(x),
    ensures
        0 <= i < n,
        table::list_at(tables[i], k).contains(x),
    decreases n,
{
    if n == 0 {
        0
    } else {
        let a = gathered(tables, k, n - 1);
        let b = table::list_at(tables[n - 1], k);
        let j = choose|j: int| 0 <= j < (a + b).len() && (a + b)[j] == x;
        if j < a.len() {
            assert(a[j] == x);
            lemma_gathered_from(tables, k, n - 1, x)
        } else {
            assert(b[j - a.len()] == x);
            n - 1
        }
    }
}

proof fn lemma_gathered_has<B>(
    tables: Seq<Map<Seq<char>, Seq<B>>>,
    k: Seq<char>,
    n: int,
    i: int,
    x: B,
)
    requires
        0 <= i < n <= tables.len(),
        table::list_at(tables[i], k).contains(x),
    ensures
        gathered(tables, k, n).contains(x),
    decreases n,
{
    let a = gathered(tables, k, n - 1);
    let b = table::list_at(tables[n - 1], k);
    if i < n - 1 {
        lemma_gathered_has(tables, k, n - 1, i, x);
        let j = choose|j: int| 0 <= j < a.len() && a[j] == x;
        assert((a + b)[j] == x);
    } else {
        let j = choose|j: int| 0 <= j < b.len() && b[j] == x;
        assert((a + b)[a.len() + j] == x);
    }
}

/// Whether a property holds of all that is in one list and of nothing in the other.
pub open spec fn parted<B>(base: Seq<B>, more: Seq<B>, p: spec_fn(B) -> bool) -> bool {
    &&& forall|x: B| #[trigger] base.contains(x) ==> p(x)
    &&& forall|x: B| #[trigger] more.contains(x) ==> !p(x)
}

proof fn lemma_parted_again<B>(base: Seq<B>, more: Seq<B>, p: spec_fn(B) -> bool)
    requires
        parted(base, more, p),
    ensures
        (base + more).filter(p) == base,
{
    Seq::filter_distributes_over_add(base, more, p);
    assert forall|x: B| base.contains(x) implies #[trigger] p(x) by {}
    laws::lemma_filter_keeps_all(base, p);
    assert forall|x: B| more.contains(x) implies !#[trigger] p(x) by {}
    lemma_filter_none(more, p);
    assert(base + Seq::<B>::empty() =~= base);
}

proof fn lemma_again_parted<B>(base: Seq<B>, more: Seq<B>, p: spec_fn(B) -> bool)
    requires
        (base + more).filter(p) == base,
    ensures
        parted(base, more, p),
{
    lists::lemma_filter_holds(base + more, p);
    assert forall|x: B| #[trigger] base.contains(x) implies p(x) by {
        assert((base + more).filter(p).contains(x));
    }
    assert forall|x: B| base.contains(x) implies #[trigger] p(x) by {
        assert(base.contains(x));
    }
    laws::lemma_filter_keeps_all(base, p);
    Seq::filter_distributes_over_add(base, more, p);
    assert((base + more.filter(p)).len() == base.len());
    lists::lemma_filter_holds(more, p);
    assert forall|x: B| #[trigger] more.contains(x) implies !p(x) by {
        if p(x) {
            assert(more.filter(p).contains(x));
        }
    }
}

proof fn lemma_same_head<B>(a: Seq<B>, b: Seq<B>, more: Seq<B>)
    requires
        a + more == b + more,
    ensures
        a == b,
{
    assert(a.len() == b.len()) by {
        assert((a + more).len() == a.len() + more.len());
        assert((b + more).len() == b.len() + more.len());
    }
    assert((a + more).take(a.len() as int) =~= a);
    assert((b + more).take(b.len() as int) =~= b);
}

/// Dropping what was appended and appending it again changes nothing, where what is dropped is
/// what was appended, and only there.
proof fn lemma_list_again<B>(base: Seq<B>, more: Seq<B>, p: spec_fn(B) -> bool, again: Seq<B>)
    requires
        again == (base + more).filter(p) + more,
    ensures
        parted(base, more, p) <==> again == base + more,
{
    let kept = (base + more).filter(p);
    if parted(base, more, p) {
        lemma_parted_again(base, more, p);
    } else if again == base + more {
        lemma_same_head(kept, base, more);
        lemma_again_parted(base, more, p);
    }
}

// ---------------------------------------------------------------------------
// Taking files out
// ---------------------------------------------------------------------------

/// What is listed when a file is taken out.
proof fn lemma_without(v: IndexView, uri: Seq<char>, k: Seq<char>)
    requires
        laws::consistent(v),
        replaceable(v, uri),
        urls::parsed_url(uri) is Some,
    ensures
        ({
            let w = apply::without_stale(v, uri);
            &&& table::list_at(w.definitions, k) == table::list_at(v.definitions, k).filter(
                merge::outside(uri),
            )
            &&& table::list_at(w.packages, k) == table::list_at(v.packages, k).filter(
                merge::other_names(uri),
            )
            &&& table::list_at(w.subtypes, k) == table::list_at(v.subtypes, k).filter(
                merge::outside(uri),
            )
            &&& table::list_at(w.extension_by_receiver, k) == table::list_at(
                v.extension_by_receiver,
                k,
            ).filter(merge::of_others(uri))
        }),
{
    let w = apply::without_stale(v, uri);
    let p = merge::outside(uri);
    let q = merge::other_names(uri);
    let r = merge::of_others(uri);
    let d = table::list_at(v.definitions, k);
    let g = table::list_at(v.packages, k);
    let s = table::list_at(v.subtypes, k);
    let e = table::list_at(v.extension_by_receiver, k);
    let known = v.files.dom().contains(uri);
    reveal(Seq::filter);
    assert(Seq::<LocationView>::empty().filter(p) =~= Seq::empty());
    assert(Seq::<Seq<char>>::empty().filter(q) =~= Seq::empty());
    assert(Seq::<ExtensionView>::empty().filter(r) =~= Seq::empty());
    if !known || !contributions::declared(v.files[uri]).contains(k) {
        assert forall|l: LocationView| d.contains(l) implies #[trigger] p(l) by {
            assert(laws::lists(v.definitions, k, l));
        }
        laws::lemma_filter_keeps_all(d, p);
    }
    if !known || v.files[uri].package != Some(k) {
        assert forall|u: Seq<char>| g.contains(u) implies #[trigger] q(u) by {
            assert(laws::lists_file(v.packages, k, u));
        }
        laws::lemma_filter_keeps_all(g, q);
        if known {
            if let Some(pkg) = v.files[uri].package {
                assert(!seq![pkg].contains(k));
            }
        }
    } else {
        assert(seq![k][0] == k);
        assert(seq![k].contains(k));
    }
    if !known {
        assert forall|l: LocationView| s.contains(l) implies #[trigger] p(l) by {
            assert(laws::lists(v.subtypes, k, l));
        }
        laws::lemma_filter_keeps_all(s, p);
        assert forall|x: ExtensionView| e.contains(x) implies #[trigger] r(x) by {
            assert(v.extension_by_receiver[k].contains(x));
        }
        laws::lemma_filter_keeps_all(e, r);
    }
}

/// Taking a file out leaves the rest in order.
proof fn lemma_without_keeps(v: IndexView, uri: Seq<char>)
    requires
        laws::consistent(v),
        replaceable(v, uri),
        urls::parsed_url(uri) is Some,
    ensures
        laws::consistent(apply::without_stale(v, uri)),
        forall|u: Seq<char>| #[trigger]
            replaceable(v, u) ==> replaceable(apply::without_stale(v, uri), u),
{
    let w = apply::without_stale(v, uri);
    assert forall|k: Seq<char>, l: LocationView| #[trigger]
        laws::lists(w.definitions, k, l) implies w.files.dom().contains(l.uri)
        && contributions::declared(w.files[l.uri]).contains(k) by {
        lemma_without(v, uri, k);
        lists::lemma_filter_holds(table::list_at(v.definitions, k), merge::outside(uri));
        assert(table::list_at(w.definitions, k).contains(l));
        assert(table::list_at(v.definitions, k).contains(l));
        assert(laws::lists(v.definitions, k, l));
    }
    assert forall|k: Seq<char>, u: Seq<char>| #[trigger]
        laws::lists_file(w.packages, k, u) implies w.files.dom().contains(u)
        && w.files[u].package == Some(k) by {
        lemma_without(v, uri, k);
        lists::lemma_filter_holds(table::list_at(v.packages, k), merge::other_names(uri));
        assert(table::list_at(w.packages, k).contains(u));
        assert(table::list_at(v.packages, k).contains(u));
        assert(laws::lists_file(v.packages, k, u));
    }
    assert forall|u: Seq<char>| #[trigger] replaceable(v, u) implies replaceable(w, u) by {
        if !v.files.dom().contains(u) {
            assert forall|k: Seq<char>, l: LocationView| #[trigger]
                laws::lists(w.subtypes, k, l) implies l.uri != u by {
                lemma_without(v, uri, k);
                lists::lemma_filter_holds(table::list_at(v.subtypes, k), merge::outside(uri));
                assert(table::list_at(w.subtypes, k).contains(l));
                assert(table::list_at(v.subtypes, k).contains(l));
                assert(laws::lists(v.subtypes, k, l));
            }
            assert forall|k: Seq<char>, e: ExtensionView|
                w.extension_by_receiver.dom().contains(k)
                    && #[trigger] w.extension_by_receiver[k].contains(e) implies e.file_uri
                != u by {
                lemma_without(v, uri, k);
                let list = table::list_at(v.extension_by_receiver, k);
                lists::lemma_filter_holds(list, merge::of_others(uri));
                assert(table::list_at(w.extension_by_receiver, k).contains(e));
                assert(list.contains(e));
                assert(v.extension_by_receiver[k].contains(e));
            }
        }
    }
}

/// An index without the first `n` files differs in these tables alone.
proof fn lemma_tables_alone(v: IndexView, added: Seq<ContributionsView>, n: int)
    requires
        0 <= n <= added.len(),
    ensures
        ({
            let w = sources_jar::without_all(v, added, n);
            &&& w == IndexView {
                definitions: w.definitions,
                qualified: w.qualified,
                packages: w.packages,
                subtypes: w.subtypes,
                extension_by_receiver: w.extension_by_receiver,
                ..v
            }
            &&& w.definitions.dom() == v.definitions.dom()
            &&& w.packages.dom() == v.packages.dom()
            &&& w.subtypes.dom() == v.subtypes.dom()
            &&& w.extension_by_receiver.dom() == v.extension_by_receiver.dom()
        }),
    decreases n,
{
    if n > 0 {
        lemma_tables_alone(v, added, n - 1);
        let before = sources_jar::without_all(v, added, n - 1);
        let w = apply::without_stale(before, added[n - 1].uri);
        assert(w.definitions.dom() =~= before.definitions.dom());
        assert(w.packages.dom() =~= before.packages.dom());
        assert(w.subtypes.dom() =~= before.subtypes.dom());
        assert(w.extension_by_receiver.dom() =~= before.extension_by_receiver.dom());
    }
}

/// Taking the first `n` files out leaves the rest in order.
proof fn lemma_without_all(v: IndexView, added: Seq<ContributionsView>, n: int)
    requires
        0 <= n <= added.len(),
        laws::consistent(v),
        separate(added),
        forall|i: int| 0 <= i < added.len() ==> replaceable(v, (#[trigger] added[i]).uri),
    ensures
        ({
            let w = sources_jar::without_all(v, added, n);
            &&& laws::consistent(w)
            &&& forall|u: Seq<char>| #[trigger] replaceable(v, u) ==> replaceable(w, u)
        }),
    decreases n,
{
    if n > 0 {
        lemma_without_all(v, added, n - 1);
        let before = sources_jar::without_all(v, added, n - 1);
        let uri = added[n - 1].uri;
        assert(replaceable(v, uri));
        lemma_without_keeps(before, uri);
    }
}

/// What is listed when the first `n` files are taken out.
proof fn lemma_lists_without(v: IndexView, added: Seq<ContributionsView>, n: int, k: Seq<char>)
    requires
        0 <= n <= added.len(),
        laws::consistent(v),
        separate(added),
        forall|i: int| 0 <= i < added.len() ==> replaceable(v, (#[trigger] added[i]).uri),
    ensures
        ({
            let w = sources_jar::without_all(v, added, n);
            &&& table::list_at(w.definitions, k) == table::list_at(v.definitions, k).filter(
                places_outside(added, n),
            )
            &&& table::list_at(w.packages, k) == table::list_at(v.packages, k).filter(
                names_outside(added, n),
            )
            &&& table::list_at(w.subtypes, k) == table::list_at(v.subtypes, k).filter(
                places_outside(added, n),
            )
            &&& table::list_at(w.extension_by_receiver, k) == table::list_at(
                v.extension_by_receiver,
                k,
            ).filter(extensions_outside(added, n))
        }),
    decreases n,
{
    let d = table::list_at(v.definitions, k);
    let g = table::list_at(v.packages, k);
    let s = table::list_at(v.subtypes, k);
    let e = table::list_at(v.extension_by_receiver, k);
    if n == 0 {
        laws::lemma_filter_keeps_all(d, places_outside(added, 0));
        laws::lemma_filter_keeps_all(g, names_outside(added, 0));
        laws::lemma_filter_keeps_all(s, places_outside(added, 0));
        laws::lemma_filter_keeps_all(e, extensions_outside(added, 0));
    } else {
        lemma_lists_without(v, added, n - 1, k);
        lemma_without_all(v, added, n - 1);
        let before = sources_jar::without_all(v, added, n - 1);
        let uri = added[n - 1].uri;
        assert(replaceable(v, uri));
        lemma_without(before, uri, k);
        assert forall|u: Seq<char>| #[trigger] among(added, n, u) == (among(added, n - 1, u) || u
            == uri) by {
            if among(added, n, u) && u != uri {
                let i = choose|i: int| 0 <= i < n && (#[trigger] added[i]).uri == u;
                assert(i < n - 1);
            }
            if among(added, n - 1, u) {
                let i = choose|i: int| 0 <= i < n - 1 && (#[trigger] added[i]).uri == u;
                assert(added[i].uri == u);
            }
            assert(added[n - 1].uri == uri);
        }
        lemma_filter_both(
            d,
            places_outside(added, n - 1),
            merge::outside(uri),
            places_outside(added, n),
        );
        lemma_filter_both(
            g,
            names_outside(added, n - 1),
            merge::other_names(uri),
            names_outside(added, n),
        );
        lemma_filter_both(
            s,
            places_outside(added, n - 1),
            merge::outside(uri),
            places_outside(added, n),
        );
        lemma_filter_both(
            e,
            extensions_outside(added, n - 1),
            merge::of_others(uri),
            extensions_outside(added, n),
        );
    }
}

// ---------------------------------------------------------------------------
// Entering files
// ---------------------------------------------------------------------------

/// What some files contribute to each table.
pub open spec fn all_definitions(added: Seq<ContributionsView>) -> Seq<
    Map<Seq<char>, Seq<LocationView>>,
> {
    added.map_values(|c: ContributionsView| c.definitions)
}

pub open spec fn all_packages(added: Seq<ContributionsView>) -> Seq<
    Map<Seq<char>, Seq<Seq<char>>>,
> {
    added.map_values(|c: ContributionsView| c.packages)
}

pub open spec fn all_subtypes(added: Seq<ContributionsView>) -> Seq<
    Map<Seq<char>, Seq<LocationView>>,
> {
    added.map_values(|c: ContributionsView| c.subtypes)
}

pub open spec fn all_extensions(added: Seq<ContributionsView>) -> Seq<
    Map<Seq<char>, Seq<ExtensionView>>,
> {
    added.map_values(|c: ContributionsView| c.extensions)
}

/// Whether one of the first `n` tables has a key.
pub open spec fn some_has<B>(tables: Seq<Map<Seq<char>, B>>, n: int, k: Seq<char>) -> bool {
    exists|i: int| 0 <= i < n && (#[trigger] tables[i]).dom().contains(k)
}

proof fn lemma_some_has<B>(tables: Seq<Map<Seq<char>, B>>, n: int, k: Seq<char>)
    requires
        0 < n <= tables.len(),
    ensures
        some_has(tables, n, k) == (some_has(tables, n - 1, k) || tables[n - 1].dom().contains(k)),
{
    if some_has(tables, n, k) {
        let i = choose|i: int| 0 <= i < n && (#[trigger] tables[i]).dom().contains(k);
        if i < n - 1 {
            assert(tables[i].dom().contains(k));
        }
    }
    if some_has(tables, n - 1, k) {
        let i = choose|i: int| 0 <= i < n - 1 && (#[trigger] tables[i]).dom().contains(k);
        assert(tables[i].dom().contains(k));
    }
}

/// What is listed when the first `n` files are entered.
proof fn lemma_lists_with(w: IndexView, added: Seq<ContributionsView>, n: int, k: Seq<char>)
    requires
        0 <= n <= added.len(),
    ensures
        ({
            let x = sources_jar::with_all(w, added, n);
            &&& table::list_at(x.definitions, k) == table::list_at(w.definitions, k) + gathered(
                all_definitions(added),
                k,
                n,
            )
            &&& table::list_at(x.packages, k) == table::list_at(w.packages, k) + gathered(
                all_packages(added),
                k,
                n,
            )
            &&& table::list_at(x.subtypes, k) == table::list_at(w.subtypes, k) + gathered(
                all_subtypes(added),
                k,
                n,
            )
            &&& table::list_at(x.extension_by_receiver, k) == table::list_at(
                w.extension_by_receiver,
                k,
            ) + gathered(all_extensions(added), k, n)
            &&& x.definitions.dom().contains(k) == (w.definitions.dom().contains(k) || some_has(
                all_definitions(added),
                n,
                k,
            ))
            &&& x.packages.dom().contains(k) == (w.packages.dom().contains(k) || some_has(
                all_packages(added),
                n,
                k,
            ))
            &&& x.subtypes.dom().contains(k) == (w.subtypes.dom().contains(k) || some_has(
                all_subtypes(added),
                n,
                k,
            ))
            &&& x.extension_by_receiver.dom().contains(k) == (
            w.extension_by_receiver.dom().contains(k) || some_has(all_extensions(added), n, k))
        }),
    decreases n,
{
    if n > 0 {
        lemma_lists_with(w, added, n - 1, k);
        let y = sources_jar::with_all(w, added, n - 1);
        let x = sources_jar::with_all(w, added, n);
        let c = added[n - 1];
        lemma_merged_at(y.definitions, c.definitions, k);
        lemma_merged_at(y.packages, c.packages, k);
        lemma_merged_at(y.subtypes, c.subtypes, k);
        lemma_merged_at(y.extension_by_receiver, c.extensions, k);
        lemma_some_has(all_definitions(added), n, k);
        lemma_some_has(all_packages(added), n, k);
        lemma_some_has(all_subtypes(added), n, k);
        lemma_some_has(all_extensions(added), n, k);
        assert(table::list_at(x.definitions, k) =~= table::list_at(w.definitions, k) + gathered(
            all_definitions(added),
            k,
            n,
        ));
        assert(table::list_at(x.packages, k) =~= table::list_at(w.packages, k) + gathered(
            all_packages(added),
            k,
            n,
        ));
        assert(table::list_at(x.subtypes, k) =~= table::list_at(w.subtypes, k) + gathered(
            all_subtypes(added),
            k,
            n,
        ));
        assert(table::list_at(x.extension_by_receiver, k) =~= table::list_at(
            w.extension_by_receiver,
            k,
        ) + gathered(all_extensions(added), k, n));
    } else {
        assert(table::list_at(w.definitions, k) + Seq::empty() =~= table::list_at(
            w.definitions,
            k,
        ));
        assert(table::list_at(w.packages, k) + Seq::empty() =~= table::list_at(w.packages, k));
        assert(table::list_at(w.subtypes, k) + Seq::empty() =~= table::list_at(w.subtypes, k));
        assert(table::list_at(w.extension_by_receiver, k) + Seq::empty() =~= table::list_at(
            w.extension_by_receiver,
            k,
        ));
    }
}

proof fn lemma_merged_at<B>(a: Map<Seq<char>, Seq<B>>, b: Map<Seq<char>, Seq<B>>, k: Seq<char>)
    ensures
        table::list_at(group::merged(a, b), k) == table::list_at(a, k) + table::list_at(b, k),
        group::merged(a, b).dom().contains(k) == (a.dom().contains(k) || b.dom().contains(k)),
{
    let m = group::merged(a, b);
    assert(table::list_at(m, k) =~= table::list_at(a, k) + table::list_at(b, k));
}

/// A file as the index stores it for a library.
pub open spec fn stored(f: FileView) -> FileView {
    FileView { source_set: SourceSet::Library, ..f }
}

/// What is stored of files when the first `n` are entered.
proof fn lemma_stored(w: IndexView, added: Seq<ContributionsView>, n: int)
    requires
        0 <= n <= added.len(),
        distinct(added),
    ensures
        ({
            let x = sources_jar::with_all(w, added, n);
            &&& forall|i: int|
                0 <= i < n ==> {
                    let u = (#[trigger] added[i]).uri;
                    &&& x.files.dom().contains(u) && x.files[u] == stored(added[i].file)
                    &&& x.library_uris.dom().contains(u)
                }
            &&& forall|u: Seq<char>|
                !#[trigger] among(added, n, u) ==> {
                    &&& x.files.dom().contains(u) == w.files.dom().contains(u)
                    &&& x.files[u] == w.files[u]
                    &&& x.library_uris.dom().contains(u) == w.library_uris.dom().contains(u)
                }
            &&& x == IndexView {
                files: x.files,
                content_hashes: x.content_hashes,
                definitions: x.definitions,
                qualified: x.qualified,
                packages: x.packages,
                subtypes: x.subtypes,
                extension_by_receiver: x.extension_by_receiver,
                library_uris: x.library_uris,
                ..w
            }
        }),
    decreases n,
{
    if n > 0 {
        lemma_stored(w, added, n - 1);
        let y = sources_jar::with_all(w, added, n - 1);
        let x = sources_jar::with_all(w, added, n);
        assert forall|i: int| 0 <= i < n implies {
            let u = (#[trigger] added[i]).uri;
            &&& x.files.dom().contains(u) && x.files[u] == stored(added[i].file)
            &&& x.library_uris.dom().contains(u)
        } by {
            if i < n - 1 {
                assert(added[i].uri != added[n - 1].uri);
            }
        }
        assert forall|u: Seq<char>| !#[trigger] among(added, n, u) implies {
            &&& x.files.dom().contains(u) == w.files.dom().contains(u)
            &&& x.files[u] == w.files[u]
            &&& x.library_uris.dom().contains(u) == w.library_uris.dom().contains(u)
        } by {
            assert(added[n - 1].uri != u);
            if among(added, n - 1, u) {
                let i = choose|i: int| 0 <= i < n - 1 && (#[trigger] added[i]).uri == u;
                assert(added[i].uri == u);
            }
        }
    }
}

// ---------------------------------------------------------------------------
// Qualified names
// ---------------------------------------------------------------------------

pub open spec fn all_qualified(added: Seq<ContributionsView>) -> Seq<Map<Seq<char>, LocationView>> {
    added.map_values(|c: ContributionsView| c.qualified)
}

/// Whether two tables have the same under a key.
pub open spec fn agree<B>(a: Map<Seq<char>, B>, b: Map<Seq<char>, B>, k: Seq<char>) -> bool {
    a.dom().contains(k) == b.dom().contains(k) && (a.dom().contains(k) ==> a[k] == b[k])
}

/// Two indexes that agree on a qualified name, unless a file brings it, agree on it when the
/// files are entered.
proof fn lemma_qualified_with(
    a: IndexView,
    b: IndexView,
    added: Seq<ContributionsView>,
    n: int,
    k: Seq<char>,
)
    requires
        0 <= n <= added.len(),
        some_has(all_qualified(added), n, k) || agree(a.qualified, b.qualified, k),
    ensures
        ({
            let x = sources_jar::with_all(a, added, n);
            let y = sources_jar::with_all(b, added, n);
            &&& agree(x.qualified, y.qualified, k)
            &&& !some_has(all_qualified(added), n, k) ==> agree(x.qualified, a.qualified, k)
        }),
    decreases n,
{
    if n > 0 {
        lemma_some_has(all_qualified(added), n, k);
        let c = added[n - 1];
        if !c.qualified.dom().contains(k) {
            lemma_qualified_with(a, b, added, n - 1, k);
        }
    }
}

/// Whether a hash is stored under a key for one of the first `n` files.
pub open spec fn hashed(added: Seq<ContributionsView>, n: int, k: Seq<char>) -> bool {
    exists|i: int| 0 <= i < n && (#[trigger] added[i]).hash_key == k
}

/// Two indexes that agree on a hash, unless a file brings it, agree on it when the files are
/// entered.
proof fn lemma_hashes_with(
    a: IndexView,
    b: IndexView,
    added: Seq<ContributionsView>,
    n: int,
    k: Seq<char>,
)
    requires
        0 <= n <= added.len(),
        hashed(added, n, k) || agree(a.content_hashes, b.content_hashes, k),
    ensures
        ({
            let x = sources_jar::with_all(a, added, n);
            let y = sources_jar::with_all(b, added, n);
            &&& agree(x.content_hashes, y.content_hashes, k)
            &&& !hashed(added, n, k) ==> agree(x.content_hashes, a.content_hashes, k)
        }),
    decreases n,
{
    if n > 0 {
        let c = added[n - 1];
        if c.hash_key != k {
            assert(hashed(added, n, k) == hashed(added, n - 1, k)) by {
                if hashed(added, n, k) {
                    let i = choose|i: int| 0 <= i < n && (#[trigger] added[i]).hash_key == k;
                    assert(i < n - 1);
                }
                if hashed(added, n - 1, k) {
                    let i = choose|i: int| 0 <= i < n - 1 && (#[trigger] added[i]).hash_key == k;
                    assert(added[i].hash_key == k);
                }
            }
            lemma_hashes_with(a, b, added, n - 1, k);
        } else {
            assert(hashed(added, n, k));
        }
    }
}

// ---------------------------------------------------------------------------
// Taking them out again
// ---------------------------------------------------------------------------

/// Whether one of the first `n` files is the file `uri` and declares the name `k`.
pub open spec fn name_goes(
    added: Seq<ContributionsView>,
    n: int,
    k: Seq<char>,
    uri: Seq<char>,
) -> bool {
    exists|i: int|
        0 <= i < n && (#[trigger] added[i]).uri == uri && contributions::declared(
            added[i].file,
        ).contains(k)
}

/// Whether one of the first `n` files is the file `uri` and belongs to the package `k`.
pub open spec fn package_goes(
    added: Seq<ContributionsView>,
    n: int,
    k: Seq<char>,
    uri: Seq<char>,
) -> bool {
    exists|i: int|
        0 <= i < n && (#[trigger] added[i]).uri == uri && added[i].file.package == Some(k)
}

/// Whether one of the first `n` files declares the qualified name `k`.
pub open spec fn key_goes(added: Seq<ContributionsView>, n: int, k: Seq<char>) -> bool {
    exists|i: int|
        0 <= i < n && contributions::declared_keys(
            (#[trigger] added[i]).file,
            added[i].uri,
        ).contains(k)
}

/// The places that stay under a name when the first `n` files are taken out.
pub open spec fn places_left(added: Seq<ContributionsView>, n: int, k: Seq<char>) -> spec_fn(
    LocationView,
) -> bool {
    |l: LocationView| !name_goes(added, n, k, l.uri)
}

/// The files that stay in a package when the first `n` files are taken out.
pub open spec fn files_left(added: Seq<ContributionsView>, n: int, k: Seq<char>) -> spec_fn(
    Seq<char>,
) -> bool {
    |u: Seq<char>| !package_goes(added, n, k, u)
}

/// Whether an index stores files of libraries as they are entered.
pub open spec fn stores(v: IndexView, added: Seq<ContributionsView>) -> bool {
    forall|i: int|
        0 <= i < added.len() ==> v.files.dom().contains((#[trigger] added[i]).uri)
            && v.files[added[i].uri] == stored(added[i].file)
}

/// What goes with the first `n` files is what goes with one of them.
proof fn lemma_goes(added: Seq<ContributionsView>, n: int, k: Seq<char>, u: Seq<char>)
    requires
        0 < n <= added.len(),
    ensures
        ({
            let c = added[n - 1];
            &&& name_goes(added, n, k, u) == (name_goes(added, n - 1, k, u) || (c.uri == u
                && contributions::declared(c.file).contains(k)))
            &&& package_goes(added, n, k, u) == (package_goes(added, n - 1, k, u) || (c.uri == u
                && c.file.package == Some(k)))
            &&& key_goes(added, n, k) == (key_goes(added, n - 1, k)
                || contributions::declared_keys(c.file, c.uri).contains(k))
            &&& among(added, n, u) == (among(added, n - 1, u) || c.uri == u)
        }),
{
    let c = added[n - 1];
    if name_goes(added, n, k, u) {
        let i = choose|i: int|
            0 <= i < n && (#[trigger] added[i]).uri == u && contributions::declared(
                added[i].file,
            ).contains(k);
        assert(i == n - 1 || name_goes(added, n - 1, k, u));
    }
    if name_goes(added, n - 1, k, u) {
        let i = choose|i: int|
            0 <= i < n - 1 && (#[trigger] added[i]).uri == u && contributions::declared(
                added[i].file,
            ).contains(k);
        assert(added[i].uri == u);
    }
    if package_goes(added, n, k, u) {
        let i = choose|i: int|
            0 <= i < n && (#[trigger] added[i]).uri == u && added[i].file.package == Some(k);
        assert(i == n - 1 || package_goes(added, n - 1, k, u));
    }
    if package_goes(added, n - 1, k, u) {
        let i = choose|i: int|
            0 <= i < n - 1 && (#[trigger] added[i]).uri == u && added[i].file.package == Some(k);
        assert(added[i].uri == u);
    }
    if key_goes(added, n, k) {
        let i = choose|i: int|
            0 <= i < n && contributions::declared_keys(
                (#[trigger] added[i]).file,
                added[i].uri,
            ).contains(k);
        assert(i == n - 1 || key_goes(added, n - 1, k));
    }
    if key_goes(added, n - 1, k) {
        let i = choose|i: int|
            0 <= i < n - 1 && contributions::declared_keys(
                (#[trigger] added[i]).file,
                added[i].uri,
            ).contains(k);
        assert(contributions::declared_keys(added[i].file, added[i].uri).contains(k));
    }
    if among(added, n, u) {
        let i = choose|i: int| 0 <= i < n && (#[trigger] added[i]).uri == u;
        assert(i == n - 1 || among(added, n - 1, u));
    }
    if among(added, n - 1, u) {
        let i = choose|i: int| 0 <= i < n - 1 && (#[trigger] added[i]).uri == u;
        assert(added[i].uri == u);
    }
    assert(c == added[n - 1]);
}

/// What is listed under a key when the first `n` files are taken out of an index that stores them.
proof fn lemma_lists_left(v: IndexView, added: Seq<ContributionsView>, n: int, k: Seq<char>)
    requires
        0 <= n <= added.len(),
        distinct(added),
        stores(v, added),
    ensures
        ({
            let w = sources_jar::without_all(v, added, n);
            &&& table::list_at(w.definitions, k) == table::list_at(v.definitions, k).filter(
                places_left(added, n, k),
            )
            &&& table::list_at(w.packages, k) == table::list_at(v.packages, k).filter(
                files_left(added, n, k),
            )
            &&& table::list_at(w.subtypes, k) == table::list_at(v.subtypes, k).filter(
                places_outside(added, n),
            )
            &&& table::list_at(w.extension_by_receiver, k) == table::list_at(
                v.extension_by_receiver,
                k,
            ).filter(extensions_outside(added, n))
            &&& w.qualified.dom().contains(k) == (v.qualified.dom().contains(k) && !key_goes(
                added,
                n,
                k,
            ))
            &&& w.qualified.dom().contains(k) ==> w.qualified[k] == v.qualified[k]
        }),
    decreases n,
{
    let d = table::list_at(v.definitions, k);
    let g = table::list_at(v.packages, k);
    let s = table::list_at(v.subtypes, k);
    let e = table::list_at(v.extension_by_receiver, k);
    if n == 0 {
        laws::lemma_filter_keeps_all(d, places_left(added, 0, k));
        laws::lemma_filter_keeps_all(g, files_left(added, 0, k));
        laws::lemma_filter_keeps_all(s, places_outside(added, 0));
        laws::lemma_filter_keeps_all(e, extensions_outside(added, 0));
    } else {
        lemma_lists_left(v, added, n - 1, k);
        lemma_tables_alone(v, added, n - 1);
        let before = sources_jar::without_all(v, added, n - 1);
        let w = sources_jar::without_all(v, added, n);
        let c = added[n - 1];
        let f = stored(c.file);
        assert(before.files[c.uri] == f);
        assert(contributions::declared(f) == contributions::declared(c.file));
        assert(contributions::declared_keys(f, c.uri) == contributions::declared_keys(
            c.file,
            c.uri,
        ));
        assert forall|u: Seq<char>|
            #![trigger name_goes(added, n, k, u)]
            #![trigger package_goes(added, n, k, u)]
            #![trigger among(added, n, u)]
            true implies {
            &&& name_goes(added, n, k, u) == (name_goes(added, n - 1, k, u) || (c.uri == u
                && contributions::declared(c.file).contains(k)))
            &&& package_goes(added, n, k, u) == (package_goes(added, n - 1, k, u) || (c.uri == u
                && c.file.package == Some(k)))
            &&& among(added, n, u) == (among(added, n - 1, u) || c.uri == u)
        } by {
            lemma_goes(added, n, k, u);
        }
        lemma_goes(added, n, k, c.uri);
        lemma_step(before, c.uri, k);
        let p = places_left(added, n - 1, k);
        let q = files_left(added, n - 1, k);
        if contributions::declared(c.file).contains(k) {
            lemma_filter_both(d, p, merge::outside(c.uri), places_left(added, n, k));
        } else {
            lemma_filter_same(d, p, places_left(added, n, k));
        }
        if c.file.package == Some(k) {
            lemma_filter_both(g, q, merge::other_names(c.uri), files_left(added, n, k));
        } else {
            lemma_filter_same(g, q, files_left(added, n, k));
        }
        lemma_filter_both(
            s,
            places_outside(added, n - 1),
            merge::outside(c.uri),
            places_outside(added, n),
        );
        lemma_filter_both(
            e,
            extensions_outside(added, n - 1),
            merge::of_others(c.uri),
            extensions_outside(added, n),
        );
    }
}

/// What is listed under a key when a file is taken out of an index that stores it.
proof fn lemma_step(v: IndexView, uri: Seq<char>, k: Seq<char>)
    requires
        v.files.dom().contains(uri),
        urls::parsed_url(uri) is Some,
    ensures
        ({
            let w = apply::without_stale(v, uri);
            let f = v.files[uri];
            &&& table::list_at(w.definitions, k) == if contributions::declared(f).contains(k) {
                table::list_at(v.definitions, k).filter(merge::outside(uri))
            } else {
                table::list_at(v.definitions, k)
            }
            &&& table::list_at(w.packages, k) == if f.package == Some(k) {
                table::list_at(v.packages, k).filter(merge::other_names(uri))
            } else {
                table::list_at(v.packages, k)
            }
            &&& table::list_at(w.subtypes, k) == table::list_at(v.subtypes, k).filter(
                merge::outside(uri),
            )
            &&& table::list_at(w.extension_by_receiver, k) == table::list_at(
                v.extension_by_receiver,
                k,
            ).filter(merge::of_others(uri))
            &&& w.qualified.dom().contains(k) == (v.qualified.dom().contains(k)
                && !contributions::declared_keys(f, uri).contains(k))
            &&& w.qualified.dom().contains(k) ==> w.qualified[k] == v.qualified[k]
        }),
{
    reveal(Seq::filter);
    assert(Seq::<LocationView>::empty().filter(merge::outside(uri)) =~= Seq::empty());
    assert(Seq::<Seq<char>>::empty().filter(merge::other_names(uri)) =~= Seq::empty());
    assert(Seq::<ExtensionView>::empty().filter(merge::of_others(uri)) =~= Seq::empty());
    if let Some(pkg) = v.files[uri].package {
        assert(seq![pkg][0] == pkg);
        assert(seq![pkg].contains(k) == (pkg == k));
    }
}

// ---------------------------------------------------------------------------
// Entering them again
// ---------------------------------------------------------------------------

/// What a file lists for itself stands in the file.
proof fn lemma_own(added: Seq<ContributionsView>, i: int, k: Seq<char>)
    requires
        separate(added),
        0 <= i < added.len(),
    ensures
        forall|l: LocationView| #[trigger]
            table::list_at(added[i].definitions, k).contains(l) ==> l.uri == added[i].uri
                && contributions::declared(added[i].file).contains(k),
        forall|u: Seq<char>| #[trigger]
            table::list_at(added[i].packages, k).contains(u) ==> u == added[i].uri
                && added[i].file.package == Some(k),
        forall|l: LocationView| #[trigger]
            table::list_at(added[i].subtypes, k).contains(l) ==> l.uri == added[i].uri,
        forall|e: ExtensionView| #[trigger]
            table::list_at(added[i].extensions, k).contains(e) ==> e.file_uri == added[i].uri,
{
    let c = added[i];
    assert(at_home(c));
    assert forall|l: LocationView| #[trigger]
        table::list_at(c.definitions, k).contains(l) implies l.uri == c.uri
        && contributions::declared(c.file).contains(k) by {
        laws::lemma_definitions(c.file, c.uri, k, l);
        laws::lemma_names_are_keys(c.file, c.uri, k);
        assert(laws::lists(c.definitions, k, l));
    }
    assert forall|l: LocationView| #[trigger]
        table::list_at(c.subtypes, k).contains(l) implies l.uri == c.uri by {
        assert(laws::lists(c.subtypes, k, l));
    }
    assert forall|e: ExtensionView| #[trigger]
        table::list_at(c.extensions, k).contains(e) implies e.file_uri == c.uri by {
        let by = contributions::by_receiver(c.file, c.uri);
        laws::lemma_grouped(c.file.symbols, by, k);
        assert(group::group_at(c.file.symbols, by, k).contains(e));
    }
}

/// Whether an index can take in files of libraries in place of what it has of them.
pub open spec fn takes_in(v: IndexView, added: Seq<ContributionsView>) -> bool {
    &&& laws::consistent(v)
    &&& separate(added)
    &&& forall|i: int| 0 <= i < added.len() ==> replaceable(v, (#[trigger] added[i]).uri)
}

/// Entering files of libraries leaves the index consistent, with the data of each file stored.
pub proof fn law_libraries_keep_consistency(v: IndexView, added: Seq<ContributionsView>)
    requires
        takes_in(v, added),
    ensures
        laws::consistent(sources_jar::with_sources(v, added)),
        forall|i: int|
            0 <= i < added.len() ==> {
                let files = sources_jar::with_sources(v, added).files;
                files.dom().contains((#[trigger] added[i]).uri) && files[added[i].uri] == stored(
                    added[i].file,
                )
            },
{
    let n = added.len() as int;
    if n > 0 {
        let w = sources_jar::without_all(v, added, n);
        let x = sources_jar::with_all(w, added, n);
        let once = sources_jar::with_sources(v, added);
        lemma_tables_alone(v, added, n);
        lemma_without_all(v, added, n);
        lemma_stored(w, added, n);
        assert forall|k: Seq<char>, l: LocationView| #[trigger]
            laws::lists(once.definitions, k, l) implies once.files.dom().contains(l.uri)
            && contributions::declared(once.files[l.uri]).contains(k) by {
            lemma_lists_without(v, added, n, k);
            lemma_lists_with(w, added, n, k);
            let base = table::list_at(v.definitions, k);
            let a = base.filter(places_outside(added, n));
            let b = gathered(all_definitions(added), k, n);
            assert((a + b).contains(l));
            let j = choose|j: int| 0 <= j < (a + b).len() && (a + b)[j] == l;
            if j < a.len() {
                assert(a[j] == l);
                assert(a.contains(l));
                lists::lemma_filter_holds(base, places_outside(added, n));
                assert(base.contains(l));
                assert(laws::lists(v.definitions, k, l));
                assert(!among(added, n, l.uri));
            } else {
                assert(b[j - a.len()] == l);
                let i = lemma_gathered_from(all_definitions(added), k, n, l);
                lemma_own(added, i, k);
                assert(table::list_at(added[i].definitions, k).contains(l));
                assert(contributions::declared(stored(added[i].file)) == contributions::declared(
                    added[i].file,
                ));
            }
        }
        assert forall|k: Seq<char>, u: Seq<char>| #[trigger]
            laws::lists_file(once.packages, k, u) implies once.files.dom().contains(u)
            && once.files[u].package == Some(k) by {
            lemma_lists_without(v, added, n, k);
            lemma_lists_with(w, added, n, k);
            let base = table::list_at(v.packages, k);
            let a = base.filter(names_outside(added, n));
            let b = gathered(all_packages(added), k, n);
            assert((a + b).contains(u));
            let j = choose|j: int| 0 <= j < (a + b).len() && (a + b)[j] == u;
            if j < a.len() {
                assert(a[j] == u);
                assert(a.contains(u));
                lists::lemma_filter_holds(base, names_outside(added, n));
                assert(base.contains(u));
                assert(laws::lists_file(v.packages, k, u));
                assert(!among(added, n, u));
            } else {
                assert(b[j - a.len()] == u);
                let i = lemma_gathered_from(all_packages(added), k, n, u);
                lemma_own(added, i, k);
                assert(table::list_at(added[i].packages, k).contains(u));
            }
        }
    }
}

/// Whether nothing is left of the files in an index that they were taken out of, as far as their
/// data tell: no place of them under a name that they declare, no file of them in its package, no
/// subtype and no extension of them, and no qualified name that they declare but do not enter.
pub open spec fn nothing_left(w: IndexView, added: Seq<ContributionsView>) -> bool {
    let n = added.len() as int;
    &&& forall|k: Seq<char>, l: LocationView| #[trigger]
        laws::lists(w.definitions, k, l) ==> !name_goes(added, n, k, l.uri)
    &&& forall|k: Seq<char>, u: Seq<char>| #[trigger]
        laws::lists_file(w.packages, k, u) ==> !package_goes(added, n, k, u)
    &&& forall|k: Seq<char>, l: LocationView| #[trigger]
        laws::lists(w.subtypes, k, l) ==> !among(added, n, l.uri)
    &&& forall|k: Seq<char>, e: ExtensionView|
        w.extension_by_receiver.dom().contains(k)
            && #[trigger] w.extension_by_receiver[k].contains(e) ==> !among(added, n, e.file_uri)
    &&& forall|k: Seq<char>| #[trigger]
        key_goes(added, n, k) && w.qualified.dom().contains(k) ==> some_has(
            all_qualified(added),
            n,
            k,
        )
}

/// Whether all that files enter goes with them: each place stands in one of them, under a name
/// that it declares, and each file of a package, subtype and extension is one of theirs.
pub open spec fn all_goes(added: Seq<ContributionsView>) -> bool {
    let n = added.len() as int;
    &&& forall|i: int, k: Seq<char>, l: LocationView|
        0 <= i < n && #[trigger] laws::lists(added[i].definitions, k, l) ==> name_goes(
            added,
            n,
            k,
            l.uri,
        )
    &&& forall|i: int, k: Seq<char>, u: Seq<char>|
        0 <= i < n && #[trigger] laws::lists_file(added[i].packages, k, u) ==> package_goes(
            added,
            n,
            k,
            u,
        )
    &&& forall|i: int, k: Seq<char>, l: LocationView|
        0 <= i < n && #[trigger] laws::lists(added[i].subtypes, k, l) ==> among(added, n, l.uri)
    &&& forall|i: int, k: Seq<char>, e: ExtensionView|
        0 <= i < n && added[i].extensions.dom().contains(k)
            && #[trigger] added[i].extensions[k].contains(e) ==> among(added, n, e.file_uri)
}

/// Whether an index takes files of libraries in place of all that it has of them, and all that
/// they enter goes with them.
pub open spec fn settles(v: IndexView, added: Seq<ContributionsView>) -> bool {
    nothing_left(sources_jar::without_all(v, added, added.len() as int), added) && all_goes(added)
}

/// Whether no list of an index under a key holds anything of the files, and all that they list
/// under it is theirs.
pub open spec fn settles_at(
    w: IndexView,
    added: Seq<ContributionsView>,
    k: Seq<char>,
) -> bool {
    let n = added.len() as int;
    &&& parted(
        table::list_at(w.definitions, k),
        gathered(all_definitions(added), k, n),
        places_left(added, n, k),
    )
    &&& parted(
        table::list_at(w.packages, k),
        gathered(all_packages(added), k, n),
        files_left(added, n, k),
    )
    &&& parted(
        table::list_at(w.subtypes, k),
        gathered(all_subtypes(added), k, n),
        places_outside(added, n),
    )
    &&& parted(
        table::list_at(w.extension_by_receiver, k),
        gathered(all_extensions(added), k, n),
        extensions_outside(added, n),
    )
    &&& key_goes(added, n, k) && w.qualified.dom().contains(k) ==> some_has(
        all_qualified(added),
        n,
        k,
    )
}

/// Under each key an index settles or not.
proof fn lemma_settles_at(v: IndexView, added: Seq<ContributionsView>)
    ensures
        settles(v, added) == forall|k: Seq<char>| #[trigger]
            settles_at(sources_jar::without_all(v, added, added.len() as int), added, k),
{
    let n = added.len() as int;
    let w = sources_jar::without_all(v, added, n);
    if settles(v, added) {
        assert forall|k: Seq<char>| #[trigger] settles_at(w, added, k) by {
            assert forall|l: LocationView| #[trigger]
                table::list_at(w.definitions, k).contains(l) implies places_left(added, n, k)(
                l,
            ) by {
                assert(laws::lists(w.definitions, k, l));
            }
            assert forall|u: Seq<char>| #[trigger]
                table::list_at(w.packages, k).contains(u) implies files_left(added, n, k)(u) by {
                assert(laws::lists_file(w.packages, k, u));
            }
            assert forall|l: LocationView| #[trigger]
                table::list_at(w.subtypes, k).contains(l) implies places_outside(added, n)(l) by {
                assert(laws::lists(w.subtypes, k, l));
            }
            assert forall|e: ExtensionView| #[trigger]
                table::list_at(w.extension_by_receiver, k).contains(e) implies extensions_outside(
                added,
                n,
            )(e) by {
                assert(w.extension_by_receiver[k].contains(e));
            }
            assert forall|l: LocationView| #[trigger]
                gathered(all_definitions(added), k, n).contains(l) implies !places_left(
                added,
                n,
                k,
            )(l) by {
                let i = lemma_gathered_from(all_definitions(added), k, n, l);
                assert(laws::lists(added[i].definitions, k, l));
            }
            assert forall|u: Seq<char>| #[trigger]
                gathered(all_packages(added), k, n).contains(u) implies !files_left(added, n, k)(
                u,
            ) by {
                let i = lemma_gathered_from(all_packages(added), k, n, u);
                assert(laws::lists_file(added[i].packages, k, u));
            }
            assert forall|l: LocationView| #[trigger]
                gathered(all_subtypes(added), k, n).contains(l) implies !places_outside(added, n)(
                l,
            ) by {
                let i = lemma_gathered_from(all_subtypes(added), k, n, l);
                assert(laws::lists(added[i].subtypes, k, l));
            }
            assert forall|e: ExtensionView| #[trigger]
                gathered(all_extensions(added), k, n).contains(e) implies !extensions_outside(
                added,
                n,
            )(e) by {
                let i = lemma_gathered_from(all_extensions(added), k, n, e);
                assert(added[i].extensions[k].contains(e));
            }
        }
    }
    if forall|k: Seq<char>| #[trigger] settles_at(w, added, k) {
        assert forall|k: Seq<char>, l: LocationView| #[trigger]
            laws::lists(w.definitions, k, l) implies !name_goes(added, n, k, l.uri) by {
            assert(settles_at(w, added, k));
            assert(table::list_at(w.definitions, k).contains(l));
            assert(places_left(added, n, k)(l));
        }
        assert forall|k: Seq<char>, u: Seq<char>| #[trigger]
            laws::lists_file(w.packages, k, u) implies !package_goes(added, n, k, u) by {
            assert(settles_at(w, added, k));
            assert(table::list_at(w.packages, k).contains(u));
            assert(files_left(added, n, k)(u));
        }
        assert forall|k: Seq<char>, l: LocationView| #[trigger]
            laws::lists(w.subtypes, k, l) implies !among(added, n, l.uri) by {
            assert(settles_at(w, added, k));
            assert(table::list_at(w.subtypes, k).contains(l));
            assert(places_outside(added, n)(l));
        }
        assert forall|k: Seq<char>, e: ExtensionView|
            w.extension_by_receiver.dom().contains(k)
                && #[trigger] w.extension_by_receiver[k].contains(e) implies !among(
            added,
            n,
            e.file_uri,
        ) by {
            assert(settles_at(w, added, k));
            assert(table::list_at(w.extension_by_receiver, k).contains(e));
            assert(extensions_outside(added, n)(e));
        }
        assert forall|k: Seq<char>| #[trigger]
            key_goes(added, n, k) && w.qualified.dom().contains(k) implies some_has(
            all_qualified(added),
            n,
            k,
        ) by {
            assert(settles_at(w, added, k));
        }
        assert forall|i: int, k: Seq<char>, l: LocationView|
            0 <= i < n && #[trigger] laws::lists(added[i].definitions, k, l) implies name_goes(
            added,
            n,
            k,
            l.uri,
        ) by {
            assert(settles_at(w, added, k));
            lemma_gathered_has(all_definitions(added), k, n, i, l);
            assert(!places_left(added, n, k)(l));
        }
        assert forall|i: int, k: Seq<char>, u: Seq<char>|
            0 <= i < n && #[trigger] laws::lists_file(added[i].packages, k, u) implies package_goes(
            added,
            n,
            k,
            u,
        ) by {
            assert(settles_at(w, added, k));
            lemma_gathered_has(all_packages(added), k, n, i, u);
            assert(!files_left(added, n, k)(u));
        }
        assert forall|i: int, k: Seq<char>, l: LocationView|
            0 <= i < n && #[trigger] laws::lists(added[i].subtypes, k, l) implies among(
            added,
            n,
            l.uri,
        ) by {
            assert(settles_at(w, added, k));
            lemma_gathered_has(all_subtypes(added), k, n, i, l);
            assert(!places_outside(added, n)(l));
        }
        assert forall|i: int, k: Seq<char>, e: ExtensionView|
            0 <= i < n && added[i].extensions.dom().contains(k)
                && #[trigger] added[i].extensions[k].contains(e) implies among(
            added,
            n,
            e.file_uri,
        ) by {
            assert(settles_at(w, added, k));
            lemma_gathered_has(all_extensions(added), k, n, i, e);
            assert(!extensions_outside(added, n)(e));
        }
    }
}

/// Whether a list is what was appended to another, and a second list what was appended to it
/// again when what lacks a property was dropped.
pub open spec fn refilled<B>(
    base: Seq<B>,
    more: Seq<B>,
    p: spec_fn(B) -> bool,
    once: Seq<B>,
    twice: Seq<B>,
) -> bool {
    once == base + more && twice == once.filter(p) + more
}

/// The lists under a key when files are entered once, and a second time.
proof fn lemma_lists_again(v: IndexView, added: Seq<ContributionsView>, k: Seq<char>)
    requires
        distinct(added),
        added.len() > 0,
    ensures
        ({
            let n = added.len() as int;
            let once = sources_jar::with_sources(v, added);
            let twice = sources_jar::with_sources(once, added);
            let w = sources_jar::without_all(v, added, n);
            &&& refilled(
                table::list_at(w.definitions, k),
                gathered(all_definitions(added), k, n),
                places_left(added, n, k),
                table::list_at(once.definitions, k),
                table::list_at(twice.definitions, k),
            )
            &&& twice.definitions.dom().contains(k) == once.definitions.dom().contains(k)
            &&& refilled(
                table::list_at(w.packages, k),
                gathered(all_packages(added), k, n),
                files_left(added, n, k),
                table::list_at(once.packages, k),
                table::list_at(twice.packages, k),
            )
            &&& twice.packages.dom().contains(k) == once.packages.dom().contains(k)
            &&& refilled(
                table::list_at(w.subtypes, k),
                gathered(all_subtypes(added), k, n),
                places_outside(added, n),
                table::list_at(once.subtypes, k),
                table::list_at(twice.subtypes, k),
            )
            &&& twice.subtypes.dom().contains(k) == once.subtypes.dom().contains(k)
            &&& refilled(
                table::list_at(w.extension_by_receiver, k),
                gathered(all_extensions(added), k, n),
                extensions_outside(added, n),
                table::list_at(once.extension_by_receiver, k),
                table::list_at(twice.extension_by_receiver, k),
            )
            &&& twice.extension_by_receiver.dom().contains(k) == once.extension_by_receiver.dom().contains(k)
        }),
{
    let n = added.len() as int;
    let once = sources_jar::with_sources(v, added);
    let w = sources_jar::without_all(v, added, n);
    let w2 = sources_jar::without_all(once, added, n);
    lemma_stored(w, added, n);
    lemma_tables_alone(once, added, n);
    lemma_lists_left(once, added, n, k);
    lemma_lists_with(w, added, n, k);
    lemma_lists_with(w2, added, n, k);
}

/// A qualified name stays what it is when files are entered a second time, unless it goes with
/// them and they do not enter it.
proof fn lemma_qualified_again(v: IndexView, added: Seq<ContributionsView>, k: Seq<char>)
    requires
        distinct(added),
        added.len() > 0,
    ensures
        ({
            let n = added.len() as int;
            let once = sources_jar::with_sources(v, added);
            let twice = sources_jar::with_sources(once, added);
            let w = sources_jar::without_all(v, added, n);
            agree(twice.qualified, once.qualified, k) <==> (key_goes(added, n, k)
                && w.qualified.dom().contains(k) ==> some_has(all_qualified(added), n, k))
        }),
{
    let n = added.len() as int;
    let once = sources_jar::with_sources(v, added);
    let w = sources_jar::without_all(v, added, n);
    let w2 = sources_jar::without_all(once, added, n);
    lemma_stored(w, added, n);
    lemma_lists_left(once, added, n, k);
    lemma_qualified_with(w, w, added, n, k);
    lemma_qualified_with(w2, w2, added, n, k);
    if some_has(all_qualified(added), n, k) {
        lemma_qualified_with(w2, w, added, n, k);
    }
}

proof fn lemma_same_again<B>(
    base: Seq<B>,
    more: Seq<B>,
    p: spec_fn(B) -> bool,
    once: Map<Seq<char>, Seq<B>>,
    twice: Map<Seq<char>, Seq<B>>,
    k: Seq<char>,
)
    requires
        refilled(base, more, p, table::list_at(once, k), table::list_at(twice, k)),
        twice.dom().contains(k) == once.dom().contains(k),
    ensures
        parted(base, more, p) <==> agree(twice, once, k),
{
    lemma_list_again(base, more, p, table::list_at(twice, k));
}

/// The tables have the same under a key when files are entered a second time, where the index
/// settles under it and only there.
proof fn lemma_again_at(v: IndexView, added: Seq<ContributionsView>, k: Seq<char>)
    requires
        distinct(added),
        added.len() > 0,
    ensures
        ({
            let once = sources_jar::with_sources(v, added);
            let twice = sources_jar::with_sources(once, added);
            let w = sources_jar::without_all(v, added, added.len() as int);
            settles_at(w, added, k) == (agree(twice.definitions, once.definitions, k) && agree(
                twice.packages,
                once.packages,
                k,
            ) && agree(twice.subtypes, once.subtypes, k) && agree(
                twice.extension_by_receiver,
                once.extension_by_receiver,
                k,
            ) && agree(twice.qualified, once.qualified, k))
        }),
{
    let n = added.len() as int;
    let once = sources_jar::with_sources(v, added);
    let twice = sources_jar::with_sources(once, added);
    let w = sources_jar::without_all(v, added, n);
    lemma_lists_again(v, added, k);
    lemma_qualified_again(v, added, k);
    lemma_same_again(
        table::list_at(w.definitions, k),
        gathered(all_definitions(added), k, n),
        places_left(added, n, k),
        once.definitions,
        twice.definitions,
        k,
    );
    lemma_same_again(
        table::list_at(w.packages, k),
        gathered(all_packages(added), k, n),
        files_left(added, n, k),
        once.packages,
        twice.packages,
        k,
    );
    lemma_same_again(
        table::list_at(w.subtypes, k),
        gathered(all_subtypes(added), k, n),
        places_outside(added, n),
        once.subtypes,
        twice.subtypes,
        k,
    );
    lemma_same_again(
        table::list_at(w.extension_by_receiver, k),
        gathered(all_extensions(added), k, n),
        extensions_outside(added, n),
        once.extension_by_receiver,
        twice.extension_by_receiver,
        k,
    );
}

/// Entering the same files of libraries a second time counts nothing double: the tables, the
/// files, the hashes and the libraries are what they were, and only what depends on names is
/// renewed. This holds of all indexes and files of which it can: where something is left of a
/// file that was taken out, or a file enters what does not go with it, the tables change.
pub proof fn law_libraries_again(v: IndexView, added: Seq<ContributionsView>)
    requires
        distinct(added),
        added.len() > 0,
    ensures
        settles(v, added) == (sources_jar::with_sources(
            sources_jar::with_sources(v, added),
            added,
        ) == jar_index::with_new_names(sources_jar::with_sources(v, added))),
{
    let n = added.len() as int;
    let once = sources_jar::with_sources(v, added);
    let twice = sources_jar::with_sources(once, added);
    let w = sources_jar::without_all(v, added, n);
    let w2 = sources_jar::without_all(once, added, n);
    lemma_settles_at(v, added);
    if settles(v, added) {
        lemma_tables_alone(v, added, n);
        lemma_tables_alone(once, added, n);
        lemma_stored(w, added, n);
        lemma_stored(w2, added, n);
        assert forall|k: Seq<char>|
            agree(twice.definitions, once.definitions, k) && agree(
                twice.packages,
                once.packages,
                k,
            ) && agree(twice.subtypes, once.subtypes, k) && agree(
                twice.extension_by_receiver,
                once.extension_by_receiver,
                k,
            ) && #[trigger] agree(twice.qualified, once.qualified, k) by {
            assert(settles_at(w, added, k));
            lemma_again_at(v, added, k);
        }
        assert(twice.definitions =~= once.definitions) by {
            assert forall|k: Seq<char>| agree(twice.definitions, once.definitions, k) by {
                assert(agree(twice.qualified, once.qualified, k));
            }
            lemma_agree(twice.definitions, once.definitions);
        }
        assert(twice.packages =~= once.packages) by {
            assert forall|k: Seq<char>| agree(twice.packages, once.packages, k) by {
                assert(agree(twice.qualified, once.qualified, k));
            }
            lemma_agree(twice.packages, once.packages);
        }
        assert(twice.subtypes =~= once.subtypes) by {
            assert forall|k: Seq<char>| agree(twice.subtypes, once.subtypes, k) by {
                assert(agree(twice.qualified, once.qualified, k));
            }
            lemma_agree(twice.subtypes, once.subtypes);
        }
        assert(twice.extension_by_receiver =~= once.extension_by_receiver) by {
            assert forall|k: Seq<char>|
                agree(twice.extension_by_receiver, once.extension_by_receiver, k) by {
                assert(agree(twice.qualified, once.qualified, k));
            }
            lemma_agree(twice.extension_by_receiver, once.extension_by_receiver);
        }
        lemma_agree(twice.qualified, once.qualified);
        lemma_files_again(v, added);
        assert(twice =~= jar_index::with_new_names(once));
    }
    if twice == jar_index::with_new_names(once) {
        assert forall|k: Seq<char>| #[trigger] settles_at(w, added, k) by {
            lemma_again_at(v, added, k);
        }
    }
}

/// Files, hashes and libraries are the same when files are entered a second time.
proof fn lemma_files_again(v: IndexView, added: Seq<ContributionsView>)
    requires
        distinct(added),
        added.len() > 0,
    ensures
        ({
            let once = sources_jar::with_sources(v, added);
            let twice = sources_jar::with_sources(once, added);
            &&& twice.files == once.files
            &&& twice.content_hashes == once.content_hashes
            &&& twice.library_uris == once.library_uris
        }),
{
    let n = added.len() as int;
    let once = sources_jar::with_sources(v, added);
    let twice = sources_jar::with_sources(once, added);
    let w = sources_jar::without_all(v, added, n);
    let w2 = sources_jar::without_all(once, added, n);
    lemma_tables_alone(v, added, n);
    lemma_tables_alone(once, added, n);
    lemma_stored(w, added, n);
    lemma_stored(w2, added, n);
    assert forall|u: Seq<char>|
        agree(twice.files, once.files, u) && #[trigger] agree(
            twice.library_uris,
            once.library_uris,
            u,
        ) by {
        if among(added, n, u) {
            let i = choose|i: int| 0 <= i < n && (#[trigger] added[i]).uri == u;
            assert(added[i].uri == u);
        }
    }
    assert forall|u: Seq<char>| agree(twice.files, once.files, u) by {
        assert(agree(twice.library_uris, once.library_uris, u));
    }
    assert forall|k: Seq<char>| agree(twice.content_hashes, once.content_hashes, k) by {
        if hashed(added, n, k) {
            lemma_hashes_with(w2, w, added, n, k);
        } else {
            lemma_hashes_with(w2, w2, added, n, k);
        }
    }
    lemma_agree(twice.files, once.files);
    lemma_agree(twice.content_hashes, once.content_hashes);
    lemma_agree(twice.library_uris, once.library_uris);
}

/// A consistent index takes files of libraries in place of all that it has of them, where what
/// they contribute is what their data tell; so that entering them a second time counts nothing
/// double.
pub proof fn law_consistent_index_settles(v: IndexView, added: Seq<ContributionsView>)
    requires
        takes_in(v, added),
    ensures
        settles(v, added),
        added.len() > 0 ==> sources_jar::with_sources(sources_jar::with_sources(v, added), added)
            == jar_index::with_new_names(sources_jar::with_sources(v, added)),
{
    let n = added.len() as int;
    let w = sources_jar::without_all(v, added, n);
    assert forall|k: Seq<char>| #[trigger] settles_at(w, added, k) by {
        lemma_lists_without(v, added, n, k);
        lists::lemma_filter_holds(table::list_at(v.definitions, k), places_outside(added, n));
        lists::lemma_filter_holds(table::list_at(v.packages, k), names_outside(added, n));
        lists::lemma_filter_holds(table::list_at(v.subtypes, k), places_outside(added, n));
        lists::lemma_filter_holds(
            table::list_at(v.extension_by_receiver, k),
            extensions_outside(added, n),
        );
        assert forall|u: Seq<char>| name_goes(added, n, k, u) implies #[trigger] among(
            added,
            n,
            u,
        ) by {
            let i = choose|i: int|
                0 <= i < n && (#[trigger] added[i]).uri == u && contributions::declared(
                    added[i].file,
                ).contains(k);
            assert(added[i].uri == u);
        }
        assert forall|u: Seq<char>| package_goes(added, n, k, u) implies #[trigger] among(
            added,
            n,
            u,
        ) by {
            let i = choose|i: int|
                0 <= i < n && (#[trigger] added[i]).uri == u && added[i].file.package == Some(k);
            assert(added[i].uri == u);
        }
        assert forall|l: LocationView| #[trigger]
            table::list_at(w.definitions, k).contains(l) implies places_left(added, n, k)(l) by {
            assert(places_outside(added, n)(l));
            assert(!among(added, n, l.uri));
        }
        assert forall|u: Seq<char>| #[trigger]
            table::list_at(w.packages, k).contains(u) implies files_left(added, n, k)(u) by {
            assert(names_outside(added, n)(u));
            assert(!among(added, n, u));
        }
        assert forall|l: LocationView| #[trigger]
            gathered(all_definitions(added), k, n).contains(l) implies !places_left(added, n, k)(
            l,
        ) by {
            let i = lemma_gathered_from(all_definitions(added), k, n, l);
            lemma_own(added, i, k);
            assert(table::list_at(added[i].definitions, k).contains(l));
            assert(added[i].uri == l.uri);
        }
        assert forall|u: Seq<char>| #[trigger]
            gathered(all_packages(added), k, n).contains(u) implies !files_left(added, n, k)(u) by {
            let i = lemma_gathered_from(all_packages(added), k, n, u);
            lemma_own(added, i, k);
            assert(table::list_at(added[i].packages, k).contains(u));
            assert(added[i].uri == u);
        }
        assert forall|l: LocationView| #[trigger]
            gathered(all_subtypes(added), k, n).contains(l) implies !places_outside(added, n)(
            l,
        ) by {
            let i = lemma_gathered_from(all_subtypes(added), k, n, l);
            lemma_own(added, i, k);
            assert(table::list_at(added[i].subtypes, k).contains(l));
            assert(added[i].uri == l.uri);
        }
        assert forall|e: ExtensionView| #[trigger]
            gathered(all_extensions(added), k, n).contains(e) implies !extensions_outside(
            added,
            n,
        )(e) by {
            let i = lemma_gathered_from(all_extensions(added), k, n, e);
            lemma_own(added, i, k);
            assert(table::list_at(added[i].extensions, k).contains(e));
            assert(added[i].uri == e.file_uri);
        }
        if key_goes(added, n, k) {
            let i = choose|i: int|
                0 <= i < n && contributions::declared_keys(
                    (#[trigger] added[i]).file,
                    added[i].uri,
                ).contains(k);
            lemma_keys_entered(added[i], k);
            assert(all_qualified(added)[i].dom().contains(k));
        }
    }
    lemma_settles_at(v, added);
    if n > 0 {
        law_libraries_again(v, added);
    }
}

/// A file enters the qualified names that it declares.
proof fn lemma_keys_entered(c: ContributionsView, k: Seq<char>)
    requires
        at_home(c),
        contributions::declared_keys(c.file, c.uri).contains(k),
    ensures
        c.qualified.dom().contains(k),
{
    let keys = contributions::declared_keys(c.file, c.uri);
    let pairs = contributions::located(
        contributions::qualified_keys(c.file, contributions::file_stem(c.uri)),
        c.uri,
    );
    let i = choose|i: int| 0 <= i < keys.len() && keys[i] == k;
    assert(pairs[i].0 == k);
    laws::lemma_last_wins_dom(pairs, i);
}

/// What a parsed file contributes is what its data tell, and its subtypes stand in the file.
pub proof fn law_parsed_files_are_at_home(f: FileView, uri: Seq<char>, hash: u64)
    ensures
        at_home(laws::own_contributions(f, uri, hash)),
{
    let c = laws::own_contributions(f, uri, hash);
    let pairs = contributions::supertypes_of(f, uri);
    laws::lemma_supertypes_at_home(f, uri, f.symbols.len() as int);
    assert(f.symbols.take(f.symbols.len() as int) =~= f.symbols);
    assert forall|k: Seq<char>, l: LocationView| #[trigger]
        laws::lists(c.subtypes, k, l) implies l.uri == c.uri by {
        laws::lemma_grouped(pairs, contributions::by_supertype(), k);
        assert(group::group_at(pairs, contributions::by_supertype(), k).contains(l));
    }
}

proof fn lemma_agree<B>(a: Map<Seq<char>, B>, b: Map<Seq<char>, B>)
    requires
        forall|k: Seq<char>| #[trigger] agree(a, b, k),
    ensures
        a == b,
{
    assert forall|k: Seq<char>| #[trigger] a.dom().contains(k) == b.dom().contains(k) by {
        assert(agree(a, b, k));
    }
    assert forall|k: Seq<char>| a.dom().contains(k) implies #[trigger] a[k] == b[k] by {
        assert(agree(a, b, k));
    }
    assert(a =~= b);
}

} // verus!
