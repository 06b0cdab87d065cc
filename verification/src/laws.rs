//! What holds of the index as a whole.
use vstd::prelude::*;
use vstd::string::*;

use crate::apply;
use crate::contributions;
use crate::contributions::ContributionsView;
use crate::group;
use crate::group::Grouping;
use crate::index;
use crate::index::IndexView;
use crate::ingest;
use crate::jar;
use crate::jar::SidecarView;
use crate::lists;
use crate::merge;
use crate::table;
use crate::types::{ExtensionView, FileIndexResult, FileView, LocationView};
use crate::urls;

verus! {

// ---------------------------------------------------------------------------
// Lists
// ---------------------------------------------------------------------------

proof fn lemma_with_new_holds<B>(a: Seq<B>, b: Seq<B>)
    ensures
        forall|x: B| #[trigger] group::with_new(a, b).contains(x) == (a.contains(x) || b.contains(x)),
    decreases b.len(),
{
    if b.len() > 0 {
        let c = b.drop_last();
        lemma_with_new_holds(a, c);
        let before = group::with_new(a, c);
        let y = b.last();
        assert forall|x: B| #[trigger] group::with_new(a, b).contains(x) == (a.contains(x)
            || b.contains(x)) by {
            assert(before.contains(x) == (a.contains(x) || c.contains(x)));
            assert(b.contains(x) == (c.contains(x) || x == y)) by {
                if c.contains(x) {
                    let j = choose|j: int| 0 <= j < c.len() && c[j] == x;
                    assert(b[j] == x);
                }
                if b.contains(x) && x != y {
                    let j = choose|j: int| 0 <= j < b.len() && b[j] == x;
                    assert(c[j] == x);
                }
                assert(b[b.len() - 1] == y);
            }
            if !before.contains(y) {
                let after = before.push(y);
                if before.contains(x) {
                    let j = choose|j: int| 0 <= j < before.len() && before[j] == x;
                    assert(after[j] == x);
                }
                assert(after[before.len() as int] == y);
                if after.contains(x) && x != y {
                    let j = choose|j: int| 0 <= j < after.len() && after[j] == x;
                    assert(before[j] == x);
                }
            }
        }
    }
}

pub(crate) proof fn lemma_filter_keeps_all<B>(s: Seq<B>, p: spec_fn(B) -> bool)
    requires
        forall|x: B| s.contains(x) ==> #[trigger] p(x),
    ensures
        s.filter(p) == s,
    decreases s.len(),
{
    reveal(Seq::filter);
    if s.len() > 0 {
        let c = s.drop_last();
        assert forall|x: B| c.contains(x) implies #[trigger] p(x) by {
            let j = choose|j: int| 0 <= j < c.len() && c[j] == x;
            assert(s[j] == x);
        }
        lemma_filter_keeps_all(c, p);
        assert(s.contains(s.last()));
        assert(p(s.last()));
        assert(c.push(s.last()) =~= s);
    } else {
        assert(s.filter(p) =~= s);
    }
}

proof fn lemma_with_new_filter<B>(a: Seq<B>, b: Seq<B>, p: spec_fn(B) -> bool)
    requires
        forall|x: B| a.contains(x) ==> #[trigger] p(x),
        forall|x: B| b.contains(x) ==> !#[trigger] p(x),
    ensures
        group::with_new(a, b).filter(p) == a,
    decreases b.len(),
{
    if b.len() > 0 {
        let c = b.drop_last();
        assert forall|x: B| c.contains(x) implies !#[trigger] p(x) by {
            let j = choose|j: int| 0 <= j < c.len() && c[j] == x;
            assert(b[j] == x);
        }
        lemma_with_new_filter(a, c, p);
        assert(b.contains(b.last()));
        group::with_new(a, c).lemma_filter_push(b.last(), p);
    } else {
        lemma_filter_keeps_all(a, p);
    }
}

/// What stands in a group, and only that, comes from an item of the group.
pub(crate) proof fn lemma_grouped<A, B>(s: Seq<A>, g: Grouping<A, B>, k: Seq<char>)
    ensures
        forall|x: B|
            #[trigger] group::group_at(s, g, k).contains(x) ==> exists|j: int|
                0 <= j < s.len() && (g.keep)(#[trigger] s[j]) && (g.key)(s[j]) == k && (g.value)(
                    s[j],
                ) == x,
        forall|j: int|
            0 <= j < s.len() && (g.keep)(#[trigger] s[j]) && (g.key)(s[j]) == k
                ==> group::group_at(s, g, k).contains((g.value)(s[j])),
{
    let p = group::in_group(g, k);
    let f = s.filter(p);
    lists::lemma_filter_holds(s, p);
    assert forall|x: B| #[trigger] group::group_at(s, g, k).contains(x) implies exists|j: int|
        0 <= j < s.len() && (g.keep)(#[trigger] s[j]) && (g.key)(s[j]) == k && (g.value)(s[j])
            == x by {
        let m = group::group_at(s, g, k);
        let i = choose|i: int| 0 <= i < m.len() && m[i] == x;
        assert(m[i] == (g.value)(f[i]));
        s.lemma_filter_pred(p, i);
        assert(f.contains(f[i]));
        assert(s.contains(f[i]));
        let j = choose|j: int| 0 <= j < s.len() && s[j] == f[i];
        assert((g.keep)(s[j]));
    }
    assert forall|j: int|
        0 <= j < s.len() && (g.keep)(#[trigger] s[j]) && (g.key)(s[j])
            == k implies group::group_at(s, g, k).contains((g.value)(s[j])) by {
        s.lemma_filter_contains(p, j);
        let i = choose|i: int| 0 <= i < f.len() && f[i] == s[j];
        assert(group::group_at(s, g, k)[i] == (g.value)(s[j]));
    }
}

// ---------------------------------------------------------------------------
// Consistency
// ---------------------------------------------------------------------------

/// Whether a table lists a location under a key.
pub open spec fn lists(m: Map<Seq<char>, Seq<LocationView>>, k: Seq<char>, l: LocationView) -> bool {
    m.dom().contains(k) && m[k].contains(l)
}

/// Whether a table lists a file under a key.
pub open spec fn lists_file(m: Map<Seq<char>, Seq<Seq<char>>>, k: Seq<char>, uri: Seq<char>) -> bool {
    m.dom().contains(k) && m[k].contains(uri)
}

/// Whether every declaration and every package that the index lists for a file is one that the
/// file, as the index stores it, has.
pub open spec fn consistent(v: IndexView) -> bool {
    &&& forall|k: Seq<char>, l: LocationView|
        #[trigger] lists(v.definitions, k, l) ==> v.files.dom().contains(l.uri)
            && contributions::declared(v.files[l.uri]).contains(k)
    &&& forall|k: Seq<char>, uri: Seq<char>|
        #[trigger] lists_file(v.packages, k, uri) ==> v.files.dom().contains(uri)
            && v.files[uri].package == Some(k)
}

/// Whether a file declares a name at a place.
pub open spec fn declares(f: FileView, uri: Seq<char>, k: Seq<char>, l: LocationView) -> bool {
    exists|j: int|
        0 <= j < f.symbols.len() && (#[trigger] f.symbols[j]).name == k && l == (LocationView {
            uri,
            range: f.symbols[j].selection_range,
        })
}

pub(crate) proof fn lemma_definitions(f: FileView, uri: Seq<char>, k: Seq<char>, l: LocationView)
    ensures
        lists(contributions::definitions_of(f, uri), k, l) == declares(f, uri, k, l),
{
    let g = contributions::by_name(uri);
    lemma_grouped(f.symbols, g, k);
    if lists(contributions::definitions_of(f, uri), k, l) {
        assert(group::group_at(f.symbols, g, k).contains(l));
    }
    if declares(f, uri, k, l) {
        let j = choose|j: int|
            0 <= j < f.symbols.len() && (#[trigger] f.symbols[j]).name == k && l == (LocationView {
                uri,
                range: f.symbols[j].selection_range,
            });
        assert((g.keep)(f.symbols[j]));
        assert((g.key)(f.symbols[j]) == k);
        assert((g.value)(f.symbols[j]) == l);
        assert(group::has_group(f.symbols, g, k));
    }
}

proof fn lemma_declared(f: FileView, k: Seq<char>)
    ensures
        contributions::declared(f).contains(k) == exists|j: int|
            0 <= j < f.symbols.len() && (#[trigger] f.symbols[j]).name == k,
{
    let d = contributions::declared(f);
    if d.contains(k) {
        let j = choose|j: int| 0 <= j < d.len() && d[j] == k;
        assert(f.symbols[j].name == k);
    }
    if exists|j: int| 0 <= j < f.symbols.len() && (#[trigger] f.symbols[j]).name == k {
        let j = choose|j: int| 0 <= j < f.symbols.len() && (#[trigger] f.symbols[j]).name == k;
        assert(d[j] == k);
    }
}

/// What a file contributes, its own parse result.
pub open spec fn own_contributions(f: FileView, uri: Seq<char>, hash: u64) -> ContributionsView {
    contributions::contributions(f, uri, hash, contributions::supertypes_of(f, uri))
}

/// What is left of the definitions when a file's own are taken out.
proof fn lemma_definitions_kept(v: IndexView, uri: Seq<char>, k: Seq<char>, l: LocationView)
    requires
        consistent(v),
        urls::parsed_url(uri) is Some,
    ensures
        lists(apply::without_stale(v, uri).definitions, k, l) == (lists(v.definitions, k, l)
            && l.uri != uri),
{
    let w = apply::without_stale(v, uri);
    let p = merge::outside(uri);
    if v.definitions.dom().contains(k) {
        let old_list = v.definitions[k];
        lists::lemma_filter_holds(old_list, p);
        if v.files.dom().contains(uri) {
            let names = contributions::declared(v.files[uri]);
            if names.contains(k) {
                assert(w.definitions[k] == old_list.filter(p));
                assert(old_list.filter(p).contains(l) == (old_list.contains(l) && p(l)));
            } else if lists(v.definitions, k, l) && l.uri == uri {
                assert(names.contains(k));
            }
        } else if lists(v.definitions, k, l) && l.uri == uri {
            assert(v.files.dom().contains(uri));
        }
    }
}

proof fn lemma_packages_kept(v: IndexView, uri: Seq<char>, k: Seq<char>, u: Seq<char>)
    requires
        consistent(v),
        urls::parsed_url(uri) is Some,
    ensures
        lists_file(apply::without_stale(v, uri).packages, k, u) == (lists_file(v.packages, k, u)
            && u != uri),
{
    let w = apply::without_stale(v, uri);
    let p = merge::other_names(uri);
    if v.packages.dom().contains(k) {
        let old_list = v.packages[k];
        lists::lemma_filter_holds(old_list, p);
        if v.files.dom().contains(uri) {
            if v.files[uri].package == Some(k) {
                let keys = seq![k];
                assert(keys[0] == k);
                assert(keys.contains(k));
                assert(w.packages[k] == old_list.filter(p));
                assert(old_list.filter(p).contains(u) == (old_list.contains(u) && p(u)));
            } else {
                if let Some(pkg) = v.files[uri].package {
                    let keys = seq![pkg];
                    assert(!keys.contains(k));
                }
                if lists_file(v.packages, k, u) && u == uri {
                    assert(v.files[uri].package == Some(k));
                }
            }
        } else if lists_file(v.packages, k, u) && u == uri {
            assert(v.files.dom().contains(uri));
        }
    }
}

/// Where a name is declared after a file was indexed: where the file declares it, and where it
/// was declared in other files before. Nothing that the file declared earlier is left.
pub proof fn law_indexed_declarations(
    v: IndexView,
    f: FileView,
    uri: Seq<char>,
    hash: u64,
    k: Seq<char>,
    l: LocationView,
)
    requires
        consistent(v),
    ensures
        urls::parsed_url(uri) is Some ==> lists(
            apply::with_contributions(
                apply::without_stale(v, uri),
                own_contributions(f, uri, hash),
            ).definitions,
            k,
            l,
        ) == (if l.uri == uri {
            declares(f, uri, k, l)
        } else {
            lists(v.definitions, k, l)
        }),
{
    if urls::parsed_url(uri) is Some {
        let w = apply::without_stale(v, uri);
        let added = contributions::definitions_of(f, uri);
        lemma_definitions_kept(v, uri, k, l);
        lemma_definitions(f, uri, k, l);
        lemma_with_new_holds(table::list_at(w.definitions, k), added[k]);
        let after = group::combined(w.definitions, added, group::append_new());
        if added.dom().contains(k) {
            assert(after[k] == group::with_new(table::list_at(w.definitions, k), added[k]));
            assert(after[k].contains(l) == (table::list_at(w.definitions, k).contains(l)
                || added[k].contains(l)));
        }
        if declares(f, uri, k, l) {
            assert(l.uri == uri);
        }
    }
}

/// Which files a package has after a file was indexed: the file where it belongs to the package,
/// and the other files that it had before.
pub proof fn law_indexed_packages(
    v: IndexView,
    f: FileView,
    uri: Seq<char>,
    hash: u64,
    k: Seq<char>,
    u: Seq<char>,
)
    requires
        consistent(v),
    ensures
        urls::parsed_url(uri) is Some ==> lists_file(
            apply::with_contributions(
                apply::without_stale(v, uri),
                own_contributions(f, uri, hash),
            ).packages,
            k,
            u,
        ) == (if u == uri {
            f.package == Some(k)
        } else {
            lists_file(v.packages, k, u)
        }),
{
    if urls::parsed_url(uri) is Some {
        let w = apply::without_stale(v, uri);
        let added = contributions::package_of(f, uri);
        lemma_packages_kept(v, uri, k, u);
        lemma_with_new_holds(table::list_at(w.packages, k), added[k]);
        let after = group::combined(w.packages, added, group::append_new());
        if added.dom().contains(k) {
            assert(f.package == Some(k));
            assert(added[k] == seq![uri]);
            assert(added[k][0] == uri);
            assert(after[k] == group::with_new(table::list_at(w.packages, k), added[k]));
            assert(after[k].contains(u) == (table::list_at(w.packages, k).contains(u)
                || added[k].contains(u)));
        }
    }
}

/// Indexing a file keeps the index consistent.
pub proof fn law_indexing_keeps_consistency(v: IndexView, f: FileView, uri: Seq<char>, hash: u64)
    requires
        consistent(v),
    ensures
        urls::parsed_url(uri) is Some ==> consistent(
            apply::with_contributions(
                apply::without_stale(v, uri),
                own_contributions(f, uri, hash),
            ),
        ),
{
    if urls::parsed_url(uri) is Some {
        let after = apply::with_contributions(
            apply::without_stale(v, uri),
            own_contributions(f, uri, hash),
        );
        assert(after.files[uri].symbols == f.symbols);
        assert(after.files[uri].package == f.package);
        assert forall|k: Seq<char>, l: LocationView| #[trigger]
            lists(after.definitions, k, l) implies after.files.dom().contains(l.uri)
            && contributions::declared(after.files[l.uri]).contains(k) by {
            law_indexed_declarations(v, f, uri, hash, k, l);
            if l.uri == uri {
                lemma_declared(after.files[uri], k);
                let j = choose|j: int|
                    0 <= j < f.symbols.len() && (#[trigger] f.symbols[j]).name == k && l == (
                    LocationView { uri, range: f.symbols[j].selection_range });
                assert(after.files[uri].symbols[j].name == k);
            } else {
                assert(lists(v.definitions, k, l));
            }
        }
        assert forall|k: Seq<char>, u: Seq<char>| #[trigger]
            lists_file(after.packages, k, u) implies after.files.dom().contains(u)
            && after.files[u].package == Some(k) by {
            law_indexed_packages(v, f, uri, hash, k, u);
            if u != uri {
                assert(lists_file(v.packages, k, u));
            }
        }
    }
}

/// An index that holds nothing is consistent.
pub proof fn law_empty_index_is_consistent()
    ensures
        consistent(index::empty_index()),
{
}

// ---------------------------------------------------------------------------
// Single files and whole workspaces
// ---------------------------------------------------------------------------

/// An index in which a file stands in place of what it was before.
pub open spec fn reindexed(v: IndexView, f: FileView, uri: Seq<char>, hash: u64) -> IndexView {
    apply::with_contributions(apply::without_stale(v, uri), own_contributions(f, uri, hash))
}

/// Indexing new content of a file keeps the index consistent, and a name is declared where the
/// new content declares it and where other files declared it before.
pub proof fn law_index_content(
    v: IndexView,
    uri: Seq<char>,
    content: &str,
    f: FileView,
    path: Option<Seq<char>>,
    k: Seq<char>,
    l: LocationView,
)
    requires
        consistent(v),
    ensures
        urls::parsed_url(uri) is Some ==> {
            let after = ingest::with_content(v, uri, content, f, path);
            &&& consistent(after)
            &&& lists(after.definitions, k, l) == (if l.uri == uri {
                declares(f, uri, k, l)
            } else {
                lists(v.definitions, k, l)
            })
        },
{
    let cleared = IndexView {
        parse_count: v.parse_count.wrapping_add(1),
        completion_cache: v.completion_cache.remove(uri),
        last_completion: None,
        sig_cache: Map::empty(),
        ..v
    };
    assert(consistent(cleared)) by {
        assert(cleared.definitions == v.definitions);
        assert(cleared.packages == v.packages);
        assert(cleared.files == v.files);
    }
    let hash = apply::fnv(content.spec_bytes());
    law_indexed_declarations(cleared, f, uri, hash, k, l);
    law_indexing_keeps_consistency(cleared, f, uri, hash);
    if urls::parsed_url(uri) is Some {
        let after = ingest::with_content(v, uri, content, f, path);
        let entered = reindexed(cleared, f, uri, hash);
        assert(after.definitions == entered.definitions);
        assert(after.packages == entered.packages);
        assert(after.files == entered.files);
    }
}

/// Whether all files of a list have URIs of their own, none of which the index knows.
pub open spec fn all_new(v: IndexView, files: Seq<FileIndexResult>) -> bool {
    &&& forall|i: int| 0 <= i < files.len() ==> !v.files.dom().contains((#[trigger] files[i]).uri@)
    &&& forall|i: int, j: int|
        0 <= i < j < files.len() ==> (#[trigger] files[i]).uri@ != (#[trigger] files[j]).uri@
}

proof fn lemma_fresh_file(v: IndexView, c: ContributionsView, path: Option<Seq<char>>)
    requires
        consistent(v),
        !v.files.dom().contains(c.uri),
        c.definitions == contributions::definitions_of(c.file, c.uri),
        c.packages == contributions::package_of(c.file, c.uri),
    ensures
        consistent(apply::with_fresh_file(v, c, path)),
        apply::with_fresh_file(v, c, path).files.dom() == v.files.dom().insert(c.uri),
{
    let after = apply::with_fresh_file(v, c, path);
    let f = c.file;
    assert(after.files[c.uri].symbols == f.symbols);
    assert(after.files[c.uri].package == f.package);
    assert(after.definitions == group::merged(v.definitions, c.definitions));
    assert(after.packages == group::merged(v.packages, c.packages));
    assert forall|k: Seq<char>, l: LocationView| #[trigger]
        lists(after.definitions, k, l) implies after.files.dom().contains(l.uri)
        && contributions::declared(after.files[l.uri]).contains(k) by {
        let a = table::list_at(v.definitions, k);
        let b = table::list_at(c.definitions, k);
        let i = choose|i: int| 0 <= i < (a + b).len() && (a + b)[i] == l;
        if i < a.len() {
            assert(a[i] == l);
            assert(a.contains(l));
            assert(lists(v.definitions, k, l));
        } else {
            assert(b[i - a.len()] == l);
            assert(b.contains(l));
            assert(lists(c.definitions, k, l));
            lemma_definitions(f, c.uri, k, l);
            lemma_declared(after.files[c.uri], k);
            let j = choose|j: int|
                0 <= j < f.symbols.len() && (#[trigger] f.symbols[j]).name == k && l == (
                LocationView { uri: c.uri, range: f.symbols[j].selection_range });
            assert(after.files[c.uri].symbols[j].name == k);
        }
    }
    assert forall|k: Seq<char>, u: Seq<char>| #[trigger]
        lists_file(after.packages, k, u) implies after.files.dom().contains(u)
        && after.files[u].package == Some(k) by {
        let a = table::list_at(v.packages, k);
        let b = table::list_at(c.packages, k);
        let i = choose|i: int| 0 <= i < (a + b).len() && (a + b)[i] == u;
        if i < a.len() {
            assert(a[i] == u);
            assert(a.contains(u));
            assert(lists_file(v.packages, k, u));
        } else {
            assert(b[i - a.len()] == u);
            assert(f.package == Some(k));
            assert(u == c.uri);
        }
    }
    assert(after.files.dom() =~= v.files.dom().insert(c.uri));
}

proof fn lemma_files(
    v: IndexView,
    files: Seq<FileIndexResult>,
    paths: Seq<Option<Seq<char>>>,
    n: int,
)
    requires
        consistent(v),
        all_new(v, files),
        0 <= n <= files.len(),
        files.len() == paths.len(),
    ensures
        consistent(ingest::with_files(v, files, paths, n)),
        forall|u: Seq<char>| #[trigger]
            ingest::with_files(v, files, paths, n).files.dom().contains(u) ==> v.files.dom().contains(
                u,
            ) || exists|i: int| 0 <= i < n && (#[trigger] files[i]).uri@ == u,
    decreases n,
{
    if n > 0 {
        lemma_files(v, files, paths, n - 1);
        let w = ingest::with_files(v, files, paths, n - 1);
        let c = ingest::contributed(files[n - 1]);
        assert(!w.files.dom().contains(c.uri)) by {
            if w.files.dom().contains(c.uri) {
                if !v.files.dom().contains(c.uri) {
                    let i = choose|i: int| 0 <= i < n - 1 && (#[trigger] files[i]).uri@ == c.uri;
                    assert(files[i].uri@ != files[n - 1].uri@);
                }
            }
        }
        lemma_fresh_file(w, c, paths[n - 1]);
        assert forall|u: Seq<char>| #[trigger]
            ingest::with_files(v, files, paths, n).files.dom().contains(
                u,
            ) implies v.files.dom().contains(u) || exists|i: int|
            0 <= i < n && (#[trigger] files[i]).uri@ == u by {
            if u == c.uri {
                assert(files[n - 1].uri@ == u);
            } else {
                assert(w.files.dom().contains(u));
                if !v.files.dom().contains(u) {
                    let i = choose|i: int| 0 <= i < n - 1 && (#[trigger] files[i]).uri@ == u;
                    assert(files[i].uri@ == u);
                }
            }
        }
    }
}

/// A workspace of distinct files gives a consistent index, whatever the index held before.
pub proof fn law_workspace_is_consistent(
    v: IndexView,
    files: Seq<FileIndexResult>,
    paths: Seq<Option<Seq<char>>>,
)
    requires
        files.len() == paths.len(),
        forall|i: int, j: int|
            0 <= i < j < files.len() ==> (#[trigger] files[i]).uri@ != (#[trigger] files[j]).uri@,
    ensures
        consistent(ingest::with_workspace(v, files, paths)),
{
    let start = ingest::reset(v);
    assert(consistent(start));
    assert(all_new(start, files));
    lemma_files(start, files, paths, files.len() as int);
    let w = ingest::with_files(start, files, paths, files.len() as int);
    let after = ingest::with_workspace(v, files, paths);
    assert(after.definitions == w.definitions);
    assert(after.packages == w.packages);
    assert(after.files == w.files);
}

// ---------------------------------------------------------------------------
// Indexing again
// ---------------------------------------------------------------------------

/// Taking lists in, dropping what they brought and taking them in again is taking them in once.
proof fn lemma_again<B>(
    a: Map<Seq<char>, Seq<B>>,
    b: Map<Seq<char>, Seq<B>>,
    c: Map<Seq<char>, Seq<B>>,
    p: spec_fn(B) -> bool,
)
    requires
        forall|k: Seq<char>, x: B|
            a.dom().contains(k) && #[trigger] a[k].contains(x) ==> p(x),
        forall|k: Seq<char>, x: B|
            b.dom().contains(k) && #[trigger] b[k].contains(x) ==> !p(x),
        c.dom() == group::combined(a, b, group::append_new()).dom(),
        forall|k: Seq<char>|
            b.dom().contains(k) ==> #[trigger] c[k] == group::combined(
                a,
                b,
                group::append_new(),
            )[k].filter(p),
        forall|k: Seq<char>| a.dom().contains(k) && !b.dom().contains(k) ==> #[trigger] c[k] == a[k],
    ensures
        group::combined(c, b, group::append_new()) == group::combined(a, b, group::append_new()),
{
    let once = group::combined(a, b, group::append_new());
    let twice = group::combined(c, b, group::append_new());
    assert forall|k: Seq<char>| once.dom().contains(k) implies #[trigger] twice[k] == once[k] by {
        if b.dom().contains(k) {
            let list = table::list_at(a, k);
            assert forall|x: B| list.contains(x) implies #[trigger] p(x) by {
                assert(a[k].contains(x));
            }
            assert forall|x: B| b[k].contains(x) implies !#[trigger] p(x) by {}
            lemma_with_new_filter(list, b[k], p);
            assert(once[k] == group::with_new(list, b[k]));
            assert(c[k] == list);
            assert(table::list_at(c, k) == list);
        }
    }
    assert(twice.dom() =~= once.dom());
    assert(twice =~= once);
}

pub(crate) proof fn lemma_supertypes_at_home(f: FileView, uri: Seq<char>, n: int)
    requires
        0 <= n <= f.symbols.len(),
    ensures
        forall|i: int|
            0 <= i < f.symbols.take(n).flat_map(contributions::supers_by_symbol(f, uri)).len()
                ==> (#[trigger] f.symbols.take(n).flat_map(
                contributions::supers_by_symbol(f, uri),
            )[i]).1.uri == uri,
    decreases n,
{
    let g = contributions::supers_by_symbol(f, uri);
    if n > 0 {
        lemma_supertypes_at_home(f, uri, n - 1);
        let before = f.symbols.take(n - 1).flat_map(g);
        let s = f.symbols[n - 1];
        assert(f.symbols.take(n) =~= f.symbols.take(n - 1).push(s));
        f.symbols.take(n - 1).lemma_flat_map_push(g, s);
        let whole = f.symbols.take(n).flat_map(g);
        assert(whole == before + g(s));
        assert forall|i: int| 0 <= i < whole.len() implies (#[trigger] whole[i]).1.uri == uri by {
            if i < before.len() {
                assert(whole[i] == before[i]);
            } else {
                assert(whole[i] == g(s)[i - before.len()]);
            }
        }
    } else {
        assert(f.symbols.take(0) =~= Seq::empty());
        reveal_with_fuel(Seq::flatten, 1);
        assert(f.symbols.take(0).flat_map(g).len() == 0);
    }
}

pub(crate) proof fn lemma_last_wins_dom<B>(pairs: Seq<(Seq<char>, B)>, i: int)
    requires
        0 <= i < pairs.len(),
    ensures
        group::last_wins(pairs).dom().contains(pairs[i].0),
    decreases pairs.len(),
{
    if i < pairs.len() - 1 {
        assert(pairs.drop_last()[i] == pairs[i]);
        lemma_last_wins_dom(pairs.drop_last(), i);
    }
}

/// The qualified names of a file are entered again wherever they were taken out.
proof fn lemma_qualified_again(a: Map<Seq<char>, LocationView>, f: FileView, uri: Seq<char>)
    ensures
        ({
            let q = contributions::qualified_of(f, uri);
            let once = group::overwritten(a, q);
            group::overwritten(
                merge::without_keys(once, contributions::declared_keys(f, uri)),
                q,
            ) == once
        }),
{
    let q = contributions::qualified_of(f, uri);
    let once = group::overwritten(a, q);
    let keys = contributions::declared_keys(f, uri);
    let twice = group::overwritten(merge::without_keys(once, keys), q);
    let pairs = contributions::located(
        contributions::qualified_keys(f, contributions::file_stem(uri)),
        uri,
    );
    let left = merge::without_keys(once, keys);
    assert forall|k: Seq<char>| #[trigger] twice.dom().contains(k) == once.dom().contains(k) by {
        if once.dom().contains(k) && !left.dom().contains(k) {
            assert(keys.to_set().contains(k));
            assert(keys.contains(k));
            let i = choose|i: int| 0 <= i < keys.len() && keys[i] == k;
            assert(pairs[i].0 == k);
            lemma_last_wins_dom(pairs, i);
        }
    }
    assert forall|k: Seq<char>| once.dom().contains(k) implies #[trigger] twice[k] == once[k] by {
        if !q.dom().contains(k) {
            assert(twice.dom().contains(k));
            assert(left.dom().contains(k));
        }
    }
    assert(twice.dom() =~= once.dom());
    assert(twice =~= once);
}

/// Whether no subtype and no extension is listed for a file.
pub open spec fn unlisted(v: IndexView, uri: Seq<char>) -> bool {
    &&& forall|k: Seq<char>, l: LocationView| #[trigger] lists(v.subtypes, k, l) ==> l.uri != uri
    &&& forall|k: Seq<char>, e: ExtensionView|
        v.extension_by_receiver.dom().contains(k)
            && #[trigger] v.extension_by_receiver[k].contains(e) ==> e.file_uri != uri
}

proof fn lemma_unlisted(v: IndexView, uri: Seq<char>)
    requires
        v.files.dom().contains(uri) || unlisted(v, uri),
        urls::parsed_url(uri) is Some,
    ensures
        unlisted(apply::without_stale(v, uri), uri),
{
    let w = apply::without_stale(v, uri);
    if v.files.dom().contains(uri) {
        assert forall|k: Seq<char>, l: LocationView| #[trigger]
            lists(w.subtypes, k, l) implies l.uri != uri by {
            lists::lemma_filter_holds(v.subtypes[k], merge::outside(uri));
            assert(v.subtypes[k].filter(merge::outside(uri)).contains(l));
        }
        assert forall|k: Seq<char>, e: ExtensionView|
            w.extension_by_receiver.dom().contains(k)
                && #[trigger] w.extension_by_receiver[k].contains(e) implies e.file_uri != uri by {
            lists::lemma_filter_holds(v.extension_by_receiver[k], merge::of_others(uri));
            assert(v.extension_by_receiver[k].filter(merge::of_others(uri)).contains(e));
        }
    }
}

proof fn lemma_replaced(a: Seq<ExtensionView>, b: Seq<ExtensionView>, uri: Seq<char>)
    requires
        forall|e: ExtensionView| #[trigger] a.contains(e) ==> e.file_uri != uri,
        forall|e: ExtensionView| #[trigger] b.contains(e) ==> e.file_uri == uri,
    ensures
        merge::replacing_files()(a, b) == a + b,
        (a + b).filter(merge::of_others(uri)) == a,
{
    let q = merge::of_other_files(b);
    assert forall|e: ExtensionView| a.contains(e) implies #[trigger] q(e) by {
        if merge::from_file(b, e.file_uri) {
            let i = choose|i: int| 0 <= i < b.len() && (#[trigger] b[i]).file_uri == e.file_uri;
            assert(b.contains(b[i]));
        }
    }
    lemma_filter_keeps_all(a, q);
    let p = merge::of_others(uri);
    assert forall|e: ExtensionView| a.contains(e) implies #[trigger] p(e) by {}
    lemma_filter_keeps_all(a, p);
    Seq::filter_distributes_over_add(a, b, p);
    lists::lemma_filter_holds(b, p);
    assert(b.filter(p).len() == 0) by {
        if b.filter(p).len() > 0 {
            assert(b.filter(p).contains(b.filter(p)[0]));
        }
    }
    assert(a + b.filter(p) =~= a);
}

proof fn lemma_packages_again(v: IndexView, f: FileView, uri: Seq<char>, hash: u64)
    requires
        consistent(v),
        urls::parsed_url(uri) is Some,
    ensures
        reindexed(reindexed(v, f, uri, hash), f, uri, hash).packages == reindexed(
            v,
            f,
            uri,
            hash,
        ).packages,
{
    let a = apply::without_stale(v, uri).packages;
    let b = contributions::package_of(f, uri);
    let once = reindexed(v, f, uri, hash);
    let c = apply::without_stale(once, uri).packages;
    let p = merge::other_names(uri);
    assert forall|k: Seq<char>, x: Seq<char>| a.dom().contains(k)
        && #[trigger] a[k].contains(x) implies p(x) by {
        lemma_packages_kept(v, uri, k, x);
        assert(lists_file(a, k, x));
    }
    assert(once.files[uri].package == f.package);
    if let Some(pkg) = f.package {
        let keys = seq![pkg];
        assert(keys[0] == pkg);
        assert(keys.contains(pkg));
        assert(b[pkg] == seq![uri]);
        assert forall|k: Seq<char>| k != pkg implies !#[trigger] keys.contains(k) by {}
    }
    assert(c.dom() =~= once.packages.dom());
    lemma_again(a, b, c, p);
}

proof fn lemma_subtypes_again(v: IndexView, f: FileView, uri: Seq<char>, hash: u64)
    requires
        v.files.dom().contains(uri) || unlisted(v, uri),
        urls::parsed_url(uri) is Some,
    ensures
        reindexed(reindexed(v, f, uri, hash), f, uri, hash).subtypes == reindexed(
            v,
            f,
            uri,
            hash,
        ).subtypes,
{
    lemma_unlisted(v, uri);
    let a = apply::without_stale(v, uri).subtypes;
    let pairs = contributions::supertypes_of(f, uri);
    let b = group::grouped(pairs, contributions::by_supertype());
    let once = reindexed(v, f, uri, hash);
    let c = apply::without_stale(once, uri).subtypes;
    let p = merge::outside(uri);
    assert forall|k: Seq<char>, x: LocationView| a.dom().contains(k)
        && #[trigger] a[k].contains(x) implies p(x) by {
        assert(lists(a, k, x));
    }
    assert forall|k: Seq<char>, x: LocationView| b.dom().contains(k)
        && #[trigger] b[k].contains(x) implies !p(x) by {
        lemma_supertypes_at_home(f, uri, f.symbols.len() as int);
        assert(f.symbols.take(f.symbols.len() as int) =~= f.symbols);
        lemma_grouped(pairs, contributions::by_supertype(), k);
        assert(group::group_at(pairs, contributions::by_supertype(), k).contains(x));
    }
    assert(c.dom() =~= once.subtypes.dom());
    assert forall|k: Seq<char>| a.dom().contains(k) && !b.dom().contains(k) implies #[trigger] c[k]
        == a[k] by {
        assert(once.subtypes[k] == a[k]);
        assert forall|x: LocationView| a[k].contains(x) implies #[trigger] p(x) by {}
        lemma_filter_keeps_all(a[k], p);
    }
    lemma_again(a, b, c, p);
}

/// Taking lists in, dropping what they brought and taking them in again is taking them in once,
/// for any way of taking a list in that what is dropped undoes.
proof fn lemma_undone<B>(
    a: Map<Seq<char>, Seq<B>>,
    b: Map<Seq<char>, Seq<B>>,
    r: group::Combine<B>,
    p: spec_fn(B) -> bool,
)
    requires
        forall|k: Seq<char>|
            a.dom().contains(k) && !b.dom().contains(k) ==> (#[trigger] a[k]).filter(p) == a[k],
        forall|k: Seq<char>|
            #[trigger] b.dom().contains(k) ==> r(table::list_at(a, k), b[k]).filter(p)
                == table::list_at(a, k),
    ensures
        group::combined(merge::all_kept(group::combined(a, b, r), p), b, r) == group::combined(
            a,
            b,
            r,
        ),
{
    let once = group::combined(a, b, r);
    let c = merge::all_kept(once, p);
    let twice = group::combined(c, b, r);
    assert forall|k: Seq<char>| once.dom().contains(k) implies #[trigger] twice[k] == once[k] by {
        if b.dom().contains(k) {
            assert(once[k] == r(table::list_at(a, k), b[k]));
            assert(c[k] == once[k].filter(p));
            assert(table::list_at(c, k) == table::list_at(a, k));
        } else {
            assert(a.dom().contains(k));
            assert(once[k] == a[k]);
            assert(c[k] == a[k].filter(p));
        }
    }
    assert(twice.dom() =~= once.dom());
    assert(twice =~= once);
}

/// The extensions of a file are entered again wherever they were taken out.
proof fn lemma_extensions_replaced(
    a: Map<Seq<char>, Seq<ExtensionView>>,
    b: Map<Seq<char>, Seq<ExtensionView>>,
    uri: Seq<char>,
)
    requires
        forall|k: Seq<char>, e: ExtensionView|
            a.dom().contains(k) && #[trigger] a[k].contains(e) ==> e.file_uri != uri,
        forall|k: Seq<char>, e: ExtensionView|
            b.dom().contains(k) && #[trigger] b[k].contains(e) ==> e.file_uri == uri,
    ensures
        ({
            let once = group::combined(a, b, merge::replacing_files());
            group::combined(
                merge::all_kept(once, merge::of_others(uri)),
                b,
                merge::replacing_files(),
            ) == once
        }),
{
    let r = merge::replacing_files();
    let p = merge::of_others(uri);
    assert forall|k: Seq<char>| a.dom().contains(k) && !b.dom().contains(k) implies (
    #[trigger] a[k]).filter(p) == a[k] by {
        assert forall|e: ExtensionView| a[k].contains(e) implies #[trigger] p(e) by {}
        lemma_filter_keeps_all(a[k], p);
    }
    assert forall|k: Seq<char>| #[trigger] b.dom().contains(k) implies r(
        table::list_at(a, k),
        b[k],
    ).filter(p) == table::list_at(a, k) by {
        let list = table::list_at(a, k);
        assert forall|e: ExtensionView| #[trigger] list.contains(e) implies e.file_uri != uri by {
            assert(a.dom().contains(k));
            assert(a[k].contains(e));
        }
        lemma_replaced(list, b[k], uri);
    }
    lemma_undone(a, b, r, p);
}

proof fn lemma_extensions_again(v: IndexView, f: FileView, uri: Seq<char>, hash: u64)
    requires
        v.files.dom().contains(uri) || unlisted(v, uri),
        urls::parsed_url(uri) is Some,
    ensures
        reindexed(reindexed(v, f, uri, hash), f, uri, hash).extension_by_receiver == reindexed(
            v,
            f,
            uri,
            hash,
        ).extension_by_receiver,
{
    lemma_unlisted(v, uri);
    let a = apply::without_stale(v, uri).extension_by_receiver;
    let b = contributions::extensions_of(f, uri);
    assert forall|k: Seq<char>, e: ExtensionView| b.dom().contains(k)
        && #[trigger] b[k].contains(e) implies e.file_uri == uri by {
        lemma_grouped(f.symbols, contributions::by_receiver(f, uri), k);
        assert(group::group_at(f.symbols, contributions::by_receiver(f, uri), k).contains(e));
    }
    lemma_extensions_replaced(a, b, uri);
}

pub(crate) proof fn lemma_names_are_keys(f: FileView, uri: Seq<char>, k: Seq<char>)
    ensures
        contributions::declared(f).contains(k) == contributions::definitions_of(
            f,
            uri,
        ).dom().contains(k),
{
    let by = contributions::by_name(uri);
    lemma_declared(f, k);
    if group::has_group(f.symbols, by, k) {
        let j = choose|j: int|
            0 <= j < f.symbols.len() && (by.keep)(#[trigger] f.symbols[j]) && (by.key)(
                f.symbols[j],
            ) == k;
        assert(f.symbols[j].name == k);
    }
    if contributions::declared(f).contains(k) {
        let j = choose|j: int| 0 <= j < f.symbols.len() && (#[trigger] f.symbols[j]).name == k;
        assert((by.keep)(f.symbols[j]));
        assert((by.key)(f.symbols[j]) == k);
        assert(group::has_group(f.symbols, by, k));
    }
}

proof fn lemma_definitions_again(v: IndexView, f: FileView, uri: Seq<char>, hash: u64)
    requires
        consistent(v),
        urls::parsed_url(uri) is Some,
    ensures
        reindexed(reindexed(v, f, uri, hash), f, uri, hash).definitions == reindexed(
            v,
            f,
            uri,
            hash,
        ).definitions,
{
    let a = apply::without_stale(v, uri).definitions;
    let b = contributions::definitions_of(f, uri);
    let names = contributions::declared(f);
    let p = merge::outside(uri);
    let once = group::combined(a, b, group::append_new());
    let c = merge::kept_at(once, names, p);
    assert(c == apply::without_stale(reindexed(v, f, uri, hash), uri).definitions) by {
        let stored = reindexed(v, f, uri, hash).files[uri];
        assert(stored.symbols == f.symbols);
        assert(contributions::declared(stored) == names);
    }
    assert forall|k: Seq<char>, x: LocationView| a.dom().contains(k)
        && #[trigger] a[k].contains(x) implies p(x) by {
        lemma_definitions_kept(v, uri, k, x);
        assert(lists(a, k, x));
    }
    assert forall|k: Seq<char>, x: LocationView| b.dom().contains(k)
        && #[trigger] b[k].contains(x) implies !p(x) by {
        lemma_definitions(f, uri, k, x);
        assert(lists(b, k, x));
    }
    assert(c.dom() =~= once.dom());
    assert forall|k: Seq<char>| b.dom().contains(k) implies #[trigger] c[k] == once[k].filter(
        p,
    ) by {
        lemma_names_are_keys(f, uri, k);
    }
    assert forall|k: Seq<char>| a.dom().contains(k) && !b.dom().contains(k) implies #[trigger] c[k]
        == a[k] by {
        lemma_names_are_keys(f, uri, k);
    }
    lemma_again(a, b, c, p);
}

/// Indexing the same content of a file a second time changes nothing.
pub proof fn law_indexing_again(v: IndexView, f: FileView, uri: Seq<char>, hash: u64)
    requires
        consistent(v),
        v.files.dom().contains(uri) || unlisted(v, uri),
    ensures
        urls::parsed_url(uri) is Some ==> reindexed(reindexed(v, f, uri, hash), f, uri, hash)
            == reindexed(v, f, uri, hash),
{
    if urls::parsed_url(uri) is Some {
        let once = reindexed(v, f, uri, hash);
        let twice = reindexed(once, f, uri, hash);
        lemma_definitions_again(v, f, uri, hash);
        lemma_packages_again(v, f, uri, hash);
        lemma_subtypes_again(v, f, uri, hash);
        lemma_extensions_again(v, f, uri, hash);
        lemma_qualified_again(apply::without_stale(v, uri).qualified, f, uri);
        assert(once.files[uri].symbols == f.symbols);
        assert(once.files[uri].package == f.package);
        assert(contributions::declared_keys(once.files[uri], uri) == contributions::declared_keys(
            f,
            uri,
        ));
        assert(twice.qualified == once.qualified);
        assert(twice.files =~= once.files);
        assert(twice.content_hashes =~= once.content_hashes);
        assert(twice =~= once);
    }
}

// ---------------------------------------------------------------------------
// Compiled libraries
// ---------------------------------------------------------------------------

/// Where compiled libraries declare a name after one was entered: where they did before, and
/// where the new one has it.
pub proof fn law_library_declarations(
    v: IndexView,
    uri: Seq<char>,
    syms: Seq<SidecarView>,
    k: Seq<char>,
    l: LocationView,
)
    ensures
        lists(jar::with_jar(v, uri, syms).jar_definitions, k, l) == (lists(v.jar_definitions, k, l)
            || declares(jar::jar_file(syms), uri, k, l)),
{
    let b = contributions::definitions_of(jar::jar_file(syms), uri);
    lemma_definitions(jar::jar_file(syms), uri, k, l);
    let x = table::list_at(v.jar_definitions, k);
    let y = table::list_at(b, k);
    if lists(v.jar_definitions, k, l) {
        let i = choose|i: int| 0 <= i < x.len() && x[i] == l;
        assert((x + y)[i] == l);
    }
    if lists(b, k, l) {
        let i = choose|i: int| 0 <= i < y.len() && y[i] == l;
        assert((x + y)[x.len() + i] == l);
    }
    if (x + y).contains(l) {
        let i = choose|i: int| 0 <= i < (x + y).len() && (x + y)[i] == l;
        if i < x.len() {
            assert(x[i] == l);
        } else {
            assert(y[i - x.len()] == l);
        }
    }
}

/// Whether the index knows nothing of a compiled library, and lists no name without a place.
pub open spec fn free_of_library(v: IndexView, uri: Seq<char>) -> bool {
    &&& !v.jar_files.dom().contains(uri)
    &&& !v.jar_uri_to_defs.dom().contains(uri)
    &&& forall|k: Seq<char>| #[trigger]
        v.jar_definitions.dom().contains(k) ==> v.jar_definitions[k].len() > 0
    &&& forall|k: Seq<char>, l: LocationView| #[trigger]
        lists(v.jar_definitions, k, l) ==> l.uri != uri
}

proof fn lemma_pruned(a: Seq<LocationView>, b: Seq<LocationView>, uri: Seq<char>)
    requires
        forall|l: LocationView| #[trigger] a.contains(l) ==> l.uri != uri,
        forall|l: LocationView| #[trigger] b.contains(l) ==> l.uri == uri,
    ensures
        (a + b).filter(merge::outside(uri)) == a,
{
    let p = merge::outside(uri);
    assert forall|l: LocationView| a.contains(l) implies #[trigger] p(l) by {}
    lemma_filter_keeps_all(a, p);
    Seq::filter_distributes_over_add(a, b, p);
    lists::lemma_filter_holds(b, p);
    assert(b.filter(p).len() == 0) by {
        if b.filter(p).len() > 0 {
            assert(b.filter(p).contains(b.filter(p)[0]));
        }
    }
    assert(a + b.filter(p) =~= a);
}

/// Taking a compiled library out again leaves its tables as they were before it was entered.
pub proof fn law_library_removed(v: IndexView, uri: Seq<char>, syms: Seq<SidecarView>)
    requires
        free_of_library(v, uri),
    ensures
        ({
            let after = jar::without_jar(jar::with_jar(v, uri, syms), uri);
            &&& after.jar_definitions == v.jar_definitions
            &&& after.jar_uri_to_defs == v.jar_uri_to_defs
            &&& after.jar_files == v.jar_files
        }),
{
    let f = jar::jar_file(syms);
    let a = v.jar_definitions;
    let b = contributions::definitions_of(f, uri);
    let with = jar::with_jar(v, uri, syms);
    let names = with.jar_uri_to_defs[uri];
    let p = merge::outside(uri);
    let after = jar::without_jar(with, uri);
    assert(names =~= contributions::declared(f));
    assert(after.jar_definitions == jar::pruned_at(group::merged(a, b), names, p));
    assert forall|k: Seq<char>|
        names.contains(k) implies table::list_at(with.jar_definitions, k).filter(p)
        == #[trigger] table::list_at(a, k) by {
        let x = table::list_at(a, k);
        let y = table::list_at(b, k);
        lemma_names_are_keys(f, uri, k);
        assert forall|l: LocationView| #[trigger] x.contains(l) implies l.uri != uri by {
            assert(lists(a, k, l));
        }
        assert forall|l: LocationView| #[trigger] y.contains(l) implies l.uri == uri by {
            lemma_definitions(f, uri, k, l);
            assert(lists(b, k, l));
        }
        lemma_pruned(x, y, uri);
        assert(with.jar_definitions[k] == x + y);
    }
    let pruned = after.jar_definitions;
    assert forall|k: Seq<char>| #[trigger] pruned.dom().contains(k) == a.dom().contains(k) by {
        lemma_names_are_keys(f, uri, k);
        let x = table::list_at(a, k);
        if names.contains(k) {
            assert(with.jar_definitions[k].filter(p) == x);
        }
    }
    assert forall|k: Seq<char>| a.dom().contains(k) implies #[trigger] pruned[k] == a[k] by {
        lemma_names_are_keys(f, uri, k);
        let x = table::list_at(a, k);
        if names.contains(k) {
            assert(with.jar_definitions[k].filter(p) == x);
        } else {
            assert(with.jar_definitions[k] == x + Seq::empty());
            assert(x + Seq::empty() =~= x);
        }
    }
    assert(pruned.dom() =~= a.dom());
    assert(pruned =~= a);
    assert(after.jar_uri_to_defs =~= v.jar_uri_to_defs);
    assert(after.jar_files =~= v.jar_files);
}

} // verus!
