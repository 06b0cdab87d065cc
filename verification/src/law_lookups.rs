//! Where names lead, said of the symbols, imports and packages of files.
use vstd::prelude::*;
use vstd::string::*;

use crate::index::IndexView;
use crate::lists;
use crate::lookup;
use crate::types::{FileView, LocationView, SymbolView};
use crate::workspace;

verus! {

/// Whether a file is known: from sources, or else from a compiled library.
pub open spec fn is_file(v: IndexView, uri: Seq<char>, f: FileView) -> bool {
    ||| v.files.dom().contains(uri) && v.files[uri] == f
    ||| !v.files.dom().contains(uri) && v.jar_files.dom().contains(uri) && v.jar_files[uri] == f
}

/// Whether no file of a URI is known.
pub open spec fn is_no_file(v: IndexView, uri: Seq<char>) -> bool {
    !v.files.dom().contains(uri) && !v.jar_files.dom().contains(uri)
}

/// Whether locations are those of the symbols at some places of a file, which are all that bear a
/// name, in their order.
pub open spec fn are_places(
    found: Seq<LocationView>,
    symbols: Seq<SymbolView>,
    at: Seq<int>,
    uri: Seq<char>,
    name: Seq<char>,
) -> bool {
    &&& found.len() == at.len()
    &&& forall|i: int|
        0 <= i < at.len() ==> 0 <= #[trigger] at[i] < symbols.len() && symbols[at[i]].name == name
            && found[i].uri == uri && found[i].range == symbols[at[i]].selection_range
    &&& forall|i: int, j: int| 0 <= i < j < at.len() ==> #[trigger] at[i] < #[trigger] at[j]
    &&& forall|k: int|
        0 <= k < symbols.len() && (#[trigger] symbols[k]).name == name ==> at.contains(k)
}

/// Whether locations are where a file declares a name.
pub open spec fn are_in_file(
    found: Seq<LocationView>,
    f: FileView,
    uri: Seq<char>,
    name: Seq<char>,
) -> bool {
    exists|at: Seq<int>| are_places(found, f.symbols, at, uri, name)
}

/// Whether a file declares a name.
pub open spec fn has_symbol(f: FileView, name: Seq<char>) -> bool {
    exists|k: int| 0 <= k < f.symbols.len() && (#[trigger] f.symbols[k]).name == name
}

#[verifier::rlimit(60)]
proof fn lemma_located(symbols: Seq<SymbolView>, name: Seq<char>, uri: Seq<char>) -> (at: Seq<int>)
    ensures
        are_places(lookup::located_in(symbols, name, uri), symbols, at, uri, name),
    decreases symbols.len(),
{
    if symbols.len() == 0 {
        Seq::empty()
    } else {
        let fewer = symbols.drop_last();
        let before = lemma_located(fewer, name, uri);
        let n = symbols.len() - 1;
        let found = lookup::located_in(symbols, name, uri);
        let old_found = lookup::located_in(fewer, name, uri);
        assert forall|i: int| 0 <= i < before.len() implies 0 <= #[trigger] before[i]
            < symbols.len() && symbols[before[i]].name == name && old_found[i].uri == uri
            && old_found[i].range == symbols[before[i]].selection_range by {
            assert(fewer[before[i]] == symbols[before[i]]);
        }
        if symbols.last().name == name {
            let at = before.push(n);
            assert forall|i: int| 0 <= i < at.len() implies 0 <= #[trigger] at[i] < symbols.len()
                && symbols[at[i]].name == name && found[i].uri == uri && found[i].range
                == symbols[at[i]].selection_range by {
                if i < before.len() {
                    assert(at[i] == before[i]);
                    assert(found[i] == old_found[i]);
                }
            }
            assert forall|i: int, j: int| 0 <= i < j < at.len() implies #[trigger] at[i]
                < #[trigger] at[j] by {
                assert(at[i] == before[i]);
                assert(0 <= before[i] < fewer.len());
                if j < before.len() {
                    assert(at[j] == before[j]);
                }
            }
            assert forall|k: int|
                0 <= k < symbols.len() && (#[trigger] symbols[k]).name
                    == name implies at.contains(k) by {
                if k < n {
                    assert(fewer[k] == symbols[k]);
                    assert(before.contains(k));
                    let i = choose|i: int| 0 <= i < before.len() && before[i] == k;
                    assert(at[i] == k);
                } else {
                    assert(at[at.len() - 1] == k);
                }
            }
            at
        } else {
            assert forall|k: int|
                0 <= k < symbols.len() && (#[trigger] symbols[k]).name
                    == name implies before.contains(k) by {
                assert(k < n);
                assert(fewer[k] == symbols[k]);
            }
            before
        }
    }
}

proof fn lemma_in_file(v: IndexView, name: Seq<char>, uri: Seq<char>, f: FileView)
    requires
        is_file(v, uri, f),
    ensures
        lookup::any_file(v, uri) == Some(f),
        are_in_file(lookup::name_in_file(v, name, uri), f, uri, name),
        (lookup::name_in_file(v, name, uri).len() > 0) == has_symbol(f, name),
{
    let at = lemma_located(f.symbols, name, uri);
    let found = lookup::name_in_file(v, name, uri);
    assert(are_places(found, f.symbols, at, uri, name));
    if has_symbol(f, name) {
        let k = choose|k: int| 0 <= k < f.symbols.len() && (#[trigger] f.symbols[k]).name == name;
        assert(at.contains(k));
        let i = choose|i: int| 0 <= i < at.len() && at[i] == k;
    }
    if found.len() > 0 {
        assert(f.symbols[at[0]].name == name);
    }
}

/// A name that the file itself declares leads to its declarations there.
pub proof fn law_own_declarations_come_first(
    v: IndexView,
    name: Seq<char>,
    uri: Seq<char>,
    f: FileView,
)
    requires
        is_file(v, uri, f),
        has_symbol(f, name),
    ensures
        are_in_file(lookup::resolved(v, name, uri), f, uri, name),
        lookup::resolved(v, name, uri).len() > 0,
{
    lemma_in_file(v, name, uri, f);
}

/// Whether import `i` of a file is the first that brings a name in.
pub open spec fn first_import(f: FileView, name: Seq<char>, i: int) -> bool {
    &&& 0 <= i < f.imports.len()
    &&& !f.imports[i].is_star
    &&& f.imports[i].local_name == name
    &&& forall|j: int|
        0 <= j < i ==> (#[trigger] f.imports[j]).is_star || f.imports[j].local_name != name
}

/// Whether no import of a file brings a declared thing of a name in by itself.
pub open spec fn no_import(v: IndexView, f: FileView, name: Seq<char>) -> bool {
    ||| forall|j: int|
        0 <= j < f.imports.len() ==> (#[trigger] f.imports[j]).is_star || f.imports[j].local_name
            != name
    ||| exists|i: int| #[trigger]
        first_import(f, name, i) && !v.qualified.dom().contains(f.imports[i].full_path)
}

/// A name within a package.
pub open spec fn within(package: Seq<char>, name: Seq<char>) -> Seq<char> {
    package + seq!['.'] + name
}

/// Whether the file's own package declares nothing of a name.
pub open spec fn not_in_package(v: IndexView, f: FileView, name: Seq<char>) -> bool {
    match f.package {
        Some(p) => !v.qualified.dom().contains(within(p, name)),
        None => true,
    }
}

proof fn lemma_import(f: FileView, name: Seq<char>, i: int)
    requires
        first_import(f, name, i),
    ensures
        lists::find_where(f.imports, lookup::imports_name(name)) == Some(f.imports[i]),
{
    let p = lookup::imports_name(name);
    assert forall|j: int| 0 <= j < i implies !p(#[trigger] f.imports[j]) by {
        assert(f.imports[j].is_star || f.imports[j].local_name != name);
    }
    lists::lemma_first(f.imports, p, i);
}

/// Else it leads to what the first import of the name imports.
pub proof fn law_imports_come_next(
    v: IndexView,
    name: Seq<char>,
    uri: Seq<char>,
    f: FileView,
    i: int,
)
    requires
        is_file(v, uri, f),
        !has_symbol(f, name),
        first_import(f, name, i),
        v.qualified.dom().contains(f.imports[i].full_path),
    ensures
        lookup::resolved(v, name, uri) == seq![v.qualified[f.imports[i].full_path]],
{
    lemma_in_file(v, name, uri, f);
    lemma_import(f, name, i);
    let all = lookup::candidates(f, name);
    let q = lookup::is_qualified(v);
    assert(all[0] == f.imports[i].full_path);
    assert(q(all[0]));
    lists::lemma_first(all, q, 0);
}

/// How many entries stand before the own package's among those that a name may stand for.
#[verifier::rlimit(60)]
proof fn lemma_candidates(v: IndexView, f: FileView, name: Seq<char>) -> (k: int)
    requires
        no_import(v, f, name),
    ensures
        0 <= k <= 1,
        k <= lookup::candidates(f, name).len(),
        k == 1 ==> !v.qualified.dom().contains(lookup::candidates(f, name)[0]),
        lookup::candidates(f, name).skip(k) == (match f.package {
            Some(p) => seq![within(p, name)],
            None => Seq::empty(),
        }) + lookup::star_names(f.imports, name),
{
    reveal_strlit(".");
    let p = lookup::imports_name(name);
    let all = lookup::candidates(f, name);
    assert("."@ =~= seq!['.']);
    if exists|i: int| #[trigger]
        first_import(f, name, i) && !v.qualified.dom().contains(f.imports[i].full_path) {
        let i = choose|i: int| #[trigger]
            first_import(f, name, i) && !v.qualified.dom().contains(f.imports[i].full_path);
        lemma_import(f, name, i);
        assert(all[0] == f.imports[i].full_path);
        assert(all.skip(1) =~= (match f.package {
            Some(p) => seq![within(p, name)],
            None => Seq::empty(),
        }) + lookup::star_names(f.imports, name));
        1
    } else {
        assert forall|j: int| 0 <= j < f.imports.len() implies !p(#[trigger] f.imports[j]) by {
            assert(f.imports[j].is_star || f.imports[j].local_name != name);
        }
        lists::lemma_no_first(f.imports, p);
        assert(all.skip(0) =~= (match f.package {
            Some(p) => seq![within(p, name)],
            None => Seq::empty(),
        }) + lookup::star_names(f.imports, name));
        0
    }
}

/// Else to what the file's own package declares.
pub proof fn law_own_package_comes_next(
    v: IndexView,
    name: Seq<char>,
    uri: Seq<char>,
    f: FileView,
    package: Seq<char>,
)
    requires
        is_file(v, uri, f),
        !has_symbol(f, name),
        no_import(v, f, name),
        f.package == Some(package),
        v.qualified.dom().contains(within(package, name)),
    ensures
        lookup::resolved(v, name, uri) == seq![v.qualified[within(package, name)]],
{
    lemma_in_file(v, name, uri, f);
    let k = lemma_candidates(v, f, name);
    let all = lookup::candidates(f, name);
    let q = lookup::is_qualified(v);
    assert(all.skip(k)[0] == within(package, name));
    assert(all[k] == within(package, name));
    assert forall|j: int| 0 <= j < k implies !q(#[trigger] all[j]) by {}
    lists::lemma_first(all, q, k);
}

/// Whether import `i` of a file is the first star import whose package declares a name.
pub open spec fn first_star(v: IndexView, f: FileView, name: Seq<char>, i: int) -> bool {
    &&& 0 <= i < f.imports.len()
    &&& f.imports[i].is_star
    &&& v.qualified.dom().contains(within(f.imports[i].full_path, name))
    &&& forall|j: int|
        0 <= j < i && (#[trigger] f.imports[j]).is_star ==> !v.qualified.dom().contains(
            within(f.imports[j].full_path, name),
        )
}

proof fn lemma_stars(v: IndexView, f: FileView, name: Seq<char>, n: int)
    requires
        0 <= n <= f.imports.len(),
        forall|j: int|
            0 <= j < n && (#[trigger] f.imports[j]).is_star ==> !v.qualified.dom().contains(
                within(f.imports[j].full_path, name),
            ),
    ensures
        forall|j: int|
            0 <= j < lookup::star_names(f.imports.take(n), name).len() ==> !v.qualified.dom().contains(
                #[trigger] lookup::star_names(f.imports.take(n), name)[j],
            ),
    decreases n,
{
    reveal_strlit(".");
    assert("."@ =~= seq!['.']);
    if n > 0 {
        lemma_stars(v, f, name, n - 1);
        assert(f.imports.take(n).drop_last() =~= f.imports.take(n - 1));
        let last = f.imports[n - 1];
        let before = lookup::star_names(f.imports.take(n - 1), name);
        let now = lookup::star_names(f.imports.take(n), name);
        assert forall|j: int| 0 <= j < now.len() implies !v.qualified.dom().contains(
            #[trigger] now[j],
        ) by {
            if j < before.len() {
                assert(now[j] == before[j]);
            } else {
                assert(now[j] =~= within(last.full_path, name));
            }
        }
    }
}

proof fn lemma_stars_prefix(f: FileView, name: Seq<char>, n: int, m: int)
    requires
        0 <= n <= m <= f.imports.len(),
    ensures
        lookup::star_names(f.imports.take(n), name).len() <= lookup::star_names(
            f.imports.take(m),
            name,
        ).len(),
        forall|j: int|
            0 <= j < lookup::star_names(f.imports.take(n), name).len() ==> #[trigger] lookup::star_names(
                f.imports.take(m),
                name,
            )[j] == lookup::star_names(f.imports.take(n), name)[j],
    decreases m,
{
    if n < m {
        lemma_stars_prefix(f, name, n, m - 1);
        assert(f.imports.take(m).drop_last() =~= f.imports.take(m - 1));
        let before = lookup::star_names(f.imports.take(m - 1), name);
        let now = lookup::star_names(f.imports.take(m), name);
        assert forall|j: int| 0 <= j < before.len() implies #[trigger] now[j] == before[j] by {}
    }
}

/// Else to what the first star import brings in whose package declares the name.
#[verifier::rlimit(60)]
pub proof fn law_star_imports_come_next(
    v: IndexView,
    name: Seq<char>,
    uri: Seq<char>,
    f: FileView,
    i: int,
)
    requires
        is_file(v, uri, f),
        !has_symbol(f, name),
        no_import(v, f, name),
        not_in_package(v, f, name),
        first_star(v, f, name, i),
    ensures
        lookup::resolved(v, name, uri) == seq![v.qualified[within(f.imports[i].full_path, name)]],
{
    lemma_in_file(v, name, uri, f);
    let k = lemma_candidates(v, f, name);
    let all = lookup::candidates(f, name);
    let q = lookup::is_qualified(v);
    let stars = lookup::star_names(f.imports, name);
    let own = match f.package {
        Some(p) => seq![within(p, name)],
        None => Seq::empty(),
    };
    lemma_stars(v, f, name, i);
    lemma_stars_prefix(f, name, i, f.imports.len() as int);
    lemma_stars_prefix(f, name, i + 1, f.imports.len() as int);
    assert(f.imports.take(f.imports.len() as int) =~= f.imports);
    assert(f.imports.take(i + 1).drop_last() =~= f.imports.take(i));
    let before = lookup::star_names(f.imports.take(i), name);
    let upto = lookup::star_names(f.imports.take(i + 1), name);
    reveal_strlit(".");
    assert("."@ =~= seq!['.']);
    let t = before.len() as int;
    assert(upto[t] =~= within(f.imports[i].full_path, name));
    assert(stars[t] == upto[t]);
    let at = k + own.len() + t;
    let rest = all.skip(k);
    assert(rest[own.len() + t] == stars[t]);
    assert(all[at] == rest[own.len() + t]);
    assert forall|j: int| 0 <= j < at implies !q(#[trigger] all[j]) by {
        if j >= k {
            assert(all[j] == rest[j - k]);
            if j < k + own.len() {
                assert(rest[j - k] == own[j - k]);
            } else {
                let h = j - k - own.len();
                assert(rest[j - k] == stars[h]);
                assert(stars[h] == before[h]);
            }
        }
    }
    lists::lemma_first(all, q, at);
}

/// Where a name is declared anywhere, in sources first.
pub open spec fn anywhere(v: IndexView, name: Seq<char>) -> Seq<LocationView> {
    (if v.definitions.dom().contains(name) {
        v.definitions[name]
    } else {
        Seq::empty()
    }) + (if v.jar_definitions.dom().contains(name) {
        v.jar_definitions[name]
    } else {
        Seq::empty()
    })
}

/// Else it leads to wherever the name is declared, in sources and then in libraries.
#[verifier::rlimit(60)]
pub proof fn law_any_declaration_comes_last(
    v: IndexView,
    name: Seq<char>,
    uri: Seq<char>,
    f: FileView,
)
    ensures
        is_no_file(v, uri) ==> lookup::resolved(v, name, uri) == anywhere(v, name),
        is_file(v, uri, f) && !has_symbol(f, name) && no_import(v, f, name) && not_in_package(
            v,
            f,
            name,
        ) && (forall|j: int|
            0 <= j < f.imports.len() && (#[trigger] f.imports[j]).is_star
                ==> !v.qualified.dom().contains(within(f.imports[j].full_path, name)))
            ==> lookup::resolved(v, name, uri) == anywhere(v, name),
{
    if is_file(v, uri, f) && !has_symbol(f, name) && no_import(v, f, name) && not_in_package(
        v,
        f,
        name,
    ) && (forall|j: int|
        0 <= j < f.imports.len() && (#[trigger] f.imports[j]).is_star ==> !v.qualified.dom().contains(
            within(f.imports[j].full_path, name),
        )) {
        lemma_in_file(v, name, uri, f);
        let k = lemma_candidates(v, f, name);
        let all = lookup::candidates(f, name);
        let q = lookup::is_qualified(v);
        let n = f.imports.len() as int;
        lemma_stars(v, f, name, n);
        assert(f.imports.take(n) =~= f.imports);
        let stars = lookup::star_names(f.imports, name);
        let own = match f.package {
            Some(p) => seq![within(p, name)],
            None => Seq::empty(),
        };
        let rest = all.skip(k);
        assert forall|j: int| 0 <= j < all.len() implies !q(#[trigger] all[j]) by {
            if j >= k {
                assert(all[j] == rest[j - k]);
                if j < k + own.len() {
                    assert(rest[j - k] == own[j - k]);
                } else {
                    let h = j - k - own.len();
                    assert(rest == own + stars);
                    assert(rest[j - k] == stars[h]);
                }
            }
        }
        lists::lemma_no_first(all, q);
    }
}

/// A name with a qualifier leads into the file that declares the qualifier, where that declares
/// the name; else where the name alone leads.
pub proof fn law_qualifier_leads_into_its_file(
    v: IndexView,
    name: Seq<char>,
    qualifier: Seq<char>,
    uri: Seq<char>,
    f: FileView,
)
    requires
        qualifier != "super"@,
    ensures
        lookup::resolved(v, qualifier, uri).len() == 0 ==> lookup::resolved_qualified(
            v,
            name,
            Some(qualifier),
            uri,
        ) == lookup::resolved(v, name, uri),
        lookup::resolved(v, qualifier, uri).len() > 0 && is_file(
            v,
            lookup::resolved(v, qualifier, uri)[0].uri,
            f,
        ) && has_symbol(f, name) ==> are_in_file(
            lookup::resolved_qualified(v, name, Some(qualifier), uri),
            f,
            lookup::resolved(v, qualifier, uri)[0].uri,
            name,
        ),
        lookup::resolved(v, qualifier, uri).len() > 0 && is_file(
            v,
            lookup::resolved(v, qualifier, uri)[0].uri,
            f,
        ) && !has_symbol(f, name) ==> lookup::resolved_qualified(v, name, Some(qualifier), uri)
            == lookup::resolved(v, name, uri),
        lookup::resolved_qualified(v, name, None, uri) == lookup::resolved(v, name, uri),
{
    if lookup::resolved(v, qualifier, uri).len() > 0 {
        let l = lookup::resolved(v, qualifier, uri)[0];
        if is_file(v, l.uri, f) {
            lemma_in_file(v, name, l.uri, f);
        }
    }
}

// ---------------------------------------------------------------------------
// Supertypes
// ---------------------------------------------------------------------------

/// Whether locations are those of the symbols at some places of a file, which are all members of a
/// class that bear a name, in their order.
pub open spec fn are_members(
    found: Seq<LocationView>,
    symbols: Seq<SymbolView>,
    at: Seq<int>,
    uri: Seq<char>,
    class: Seq<char>,
    name: Seq<char>,
) -> bool {
    &&& found.len() == at.len()
    &&& forall|i: int|
        0 <= i < at.len() ==> 0 <= #[trigger] at[i] < symbols.len() && symbols[at[i]].name == name
            && symbols[at[i]].container == Some(class) && found[i].uri == uri && found[i].range
            == symbols[at[i]].selection_range
    &&& forall|i: int, j: int| 0 <= i < j < at.len() ==> #[trigger] at[i] < #[trigger] at[j]
    &&& forall|k: int|
        0 <= k < symbols.len() && (#[trigger] symbols[k]).name == name && symbols[k].container
            == Some(class) ==> at.contains(k)
}

#[verifier::rlimit(60)]
proof fn lemma_members(
    symbols: Seq<SymbolView>,
    class: Seq<char>,
    name: Seq<char>,
    uri: Seq<char>,
) -> (at: Seq<int>)
    ensures
        are_members(
            lookup::members_in(symbols, class, name, uri),
            symbols,
            at,
            uri,
            class,
            name,
        ),
    decreases symbols.len(),
{
    if symbols.len() == 0 {
        Seq::empty()
    } else {
        let fewer = symbols.drop_last();
        let before = lemma_members(fewer, class, name, uri);
        let n = symbols.len() - 1;
        let found = lookup::members_in(symbols, class, name, uri);
        let old_found = lookup::members_in(fewer, class, name, uri);
        assert forall|i: int| 0 <= i < before.len() implies 0 <= #[trigger] before[i]
            < symbols.len() && symbols[before[i]].name == name && symbols[before[i]].container
            == Some(class) && old_found[i].uri == uri && old_found[i].range
            == symbols[before[i]].selection_range by {
            assert(fewer[before[i]] == symbols[before[i]]);
        }
        if symbols.last().name == name && symbols.last().container == Some(class) {
            let at = before.push(n);
            assert forall|i: int| 0 <= i < at.len() implies 0 <= #[trigger] at[i] < symbols.len()
                && symbols[at[i]].name == name && symbols[at[i]].container == Some(class)
                && found[i].uri == uri && found[i].range == symbols[at[i]].selection_range by {
                if i < before.len() {
                    assert(at[i] == before[i]);
                    assert(found[i] == old_found[i]);
                }
            }
            assert forall|i: int, j: int| 0 <= i < j < at.len() implies #[trigger] at[i]
                < #[trigger] at[j] by {
                assert(at[i] == before[i]);
                assert(0 <= before[i] < fewer.len());
                if j < before.len() {
                    assert(at[j] == before[j]);
                }
            }
            assert forall|k: int|
                0 <= k < symbols.len() && (#[trigger] symbols[k]).name == name
                    && symbols[k].container == Some(class) implies at.contains(k) by {
                if k < n {
                    assert(fewer[k] == symbols[k]);
                    assert(before.contains(k));
                    let i = choose|i: int| 0 <= i < before.len() && before[i] == k;
                    assert(at[i] == k);
                } else {
                    assert(at[at.len() - 1] == k);
                }
            }
            at
        } else {
            assert forall|k: int|
                0 <= k < symbols.len() && (#[trigger] symbols[k]).name == name
                    && symbols[k].container == Some(class) implies before.contains(k) by {
                assert(k < n);
                assert(fewer[k] == symbols[k]);
            }
            before
        }
    }
}

/// Whether the class of a name that a file uses stands in a file that declares a member of a name
/// in that class.
pub open spec fn has_member(
    v: IndexView,
    class: Seq<char>,
    name: Seq<char>,
    uri: Seq<char>,
) -> bool {
    let places = lookup::resolved(v, class, uri);
    places.len() > 0 && exists|g: FileView, k: int|
        #![trigger is_file(v, places[0].uri, g), g.symbols[k]]
        is_file(v, places[0].uri, g) && 0 <= k < g.symbols.len() && g.symbols[k].name == name
            && g.symbols[k].container == Some(class)
}

proof fn lemma_member_places(v: IndexView, class: Seq<char>, name: Seq<char>, uri: Seq<char>)
    ensures
        (lookup::member_places(v, class, name, uri).len() > 0) == has_member(v, class, name, uri),
{
    let places = lookup::resolved(v, class, uri);
    if places.len() > 0 {
        match lookup::any_file(v, places[0].uri) {
            Some(f) => {
                assert(is_file(v, places[0].uri, f));
                let at = lemma_members(f.symbols, class, name, places[0].uri);
                let found = lookup::member_places(v, class, name, uri);
                if found.len() > 0 {
                    let k = at[0];
                    assert(f.symbols[k].name == name && f.symbols[k].container == Some(class));
                }
                if has_member(v, class, name, uri) {
                    let (g, k) = choose|g: FileView, k: int|
                        #![trigger is_file(v, places[0].uri, g), g.symbols[k]]
                        is_file(v, places[0].uri, g) && 0 <= k < g.symbols.len()
                            && g.symbols[k].name == name && g.symbols[k].container == Some(class);
                    assert(g == f);
                    assert(at.contains(k));
                    let i = choose|i: int| 0 <= i < at.len() && at[i] == k;
                }
            },
            None => {},
        }
    }
}

proof fn lemma_inherited(
    v: IndexView,
    supers: Seq<(u32, Seq<char>, Seq<Seq<char>>)>,
    name: Seq<char>,
    uri: Seq<char>,
    i: int,
    n: int,
)
    requires
        0 <= i < supers.len(),
        0 <= n <= supers.len(),
        has_member(v, supers[i].1, name, uri),
        forall|j: int| 0 <= j < i ==> !has_member(v, (#[trigger] supers[j]).1, name, uri),
    ensures
        lookup::inherited_places(v, supers.take(n), name, uri) == (if n <= i {
            Seq::empty()
        } else {
            lookup::member_places(v, supers[i].1, name, uri)
        }),
    decreases n,
{
    if n > 0 {
        lemma_inherited(v, supers, name, uri, i, n - 1);
        assert(supers.take(n).drop_last() =~= supers.take(n - 1));
        assert(supers.take(n).last() == supers[n - 1]);
        lemma_member_places(v, supers[n - 1].1, name, uri);
        lemma_member_places(v, supers[i].1, name, uri);
        if n <= i {
            assert(!has_member(v, supers[n - 1].1, name, uri));
            assert(lookup::inherited_places(v, supers.take(n), name, uri) =~= Seq::empty());
        }
    } else {
        assert(lookup::inherited_places(v, supers.take(n), name, uri) =~= Seq::empty());
    }
}

/// What follows `super` leads to the members of the name in the first supertype, in the order in
/// which the file writes them, that declares such a member.
pub proof fn law_first_supertype_counts(
    v: IndexView,
    name: Seq<char>,
    uri: Seq<char>,
    f: FileView,
    i: int,
    g: FileView,
)
    requires
        is_file(v, uri, f),
        0 <= i < f.supers.len(),
        has_member(v, f.supers[i].1, name, uri),
        forall|j: int| 0 <= j < i ==> !has_member(v, (#[trigger] f.supers[j]).1, name, uri),
        is_file(v, lookup::resolved(v, f.supers[i].1, uri)[0].uri, g),
    ensures
        exists|at: Seq<int>| #[trigger]
            are_members(
                lookup::resolved_qualified(v, name, Some("super"@), uri),
                g.symbols,
                at,
                lookup::resolved(v, f.supers[i].1, uri)[0].uri,
                f.supers[i].1,
                name,
            ),
{
    let n = f.supers.len() as int;
    lemma_inherited(v, f.supers, name, uri, i, n);
    assert(f.supers.take(n) =~= f.supers);
    let place = lookup::resolved(v, f.supers[i].1, uri)[0].uri;
    let at = lemma_members(g.symbols, f.supers[i].1, name, place);
    assert(lookup::resolved_qualified(v, name, Some("super"@), uri) == lookup::members_in(
        g.symbols,
        f.supers[i].1,
        name,
        place,
    ));
}

// ---------------------------------------------------------------------------
// What an index answers
// ---------------------------------------------------------------------------

/// Whether pair `k` of a list is the first of a name.
pub open spec fn first_pair(pairs: Seq<(Seq<char>, Seq<char>)>, name: Seq<char>, k: int) -> bool {
    &&& 0 <= k < pairs.len()
    &&& pairs[k].0 == name
    &&& forall|j: int| 0 <= j < k ==> (#[trigger] pairs[j]).0 != name
}

/// Whether no pair of a list is of a name.
pub open spec fn no_pair(pairs: Seq<(Seq<char>, Seq<char>)>, name: Seq<char>) -> bool {
    forall|j: int| 0 <= j < pairs.len() ==> (#[trigger] pairs[j]).0 != name
}

proof fn lemma_pair(pairs: Seq<(Seq<char>, Seq<char>)>, name: Seq<char>, k: int)
    ensures
        first_pair(pairs, name, k) ==> lists::find_where(pairs, workspace::pair_named(name))
            == Some(pairs[k]),
        no_pair(pairs, name) ==> lists::find_where(pairs, workspace::pair_named(name)) is None,
{
    let p = workspace::pair_named(name);
    if first_pair(pairs, name, k) {
        assert forall|j: int| 0 <= j < k implies !p(#[trigger] pairs[j]) by {
            assert(pairs[j].0 != name);
        }
        lists::lemma_first(pairs, p, k);
    }
    if no_pair(pairs, name) {
        assert forall|j: int| 0 <= j < pairs.len() implies !p(#[trigger] pairs[j]) by {
            assert(pairs[j].0 != name);
        }
        lists::lemma_no_first(pairs, p);
    }
}

/// The type of a variable is the one that it is declared with; else the one that its initializer
/// constructs; else none is known.
pub proof fn law_type_of_a_variable(
    v: IndexView,
    name: Seq<char>,
    uri: Seq<char>,
    f: FileView,
    k: int,
)
    requires
        is_file(v, uri, f),
    ensures
        first_pair(f.type_annotations, name, k) ==> (workspace::read_view(v).var_type)(name, uri)
            == Some(f.type_annotations[k].1),
        no_pair(f.type_annotations, name) && first_pair(f.rhs_types, name, k) ==> (
        workspace::read_view(v).var_type)(name, uri) == Some(f.rhs_types[k].1),
        no_pair(f.type_annotations, name) && no_pair(f.rhs_types, name) ==> (
        workspace::read_view(v).var_type)(name, uri) is None,
{
    lemma_pair(f.type_annotations, name, k);
    lemma_pair(f.rhs_types, name, k);
}

/// An index hands out a file of sources before one of a library, finds names as they lead, with
/// all that sources and libraries declare of a name, and knows the place of a qualified name.
pub proof fn law_index_answers(
    v: IndexView,
    name: Seq<char>,
    qualifier: Option<Seq<char>>,
    uri: Seq<char>,
    f: FileView,
    search: bool,
)
    ensures
        is_file(v, uri, f) ==> (workspace::read_view(v).file)(uri) == Some(f),
        is_no_file(v, uri) ==> (workspace::read_view(v).file)(uri) is None,
        (workspace::read_view(v).locations)(name, qualifier, uri, search)
            == lookup::resolved_qualified(v, name, qualifier, uri),
        anywhere(v, name).len() > 0 ==> (workspace::read_view(v).definitions)(name) == Some(
            anywhere(v, name),
        ),
        anywhere(v, name).len() == 0 ==> (workspace::read_view(v).definitions)(name) is None,
        v.qualified.dom().contains(name) ==> (workspace::read_view(v).qualified)(name)
            == seq![v.qualified[name]],
        !v.qualified.dom().contains(name) ==> (workspace::read_view(v).qualified)(name).len() == 0,
{
    assert(lookup::definitions_of(v, name) == anywhere(v, name));
}

} // verus!
