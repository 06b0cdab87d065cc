//! Files that a question needs and that are not indexed yet. A question is asked of what is
//! known; here stands which files it misses, so that they can be indexed before it is asked
//! again.
use vstd::prelude::*;
use vstd::string::*;

use crate::contributions;
use crate::enrich;
use crate::enrich::{ContextView, ResolvedSymbol, ResolvedView, SubstitutionContext};
use crate::hierarchy;
use crate::hierarchy::{ClassView, ResolvedHierarchyClass, Way, CLASS_HIERARCHY_MAX_DEPTH};
use crate::index::Indexer;
use crate::lists;
use crate::resolution::{IndexRead, ReadView, ResolveOptions};
use crate::text;
use crate::types;
use crate::types::{Location, LocationView, Replicate, SymbolEntry, SymbolView};
use crate::urls;

verus! {

// ---------------------------------------------------------------------------
// Files that a hierarchy misses
// ---------------------------------------------------------------------------

/// The files that the walk above a class comes by and that are not known.
pub open spec fn missing_above(v: ReadView, c: ClassView, way: Way, depth: int) -> Seq<Seq<char>>
    decreases CLASS_HIERARCHY_MAX_DEPTH - depth, 2int, 0int,
{
    if depth >= CLASS_HIERARCHY_MAX_DEPTH || way.contains((c.uri, c.selection_line)) {
        Seq::empty()
    } else {
        match (v.file)(c.uri) {
            Some(f) => missing_of_supers(
                v,
                c,
                f.supers,
                way.push((c.uri, c.selection_line)),
                depth,
                f.supers.len() as int,
            ),
            None => seq![c.uri],
        }
    }
}

/// The files that are missed by way of the first `n` supertypes that a class's file lists.
pub open spec fn missing_of_supers(
    v: ReadView,
    c: ClassView,
    supers: Seq<(u32, Seq<char>, Seq<Seq<char>>)>,
    way: Way,
    depth: int,
    n: int,
) -> Seq<Seq<char>>
    decreases CLASS_HIERARCHY_MAX_DEPTH - depth, 1int, n,
{
    if depth >= CLASS_HIERARCHY_MAX_DEPTH || n <= 0 || n > supers.len() {
        Seq::empty()
    } else {
        let before = missing_of_supers(v, c, supers, way, depth, n - 1);
        let s = supers[n - 1];
        if s.0 == c.selection_line {
            let places = (v.locations)(s.1, None, c.uri, false);
            before + missing_of_places(
                v,
                s.1,
                hierarchy::all_substituted(s.2, c.substitution),
                places,
                way,
                depth,
                places.len() as int,
            )
        } else {
            before
        }
    }
}

/// The files that are missed by way of the first `n` places where a superclass may be declared.
pub open spec fn missing_of_places(
    v: ReadView,
    name: Seq<char>,
    args: Seq<Seq<char>>,
    places: Seq<LocationView>,
    way: Way,
    depth: int,
    n: int,
) -> Seq<Seq<char>>
    decreases CLASS_HIERARCHY_MAX_DEPTH - depth, 0int, n,
{
    if depth >= CLASS_HIERARCHY_MAX_DEPTH || n <= 0 || n > places.len() {
        Seq::empty()
    } else {
        missing_of_places(v, name, args, places, way, depth, n - 1) + if (v.file)(
            places[n - 1].uri,
        ) is None {
            seq![places[n - 1].uri]
        } else {
            match hierarchy::superclass_at(v, name, args, places[n - 1]) {
                Some(s) => missing_above(v, s, way, depth + 1),
                None => Seq::empty(),
            }
        }
    }
}

/// The files that the hierarchy of a class misses.
pub open spec fn hierarchy_misses(v: ReadView, uri: Seq<char>, name: Seq<char>, line: u32) -> Seq<
    Seq<char>,
> {
    match urls::parsed_url(uri) {
        Some(u) => missing_above(
            v,
            ClassView { uri: u, name, selection_line: line, substitution: Seq::empty() },
            Seq::empty(),
            0,
        ),
        None => Seq::empty(),
    }
}

fn walk_missing<I: IndexRead>(
    index: &I,
    class: &ResolvedHierarchyClass,
    way: &mut Vec<(String, u32)>,
    missing: &mut Vec<String>,
    depth: usize,
)
    requires
        index.ready(),
    ensures
        final(way).deep_view() == old(way).deep_view(),
        final(missing).deep_view() == old(missing).deep_view() + missing_above(
            index.seen(),
            class.deep_view(),
            old(way).deep_view(),
            depth as int,
        ),
    decreases CLASS_HIERARCHY_MAX_DEPTH - depth, 2int,
{
    let ghost v = index.seen();
    let ghost c = class.deep_view();
    let ghost w0 = way.deep_view();
    let ghost start = missing.deep_view();
    if depth >= CLASS_HIERARCHY_MAX_DEPTH || hierarchy::on_way(
        way,
        class.uri.as_str(),
        class.selection_line,
    ) {
        assert(start + Seq::<Seq<char>>::empty() =~= start);
        return;
    }
    let file = match index.get_file_data(class.uri.as_str()) {
        Some(f) => f,
        None => {
            missing.push(class.uri.clone());
            assert(missing.deep_view() =~= start + seq![c.uri]);
            return;
        },
    };
    let ghost f = file.deep_view();
    way.push((class.uri.clone(), class.selection_line));
    let ghost w = w0.push((c.uri, c.selection_line));
    assert(way.deep_view() =~= w);
    let ghost supers = f.supers;
    let mut i: usize = 0;
    assert(start + missing_of_supers(v, c, supers, w, depth as int, 0) =~= start);
    while i < file.supers.len()
        invariant
            index.ready(),
            v == index.seen(),
            c == class.deep_view(),
            depth < CLASS_HIERARCHY_MAX_DEPTH,
            i <= file.supers@.len(),
            supers == file.supers.deep_view(),
            way.deep_view() == w,
            missing.deep_view() == start + missing_of_supers(
                v,
                c,
                supers,
                w,
                depth as int,
                i as int,
            ),
        decreases file.supers@.len() - i,
    {
        let above = &file.supers[i];
        let ghost before = missing.deep_view();
        proof {
            assert(supers[i as int] == above.deep_view());
        }
        if above.0 == class.selection_line {
            let args = hierarchy::substitute_all(&above.2, &class.substitution);
            let places = index.resolve_locations(
                above.1.as_str(),
                None,
                class.uri.as_str(),
                false,
            );
            walk_missing_places(index, above.1.as_str(), &args, &places, way, missing, depth);
            proof {
                let more = missing_of_places(
                    v,
                    above.1@,
                    args.deep_view(),
                    places.deep_view(),
                    w,
                    depth as int,
                    places.deep_view().len() as int,
                );
                assert(missing.deep_view() =~= before + more);
                assert(before + more =~= start + (missing_of_supers(
                    v,
                    c,
                    supers,
                    w,
                    depth as int,
                    i as int,
                ) + more));
            }
        }
        i += 1;
    }
    let ghost whole = way@;
    way.pop();
    proof {
        assert(w.len() == whole.len());
        assert(way@ == whole.drop_last());
        assert forall|k: int| 0 <= k < w0.len() implies #[trigger] way.deep_view()[k] == w0[k] by {
            assert(w[k] == whole[k].deep_view());
        }
        assert(way.deep_view() =~= w0);
    }
}

fn walk_missing_places<I: IndexRead>(
    index: &I,
    name: &str,
    args: &Vec<String>,
    places: &Vec<Location>,
    way: &mut Vec<(String, u32)>,
    missing: &mut Vec<String>,
    depth: usize,
)
    requires
        index.ready(),
        depth < CLASS_HIERARCHY_MAX_DEPTH,
    ensures
        final(way).deep_view() == old(way).deep_view(),
        final(missing).deep_view() == old(missing).deep_view() + missing_of_places(
            index.seen(),
            name@,
            args.deep_view(),
            places.deep_view(),
            old(way).deep_view(),
            depth as int,
            places.deep_view().len() as int,
        ),
    decreases CLASS_HIERARCHY_MAX_DEPTH - depth, 1int,
{
    let ghost v = index.seen();
    let ghost all = places.deep_view();
    let ghost w = way.deep_view();
    let ghost start = missing.deep_view();
    let mut i: usize = 0;
    assert(start + missing_of_places(v, name@, args.deep_view(), all, w, depth as int, 0)
        =~= start);
    while i < places.len()
        invariant
            index.ready(),
            v == index.seen(),
            depth < CLASS_HIERARCHY_MAX_DEPTH,
            i <= places@.len(),
            all == places.deep_view(),
            way.deep_view() == w,
            missing.deep_view() == start + missing_of_places(
                v,
                name@,
                args.deep_view(),
                all,
                w,
                depth as int,
                i as int,
            ),
        decreases places@.len() - i,
    {
        let ghost before = missing.deep_view();
        let ghost so_far = missing_of_places(
            v,
            name@,
            args.deep_view(),
            all,
            w,
            depth as int,
            i as int,
        );
        let place = &places[i];
        assert(all[i as int] == place.deep_view());
        if index.get_file_data(place.uri.as_str()).is_none() {
            missing.push(place.uri.clone());
            proof {
                let more = seq![place.uri@];
                assert(missing.deep_view() =~= before + more);
                assert(before + more =~= start + (so_far + more));
            }
        } else if let Some(s) = hierarchy::superclass(index, name, args, place) {
            let ghost more = missing_above(v, s.deep_view(), w, depth + 1);
            walk_missing(index, &s, way, missing, depth + 1);
            assert(before + more =~= start + (so_far + more));
        } else {
            assert(so_far + Seq::<Seq<char>>::empty() =~= so_far);
        }
        i += 1;
    }
}

/// The files that the hierarchy of a class misses. Once they are indexed, the walk comes by the
/// classes that they declare.
pub fn missing_for_hierarchy<I: IndexRead>(
    index: &I,
    class_uri: &str,
    class_name: &str,
    class_selection_line: u32,
) -> (r: Vec<String>)
    requires
        index.ready(),
    ensures
        r.deep_view() == hierarchy_misses(
            index.seen(),
            class_uri@,
            class_name@,
            class_selection_line,
        ),
{
    let mut missing: Vec<String> = Vec::new();
    assert(missing.deep_view() =~= Seq::empty());
    if let Some(uri) = urls::parse_url(class_uri) {
        let mut way: Vec<(String, u32)> = Vec::new();
        let none: Vec<(String, String)> = Vec::new();
        let class = ResolvedHierarchyClass {
            uri,
            name: class_name.to_owned(),
            selection_line: class_selection_line,
            substitution: none,
        };
        proof {
            assert(way.deep_view() =~= Seq::empty());
            assert(class.substitution.deep_view() =~= Seq::empty());
        }
        let ghost c = class.deep_view();
        walk_missing(index, &class, &mut way, &mut missing, 0);
        assert(missing.deep_view() =~= missing_above(index.seen(), c, Seq::empty(), 0));
    }
    missing
}

// ---------------------------------------------------------------------------
// Files that a signature misses
// ---------------------------------------------------------------------------

/// The files that are missed to show a symbol in the types of a caller: the symbol's own, then
/// the caller's, then those of the caller's hierarchy.
pub open spec fn subst_misses(
    v: ReadView,
    sym_uri: Seq<char>,
    sym_line: u32,
    caller_uri: Seq<char>,
    cursor_line: Option<u32>,
) -> Seq<Seq<char>> {
    if sym_uri == caller_uri {
        Seq::empty()
    } else if (v.file)(sym_uri) is None {
        seq![sym_uri]
    } else if enrich::container_of(v, sym_uri, sym_line) is None {
        Seq::empty()
    } else if (v.file)(caller_uri) is None {
        seq![caller_uri]
    } else {
        match cursor_line {
            Some(line) => match enrich::caller_class(v, caller_uri, line) {
                Some((name, s)) => hierarchy_misses(
                    v,
                    caller_uri,
                    name,
                    s.selection_range.start.line,
                ),
                None => Seq::empty(),
            },
            None => {
                let symbols = (v.file)(caller_uri)->0.symbols;
                classes_miss(v, caller_uri, symbols, symbols.len() as int)
            },
        }
    }
}

/// The files that the hierarchies of the classes among the first `n` symbols of a file miss.
pub open spec fn classes_miss(
    v: ReadView,
    uri: Seq<char>,
    symbols: Seq<SymbolView>,
    n: int,
) -> Seq<Seq<char>>
    decreases n,
{
    if n <= 0 || n > symbols.len() {
        Seq::empty()
    } else {
        let before = classes_miss(v, uri, symbols, n - 1);
        let s = symbols[n - 1];
        if types::class_like(s.kind) {
            before + hierarchy_misses(v, uri, s.name, s.selection_range.start.line)
        } else {
            before
        }
    }
}

fn missing_for_classes<I: IndexRead>(index: &I, uri: &str, symbols: &Vec<SymbolEntry>) -> (r: Vec<
    String,
>)
    requires
        index.ready(),
    ensures
        r.deep_view() == classes_miss(
            index.seen(),
            uri@,
            symbols.deep_view(),
            symbols@.len() as int,
        ),
{
    let ghost v = index.seen();
    let ghost all = symbols.deep_view();
    let mut out: Vec<String> = Vec::new();
    let mut i: usize = 0;
    assert(out.deep_view() =~= classes_miss(v, uri@, all, 0));
    while i < symbols.len()
        invariant
            index.ready(),
            v == index.seen(),
            i <= symbols@.len(),
            all == symbols.deep_view(),
            out.deep_view() == classes_miss(v, uri@, all, i as int),
        decreases symbols@.len() - i,
    {
        let s = &symbols[i];
        let ghost before = out.deep_view();
        assert(all[i as int] == s.deep_view());
        if types::is_class_like(s.kind) {
            let mut more = missing_for_hierarchy(index, uri, s.name.as_str(), s.selection_start());
            let ghost m = more.deep_view();
            out.append(&mut more);
            assert(out.deep_view() =~= before + m);
        }
        i += 1;
    }
    out
}

fn only(uri: &str) -> (r: Vec<String>)
    ensures
        r.deep_view() == seq![uri@],
{
    let mut out: Vec<String> = Vec::new();
    out.push(uri.to_owned());
    assert(out.deep_view() =~= seq![uri@]);
    out
}

/// The files that are missed to show a symbol in the types of a caller.
pub fn missing_for_type_param_subst<I: IndexRead>(
    index: &I,
    sym_uri: &str,
    sym_line: u32,
    calling_uri: &str,
    cursor_line: Option<u32>,
) -> (r: Vec<String>)
    requires
        index.ready(),
    ensures
        r.deep_view() == subst_misses(index.seen(), sym_uri@, sym_line, calling_uri@, cursor_line),
{
    let none: Vec<String> = Vec::new();
    assert(none.deep_view() =~= Seq::empty());
    if text::same(sym_uri, calling_uri) {
        return none;
    }
    if index.get_file_data(sym_uri).is_none() {
        return only(sym_uri);
    }
    if enrich::container(index, sym_uri, sym_line).is_none() {
        return none;
    }
    let file = match index.get_file_data(calling_uri) {
        Some(f) => f,
        None => {
            return only(calling_uri);
        },
    };
    let line: u32 = match cursor_line {
        Some(line) => line,
        None => {
            return missing_for_classes(index, calling_uri, &file.symbols);
        },
    };
    match enrich::class_symbol(file, line) {
        Some((name, s)) => missing_for_hierarchy(
            index,
            calling_uri,
            name.as_str(),
            s.selection_start(),
        ),
        None => none,
    }
}

/// The files that are missed to tell what stands for type parameters in the class around the
/// cursor.
pub open spec fn enclosing_misses(v: ReadView, uri: Seq<char>, line: u32) -> Seq<Seq<char>> {
    match enrich::caller_class(v, uri, line) {
        Some((name, s)) => hierarchy_misses(v, uri, name, s.selection_range.start.line),
        None => Seq::empty(),
    }
}

/// The files that are missed to tell what stands for type parameters in the class around the
/// cursor.
pub fn missing_for_subst_map<I: IndexRead>(index: &I, uri: &str, cursor_line: u32) -> (r: Vec<
    String,
>)
    requires
        index.ready(),
    ensures
        r.deep_view() == enclosing_misses(index.seen(), uri@, cursor_line),
{
    let none: Vec<String> = Vec::new();
    assert(none.deep_view() =~= Seq::empty());
    match index.get_file_data(uri) {
        Some(f) => match enrich::class_symbol(f, cursor_line) {
            Some((name, s)) => missing_for_hierarchy(
                index,
                uri,
                name.as_str(),
                s.selection_start(),
            ),
            None => none,
        },
        None => none,
    }
}

// ---------------------------------------------------------------------------
// Places that a search finds
// ---------------------------------------------------------------------------

/// Where a name is declared: where the index finds it, else, where sources may be searched,
/// where a search found it.
pub open spec fn found_places(
    v: ReadView,
    name: Seq<char>,
    qualifier: Option<Seq<char>>,
    from_uri: Seq<char>,
    allow_rg: bool,
    searched: Seq<LocationView>,
) -> Seq<LocationView> {
    let known = (v.locations)(name, qualifier, from_uri, allow_rg);
    if allow_rg && known.len() == 0 {
        searched
    } else {
        known
    }
}

/// Whether the sources must be searched for a name.
pub fn needs_search<I: IndexRead>(
    index: &I,
    name: &str,
    qualifier: Option<&str>,
    from_uri: &str,
    allow_rg: bool,
) -> (r: bool)
    requires
        index.ready(),
    ensures
        r == (allow_rg && (index.seen().locations)(
            name@,
            qualifier.deep_view(),
            from_uri@,
            allow_rg,
        ).len() == 0),
{
    let known = index.resolve_locations(name, qualifier, from_uri, allow_rg);
    assert(known.deep_view().len() == known@.len());
    allow_rg && known.len() == 0
}

/// Where a name is declared. `searched` holds what a search of the sources found.
pub fn resolve_searched<I: IndexRead>(
    index: &I,
    name: &str,
    qualifier: Option<&str>,
    from_uri: &str,
    allow_rg: bool,
    searched: &Vec<Location>,
) -> (r: Vec<Location>)
    requires
        index.ready(),
    ensures
        r.deep_view() == found_places(
            index.seen(),
            name@,
            qualifier.deep_view(),
            from_uri@,
            allow_rg,
            searched.deep_view(),
        ),
{
    let known = index.resolve_locations(name, qualifier, from_uri, allow_rg);
    assert(known.deep_view().len() == known@.len());
    if allow_rg && known.len() == 0 {
        searched.replicate()
    } else {
        known
    }
}

/// The files of the first `n` places that are not known.
pub open spec fn unknown_files(v: ReadView, places: Seq<LocationView>, n: int) -> Seq<Seq<char>>
    decreases n,
{
    if n <= 0 || n > places.len() {
        Seq::empty()
    } else {
        let before = unknown_files(v, places, n - 1);
        if (v.file)(places[n - 1].uri) is None {
            before.push(places[n - 1].uri)
        } else {
            before
        }
    }
}

/// The files that must be indexed before what stands at places can be read.
pub fn missing_for_places<I: IndexRead>(index: &I, places: &Vec<Location>) -> (r: Vec<String>)
    requires
        index.ready(),
    ensures
        r.deep_view() == unknown_files(index.seen(), places.deep_view(), places@.len() as int),
{
    let ghost v = index.seen();
    let ghost all = places.deep_view();
    let mut out: Vec<String> = Vec::new();
    let mut i: usize = 0;
    assert(out.deep_view() =~= unknown_files(v, all, 0));
    while i < places.len()
        invariant
            index.ready(),
            v == index.seen(),
            i <= places@.len(),
            all == places.deep_view(),
            out.deep_view() == unknown_files(v, all, i as int),
        decreases places@.len() - i,
    {
        let ghost before = out.deep_view();
        assert(all[i as int] == places@[i as int].deep_view());
        if index.get_file_data(places[i].uri.as_str()).is_none() {
            out.push(places[i].uri.clone());
            assert(out.deep_view() =~= before.push(all[i as int].uri));
        }
        i += 1;
    }
    out
}

/// What is found out about the symbol that a name in a file stands for, by the index or by a
/// search.
pub open spec fn searched_info(
    v: ReadView,
    name: Seq<char>,
    qualifier: Option<Seq<char>>,
    from_uri: Seq<char>,
    searched: Seq<LocationView>,
    ctx: ContextView,
    options: ResolveOptions,
) -> Option<ResolvedView> {
    let places = found_places(v, name, qualifier, from_uri, options.allow_rg, searched);
    if places.len() > 0 {
        enrich::enriched_at(v, places[0], name, ctx, options)
    } else {
        None
    }
}

/// What is found out about the symbol that a name in a file stands for. `searched` holds what a
/// search of the sources found.
pub fn resolve_searched_symbol_info<I: IndexRead>(
    index: &I,
    name: &str,
    qualifier: Option<&str>,
    from_uri: &str,
    searched: &Vec<Location>,
    subst_ctx: &SubstitutionContext<'_>,
    options: &ResolveOptions,
) -> (r: Option<ResolvedSymbol>)
    requires
        index.ready(),
    ensures
        r.deep_view() == searched_info(
            index.seen(),
            name@,
            qualifier.deep_view(),
            from_uri@,
            searched.deep_view(),
            subst_ctx.deep_view(),
            *options,
        ),
{
    let places = resolve_searched(index, name, qualifier, from_uri, options.allow_rg, searched);
    assert(places.deep_view().len() == places@.len());
    if places.len() == 0 {
        return None;
    }
    assert(places.deep_view()[0] == places@[0].deep_view());
    enrich::enrich_at_location(index, &places[0], name, subst_ctx, options)
}

// ---------------------------------------------------------------------------
// Indexing one after the other
// ---------------------------------------------------------------------------

/// The files that have not been tried.
pub open spec fn untried(tried: Seq<Seq<char>>) -> spec_fn(Seq<char>) -> bool {
    |uri: Seq<char>| !tried.contains(uri)
}

/// The file to index next: the first missing one that has not been tried; none when the question
/// can be asked.
pub fn next_to_index(missing: &Vec<String>, tried: &Vec<String>) -> (r: Option<String>)
    ensures
        r.deep_view() == lists::find_where(missing.deep_view(), untried(tried.deep_view())),
{
    let ghost all = missing.deep_view();
    let ghost p = untried(tried.deep_view());
    let mut i: usize = 0;
    while i < missing.len()
        invariant
            i <= missing@.len(),
            all == missing.deep_view(),
            p == untried(tried.deep_view()),
            forall|k: int| 0 <= k < i ==> !p(#[trigger] all[k]),
        decreases missing@.len() - i,
    {
        assert(all[i as int] == missing@[i as int]@);
        if !contributions::contains_name(tried, missing[i].as_str()) {
            proof {
                lists::lemma_first(all, p, i as int);
            }
            return Some(missing[i].clone());
        }
        i += 1;
    }
    proof {
        lists::lemma_no_first(all, p);
    }
    None
}

impl Indexer {
    /// Whether a file is to be indexed on demand: one that is indexed already is not, nor one
    /// whose URI is none.
    pub fn wants_indexing(&self, uri: &str) -> (r: bool)
        requires
            self.wf(),
        ensures
            r == (!self@.files.dom().contains(uri@) && urls::parsed_url(uri@) is Some),
    {
        !self.files.contains_key(uri) && urls::parse_url(uri).is_some()
    }
}

// ---------------------------------------------------------------------------
// Laws
// ---------------------------------------------------------------------------

/// Whether everything that is known of files in `v` is known in `u`, and names stand for the
/// same places in both.
pub open spec fn extends(u: ReadView, v: ReadView) -> bool {
    &&& u.locations == v.locations
    &&& forall|uri: Seq<char>| #[trigger] (v.file)(uri) is Some ==> (u.file)(uri) == (v.file)(uri)
}

proof fn lemma_complete(u: ReadView, v: ReadView, c: ClassView, way: Way, depth: int)
    requires
        extends(u, v),
        missing_above(v, c, way, depth).len() == 0,
    ensures
        hierarchy::lineage(u, c, way, depth) == hierarchy::lineage(v, c, way, depth),
    decreases CLASS_HIERARCHY_MAX_DEPTH - depth, 2int, 0int,
{
    if depth < CLASS_HIERARCHY_MAX_DEPTH && !way.contains((c.uri, c.selection_line)) {
        if let Some(f) = (v.file)(c.uri) {
            let w = way.push((c.uri, c.selection_line));
            lemma_complete_supers(u, v, c, f.supers, w, depth, f.supers.len() as int);
        }
    }
}

proof fn lemma_complete_supers(
    u: ReadView,
    v: ReadView,
    c: ClassView,
    supers: Seq<(u32, Seq<char>, Seq<Seq<char>>)>,
    way: Way,
    depth: int,
    n: int,
)
    requires
        extends(u, v),
        missing_of_supers(v, c, supers, way, depth, n).len() == 0,
    ensures
        hierarchy::lineage_of_supers(u, c, supers, way, depth, n) == hierarchy::lineage_of_supers(
            v,
            c,
            supers,
            way,
            depth,
            n,
        ),
    decreases CLASS_HIERARCHY_MAX_DEPTH - depth, 1int, n,
{
    if depth < CLASS_HIERARCHY_MAX_DEPTH && 0 < n <= supers.len() {
        let s = supers[n - 1];
        lemma_complete_supers(u, v, c, supers, way, depth, n - 1);
        if s.0 == c.selection_line {
            let places = (v.locations)(s.1, None, c.uri, false);
            lemma_complete_places(
                u,
                v,
                s.1,
                hierarchy::all_substituted(s.2, c.substitution),
                places,
                way,
                depth,
                places.len() as int,
            );
        }
    }
}

proof fn lemma_complete_places(
    u: ReadView,
    v: ReadView,
    name: Seq<char>,
    args: Seq<Seq<char>>,
    places: Seq<LocationView>,
    way: Way,
    depth: int,
    n: int,
)
    requires
        extends(u, v),
        missing_of_places(v, name, args, places, way, depth, n).len() == 0,
    ensures
        hierarchy::lineage_of_places(u, name, args, places, way, depth, n)
            == hierarchy::lineage_of_places(v, name, args, places, way, depth, n),
    decreases CLASS_HIERARCHY_MAX_DEPTH - depth, 0int, n,
{
    if depth < CLASS_HIERARCHY_MAX_DEPTH && 0 < n <= places.len() {
        lemma_complete_places(u, v, name, args, places, way, depth, n - 1);
        let l = places[n - 1];
        assert((v.file)(l.uri) is Some);
        assert(hierarchy::superclass_at(u, name, args, l) == hierarchy::superclass_at(
            v,
            name,
            args,
            l,
        ));
        if let Some(s) = hierarchy::superclass_at(v, name, args, l) {
            lemma_complete(u, v, s, way, depth + 1);
        }
    }
}

/// A hierarchy that misses no file is whole: knowing more files adds nothing to it.
pub proof fn law_hierarchy_is_whole(
    u: ReadView,
    v: ReadView,
    uri: Seq<char>,
    name: Seq<char>,
    line: u32,
)
    requires
        extends(u, v),
        hierarchy_misses(v, uri, name, line).len() == 0,
    ensures
        hierarchy::hierarchy(u, uri, name, line) == hierarchy::hierarchy(v, uri, name, line),
{
    if let Some(parsed) = urls::parsed_url(uri) {
        let c = ClassView {
            uri: parsed,
            name,
            selection_line: line,
            substitution: Seq::empty(),
        };
        lemma_complete(u, v, c, Seq::empty(), 0);
    }
}

proof fn lemma_classes_whole(
    u: ReadView,
    v: ReadView,
    uri: Seq<char>,
    symbols: Seq<SymbolView>,
    i: int,
    n: int,
)
    requires
        extends(u, v),
        0 <= i < n <= symbols.len(),
        types::class_like(symbols[i].kind),
        classes_miss(v, uri, symbols, n).len() == 0,
    ensures
        hierarchy::hierarchy(u, uri, symbols[i].name, symbols[i].selection_range.start.line)
            == hierarchy::hierarchy(
            v,
            uri,
            symbols[i].name,
            symbols[i].selection_range.start.line,
        ),
    decreases n,
{
    if i == n - 1 {
        law_hierarchy_is_whole(u, v, uri, symbols[i].name, symbols[i].selection_range.start.line);
    } else {
        lemma_classes_whole(u, v, uri, symbols, i, n - 1);
    }
}

proof fn lemma_first_settled(
    u: ReadView,
    v: ReadView,
    uri: Seq<char>,
    symbols: Seq<SymbolView>,
    sym_uri: Seq<char>,
    container: SymbolView,
    i: int,
)
    requires
        extends(u, v),
        0 <= i <= symbols.len(),
        classes_miss(v, uri, symbols, symbols.len() as int).len() == 0,
    ensures
        enrich::given_by_first(u, uri, symbols, sym_uri, container, i) == enrich::given_by_first(
            v,
            uri,
            symbols,
            sym_uri,
            container,
            i,
        ),
    decreases symbols.len() - i,
{
    if i < symbols.len() {
        if types::class_like(symbols[i].kind) {
            lemma_classes_whole(u, v, uri, symbols, i, symbols.len() as int);
        }
        lemma_first_settled(u, v, uri, symbols, sym_uri, container, i + 1);
    }
}

/// What stands for type parameters is settled when no file is missed: knowing more files does
/// not change it.
pub proof fn law_subst_is_settled(
    u: ReadView,
    v: ReadView,
    sym_uri: Seq<char>,
    sym_line: u32,
    caller_uri: Seq<char>,
    cursor_line: Option<u32>,
)
    requires
        extends(u, v),
        subst_misses(v, sym_uri, sym_line, caller_uri, cursor_line).len() == 0,
    ensures
        enrich::param_subst(u, sym_uri, sym_line, caller_uri, cursor_line) == enrich::param_subst(
            v,
            sym_uri,
            sym_line,
            caller_uri,
            cursor_line,
        ),
{
    if sym_uri != caller_uri {
        assert((v.file)(sym_uri) is Some);
        assert(enrich::container_of(u, sym_uri, sym_line) == enrich::container_of(
            v,
            sym_uri,
            sym_line,
        ));
        if enrich::container_of(v, sym_uri, sym_line) is Some {
            assert((v.file)(caller_uri) is Some);
            match cursor_line {
                Some(line) => {
                    if let Some((name, s)) = enrich::caller_class(v, caller_uri, line) {
                        law_hierarchy_is_whole(
                            u,
                            v,
                            caller_uri,
                            name,
                            s.selection_range.start.line,
                        );
                    }
                },
                None => {
                    let symbols = (v.file)(caller_uri)->0.symbols;
                    let container = enrich::container_of(v, sym_uri, sym_line)->0;
                    lemma_first_settled(u, v, caller_uri, symbols, sym_uri, container, 0);
                },
            }
        }
    }
}

proof fn lemma_unknown(v: ReadView, c: ClassView, way: Way, depth: int, uri: Seq<char>)
    requires
        missing_above(v, c, way, depth).contains(uri),
    ensures
        (v.file)(uri) is None,
    decreases CLASS_HIERARCHY_MAX_DEPTH - depth, 2int, 0int,
{
    match (v.file)(c.uri) {
        Some(f) => {
            let w = way.push((c.uri, c.selection_line));
            lemma_unknown_supers(v, c, f.supers, w, depth, f.supers.len() as int, uri);
        },
        None => {},
    }
}

proof fn lemma_in_either(a: Seq<Seq<char>>, b: Seq<Seq<char>>, x: Seq<char>)
    requires
        (a + b).contains(x),
    ensures
        a.contains(x) || b.contains(x),
{
    let i = choose|i: int| 0 <= i < (a + b).len() && (a + b)[i] == x;
    if i < a.len() {
        assert(a[i] == x);
    } else {
        assert(b[i - a.len()] == x);
    }
}

proof fn lemma_unknown_supers(
    v: ReadView,
    c: ClassView,
    supers: Seq<(u32, Seq<char>, Seq<Seq<char>>)>,
    way: Way,
    depth: int,
    n: int,
    uri: Seq<char>,
)
    requires
        missing_of_supers(v, c, supers, way, depth, n).contains(uri),
    ensures
        (v.file)(uri) is None,
    decreases CLASS_HIERARCHY_MAX_DEPTH - depth, 1int, n,
{
    let before = missing_of_supers(v, c, supers, way, depth, n - 1);
    let s = supers[n - 1];
    if s.0 == c.selection_line {
        let places = (v.locations)(s.1, None, c.uri, false);
        let args = hierarchy::all_substituted(s.2, c.substitution);
        let more = missing_of_places(v, s.1, args, places, way, depth, places.len() as int);
        lemma_in_either(before, more, uri);
        if more.contains(uri) {
            lemma_unknown_places(v, s.1, args, places, way, depth, places.len() as int, uri);
        } else {
            lemma_unknown_supers(v, c, supers, way, depth, n - 1, uri);
        }
    } else {
        lemma_unknown_supers(v, c, supers, way, depth, n - 1, uri);
    }
}

proof fn lemma_unknown_places(
    v: ReadView,
    name: Seq<char>,
    args: Seq<Seq<char>>,
    places: Seq<LocationView>,
    way: Way,
    depth: int,
    n: int,
    uri: Seq<char>,
)
    requires
        missing_of_places(v, name, args, places, way, depth, n).contains(uri),
    ensures
        (v.file)(uri) is None,
    decreases CLASS_HIERARCHY_MAX_DEPTH - depth, 0int, n,
{
    let before = missing_of_places(v, name, args, places, way, depth, n - 1);
    let l = places[n - 1];
    let more = if (v.file)(l.uri) is None {
        seq![l.uri]
    } else {
        match hierarchy::superclass_at(v, name, args, l) {
            Some(s) => missing_above(v, s, way, depth + 1),
            None => Seq::empty(),
        }
    };
    lemma_in_either(before, more, uri);
    if before.contains(uri) {
        lemma_unknown_places(v, name, args, places, way, depth, n - 1, uri);
    } else if (v.file)(l.uri) is Some {
        if let Some(s) = hierarchy::superclass_at(v, name, args, l) {
            lemma_unknown(v, s, way, depth + 1, uri);
        }
    }
}

/// Only files that are not known are missed.
pub proof fn law_missed_files_are_unknown(
    v: ReadView,
    class_uri: Seq<char>,
    name: Seq<char>,
    line: u32,
    uri: Seq<char>,
)
    requires
        hierarchy_misses(v, class_uri, name, line).contains(uri),
    ensures
        (v.file)(uri) is None,
{
    if let Some(parsed) = urls::parsed_url(class_uri) {
        let c = ClassView {
            uri: parsed,
            name,
            selection_line: line,
            substitution: Seq::empty(),
        };
        lemma_unknown(v, c, Seq::empty(), 0, uri);
    }
}

/// Once the files of places are known, none of them is missed.
pub proof fn law_places_can_be_read(v: ReadView, places: Seq<LocationView>, n: int)
    requires
        0 <= n <= places.len(),
    ensures
        unknown_files(v, places, n).len() == 0 <==> forall|i: int|
            0 <= i < n ==> (v.file)((#[trigger] places[i]).uri) is Some,
    decreases n,
{
    if n > 0 {
        law_places_can_be_read(v, places, n - 1);
    }
}

} // verus!
