//! What one parsed file adds to each table of the index, and which keys it owns there.
use vstd::prelude::*;
use vstd::string::*;

use crate::group;
use crate::group::Grouping;
use crate::table::Table;
use crate::text;
use crate::types;
use crate::types::{
    ExtensionEntry, ExtensionView, FileData, FileIndexResult, FileView, Location, LocationView,
    Range, Replicate, SymbolEntry, SymbolView,
};

verus! {

// ---------------------------------------------------------------------------
// Names
// ---------------------------------------------------------------------------

/// The last segment of a URI, without its extension.
pub open spec fn file_stem(uri: Seq<char>) -> Option<Seq<char>> {
    let name = text::suffix_of(uri, text::all_but('/'));
    if name.len() == 0 {
        None
    } else {
        match text::rindex_of(name, '.') {
            Some(i) => if i == 0 {
                Some(name)
            } else {
                Some(name.take(i))
            },
            None => Some(name),
        }
    }
}

/// The last segment of a URI, without its extension; a segment that only begins with a dot has
/// no extension.
pub fn file_stem_from_uri(uri: &str) -> (r: Option<String>)
    ensures
        r.deep_view() == file_stem(uri@),
{
    let name = text::suffix_class(uri, text::CharClass::AllBut('/'));
    if name.is_empty() {
        return None;
    }
    match text::rfind_char(name, '.') {
        Some(i) => {
            if i == 0 {
                Some(name.to_owned())
            } else {
                Some(text::take(name, i).to_owned())
            }
        },
        None => Some(name.to_owned()),
    }
}

/// `a.b`.
pub open spec fn dotted(a: Seq<char>, b: Seq<char>) -> Seq<char> {
    a + seq!['.'] + b
}

/// `a.b`.
pub fn join_dot(a: &str, b: &str) -> (r: String)
    ensures
        r@ == dotted(a@, b@),
{
    let mut out = a.to_owned();
    out.push('.');
    out.append(b);
    assert(a@.push('.') =~= a@ + seq!['.']);
    out
}

// ---------------------------------------------------------------------------
// Qualified names
// ---------------------------------------------------------------------------

/// The qualified names of one symbol of a file in the package `pkg`: by package, and by
/// package and file, unless the file is named after the symbol.
pub open spec fn symbol_keys(pkg: Seq<char>, stem: Option<Seq<char>>, s: SymbolView) -> Seq<
    (Seq<char>, Range),
> {
    let by_package = seq![(dotted(pkg, s.name), s.selection_range)];
    match stem {
        Some(t) => if t != s.name {
            by_package.push((dotted(dotted(pkg, t), s.name), s.selection_range))
        } else {
            by_package
        },
        None => by_package,
    }
}

pub open spec fn keys_by_symbol(pkg: Seq<char>, stem: Option<Seq<char>>) -> spec_fn(
    SymbolView,
) -> Seq<(Seq<char>, Range)> {
    |s: SymbolView| symbol_keys(pkg, stem, s)
}

/// The qualified names of a file's symbols, in order, with the range of each symbol's name.
pub open spec fn qualified_keys(f: FileView, stem: Option<Seq<char>>) -> Seq<(Seq<char>, Range)> {
    match f.package {
        Some(pkg) => f.symbols.flat_map(keys_by_symbol(pkg, stem)),
        None => Seq::empty(),
    }
}

/// The qualified names of a file's symbols, in order, with the range of each symbol's name.
pub fn build_qualified_keys(file_data: &FileData, file_stem: Option<&str>) -> (r: Vec<
    (String, Range),
>)
    ensures
        r.deep_view() == qualified_keys(file_data.deep_view(), file_stem.deep_view()),
{
    let mut out: Vec<(String, Range)> = Vec::new();
    match &file_data.package {
        None => {
            assert(out.deep_view() =~= Seq::empty());
        },
        Some(pkg) => {
            let ghost symbols = file_data.deep_view().symbols;
            let ghost f = keys_by_symbol(pkg@, file_stem.deep_view());
            let mut i: usize = 0;
            proof {
                assert(symbols.take(0) =~= Seq::empty());
                assert(Seq::<SymbolView>::empty().flat_map(f) =~= Seq::empty());
                assert(out.deep_view() =~= symbols.take(0).flat_map(f));
            }
            while i < file_data.symbols.len()
                invariant
                    i <= file_data.symbols@.len(),
                    symbols == file_data.deep_view().symbols,
                    f == keys_by_symbol(pkg@, file_stem.deep_view()),
                    out.deep_view() == symbols.take(i as int).flat_map(f),
                decreases file_data.symbols@.len() - i,
            {
                let sym = &file_data.symbols[i];
                let ghost before = out.deep_view();
                assert(symbols[i as int] == sym.deep_view());
                out.push((join_dot(pkg.as_str(), sym.name.as_str()), sym.selection_range));
                assert(out.deep_view() =~= before.push(
                    (dotted(pkg@, sym.name@), sym.selection_range),
                ));
                match file_stem {
                    Some(stem) => {
                        if !text::same(stem, sym.name.as_str()) {
                            let ghost mid = out.deep_view();
                            let prefix = join_dot(pkg.as_str(), stem);
                            out.push(
                                (join_dot(prefix.as_str(), sym.name.as_str()), sym.selection_range),
                            );
                            assert(out.deep_view() =~= mid.push(
                                (dotted(dotted(pkg@, stem@), sym.name@), sym.selection_range),
                            ));
                        }
                    },
                    None => {},
                }
                proof {
                    symbols.lemma_flat_map_take_append(f, i as int);
                    assert(out.deep_view() =~= before + f(symbols[i as int]));
                }
                i += 1;
            }
            assert(symbols.take(symbols.len() as int) =~= symbols);
        },
    }
    out
}

/// The locations of qualified names in the document `uri`.
pub open spec fn located(keys: Seq<(Seq<char>, Range)>, uri: Seq<char>) -> Seq<
    (Seq<char>, LocationView),
> {
    keys.map_values(|p: (Seq<char>, Range)| (p.0, LocationView { uri, range: p.1 }))
}

/// Enters the qualified names `keys` of the document `uri` into `t`.
pub(crate) fn add_qualified(t: &mut Table<Location>, keys: &Vec<(String, Range)>, uri: &str)
    requires
        old(t).wf(),
    ensures
        final(t).wf(),
        final(t)@ == group::overwritten(
            old(t)@,
            group::last_wins(located(keys.deep_view(), uri@)),
        ),
{
    let ghost all = located(keys.deep_view(), uri@);
    let mut i: usize = 0;
    proof {
        assert(all.take(0) =~= Seq::empty());
        group::lemma_overwritten_insert(t@, Map::empty(), Seq::empty(), all[0].1);
    }
    while i < keys.len()
        invariant
            i <= keys@.len(),
            t.wf(),
            all == located(keys.deep_view(), uri@),
            t@ == group::overwritten(old(t)@, group::last_wins(all.take(i as int))),
        decreases keys@.len() - i,
    {
        let pair = &keys[i];
        let loc = Location { uri: uri.to_owned(), range: pair.1 };
        let ghost v = loc.deep_view();
        t.insert(pair.0.as_str(), loc);
        proof {
            assert(keys.deep_view()[i as int] == pair.deep_view());
            assert(all[i as int] == (pair.0@, v));
            assert(all.take(i + 1).drop_last() =~= all.take(i as int));
            assert(all.take(i + 1).last() == all[i as int]);
            group::lemma_overwritten_insert(
                old(t)@,
                group::last_wins(all.take(i as int)),
                pair.0@,
                v,
            );
        }
        i += 1;
    }
    assert(all.take(all.len() as int) =~= all);
}

// ---------------------------------------------------------------------------
// Definitions and extensions
// ---------------------------------------------------------------------------

/// Symbols by name, each with its location in `uri`.
pub open spec fn by_name(uri: Seq<char>) -> Grouping<SymbolView, LocationView> {
    Grouping {
        keep: |s: SymbolView| true,
        key: |s: SymbolView| s.name,
        value: |s: SymbolView| LocationView { uri, range: s.selection_range },
    }
}

/// Where a file declares each name.
pub open spec fn definitions_of(f: FileView, uri: Seq<char>) -> Map<Seq<char>, Seq<LocationView>> {
    group::grouped(f.symbols, by_name(uri))
}

/// The entry of an extension that a file declares.
pub open spec fn extension_entry(f: FileView, uri: Seq<char>, s: SymbolView) -> ExtensionView {
    ExtensionView {
        file_uri: uri,
        name: s.name,
        kind: s.kind,
        detail: s.detail,
        visibility: s.visibility,
        package: f.package,
        trailing_lambda: s.trailing_lambda,
        deprecated: s.deprecated,
    }
}

/// Extensions by receiver type.
pub open spec fn by_receiver(f: FileView, uri: Seq<char>) -> Grouping<SymbolView, ExtensionView> {
    Grouping {
        keep: |s: SymbolView| s.extension_receiver.len() > 0,
        key: |s: SymbolView| s.extension_receiver,
        value: |s: SymbolView| extension_entry(f, uri, s),
    }
}

/// The extensions that a file declares, by receiver type.
pub open spec fn extensions_of(f: FileView, uri: Seq<char>) -> Map<Seq<char>, Seq<ExtensionView>> {
    group::grouped(f.symbols, by_receiver(f, uri))
}

/// Enters the declarations of a file into `t`.
pub(crate) fn add_definitions(t: &mut Table<Vec<Location>>, data: &FileData, uri: &str)
    requires
        old(t).wf(),
    ensures
        final(t).wf(),
        final(t)@ == group::merged(old(t)@, definitions_of(data.deep_view(), uri@)),
{
    let ghost symbols = data.deep_view().symbols;
    let ghost g = by_name(uri@);
    let mut i: usize = 0;
    proof {
        group::lemma_grouped_empty(symbols.take(0), g);
        group::lemma_merged_empty(t@);
    }
    while i < data.symbols.len()
        invariant
            i <= data.symbols@.len(),
            t.wf(),
            symbols == data.deep_view().symbols,
            g == by_name(uri@),
            t@ == group::merged(old(t)@, group::grouped(symbols.take(i as int), g)),
        decreases data.symbols@.len() - i,
    {
        let sym = &data.symbols[i];
        let loc = Location { uri: uri.to_owned(), range: sym.selection_range };
        let ghost v = loc.deep_view();
        t.push(sym.name.as_str(), loc);
        proof {
            let s = symbols[i as int];
            assert(s == sym.deep_view());
            assert(symbols.take(i as int).push(s) =~= symbols.take(i + 1));
            group::lemma_grouped_push(symbols.take(i as int), s, g);
            group::lemma_merged_insert(
                old(t)@,
                group::grouped(symbols.take(i as int), g),
                s.name,
                v,
            );
        }
        i += 1;
    }
    assert(symbols.take(symbols.len() as int) =~= symbols);
}

/// Enters the extensions of a file into `t`.
pub(crate) fn add_extensions(t: &mut Table<Vec<ExtensionEntry>>, data: &FileData, uri: &str)
    requires
        old(t).wf(),
    ensures
        final(t).wf(),
        final(t)@ == group::merged(old(t)@, extensions_of(data.deep_view(), uri@)),
{
    let ghost symbols = data.deep_view().symbols;
    let ghost g = by_receiver(data.deep_view(), uri@);
    let mut i: usize = 0;
    proof {
        group::lemma_grouped_empty(symbols.take(0), g);
        group::lemma_merged_empty(t@);
    }
    while i < data.symbols.len()
        invariant
            i <= data.symbols@.len(),
            t.wf(),
            symbols == data.deep_view().symbols,
            g == by_receiver(data.deep_view(), uri@),
            t@ == group::merged(old(t)@, group::grouped(symbols.take(i as int), g)),
        decreases data.symbols@.len() - i,
    {
        let sym = &data.symbols[i];
        proof {
            let s = symbols[i as int];
            assert(s == sym.deep_view());
            assert(symbols.take(i as int).push(s) =~= symbols.take(i + 1));
            group::lemma_grouped_push(symbols.take(i as int), s, g);
        }
        if !sym.extension_receiver.as_str().is_empty() {
            let entry = ExtensionEntry {
                file_uri: uri.to_owned(),
                name: sym.name.clone(),
                kind: sym.kind,
                detail: sym.detail.clone(),
                visibility: sym.visibility,
                package: data.package.replicate(),
                trailing_lambda: sym.trailing_lambda,
                deprecated: sym.deprecated,
            };
            let ghost v = entry.deep_view();
            t.push(sym.extension_receiver.as_str(), entry);
            proof {
                group::lemma_merged_insert(
                    old(t)@,
                    group::grouped(symbols.take(i as int), g),
                    symbols[i as int].extension_receiver,
                    v,
                );
            }
        }
        i += 1;
    }
    assert(symbols.take(symbols.len() as int) =~= symbols);
}

// ---------------------------------------------------------------------------
// Supertypes
// ---------------------------------------------------------------------------

/// The supertypes listed for the class whose name stands on `line`.
pub open spec fn supers_on(line: u32) -> spec_fn((u32, Seq<char>, Seq<Seq<char>>)) -> bool {
    |t: (u32, Seq<char>, Seq<Seq<char>>)| t.0 == line
}

pub open spec fn super_at(loc: LocationView) -> spec_fn(
    (u32, Seq<char>, Seq<Seq<char>>),
) -> (Seq<char>, LocationView) {
    |t: (u32, Seq<char>, Seq<Seq<char>>)| (t.1, loc)
}

/// The supertypes of one symbol, each with the symbol's location; none where the symbol
/// declares no type.
pub open spec fn supers_of_symbol(f: FileView, uri: Seq<char>, s: SymbolView) -> Seq<
    (Seq<char>, LocationView),
> {
    if types::class_like(s.kind) {
        f.supers.filter(supers_on(s.selection_range.start.line)).map_values(
            super_at(LocationView { uri, range: s.selection_range }),
        )
    } else {
        Seq::empty()
    }
}

pub open spec fn supers_by_symbol(f: FileView, uri: Seq<char>) -> spec_fn(SymbolView) -> Seq<
    (Seq<char>, LocationView),
> {
    |s: SymbolView| supers_of_symbol(f, uri, s)
}

/// The supertypes of the types that a file declares, each with the location of the type that
/// extends it.
pub open spec fn supertypes_of(f: FileView, uri: Seq<char>) -> Seq<(Seq<char>, LocationView)> {
    f.symbols.flat_map(supers_by_symbol(f, uri))
}

/// Classes by supertype.
pub open spec fn by_supertype() -> Grouping<(Seq<char>, LocationView), LocationView> {
    Grouping {
        keep: |p: (Seq<char>, LocationView)| true,
        key: |p: (Seq<char>, LocationView)| p.0,
        value: |p: (Seq<char>, LocationView)| p.1,
    }
}

/// The supertypes of the types that a file declares, each with the location of the type that
/// extends it.
pub fn derive_supertypes(uri: &str, data: &FileData) -> (r: Vec<(String, Location)>)
    ensures
        r.deep_view() == supertypes_of(data.deep_view(), uri@),
{
    let mut out: Vec<(String, Location)> = Vec::new();
    let ghost view = data.deep_view();
    let ghost f = supers_by_symbol(view, uri@);
    let mut i: usize = 0;
    proof {
        assert(view.symbols.take(0) =~= Seq::empty());
        assert(Seq::<SymbolView>::empty().flat_map(f) =~= Seq::empty());
        assert(out.deep_view() =~= view.symbols.take(0).flat_map(f));
    }
    while i < data.symbols.len()
        invariant
            i <= data.symbols@.len(),
            view == data.deep_view(),
            f == supers_by_symbol(view, uri@),
            out.deep_view() == view.symbols.take(i as int).flat_map(f),
        decreases data.symbols@.len() - i,
    {
        let sym = &data.symbols[i];
        let ghost before = out.deep_view();
        assert(view.symbols[i as int] == sym.deep_view());
        if types::is_class_like(sym.kind) {
            let start_line: u32 = sym.selection_start();
            let ghost loc = LocationView { uri: uri@, range: sym.selection_range };
            let ghost p = supers_on(start_line);
            let ghost m = super_at(loc);
            let mut j: usize = 0;
            proof {
                reveal(Seq::filter);
                assert(view.supers.take(0).filter(p).map_values(m) =~= Seq::empty());
                assert(out.deep_view() =~= before + view.supers.take(0).filter(p).map_values(m));
            }
            while j < data.supers.len()
                invariant
                    j <= data.supers@.len(),
                    view == data.deep_view(),
                    p == supers_on(start_line),
                    m == super_at(loc),
                    loc == (LocationView { uri: uri@, range: sym.selection_range }),
                    out.deep_view() == before + view.supers.take(j as int).filter(p).map_values(m),
                decreases data.supers@.len() - j,
            {
                let entry = &data.supers[j];
                let ghost t = view.supers[j as int];
                let ghost mid = out.deep_view();
                proof {
                    assert(t == entry.deep_view());
                    assert(view.supers.take(j as int).push(t) =~= view.supers.take(j + 1));
                    view.supers.take(j as int).lemma_filter_push(t, p);
                }
                if entry.0 == start_line {
                    out.push(
                        (
                            entry.1.clone(),
                            Location { uri: uri.to_owned(), range: sym.selection_range },
                        ),
                    );
                    proof {
                        let kept = view.supers.take(j as int).filter(p);
                        assert(out.deep_view() =~= mid.push((t.1, loc)));
                        assert(kept.push(t).map_values(m) =~= kept.map_values(m).push((t.1, loc)));
                        assert(mid.push((t.1, loc)) =~= before + kept.push(t).map_values(m));
                    }
                }
                j += 1;
            }
            assert(view.supers.take(view.supers.len() as int) =~= view.supers);
        }
        proof {
            view.symbols.lemma_flat_map_take_append(f, i as int);
            assert(out.deep_view() =~= before + f(view.symbols[i as int]));
        }
        i += 1;
    }
    assert(view.symbols.take(view.symbols.len() as int) =~= view.symbols);
    out
}

/// Enters supertypes, each with the location of a class that extends it, into `t`.
pub(crate) fn add_subtypes(t: &mut Table<Vec<Location>>, supertypes: &Vec<(String, Location)>)
    requires
        old(t).wf(),
    ensures
        final(t).wf(),
        final(t)@ == group::merged(
            old(t)@,
            group::grouped(supertypes.deep_view(), by_supertype()),
        ),
{
    let ghost all = supertypes.deep_view();
    let ghost g = by_supertype();
    let mut i: usize = 0;
    proof {
        group::lemma_grouped_empty(all.take(0), g);
        group::lemma_merged_empty(t@);
    }
    while i < supertypes.len()
        invariant
            i <= supertypes@.len(),
            t.wf(),
            all == supertypes.deep_view(),
            g == by_supertype(),
            t@ == group::merged(old(t)@, group::grouped(all.take(i as int), g)),
        decreases supertypes@.len() - i,
    {
        let pair = &supertypes[i];
        let loc = pair.1.replicate();
        let ghost v = loc.deep_view();
        t.push(pair.0.as_str(), loc);
        proof {
            let s = all[i as int];
            assert(s == pair.deep_view());
            assert(all.take(i as int).push(s) =~= all.take(i + 1));
            group::lemma_grouped_push(all.take(i as int), s, g);
            group::lemma_merged_insert(old(t)@, group::grouped(all.take(i as int), g), s.0, v);
        }
        i += 1;
    }
    assert(all.take(all.len() as int) =~= all);
}

// ---------------------------------------------------------------------------
// Contributions
// ---------------------------------------------------------------------------

/// What one file adds to each table of the index.
pub struct FileContributions {
    pub definitions: Table<Vec<Location>>,
    pub qualified: Table<Location>,
    pub packages: Table<Vec<String>>,
    pub subtypes: Table<Vec<Location>>,
    pub extensions: Table<Vec<ExtensionEntry>>,
    pub file_data: (String, FileData),
    pub content_hash: (String, u64),
}

#[verifier::ext_equal]
pub struct ContributionsView {
    pub definitions: Map<Seq<char>, Seq<LocationView>>,
    pub qualified: Map<Seq<char>, LocationView>,
    pub packages: Map<Seq<char>, Seq<Seq<char>>>,
    pub subtypes: Map<Seq<char>, Seq<LocationView>>,
    pub extensions: Map<Seq<char>, Seq<ExtensionView>>,
    pub uri: Seq<char>,
    pub file: FileView,
    pub hash_key: Seq<char>,
    pub content_hash: u64,
}

impl DeepView for FileContributions {
    type V = ContributionsView;

    open spec fn deep_view(&self) -> ContributionsView {
        ContributionsView {
            definitions: self.definitions@,
            qualified: self.qualified@,
            packages: self.packages@,
            subtypes: self.subtypes@,
            extensions: self.extensions@,
            uri: self.file_data.0@,
            file: self.file_data.1.deep_view(),
            hash_key: self.content_hash.0@,
            content_hash: self.content_hash.1,
        }
    }
}

impl FileContributions {
    /// Every table is in order.
    pub open spec fn wf(&self) -> bool {
        &&& self.definitions.wf()
        &&& self.qualified.wf()
        &&& self.packages.wf()
        &&& self.subtypes.wf()
        &&& self.extensions.wf()
    }
}

/// The file `uri` listed under its package.
pub open spec fn package_of(f: FileView, uri: Seq<char>) -> Map<Seq<char>, Seq<Seq<char>>> {
    match f.package {
        Some(pkg) => map![pkg => seq![uri]],
        None => Map::empty(),
    }
}

/// The qualified names that a file declares, each with its location.
pub open spec fn qualified_of(f: FileView, uri: Seq<char>) -> Map<Seq<char>, LocationView> {
    group::last_wins(located(qualified_keys(f, file_stem(uri)), uri))
}

/// What the file `uri` adds to each table.
pub open spec fn contributions(
    f: FileView,
    uri: Seq<char>,
    content_hash: u64,
    supertypes: Seq<(Seq<char>, LocationView)>,
) -> ContributionsView {
    ContributionsView {
        definitions: definitions_of(f, uri),
        qualified: qualified_of(f, uri),
        packages: package_of(f, uri),
        subtypes: group::grouped(supertypes, by_supertype()),
        extensions: extensions_of(f, uri),
        uri,
        file: f,
        hash_key: uri,
        content_hash,
    }
}

/// Computes what a parsed file adds to each table of the index.
pub fn contributions_from_data(
    uri: &str,
    file_data: FileData,
    content_hash: u64,
    supertypes: &Vec<(String, Location)>,
) -> (r: FileContributions)
    ensures
        r.wf(),
        r.deep_view() == contributions(
            file_data.deep_view(),
            uri@,
            content_hash,
            supertypes.deep_view(),
        ),
{
    let mut definitions: Table<Vec<Location>> = Table::new();
    add_definitions(&mut definitions, &file_data, uri);

    let mut qualified: Table<Location> = Table::new();
    let stem = file_stem_from_uri(uri);
    let stem_ref: Option<&str> = match &stem {
        Some(s) => Some(s.as_str()),
        None => None,
    };
    let keys = build_qualified_keys(&file_data, stem_ref);
    add_qualified(&mut qualified, &keys, uri);

    let mut packages: Table<Vec<String>> = Table::new();
    match &file_data.package {
        Some(pkg) => {
            packages.push(pkg.as_str(), uri.to_owned());
        },
        None => {},
    }

    let mut subtypes: Table<Vec<Location>> = Table::new();
    add_subtypes(&mut subtypes, supertypes);

    let mut extensions: Table<Vec<ExtensionEntry>> = Table::new();
    add_extensions(&mut extensions, &file_data, uri);

    proof {
        let f = file_data.deep_view();
        group::lemma_merged_empty(definitions_of(f, uri@));
        group::lemma_merged_empty(group::grouped(supertypes.deep_view(), by_supertype()));
        group::lemma_merged_empty(extensions_of(f, uri@));
        assert(qualified@ =~= qualified_of(f, uri@));
        assert(packages@ =~~= package_of(f, uri@));
    }
    FileContributions {
        definitions,
        qualified,
        packages,
        subtypes,
        extensions,
        file_data: (uri.to_owned(), file_data),
        content_hash: (uri.to_owned(), content_hash),
    }
}

/// Computes what an indexing result adds to each table of the index.
pub fn file_contributions(result: &FileIndexResult) -> (r: FileContributions)
    ensures
        r.wf(),
        r.deep_view() == contributions(
            result.data.deep_view(),
            result.uri@,
            result.content_hash,
            result.supertypes.deep_view(),
        ),
{
    contributions_from_data(
        result.uri.as_str(),
        result.data.replicate(),
        result.content_hash,
        &result.supertypes,
    )
}

// ---------------------------------------------------------------------------
// Stale keys
// ---------------------------------------------------------------------------

/// The keys under which a file was entered.
#[derive(Debug, PartialEq, Eq)]
pub struct StaleKeys {
    pub definition_names: Vec<String>,
    pub qualified_keys: Vec<String>,
    pub package: Option<String>,
}

/// The names that a file declares.
pub open spec fn declared(f: FileView) -> Seq<Seq<char>> {
    f.symbols.map_values(|s: SymbolView| s.name)
}

/// The qualified names that a file declares.
pub open spec fn declared_keys(f: FileView, uri: Seq<char>) -> Seq<Seq<char>> {
    qualified_keys(f, file_stem(uri)).map_values(|p: (Seq<char>, Range)| p.0)
}

/// Computes the keys under which the file `uri` was entered when it held `old_data`.
pub fn stale_keys_for(uri: &str, old_data: &FileData) -> (r: StaleKeys)
    ensures
        r.definition_names.deep_view() == declared(old_data.deep_view()),
        r.qualified_keys.deep_view() == declared_keys(old_data.deep_view(), uri@),
        r.package.deep_view() == old_data.deep_view().package,
{
    let ghost view = old_data.deep_view();
    let mut definition_names: Vec<String> = Vec::new();
    let mut i: usize = 0;
    while i < old_data.symbols.len()
        invariant
            i <= old_data.symbols@.len(),
            view == old_data.deep_view(),
            definition_names@.len() == i,
            forall|k: int| 0 <= k < i ==> (#[trigger] definition_names@[k])@ == view.symbols[k].name,
        decreases old_data.symbols@.len() - i,
    {
        assert(view.symbols[i as int] == old_data.symbols@[i as int].deep_view());
        definition_names.push(old_data.symbols[i].name.clone());
        i += 1;
    }
    assert(definition_names.deep_view() =~= declared(view));

    let stem = file_stem_from_uri(uri);
    let stem_ref: Option<&str> = match &stem {
        Some(s) => Some(s.as_str()),
        None => None,
    };
    let keys = build_qualified_keys(old_data, stem_ref);
    let mut qualified_keys: Vec<String> = Vec::new();
    let mut j: usize = 0;
    while j < keys.len()
        invariant
            j <= keys@.len(),
            qualified_keys@.len() == j,
            forall|k: int|
                0 <= k < j ==> (#[trigger] qualified_keys@[k])@ == keys.deep_view()[k].0,
        decreases keys@.len() - j,
    {
        assert(keys.deep_view()[j as int] == keys@[j as int].deep_view());
        qualified_keys.push(keys[j].0.clone());
        j += 1;
    }
    assert(qualified_keys.deep_view() =~= declared_keys(view, uri@));

    StaleKeys { definition_names, qualified_keys, package: old_data.package.replicate() }
}

// ---------------------------------------------------------------------------
// Visibility
// ---------------------------------------------------------------------------

/// The symbols that can be used from outside their module.
pub open spec fn usable_outside() -> spec_fn(SymbolView) -> bool {
    |s: SymbolView| types::visible_outside(s.visibility)
}

/// A file without the symbols that cannot be used from outside its module.
pub open spec fn without_private(f: FileView) -> FileView {
    FileView { symbols: f.symbols.filter(usable_outside()), ..f }
}

/// Keeps the symbols that can be used from outside their module.
pub(crate) fn retain_usable(symbols: Vec<SymbolEntry>) -> (r: Vec<SymbolEntry>)
    ensures
        r.deep_view() == symbols.deep_view().filter(usable_outside()),
{
    let ghost all = symbols.deep_view();
    let ghost p = usable_outside();
    let mut out: Vec<SymbolEntry> = Vec::new();
    let mut i: usize = 0;
    proof {
        reveal(Seq::filter);
        assert(out.deep_view() =~= all.take(0).filter(p));
    }
    while i < symbols.len()
        invariant
            i <= symbols@.len(),
            all == symbols.deep_view(),
            p == usable_outside(),
            out.deep_view() == all.take(i as int).filter(p),
        decreases symbols@.len() - i,
    {
        let sym = &symbols[i];
        let ghost before = out.deep_view();
        proof {
            assert(all[i as int] == sym.deep_view());
            assert(all.take(i as int).push(all[i as int]) =~= all.take(i + 1));
            all.take(i as int).lemma_filter_push(all[i as int], p);
        }
        if !(sym.visibility == types::Visibility::Private || sym.visibility
            == types::Visibility::Internal) {
            out.push(sym.replicate());
            assert(out.deep_view() =~= before.push(all[i as int]));
        }
        i += 1;
    }
    assert(all.take(all.len() as int) =~= all);
    out
}

/// An indexing result of a library file, without the symbols that no other module can use.
pub open spec fn library_result(
    f: FileView,
    uri: Seq<char>,
    library_uris: Seq<Seq<char>>,
) -> FileView {
    if library_uris.contains(uri) {
        without_private(f)
    } else {
        f
    }
}

/// Drops the private and internal symbols of the results whose URI is among `library_uris`.
pub fn strip_library_private_symbols(
    results: Vec<FileIndexResult>,
    library_uris: &Vec<String>,
) -> (r: Vec<FileIndexResult>)
    ensures
        r@.len() == results@.len(),
        forall|i: int|
            0 <= i < results@.len() ==> {
                &&& (#[trigger] r@[i]).uri@ == results@[i].uri@
                &&& r@[i].supertypes.deep_view() == results@[i].supertypes.deep_view()
                &&& r@[i].content_hash == results@[i].content_hash
                &&& r@[i].error.deep_view() == results@[i].error.deep_view()
                &&& r@[i].data.deep_view() == library_result(
                    results@[i].data.deep_view(),
                    results@[i].uri@,
                    library_uris.deep_view(),
                )
            },
{
    let mut out: Vec<FileIndexResult> = Vec::new();
    let mut i: usize = 0;
    while i < results.len()
        invariant
            i <= results@.len(),
            out@.len() == i,
            forall|k: int|
                0 <= k < i ==> {
                    &&& (#[trigger] out@[k]).uri@ == results@[k].uri@
                    &&& out@[k].supertypes.deep_view() == results@[k].supertypes.deep_view()
                    &&& out@[k].content_hash == results@[k].content_hash
                    &&& out@[k].error.deep_view() == results@[k].error.deep_view()
                    &&& out@[k].data.deep_view() == library_result(
                        results@[k].data.deep_view(),
                        results@[k].uri@,
                        library_uris.deep_view(),
                    )
                },
        decreases results@.len() - i,
    {
        let result = &results[i];
        let mut data = result.data.replicate();
        if contains_name(library_uris, result.uri.as_str()) {
            data.symbols = retain_usable(data.symbols);
        }
        out.push(
            FileIndexResult {
                uri: result.uri.clone(),
                data,
                supertypes: result.supertypes.replicate(),
                content_hash: result.content_hash,
                error: result.error.replicate(),
            },
        );
        i += 1;
    }
    out
}

/// Whether `names` holds `name`.
pub fn contains_name(names: &Vec<String>, name: &str) -> (r: bool)
    ensures
        r == names.deep_view().contains(name@),
{
    let mut i: usize = 0;
    while i < names.len()
        invariant
            i <= names@.len(),
            forall|k: int| 0 <= k < i ==> names.deep_view()[k] != name@,
        decreases names@.len() - i,
    {
        assert(names.deep_view()[i as int] == names@[i as int]@);
        if text::same(names[i].as_str(), name) {
            return true;
        }
        i += 1;
    }
    false
}

} // verus!
