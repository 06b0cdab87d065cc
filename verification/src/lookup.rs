//! Looking names up in the index, as a file sees them.
use vstd::prelude::*;
use vstd::string::*;

use crate::index::{IndexView, Indexer};
use crate::lists;
use crate::table;
use crate::text;
use crate::types::{
    FileData, FileView, ImportView, Location, LocationView, Replicate, SymbolEntry, SymbolView,
};

verus! {

/// Where a name is declared, in sources and in compiled libraries.
pub open spec fn definitions_of(v: IndexView, name: Seq<char>) -> Seq<LocationView> {
    table::list_at(v.definitions, name) + table::list_at(v.jar_definitions, name)
}

/// What is known of a file of sources or of a compiled library.
pub open spec fn any_file(v: IndexView, uri: Seq<char>) -> Option<FileView> {
    if v.files.dom().contains(uri) {
        Some(v.files[uri])
    } else if v.jar_files.dom().contains(uri) {
        Some(v.jar_files[uri])
    } else {
        None
    }
}

/// Whether a symbol bears the name.
pub open spec fn symbol_is(name: Seq<char>) -> spec_fn(SymbolView) -> bool {
    |s: SymbolView| s.name == name
}

/// Where the symbols of a name stand among some symbols of a file.
pub open spec fn located_in(symbols: Seq<SymbolView>, name: Seq<char>, uri: Seq<char>) -> Seq<
    LocationView,
>
    decreases symbols.len(),
{
    if symbols.len() == 0 {
        Seq::empty()
    } else {
        let before = located_in(symbols.drop_last(), name, uri);
        if symbols.last().name == name {
            before.push(LocationView { uri, range: symbols.last().selection_range })
        } else {
            before
        }
    }
}

/// Where a file declares a name.
pub open spec fn name_in_file(v: IndexView, name: Seq<char>, uri: Seq<char>) -> Seq<LocationView> {
    match any_file(v, uri) {
        Some(f) => located_in(f.symbols, name, uri),
        None => Seq::empty(),
    }
}

/// Whether an import brings the name in.
pub open spec fn imports_name(name: Seq<char>) -> spec_fn(ImportView) -> bool {
    |i: ImportView| !i.is_star && i.local_name == name
}

/// The qualified names under which the star imports among some imports bring a name in.
pub open spec fn star_names(imports: Seq<ImportView>, name: Seq<char>) -> Seq<Seq<char>>
    decreases imports.len(),
{
    if imports.len() == 0 {
        Seq::empty()
    } else {
        let before = star_names(imports.drop_last(), name);
        if imports.last().is_star {
            before.push(imports.last().full_path + "."@ + name)
        } else {
            before
        }
    }
}

/// The qualified names that a name may stand for in a file: what it imports, what its own
/// package declares, what its star imports bring in.
pub open spec fn candidates(f: FileView, name: Seq<char>) -> Seq<Seq<char>> {
    let imported = match lists::find_where(f.imports, imports_name(name)) {
        Some(i) => seq![i.full_path],
        None => Seq::empty(),
    };
    let own = match f.package {
        Some(p) => seq![p + "."@ + name],
        None => Seq::empty(),
    };
    imported + own + star_names(f.imports, name)
}

/// Whether a qualified name is declared.
pub open spec fn is_qualified(v: IndexView) -> spec_fn(Seq<char>) -> bool {
    |fqn: Seq<char>| v.qualified.dom().contains(fqn)
}

/// Where a name that a file uses is declared: in the file itself, else under the first
/// qualified name that it may stand for, else anywhere.
pub open spec fn resolved(v: IndexView, name: Seq<char>, from_uri: Seq<char>) -> Seq<LocationView> {
    let here = name_in_file(v, name, from_uri);
    let by_name = match any_file(v, from_uri) {
        Some(f) => match lists::find_where(candidates(f, name), is_qualified(v)) {
            Some(fqn) => seq![v.qualified[fqn]],
            None => Seq::empty(),
        },
        None => Seq::empty(),
    };
    if here.len() > 0 {
        here
    } else if by_name.len() > 0 {
        by_name
    } else {
        definitions_of(v, name)
    }
}

/// Where the members of a class that bear a name stand among some symbols of a file.
pub open spec fn members_in(
    symbols: Seq<SymbolView>,
    class: Seq<char>,
    name: Seq<char>,
    uri: Seq<char>,
) -> Seq<LocationView>
    decreases symbols.len(),
{
    if symbols.len() == 0 {
        Seq::empty()
    } else {
        let before = members_in(symbols.drop_last(), class, name, uri);
        if symbols.last().name == name && symbols.last().container == Some(class) {
            before.push(LocationView { uri, range: symbols.last().selection_range })
        } else {
            before
        }
    }
}

/// Where a class that a file names declares a member.
pub open spec fn member_places(
    v: IndexView,
    class: Seq<char>,
    name: Seq<char>,
    from_uri: Seq<char>,
) -> Seq<LocationView> {
    let places = resolved(v, class, from_uri);
    if places.len() == 0 {
        Seq::empty()
    } else {
        match any_file(v, places[0].uri) {
            Some(f) => members_in(f.symbols, class, name, places[0].uri),
            None => Seq::empty(),
        }
    }
}

/// Where the first of some supertypes that declares a member declares it.
pub open spec fn inherited_places(
    v: IndexView,
    supers: Seq<(u32, Seq<char>, Seq<Seq<char>>)>,
    name: Seq<char>,
    from_uri: Seq<char>,
) -> Seq<LocationView>
    decreases supers.len(),
{
    if supers.len() == 0 {
        Seq::empty()
    } else {
        let before = inherited_places(v, supers.drop_last(), name, from_uri);
        if before.len() > 0 {
            before
        } else {
            member_places(v, supers.last().1, name, from_uri)
        }
    }
}

/// Where what a file writes after `super` is declared: in the first supertype of its classes
/// that declares it.
pub open spec fn super_places(v: IndexView, name: Seq<char>, from_uri: Seq<char>) -> Seq<
    LocationView,
> {
    match any_file(v, from_uri) {
        Some(f) => inherited_places(v, f.supers, name, from_uri),
        None => Seq::empty(),
    }
}

/// Where a name is declared that a file uses with a qualifier: after `super` in a supertype,
/// else in the file that declares the qualifier, else as the name alone.
pub open spec fn resolved_qualified(
    v: IndexView,
    name: Seq<char>,
    qualifier: Option<Seq<char>>,
    from_uri: Seq<char>,
) -> Seq<LocationView> {
    if qualifier == Some("super"@) {
        super_places(v, name, from_uri)
    } else {
        resolved_outside(v, name, qualifier, from_uri)
    }
}

/// Where a name is declared that a file uses with a qualifier other than `super`: in the file
/// that declares the qualifier, else as the name alone.
pub open spec fn resolved_outside(
    v: IndexView,
    name: Seq<char>,
    qualifier: Option<Seq<char>>,
    from_uri: Seq<char>,
) -> Seq<LocationView> {
    let inside = match qualifier {
        Some(q) => {
            let outer = resolved(v, q, from_uri);
            if outer.len() > 0 {
                name_in_file(v, name, outer[0].uri)
            } else {
                Seq::empty()
            }
        },
        None => Seq::empty(),
    };
    if inside.len() > 0 {
        inside
    } else {
        resolved(v, name, from_uri)
    }
}

/// Whether a class that a file names declares a member at a place.
pub open spec fn member_stands(
    v: IndexView,
    class: Seq<char>,
    name: Seq<char>,
    place: LocationView,
) -> bool {
    match any_file(v, place.uri) {
        Some(f) => exists|k: int|
            0 <= k < f.symbols.len() && (#[trigger] f.symbols[k]).name == name
                && f.symbols[k].container == Some(class) && f.symbols[k].selection_range
                == place.range,
        None => false,
    }
}

proof fn lemma_members_stand(
    symbols: Seq<SymbolView>,
    class: Seq<char>,
    name: Seq<char>,
    uri: Seq<char>,
    i: int,
)
    requires
        0 <= i < members_in(symbols, class, name, uri).len(),
    ensures
        members_in(symbols, class, name, uri)[i].uri == uri,
        exists|k: int|
            0 <= k < symbols.len() && (#[trigger] symbols[k]).name == name && symbols[k].container
                == Some(class) && symbols[k].selection_range == members_in(
                symbols,
                class,
                name,
                uri,
            )[i].range,
    decreases symbols.len(),
{
    let shorter = symbols.drop_last();
    let before = members_in(shorter, class, name, uri);
    if i < before.len() {
        lemma_members_stand(shorter, class, name, uri, i);
        let k = choose|k: int|
            0 <= k < shorter.len() && (#[trigger] shorter[k]).name == name && shorter[k].container
                == Some(class) && shorter[k].selection_range == before[i].range;
        assert(symbols[k] == shorter[k]);
    } else {
        assert(symbols[symbols.len() - 1] == symbols.last());
    }
}

proof fn lemma_inherited_stand(
    v: IndexView,
    supers: Seq<(u32, Seq<char>, Seq<Seq<char>>)>,
    name: Seq<char>,
    from_uri: Seq<char>,
    i: int,
)
    requires
        0 <= i < inherited_places(v, supers, name, from_uri).len(),
    ensures
        exists|s: int|
            0 <= s < supers.len() && member_stands(
                v,
                (#[trigger] supers[s]).1,
                name,
                inherited_places(v, supers, name, from_uri)[i],
            ),
    decreases supers.len(),
{
    let shorter = supers.drop_last();
    let before = inherited_places(v, shorter, name, from_uri);
    if before.len() > 0 {
        lemma_inherited_stand(v, shorter, name, from_uri, i);
        let s = choose|s: int|
            0 <= s < shorter.len() && member_stands(
                v,
                (#[trigger] shorter[s]).1,
                name,
                before[i],
            );
        assert(supers[s] == shorter[s]);
    } else {
        let class = supers.last().1;
        let first = resolved(v, class, from_uri)[0];
        lemma_members_stand(any_file(v, first.uri)->0.symbols, class, name, first.uri, i);
        assert(supers[supers.len() - 1] == supers.last());
    }
}

proof fn lemma_first_supertype(
    v: IndexView,
    supers: Seq<(u32, Seq<char>, Seq<Seq<char>>)>,
    name: Seq<char>,
    from_uri: Seq<char>,
    n: int,
)
    requires
        0 <= n <= supers.len(),
        inherited_places(v, supers.take(n), name, from_uri).len() > 0,
    ensures
        inherited_places(v, supers, name, from_uri) == inherited_places(
            v,
            supers.take(n),
            name,
            from_uri,
        ),
    decreases supers.len() - n,
{
    if n < supers.len() {
        assert(supers.take(n + 1).drop_last() =~= supers.take(n));
        lemma_first_supertype(v, supers, name, from_uri, n + 1);
    } else {
        assert(supers.take(n) =~= supers);
    }
}

/// Each place that is found for what a file writes after `super` is that of a member of a class
/// that the file names as a supertype.
pub proof fn law_super_leads_to_supertypes(
    v: IndexView,
    name: Seq<char>,
    from_uri: Seq<char>,
    place: LocationView,
)
    requires
        resolved_qualified(v, name, Some("super"@), from_uri).contains(place),
    ensures
        match any_file(v, from_uri) {
            Some(f) => exists|s: int|
                0 <= s < f.supers.len() && member_stands(
                    v,
                    (#[trigger] f.supers[s]).1,
                    name,
                    place,
                ),
            None => false,
        },
{
    let places = resolved_qualified(v, name, Some("super"@), from_uri);
    let i = choose|i: int| 0 <= i < places.len() && places[i] == place;
    lemma_inherited_stand(v, any_file(v, from_uri)->0.supers, name, from_uri, i);
}

/// The first symbol of a name.
pub fn symbol_named<'a>(symbols: &'a Vec<SymbolEntry>, name: &str) -> (r: Option<&'a SymbolEntry>)
    ensures
        match r {
            Some(s) => lists::find_where(symbols.deep_view(), symbol_is(name@)) == Some(
                s.deep_view(),
            ),
            None => lists::find_where(symbols.deep_view(), symbol_is(name@)) is None,
        },
{
    let ghost all = symbols.deep_view();
    let ghost p = symbol_is(name@);
    let mut i: usize = 0;
    while i < symbols.len()
        invariant
            i <= symbols@.len(),
            all == symbols.deep_view(),
            p == symbol_is(name@),
            forall|k: int| 0 <= k < i ==> !p(#[trigger] all[k]),
        decreases symbols@.len() - i,
    {
        assert(all[i as int] == symbols@[i as int].deep_view());
        if text::same(symbols[i].name.as_str(), name) {
            proof {
                lists::lemma_first(all, p, i as int);
            }
            return Some(&symbols[i]);
        }
        i += 1;
    }
    proof {
        lists::lemma_no_first(all, p);
    }
    None
}

fn locate_in(symbols: &Vec<SymbolEntry>, name: &str, uri: &str) -> (r: Vec<Location>)
    ensures
        r.deep_view() == located_in(symbols.deep_view(), name@, uri@),
{
    let ghost all = symbols.deep_view();
    let mut out: Vec<Location> = Vec::new();
    let mut i: usize = 0;
    assert(out.deep_view() =~= located_in(all.take(0), name@, uri@));
    while i < symbols.len()
        invariant
            i <= symbols@.len(),
            all == symbols.deep_view(),
            out.deep_view() == located_in(all.take(i as int), name@, uri@),
        decreases symbols@.len() - i,
    {
        let s = &symbols[i];
        let ghost before = out.deep_view();
        proof {
            assert(all.take(i + 1).last() == s.deep_view());
            assert(all.take(i + 1).drop_last() =~= all.take(i as int));
        }
        if text::same(s.name.as_str(), name) {
            out.push(Location { uri: uri.to_owned(), range: s.selection_range });
            assert(out.deep_view() =~= before.push(
                LocationView { uri: uri@, range: s.deep_view().selection_range },
            ));
        }
        i += 1;
    }
    assert(all.take(all.len() as int) =~= all);
    out
}

fn candidate_names(file: &FileData, name: &str) -> (r: Vec<String>)
    ensures
        r.deep_view() == candidates(file.deep_view(), name@),
{
    let ghost all = file.imports.deep_view();
    let ghost p = imports_name(name@);
    let mut out: Vec<String> = Vec::new();
    let mut i: usize = 0;
    let mut found: bool = false;
    while i < file.imports.len() && !found
        invariant
            i <= file.imports@.len(),
            all == file.imports.deep_view(),
            p == imports_name(name@),
            found ==> out.deep_view() == (match lists::find_where(all, p) {
                Some(i) => seq![i.full_path],
                None => Seq::empty(),
            }),
            !found ==> out@.len() == 0 && forall|k: int| 0 <= k < i ==> !p(#[trigger] all[k]),
        decreases file.imports@.len() - i,
    {
        let import = &file.imports[i];
        assert(all[i as int] == import.deep_view());
        if !import.is_star && text::same(import.local_name.as_str(), name) {
            proof {
                lists::lemma_first(all, p, i as int);
            }
            out.push(import.full_path.clone());
            assert(out.deep_view() =~= seq![import.deep_view().full_path]);
            found = true;
        }
        i += 1;
    }
    proof {
        if !found {
            lists::lemma_no_first(all, p);
            assert(out.deep_view() =~= Seq::empty());
        }
    }
    let tail = text::concat(".", name);
    let ghost imported = out.deep_view();
    if let Some(package) = &file.package {
        let own = text::concat(package.as_str(), tail.as_str());
        let ghost o = own@;
        out.push(own);
        proof {
            assert(o =~= package@ + "."@ + name@);
            assert(out.deep_view() =~= imported + seq![o]);
        }
    } else {
        assert(imported + Seq::<Seq<char>>::empty() =~= imported);
    }
    let ghost start = out.deep_view();
    let mut j: usize = 0;
    assert(start + star_names(all.take(0), name@) =~= start);
    while j < file.imports.len()
        invariant
            j <= file.imports@.len(),
            all == file.imports.deep_view(),
            tail@ == "."@ + name@,
            out.deep_view() == start + star_names(all.take(j as int), name@),
        decreases file.imports@.len() - j,
    {
        let import = &file.imports[j];
        let ghost before = out.deep_view();
        proof {
            assert(all.take(j + 1).last() == import.deep_view());
            assert(all.take(j + 1).drop_last() =~= all.take(j as int));
        }
        if import.is_star {
            let star = text::concat(import.full_path.as_str(), tail.as_str());
            let ghost s = star@;
            out.push(star);
            proof {
                assert(s =~= import.full_path@ + "."@ + name@);
                assert(out.deep_view() =~= before.push(s));
                assert(before.push(s) =~= start + star_names(all.take(j as int), name@).push(s));
            }
        }
        j += 1;
    }
    assert(all.take(all.len() as int) =~= all);
    out
}

fn locate_members(symbols: &Vec<SymbolEntry>, class: &str, name: &str, uri: &str) -> (r: Vec<
    Location,
>)
    ensures
        r.deep_view() == members_in(symbols.deep_view(), class@, name@, uri@),
{
    let ghost all = symbols.deep_view();
    let mut out: Vec<Location> = Vec::new();
    let mut i: usize = 0;
    assert(out.deep_view() =~= members_in(all.take(0), class@, name@, uri@));
    while i < symbols.len()
        invariant
            i <= symbols@.len(),
            all == symbols.deep_view(),
            out.deep_view() == members_in(all.take(i as int), class@, name@, uri@),
        decreases symbols@.len() - i,
    {
        let s = &symbols[i];
        let ghost before = out.deep_view();
        proof {
            assert(all.take(i + 1).last() == s.deep_view());
            assert(all.take(i + 1).drop_last() =~= all.take(i as int));
        }
        let inside = match &s.container {
            Some(c) => text::same(c.as_str(), class),
            None => false,
        };
        if inside && text::same(s.name.as_str(), name) {
            out.push(Location { uri: uri.to_owned(), range: s.selection_range });
            assert(out.deep_view() =~= before.push(
                LocationView { uri: uri@, range: s.deep_view().selection_range },
            ));
        }
        i += 1;
    }
    assert(all.take(all.len() as int) =~= all);
    out
}

impl Indexer {
    /// Where a name is declared, in sources and in compiled libraries.
    pub fn all_definitions(&self, name: &str) -> (r: Vec<Location>)
        requires
            self.wf(),
        ensures
            r.deep_view() == definitions_of(self@, name@),
    {
        let mut out: Vec<Location> = match self.definitions.get(name) {
            Some(l) => l.replicate(),
            None => Vec::new(),
        };
        assert(out.deep_view() =~= table::list_at(self@.definitions, name@));
        let ghost first = out.deep_view();
        match self.jar_definitions.get(name) {
            Some(l) => {
                let mut more = l.replicate();
                let ghost m = more.deep_view();
                out.append(&mut more);
                assert(out.deep_view() =~= first + m);
            },
            None => {
                assert(first + Seq::<LocationView>::empty() =~= first);
            },
        }
        out
    }

    /// What is known of a file of sources or of a compiled library.
    pub fn data_of(&self, uri: &str) -> (r: Option<&FileData>)
        requires
            self.wf(),
        ensures
            match r {
                Some(d) => any_file(self@, uri@) == Some(d.deep_view()),
                None => any_file(self@, uri@) is None,
            },
    {
        match self.files.get(uri) {
            Some(d) => Some(d),
            None => self.jar_files.get(uri),
        }
    }

    /// Where a file declares a name.
    pub fn find_name_in_uri(&self, name: &str, uri: &str) -> (r: Vec<Location>)
        requires
            self.wf(),
        ensures
            r.deep_view() == name_in_file(self@, name@, uri@),
    {
        match self.data_of(uri) {
            Some(f) => locate_in(&f.symbols, name, uri),
            None => {
                let none: Vec<Location> = Vec::new();
                assert(none.deep_view() =~= Seq::empty());
                none
            },
        }
    }

    fn by_qualified_name(&self, name: &str, from_uri: &str) -> (r: Option<Location>)
        requires
            self.wf(),
        ensures
            r.deep_view() == match any_file(self@, from_uri@) {
                Some(f) => match lists::find_where(candidates(f, name@), is_qualified(self@)) {
                    Some(fqn) => Some(self@.qualified[fqn]),
                    None => None,
                },
                None => None,
            },
    {
        let file = match self.data_of(from_uri) {
            Some(f) => f,
            None => {
                return None;
            },
        };
        let names = candidate_names(file, name);
        let ghost all = names.deep_view();
        let ghost p = is_qualified(self@);
        let mut i: usize = 0;
        while i < names.len()
            invariant
                self.wf(),
                i <= names@.len(),
                all == names.deep_view(),
                all == candidates(file.deep_view(), name@),
                any_file(self@, from_uri@) == Some(file.deep_view()),
                p == is_qualified(self@),
                forall|k: int| 0 <= k < i ==> !p(#[trigger] all[k]),
            decreases names@.len() - i,
        {
            assert(all[i as int] == names@[i as int]@);
            if let Some(l) = self.qualified.get(names[i].as_str()) {
                proof {
                    lists::lemma_first(all, p, i as int);
                }
                return Some(l.replicate());
            }
            i += 1;
        }
        proof {
            lists::lemma_no_first(all, p);
        }
        None
    }

    /// Where a name that a file uses is declared, by the index alone.
    pub fn resolve_symbol_no_rg(&self, name: &str, from_uri: &str) -> (r: Vec<Location>)
        requires
            self.wf(),
        ensures
            r.deep_view() == resolved(self@, name@, from_uri@),
    {
        let here = self.find_name_in_uri(name, from_uri);
        assert(here.deep_view().len() == here@.len());
        if here.len() > 0 {
            return here;
        }
        if let Some(l) = self.by_qualified_name(name, from_uri) {
            let mut out: Vec<Location> = Vec::new();
            let ghost v = l.deep_view();
            out.push(l);
            assert(out.deep_view() =~= seq![v]);
            return out;
        }
        self.all_definitions(name)
    }

    fn find_member(&self, class: &str, name: &str, from_uri: &str) -> (r: Vec<Location>)
        requires
            self.wf(),
        ensures
            r.deep_view() == member_places(self@, class@, name@, from_uri@),
    {
        let none: Vec<Location> = Vec::new();
        assert(none.deep_view() =~= Seq::empty());
        let places = self.resolve_symbol_no_rg(class, from_uri);
        assert(places.deep_view().len() == places@.len());
        if places.len() == 0 {
            return none;
        }
        let uri = places[0].uri.as_str();
        assert(places.deep_view()[0] == places@[0].deep_view());
        match self.data_of(uri) {
            Some(f) => locate_members(&f.symbols, class, name, uri),
            None => none,
        }
    }

    /// Where what a file writes after `super` is declared, by the index alone.
    fn resolve_super_no_rg(&self, name: &str, from_uri: &str) -> (r: Vec<Location>)
        requires
            self.wf(),
        ensures
            r.deep_view() == super_places(self@, name@, from_uri@),
    {
        let none: Vec<Location> = Vec::new();
        assert(none.deep_view() =~= Seq::empty());
        let file = match self.data_of(from_uri) {
            Some(f) => f,
            None => {
                return none;
            },
        };
        let ghost all = file.deep_view().supers;
        let mut i: usize = 0;
        assert(all.take(0).len() == 0);
        while i < file.supers.len()
            invariant
                self.wf(),
                i <= file.supers@.len(),
                all == file.supers.deep_view(),
                inherited_places(self@, all.take(i as int), name@, from_uri@).len() == 0,
                any_file(self@, from_uri@) == Some(file.deep_view()),
                all == file.deep_view().supers,
            decreases file.supers@.len() - i,
        {
            let class = file.supers[i].1.as_str();
            assert(all[i as int].1 == class@);
            let found = self.find_member(class, name, from_uri);
            assert(found.deep_view().len() == found@.len());
            proof {
                assert(all.take(i + 1).last() == all[i as int]);
                assert(all.take(i + 1).drop_last() =~= all.take(i as int));
            }
            if found.len() > 0 {
                proof {
                    lemma_first_supertype(self@, all, name@, from_uri@, i + 1);
                }
                return found;
            }
            i += 1;
        }
        assert(all.take(all.len() as int) =~= all);
        assert(none.deep_view() =~= super_places(self@, name@, from_uri@));
        none
    }

    /// Where a name is declared that a file uses with or without a qualifier, by the index
    /// alone.
    pub fn resolve_qualified_no_rg(&self, name: &str, qualifier: Option<&str>, from_uri: &str) -> (r:
        Vec<Location>)
        requires
            self.wf(),
        ensures
            r.deep_view() == resolved_qualified(
                self@,
                name@,
                qualifier.deep_view(),
                from_uri@,
            ),
    {
        if let Some(q) = qualifier {
            if text::same(q, "super") {
                return self.resolve_super_no_rg(name, from_uri);
            }
            let outer = self.resolve_symbol_no_rg(q, from_uri);
            assert(outer.deep_view().len() == outer@.len());
            if outer.len() > 0 {
                assert(outer.deep_view()[0] == outer@[0].deep_view());
                let inside = self.find_name_in_uri(name, outer[0].uri.as_str());
                assert(inside.deep_view().len() == inside@.len());
                if inside.len() > 0 {
                    return inside;
                }
            }
        }
        self.resolve_symbol_no_rg(name, from_uri)
    }
}

} // verus!
