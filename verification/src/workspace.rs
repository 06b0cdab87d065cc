//! What can be read of an index, and of a workspace of which only definitions are known.
use vstd::prelude::*;
use vstd::string::*;

use crate::index::{IndexView, Indexer};
use crate::lists;
use crate::lookup;
use crate::resolution::{IndexRead, ReadView};
use crate::table::Table;
use crate::text;
use crate::types::{FileData, FileView, Location, LocationView, Replicate};

verus! {

/// Whether a pair is about the name.
pub open spec fn pair_named(name: Seq<char>) -> spec_fn((Seq<char>, Seq<char>)) -> bool {
    |p: (Seq<char>, Seq<char>)| p.0 == name
}

/// The type that a file gives a variable: the one it is declared with, else the one that its
/// initializer constructs.
pub open spec fn type_in_file(f: FileView, name: Seq<char>) -> Option<Seq<char>> {
    match lists::find_where(f.type_annotations, pair_named(name)) {
        Some(p) => Some(p.1),
        None => match lists::find_where(f.rhs_types, pair_named(name)) {
            Some(p) => Some(p.1),
            None => None,
        },
    }
}

/// The type of a variable of a file of the index.
pub open spec fn var_type_in(v: IndexView, name: Seq<char>, uri: Seq<char>) -> Option<Seq<char>> {
    match lookup::any_file(v, uri) {
        Some(f) => type_in_file(f, name),
        None => None,
    }
}

/// What can be read of an index. Sources are not searched here: what a search of them finds is
/// taken in by `on_demand::resolve_searched`.
pub open spec fn read_view(v: IndexView) -> ReadView {
    ReadView {
        definitions: |name: Seq<char>|
            {
                let l = lookup::definitions_of(v, name);
                if l.len() == 0 {
                    None
                } else {
                    Some(l)
                }
            },
        file: |uri: Seq<char>| lookup::any_file(v, uri),
        locations: |name: Seq<char>, qualifier: Option<Seq<char>>, from: Seq<char>, rg: bool|
            lookup::resolved_qualified(v, name, qualifier, from),
        var_type: |name: Seq<char>, uri: Seq<char>| var_type_in(v, name, uri),
        qualified: |fqn: Seq<char>|
            if v.qualified.dom().contains(fqn) {
                seq![v.qualified[fqn]]
            } else {
                Seq::empty()
            },
    }
}

fn second_of(pairs: &Vec<(String, String)>, name: &str) -> (r: Option<String>)
    ensures
        r.deep_view() == (match lists::find_where(pairs.deep_view(), pair_named(name@)) {
            Some(p) => Some(p.1),
            None => None,
        }),
{
    let ghost all = pairs.deep_view();
    let ghost p = pair_named(name@);
    let mut i: usize = 0;
    while i < pairs.len()
        invariant
            i <= pairs@.len(),
            all == pairs.deep_view(),
            p == pair_named(name@),
            forall|k: int| 0 <= k < i ==> !p(#[trigger] all[k]),
        decreases pairs@.len() - i,
    {
        assert(all[i as int] == pairs@[i as int].deep_view());
        if text::same(pairs[i].0.as_str(), name) {
            proof {
                lists::lemma_first(all, p, i as int);
            }
            return Some(pairs[i].1.clone());
        }
        i += 1;
    }
    proof {
        lists::lemma_no_first(all, p);
    }
    None
}

/// The type that a file gives a variable.
pub fn variable_type_in_file(file: &FileData, name: &str) -> (r: Option<String>)
    ensures
        r.deep_view() == type_in_file(file.deep_view(), name@),
{
    match second_of(&file.type_annotations, name) {
        Some(t) => Some(t),
        None => second_of(&file.rhs_types, name),
    }
}

impl IndexRead for Indexer {
    open spec fn seen(&self) -> ReadView {
        read_view(self@)
    }

    open spec fn ready(&self) -> bool {
        self.wf()
    }

    fn get_definitions(&self, name: &str) -> (r: Option<Vec<Location>>) {
        let all = self.all_definitions(name);
        assert(all.deep_view().len() == all@.len());
        if all.len() == 0 {
            None
        } else {
            Some(all)
        }
    }

    fn get_file_data(&self, uri: &str) -> (r: Option<&FileData>) {
        self.data_of(uri)
    }

    fn resolve_locations(
        &self,
        name: &str,
        qualifier: Option<&str>,
        from_uri: &str,
        allow_rg: bool,
    ) -> (r: Vec<Location>) {
        self.resolve_qualified_no_rg(name, qualifier, from_uri)
    }

    fn infer_variable_type_for(&self, name: &str, uri: &str) -> (r: Option<String>) {
        match self.data_of(uri) {
            Some(f) => variable_type_in_file(f, name),
            None => None,
        }
    }

    fn qualified_definition_locations(&self, fqn: &str) -> (r: Vec<Location>) {
        let mut out: Vec<Location> = Vec::new();
        if let Some(l) = self.qualified.get(fqn) {
            out.push(l.replicate());
        }
        assert(out.deep_view() =~= (self.seen().qualified)(fqn@));
        out
    }
}

/// A workspace of which nothing is known but where names are declared.
pub struct FixedWorkspace {
    pub definitions: Table<Vec<Location>>,
}

/// What can be read of a workspace of which only definitions are known.
pub open spec fn fixed_view(definitions: Map<Seq<char>, Seq<LocationView>>) -> ReadView {
    ReadView {
        definitions: |name: Seq<char>|
            if definitions.dom().contains(name) {
                Some(definitions[name])
            } else {
                None
            },
        file: |uri: Seq<char>| None,
        locations: |name: Seq<char>, qualifier: Option<Seq<char>>, from: Seq<char>, rg: bool|
            if definitions.dom().contains(name) {
                definitions[name]
            } else {
                Seq::empty()
            },
        var_type: |name: Seq<char>, uri: Seq<char>| None,
        qualified: |fqn: Seq<char>| Seq::empty(),
    }
}

impl FixedWorkspace {
    /// A workspace that declares nothing.
    pub fn new() -> (r: FixedWorkspace)
        ensures
            r.definitions.wf(),
            r.definitions@ == Map::<Seq<char>, Seq<LocationView>>::empty(),
    {
        FixedWorkspace { definitions: Table::new() }
    }

    /// The same workspace with a name declared at one place.
    pub fn with_definition(self, name: &str, location: Location) -> (r: FixedWorkspace)
        requires
            self.definitions.wf(),
        ensures
            r.definitions.wf(),
            r.definitions@ == self.definitions@.insert(name@, seq![location.deep_view()]),
    {
        let mut places: Vec<Location> = Vec::new();
        let ghost l = location.deep_view();
        places.push(location);
        assert(places.deep_view() =~= seq![l]);
        let mut definitions = self.definitions;
        definitions.insert(name, places);
        FixedWorkspace { definitions }
    }
}

impl IndexRead for FixedWorkspace {
    open spec fn seen(&self) -> ReadView {
        fixed_view(self.definitions@)
    }

    open spec fn ready(&self) -> bool {
        self.definitions.wf()
    }

    fn get_definitions(&self, name: &str) -> (r: Option<Vec<Location>>) {
        match self.definitions.get(name) {
            Some(l) => Some(l.replicate()),
            None => None,
        }
    }

    fn get_file_data(&self, uri: &str) -> (r: Option<&FileData>) {
        None
    }

    fn resolve_locations(
        &self,
        name: &str,
        qualifier: Option<&str>,
        from_uri: &str,
        allow_rg: bool,
    ) -> (r: Vec<Location>) {
        match self.definitions.get(name) {
            Some(l) => l.replicate(),
            None => {
                let none: Vec<Location> = Vec::new();
                assert(none.deep_view() =~= Seq::empty());
                none
            },
        }
    }

    fn infer_variable_type_for(&self, name: &str, uri: &str) -> (r: Option<String>) {
        None
    }

    fn qualified_definition_locations(&self, fqn: &str) -> (r: Vec<Location>) {
        let none: Vec<Location> = Vec::new();
        assert(none.deep_view() =~= Seq::empty());
        none
    }
}

} // verus!
