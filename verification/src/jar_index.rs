//! Indexing the compiled libraries of a workspace.
use vstd::prelude::*;
use vstd::string::*;

use crate::index::{IndexView, Indexer};
use crate::jar;
use crate::jar::{SidecarSymbol, SidecarView};
use crate::text;

verus! {

/// The symbols of each library that are known from before; none where they must be read anew.
pub type Known = Seq<Option<Seq<SidecarView>>>;

/// The libraries among the first `n` whose symbols must be read anew.
pub open spec fn missed(paths: Seq<Seq<char>>, known: Known, n: int) -> Seq<Seq<char>>
    decreases n,
{
    if n <= 0 || n > paths.len() || n > known.len() {
        Seq::empty()
    } else {
        let before = missed(paths, known, n - 1);
        if known[n - 1] is None {
            before.push(paths[n - 1])
        } else {
            before
        }
    }
}

/// How many symbols lists of them hold at most.
pub open spec fn sizes(lists: Seq<Seq<SidecarView>>, n: int) -> nat
    decreases n,
{
    if n <= 0 || n > lists.len() {
        0
    } else {
        sizes(lists, n - 1) + lists[n - 1].len()
    }
}

/// The list of symbols, empty where there is none.
pub open spec fn or_nothing(known: Known) -> Seq<Seq<SidecarView>> {
    known.map_values(
        |k: Option<Seq<SidecarView>>|
            match k {
                Some(s) => s,
                None => Seq::empty(),
            },
    )
}

/// An index that has taken in the first `n` libraries, with how many symbols were entered.
pub open spec fn with_libraries(
    v: IndexView,
    paths: Seq<Seq<char>>,
    lists: Seq<Seq<SidecarView>>,
    n: int,
) -> (IndexView, nat)
    decreases n,
{
    if n <= 0 || n > paths.len() || n > lists.len() {
        (v, 0)
    } else {
        let (w, count) = with_libraries(v, paths, lists, n - 1);
        (
            jar::with_library(w, paths[n - 1], lists[n - 1]),
            count + jar::entered(paths[n - 1], lists[n - 1]),
        )
    }
}

/// An index that knows no compiled library.
pub open spec fn without_libraries(v: IndexView) -> IndexView {
    IndexView {
        jar_files: Map::empty(),
        jar_definitions: Map::empty(),
        jar_uri_to_defs: Map::empty(),
        jar_symbol_packages: Map::empty(),
        ..v
    }
}

/// An index whose answers to completion requests are out of date, and whose names have changed.
pub open spec fn with_new_names(v: IndexView) -> IndexView {
    IndexView {
        bare_names_dirty: true,
        last_completion: None,
        completion_epoch: v.completion_epoch.wrapping_add(1),
        ..v
    }
}

/// How many pairs two lists make.
pub open spec fn pairs(a: int, b: int) -> int {
    if a < b {
        a
    } else {
        b
    }
}

/// An index that has taken in compiled libraries in place of those that it knew, and how many
/// symbols were entered: first those that are known, then, in the order of those that must be
/// read anew, what reading them gave.
pub open spec fn with_jars(
    v: IndexView,
    paths: Seq<Seq<char>>,
    known: Known,
    answers: Option<Seq<Seq<SidecarView>>>,
) -> (IndexView, nat) {
    if paths.len() == 0 {
        (v, 0)
    } else {
        let (w, hits) = with_libraries(
            without_libraries(v),
            paths,
            or_nothing(known),
            paths.len() as int,
        );
        let lists = match answers {
            Some(a) => a,
            None => Seq::empty(),
        };
        let left = missed(paths, known, paths.len() as int);
        let (x, read) = with_libraries(
            w,
            left,
            lists,
            pairs(left.len() as int, lists.len() as int),
        );
        if hits + read > 0 {
            (with_new_names(x), hits + read)
        } else {
            (x, 0)
        }
    }
}

/// The libraries whose symbols must be read anew.
pub fn missed_jars(paths: &Vec<String>, known: &Vec<Option<Vec<SidecarSymbol>>>) -> (r: Vec<String>)
    requires
        paths@.len() == known@.len(),
    ensures
        r.deep_view() == missed(paths.deep_view(), known.deep_view(), paths@.len() as int),
{
    let ghost ps = paths.deep_view();
    let ghost ks = known.deep_view();
    let mut out: Vec<String> = Vec::new();
    let mut i: usize = 0;
    assert(out.deep_view() =~= missed(ps, ks, 0));
    while i < paths.len()
        invariant
            i <= paths@.len() == known@.len(),
            ps == paths.deep_view(),
            ks == known.deep_view(),
            out.deep_view() == missed(ps, ks, i as int),
        decreases paths@.len() - i,
    {
        let ghost before = out.deep_view();
        proof {
            assert(ps[i as int] == paths@[i as int]@);
            assert(ks[i as int] == known@[i as int].deep_view());
        }
        if known[i].is_none() {
            out.push(paths[i].clone());
            assert(out.deep_view() =~= before.push(ps[i as int]));
        }
        i += 1;
    }
    out
}

proof fn lemma_sizes(lists: Seq<Seq<SidecarView>>, i: int, n: int)
    requires
        0 <= i <= n <= lists.len(),
    ensures
        sizes(lists, i) <= sizes(lists, n),
    decreases n - i,
{
    if i < n {
        lemma_sizes(lists, i, n - 1);
    }
}

proof fn lemma_count(v: IndexView, paths: Seq<Seq<char>>, lists: Seq<Seq<SidecarView>>, n: int)
    ensures
        with_libraries(v, paths, lists, n).1 <= sizes(lists, n),
    decreases n,
{
    if 0 < n <= paths.len() && n <= lists.len() {
        lemma_count(v, paths, lists, n - 1);
    }
}

impl Indexer {
    fn enter_known(&mut self, paths: &Vec<String>, known: &Vec<Option<Vec<SidecarSymbol>>>) -> (r:
        usize)
        requires
            old(self).wf(),
            paths@.len() == known@.len(),
            sizes(or_nothing(known.deep_view()), paths@.len() as int) <= usize::MAX,
        ensures
            final(self).wf(),
            (final(self)@, r as nat) == with_libraries(
                old(self)@,
                paths.deep_view(),
                or_nothing(known.deep_view()),
                paths@.len() as int,
            ),
    {
        let ghost ps = paths.deep_view();
        let ghost ks = known.deep_view();
        let ghost lists = or_nothing(ks);
        let mut total: usize = 0;
        let mut i: usize = 0;
        while i < paths.len()
            invariant
                i <= paths@.len() == known@.len(),
                self.wf(),
                ps == paths.deep_view(),
                ks == known.deep_view(),
                lists == or_nothing(ks),
                sizes(lists, paths@.len() as int) <= usize::MAX,
                (self@, total as nat) == with_libraries(old(self)@, ps, lists, i as int),
            decreases paths@.len() - i,
        {
            proof {
                assert(ps[i as int] == paths@[i as int]@);
                assert(ks[i as int] == known@[i as int].deep_view());
                lemma_count(old(self)@, ps, lists, i + 1);
                lemma_sizes(lists, i + 1, paths@.len() as int);
            }
            match &known[i] {
                Some(symbols) => {
                    assert(lists[i as int] == symbols.deep_view());
                    let count: usize = self.populate_from_symbols(paths[i].as_str(), symbols);
                    total = total + count;
                },
                None => {
                    assert(lists[i as int].len() == 0);
                },
            }
            i += 1;
        }
        total
    }

    fn enter_read(&mut self, paths: &Vec<String>, lists: &Vec<Vec<SidecarSymbol>>) -> (r: usize)
        requires
            old(self).wf(),
            sizes(lists.deep_view(), lists@.len() as int) <= usize::MAX,
        ensures
            final(self).wf(),
            (final(self)@, r as nat) == with_libraries(
                old(self)@,
                paths.deep_view(),
                lists.deep_view(),
                pairs(paths@.len() as int, lists@.len() as int),
            ),
    {
        let ghost ps = paths.deep_view();
        let ghost ls = lists.deep_view();
        let mut total: usize = 0;
        let mut i: usize = 0;
        while i < paths.len() && i < lists.len()
            invariant
                i <= paths@.len(),
                i <= lists@.len(),
                self.wf(),
                ps == paths.deep_view(),
                ls == lists.deep_view(),
                sizes(ls, lists@.len() as int) <= usize::MAX,
                (self@, total as nat) == with_libraries(old(self)@, ps, ls, i as int),
            decreases paths@.len() - i,
        {
            proof {
                assert(ps[i as int] == paths@[i as int]@);
                assert(ls[i as int] == lists@[i as int].deep_view());
                lemma_count(old(self)@, ps, ls, i + 1);
                lemma_sizes(ls, i + 1, lists@.len() as int);
            }
            let count: usize = self.populate_from_symbols(paths[i].as_str(), &lists[i]);
            total = total + count;
            i += 1;
        }
        total
    }

    /// Makes answers to completion requests, and the list of names, count as out of date.
    pub(crate) fn names_changed(&mut self)
        requires
            old(self).wf(),
        ensures
            final(self).wf(),
            final(self)@ == with_new_names(old(self)@),
    {
        self.bare_names_dirty = true;
        self.last_completion = None;
        self.completion_epoch = self.completion_epoch.wrapping_add(1);
        assert(self@ =~= with_new_names(old(self)@));
    }

    /// Takes in compiled libraries in place of those that the index knew; hands out how many
    /// symbols were entered. `known` holds the symbols of each library that need not be read
    /// anew, `answers` what reading the others gave, none where they could not be read.
    pub fn index_jars(
        &mut self,
        paths: &Vec<String>,
        known: &Vec<Option<Vec<SidecarSymbol>>>,
        answers: &Option<Vec<Vec<SidecarSymbol>>>,
    ) -> (r: usize)
        requires
            old(self).wf(),
            paths@.len() == known@.len(),
            sizes(or_nothing(known.deep_view()), known@.len() as int) + (match answers {
                Some(a) => sizes(a.deep_view(), a@.len() as int),
                None => 0,
            }) <= usize::MAX,
        ensures
            final(self).wf(),
            (final(self)@, r as nat) == with_jars(
                old(self)@,
                paths.deep_view(),
                known.deep_view(),
                answers.deep_view(),
            ),
    {
        assert(paths.deep_view().len() == paths@.len());
        if paths.len() == 0 {
            return 0;
        }
        self.jar_files.clear();
        self.jar_definitions.clear();
        self.jar_uri_to_defs.clear();
        self.jar_symbol_packages.clear();
        assert(self@ =~= without_libraries(old(self)@));
        let ghost v0 = self@;
        let hits: usize = self.enter_known(paths, known);
        let ghost v1 = self@;
        proof {
            lemma_count(
                v0,
                paths.deep_view(),
                or_nothing(known.deep_view()),
                paths@.len() as int,
            );
        }
        let left = missed_jars(paths, known);
        let read: usize = match answers {
            Some(lists) => {
                proof {
                    let n = pairs(left@.len() as int, lists@.len() as int);
                    lemma_count(v1, left.deep_view(), lists.deep_view(), n);
                    lemma_sizes(lists.deep_view(), n, lists@.len() as int);
                }
                self.enter_read(&left, lists)
            },
            None => 0,
        };
        let total: usize = hits + read;
        if total > 0 {
            self.names_changed();
        }
        total
    }
}

/// Libraries that are indexed take the place of all that were: what the index has from compiled
/// libraries does not depend on what it had before.
pub proof fn law_libraries_are_replaced(
    v: IndexView,
    w: IndexView,
    paths: Seq<Seq<char>>,
    known: Known,
    answers: Option<Seq<Seq<SidecarView>>>,
)
    requires
        paths.len() > 0,
        without_libraries(v) == without_libraries(w),
    ensures
        with_jars(v, paths, known, answers) == with_jars(w, paths, known, answers),
{
}

// ---------------------------------------------------------------------------
// Where a library declares a name
// ---------------------------------------------------------------------------

/// The package in which a compiled library declares a name, and the class for a member; by the
/// first of the declarations.
pub open spec fn declaration_scope(v: IndexView, name: Seq<char>) -> Option<
    (Seq<char>, Option<Seq<char>>),
> {
    if v.jar_definitions.dom().contains(name) && v.jar_definitions[name].len() > 0 {
        let l = v.jar_definitions[name][0];
        let line = l.range.start.line as int;
        if v.jar_symbol_packages.dom().contains(l.uri) && line < v.jar_symbol_packages[l.uri].len()
            && v.jar_files.dom().contains(l.uri) && line < v.jar_files[l.uri].symbols.len() {
            let pkg = v.jar_symbol_packages[l.uri][line];
            let key = pkg + "."@ + name;
            if v.qualified.dom().contains(key) && v.qualified[key] == l {
                Some((pkg, None))
            } else {
                Some((pkg, v.jar_files[l.uri].symbols[line].container))
            }
        } else {
            None
        }
    } else {
        None
    }
}

impl Indexer {
    /// The package in which a compiled library declares a name, and the class for a member.
    pub fn jar_declaration_scope(&self, name: &str) -> (r: Option<(String, Option<String>)>)
        requires
            self.wf(),
        ensures
            r.deep_view() == declaration_scope(self@, name@),
    {
        let places = match self.jar_definitions.get(name) {
            Some(l) => l,
            None => {
                return None;
            },
        };
        assert(places.deep_view().len() == places@.len());
        if places.len() == 0 {
            return None;
        }
        let place = &places[0];
        assert(places.deep_view()[0] == place.deep_view());
        let uri = place.uri.as_str();
        let line: usize = place.range.start.line as usize;
        let packages = match self.jar_symbol_packages.get(uri) {
            Some(p) => p,
            None => {
                return None;
            },
        };
        let file = match self.jar_files.get(uri) {
            Some(f) => f,
            None => {
                return None;
            },
        };
        assert(packages.deep_view().len() == packages@.len());
        assert(file.deep_view().symbols.len() == file.symbols@.len());
        if line >= packages.len() || line >= file.symbols.len() {
            return None;
        }
        assert(packages.deep_view()[line as int] == packages@[line as int]@);
        assert(file.deep_view().symbols[line as int] == file.symbols@[line as int].deep_view());
        let pkg = &packages[line];
        let mut key = text::concat(pkg.as_str(), ".");
        key.append(name);
        if let Some(l) = self.qualified.get(key.as_str()) {
            if text::same(l.uri.as_str(), uri) && l.range == place.range {
                assert(l.deep_view() == place.deep_view());
                return Some((pkg.clone(), None));
            }
        }
        match &file.symbols[line].container {
            Some(c) => Some((pkg.clone(), Some(c.clone()))),
            None => Some((pkg.clone(), None)),
        }
    }
}

} // verus!
