//! What is derived from the tables: the list of all declared names, and the qualified names
//! that each simple name can be imported as.
use vstd::prelude::*;
use vstd::string::*;

use crate::contributions;
use crate::index::{IndexView, Indexer};
use crate::sorting;
use crate::table;
use crate::table::Table;
use crate::types::{FileData, FileView, Location};

verus! {

/// The names that some file or compiled library declares.
pub open spec fn known_name(v: IndexView) -> spec_fn(Seq<char>) -> bool {
    |n: Seq<char>| v.definitions.dom().contains(n) || v.jar_definitions.dom().contains(n)
}

/// Every name that some file or compiled library declares, in ascending order.
pub open spec fn bare_names(v: IndexView) -> Seq<Seq<char>> {
    sorting::ascending_list(known_name(v))
}

/// Whether the symbol `s` of the file `f` is declared at the top level of a package, under the
/// name `n` and the qualified name `q`.
pub open spec fn offers(f: FileView, s: int, n: Seq<char>, q: Seq<char>) -> bool {
    match f.package {
        Some(pkg) => pkg.len() > 0 && f.symbols[s].container is None && f.symbols[s].name == n && q
            == contributions::dotted(pkg, n),
        None => false,
    }
}

/// Whether one of the first `upto` symbols of `f` can be imported as `q`.
pub open spec fn file_offers(f: FileView, upto: int, n: Seq<char>, q: Seq<char>) -> bool {
    exists|s: int| 0 <= s < upto && #[trigger] offers(f, s, n, q)
}

/// Whether some file declares `n` so that it can be imported as `q`.
pub open spec fn importable(files: Map<Seq<char>, FileView>, n: Seq<char>, q: Seq<char>) -> bool {
    exists|uri: Seq<char>| #[trigger]
        files.dom().contains(uri) && file_offers(
            files[uri],
            files[uri].symbols.len() as int,
            n,
            q,
        )
}

/// The qualified names as which `n` can be imported.
pub open spec fn import_class(files: Map<Seq<char>, FileView>, n: Seq<char>) -> spec_fn(
    Seq<char>,
) -> bool {
    |q: Seq<char>| importable(files, n, q)
}

/// The qualified names as which each simple name can be imported, in ascending order.
pub open spec fn importable_names(files: Map<Seq<char>, FileView>) -> Map<
    Seq<char>,
    Seq<Seq<char>>,
> {
    Map::new(
        |n: Seq<char>| exists|q: Seq<char>| importable(files, n, q),
        |n: Seq<char>| sorting::ascending_list(import_class(files, n)),
    )
}

/// An index whose derived lists are up to date.
pub open spec fn with_fresh_names(v: IndexView) -> IndexView {
    IndexView {
        bare_name_cache: bare_names(v),
        bare_names_dirty: false,
        importable_fqns: importable_names(v.files),
        last_completion: None,
        ..v
    }
}

/// An index whose derived lists are up to date, where a table changed since they were made.
pub open spec fn refreshed(v: IndexView) -> IndexView {
    if v.bare_names_dirty {
        with_fresh_names(v)
    } else {
        v
    }
}

/// The keys of a table of locations, in ascending order.
pub fn build_bare_names(definitions: &Table<Vec<Location>>) -> (r: Vec<String>)
    requires
        definitions.wf(),
    ensures
        sorting::ascending(r.deep_view()),
        forall|k: Seq<char>| #[trigger]
            r.deep_view().contains(k) == definitions@.dom().contains(k),
{
    let mut names: Vec<String> = Vec::new();
    add_keys(&mut names, definitions);
    sorting::sorted_names(&names)
}

/// Appends the keys of `t` to `names`.
fn add_keys(names: &mut Vec<String>, t: &Table<Vec<Location>>)
    requires
        t.wf(),
    ensures
        forall|k: Seq<char>| #[trigger]
            final(names).deep_view().contains(k) == (old(names).deep_view().contains(k)
                || t@.dom().contains(k)),
{
    let ghost start = names.deep_view();
    let mut i: usize = 0;
    assert(names.deep_view() =~= start + t.order().take(0));
    while i < t.len()
        invariant
            i <= t.order().len(),
            t.wf(),
            names.deep_view() == start + t.order().take(i as int),
        decreases t.order().len() - i,
    {
        let ghost before = names.deep_view();
        names.push(t.key_at(i).to_owned());
        proof {
            assert(names.deep_view() =~= before.push(t.order()[i as int]));
            assert(names.deep_view() =~= start + t.order().take(i + 1));
        }
        i += 1;
    }
    proof {
        let order = t.order();
        t.lemma_order();
        assert(order.take(order.len() as int) =~= order);
        let all = names.deep_view();
        assert forall|k: Seq<char>| #[trigger] all.contains(k) == (start.contains(k)
            || t@.dom().contains(k)) by {
            if start.contains(k) {
                let j = choose|j: int| 0 <= j < start.len() && start[j] == k;
                assert(all[j] == k);
            }
            if t@.dom().contains(k) {
                assert(order.contains(k));
                let j = choose|j: int| 0 <= j < order.len() && order[j] == k;
                assert(all[start.len() + j] == k);
            }
            if all.contains(k) {
                let j = choose|j: int| 0 <= j < all.len() && all[j] == k;
                if j < start.len() {
                    assert(start[j] == k);
                } else {
                    assert(order[j - start.len()] == k);
                }
            }
        }
    }
}

/// What a table of lists holds, as a relation, and that no list is empty.
spec fn lists_hold(
    m: Map<Seq<char>, Seq<Seq<char>>>,
    holds: spec_fn(Seq<char>, Seq<char>) -> bool,
) -> bool {
    &&& forall|n: Seq<char>, q: Seq<char>| #[trigger]
        table::list_at(m, n).contains(q) == holds(n, q)
    &&& forall|n: Seq<char>| #[trigger] m.dom().contains(n) ==> m[n].len() > 0
}

/// Enters the top-level symbols of one file.
fn add_file_names(
    t: &mut Table<Vec<String>>,
    data: &FileData,
    Ghost(seen): Ghost<spec_fn(Seq<char>, Seq<char>) -> bool>,
)
    requires
        old(t).wf(),
        lists_hold(old(t)@, seen),
    ensures
        final(t).wf(),
        lists_hold(
            final(t)@,
            |n: Seq<char>, q: Seq<char>|
                seen(n, q) || file_offers(
                    data.deep_view(),
                    data.deep_view().symbols.len() as int,
                    n,
                    q,
                ),
        ),
{
    let ghost f = data.deep_view();
    let pkg = match &data.package {
        Some(p) => {
            if p.as_str().is_empty() {
                assert(forall|n: Seq<char>, q: Seq<char>| !file_offers(f, f.symbols.len() as int, n, q));
                return ;
            }
            p
        },
        None => {
            assert(forall|n: Seq<char>, q: Seq<char>| !file_offers(f, f.symbols.len() as int, n, q));
            return ;
        },
    };
    let mut i: usize = 0;
    while i < data.symbols.len()
        invariant
            i <= data.symbols@.len(),
            t.wf(),
            f == data.deep_view(),
            f.package == Some(pkg@),
            pkg@.len() > 0,
            lists_hold(
                t@,
                |n: Seq<char>, q: Seq<char>| seen(n, q) || file_offers(f, i as int, n, q),
            ),
        decreases data.symbols@.len() - i,
    {
        let sym = &data.symbols[i];
        let ghost before = t@;
        assert(f.symbols[i as int] == sym.deep_view());
        proof {
            assert forall|n: Seq<char>, q: Seq<char>| #[trigger] file_offers(f, i + 1, n, q) == (
            file_offers(f, i as int, n, q) || offers(f, i as int, n, q)) by {
                if file_offers(f, i as int, n, q) {
                    let s = choose|s: int| 0 <= s < i && #[trigger] offers(f, s, n, q);
                    assert(offers(f, s, n, q));
                }
                if file_offers(f, i + 1, n, q) {
                    let s = choose|s: int| 0 <= s < i + 1 && #[trigger] offers(f, s, n, q);
                    if s < i {
                        assert(offers(f, s, n, q));
                    }
                }
            }
        }
        if sym.container.is_none() {
            let fqn = contributions::join_dot(pkg.as_str(), sym.name.as_str());
            let ghost added = fqn@;
            t.push(sym.name.as_str(), fqn);
            proof {
                let now = |n: Seq<char>, q: Seq<char>| seen(n, q) || file_offers(f, i + 1, n, q);
                assert forall|n: Seq<char>, q: Seq<char>| #[trigger]
                    table::list_at(t@, n).contains(q) == now(n, q) by {
                    let was = table::list_at(before, n);
                    assert(was.contains(q) == (seen(n, q) || file_offers(f, i as int, n, q)));
                    if n == sym.name@ {
                        let is = was.push(added);
                        assert(table::list_at(t@, n) == is);
                        if was.contains(q) {
                            let j = choose|j: int| 0 <= j < was.len() && was[j] == q;
                            assert(is[j] == q);
                        }
                        assert(is[was.len() as int] == added);
                        if is.contains(q) {
                            let j = choose|j: int| 0 <= j < is.len() && is[j] == q;
                            if j < was.len() {
                                assert(was[j] == q);
                            }
                        }
                    }
                }
                assert(lists_hold(t@, now));
            }
        }
        i += 1;
    }
}

/// Puts each list of `t` in ascending order.
fn sort_lists(
    t: &mut Table<Vec<String>>,
    Ghost(holds): Ghost<spec_fn(Seq<char>, Seq<char>) -> bool>,
)
    requires
        old(t).wf(),
        lists_hold(old(t)@, holds),
    ensures
        final(t).wf(),
        final(t)@.dom() == old(t)@.dom(),
        forall|n: Seq<char>| #[trigger]
            final(t)@.dom().contains(n) ==> sorting::ascending(final(t)@[n]),
        forall|n: Seq<char>, q: Seq<char>|
            final(t)@.dom().contains(n) ==> #[trigger] final(t)@[n].contains(q) == holds(n, q),
{
    let ghost order = t.order();
    let n: usize = t.len();
    let mut i: usize = 0;
    proof {
        t.lemma_order();
        assert forall|x: Seq<char>, q: Seq<char>|
            t@.dom().contains(x) implies #[trigger] t@[x].contains(q) == holds(x, q) by {
            assert(table::list_at(t@, x).contains(q) == holds(x, q));
        }
    }
    while i < n
        invariant
            i <= n == order.len(),
            t.wf(),
            t.order() == order,
            order == old(t).order(),
            order.no_duplicates(),
            lists_hold(old(t)@, holds),
            t@.dom() == old(t)@.dom(),
            forall|k: int|
                0 <= k < i ==> sorting::ascending(t@[#[trigger] order[k]]),
            forall|x: Seq<char>, q: Seq<char>|
                t@.dom().contains(x) ==> #[trigger] t@[x].contains(q) == holds(x, q),
        decreases n - i,
    {
        let sorted = sorting::sorted_names(t.value_at(i));
        let ghost list = sorted.deep_view();
        let ghost before = t@;
        let ghost key = order[i as int];
        proof {
            t.lemma_order();
        }
        t.swap_value(i, sorted);
        proof {
            assert(t@ == before.insert(key, list));
            assert(t@.dom() =~= before.dom());
            assert forall|k: int| 0 <= k < i + 1 implies sorting::ascending(
                t@[#[trigger] order[k]],
            ) by {
                if k < i {
                    assert(order[k] != order[i as int]);
                }
            }
            assert forall|x: Seq<char>, q: Seq<char>|
                t@.dom().contains(x) implies #[trigger] t@[x].contains(q) == holds(x, q) by {
                assert(before[x].contains(q) == holds(x, q));
            }
        }
        i += 1;
    }
    proof {
        t.lemma_order();
        assert forall|x: Seq<char>| #[trigger] t@.dom().contains(x) implies sorting::ascending(
            t@[x],
        ) by {
            assert(order.contains(x));
            let k = choose|k: int| 0 <= k < order.len() && order[k] == x;
            assert(order[k] == x);
        }
    }
}

impl Indexer {
    /// Finds again the qualified names as which each simple name can be imported: those of the
    /// top-level symbols of every file that belongs to a package.
    pub fn rebuild_importable_fqns(&mut self)
        requires
            old(self).wf(),
        ensures
            final(self).wf(),
            final(self)@ == (IndexView {
                importable_fqns: importable_names(old(self)@.files),
                ..old(self)@
            }),
    {
        let mut map: Table<Vec<String>> = Table::new();
        let ghost files = self.files@;
        let ghost order = self.files.order();
        let ghost mut seen: spec_fn(Seq<char>, Seq<char>) -> bool = |n: Seq<char>, q: Seq<char>|
            false;
        let mut i: usize = 0;
        proof {
            self.files.lemma_order();
        }
        while i < self.files.len()
            invariant
                i <= order.len(),
                self.files.wf(),
                files == self.files@,
                order == self.files.order(),
                map.wf(),
                lists_hold(map@, seen),
                forall|n: Seq<char>, q: Seq<char>| #[trigger]
                    seen(n, q) == (exists|k: int|
                        0 <= k < i && file_offers(
                            files[#[trigger] order[k]],
                            files[order[k]].symbols.len() as int,
                            n,
                            q,
                        )),
            decreases order.len() - i,
        {
            let data = self.files.value_at(i);
            add_file_names(&mut map, data, Ghost(seen));
            proof {
                let was = seen;
                let f = data.deep_view();
                seen =
                |n: Seq<char>, q: Seq<char>|
                    was(n, q) || file_offers(f, f.symbols.len() as int, n, q);
                assert forall|n: Seq<char>, q: Seq<char>| #[trigger]
                    seen(n, q) == (exists|k: int|
                        0 <= k < i + 1 && file_offers(
                            files[#[trigger] order[k]],
                            files[order[k]].symbols.len() as int,
                            n,
                            q,
                        )) by {
                    if was(n, q) {
                        let k = choose|k: int|
                            0 <= k < i && file_offers(
                                files[#[trigger] order[k]],
                                files[order[k]].symbols.len() as int,
                                n,
                                q,
                            );
                        assert(0 <= k < i + 1);
                        assert(file_offers(
                            files[order[k]],
                            files[order[k]].symbols.len() as int,
                            n,
                            q,
                        ));
                    }
                    assert(files[order[i as int]] == f);
                }
            }
            i += 1;
        }
        let ghost lists = map@;
        sort_lists(&mut map, Ghost(seen));
        proof {
            self.files.lemma_order();
            assert forall|n: Seq<char>, q: Seq<char>| #[trigger]
                seen(n, q) == importable(files, n, q) by {
                if seen(n, q) {
                    let k = choose|k: int|
                        0 <= k < order.len() && file_offers(
                            files[#[trigger] order[k]],
                            files[order[k]].symbols.len() as int,
                            n,
                            q,
                        );
                    assert(files.dom().contains(order[k]));
                }
                if importable(files, n, q) {
                    let uri = choose|uri: Seq<char>| #[trigger]
                        files.dom().contains(uri) && file_offers(
                            files[uri],
                            files[uri].symbols.len() as int,
                            n,
                            q,
                        );
                    assert(order.contains(uri));
                    let k = choose|k: int| 0 <= k < order.len() && order[k] == uri;
                    assert(order[k] == uri);
                }
            }
            let want = importable_names(files);
            assert forall|n: Seq<char>| map@.dom().contains(n) == want.dom().contains(n) by {
                if lists.dom().contains(n) {
                    let q = lists[n][0];
                    assert(table::list_at(lists, n).contains(q));
                    assert(seen(n, q) == importable(files, n, q));
                }
                if want.dom().contains(n) {
                    let q = choose|q: Seq<char>| importable(files, n, q);
                    assert(seen(n, q) == importable(files, n, q));
                    assert(table::list_at(lists, n).contains(q) == seen(n, q));
                }
            }
            assert forall|n: Seq<char>| map@.dom().contains(n) implies map@[n] == want[n] by {
                assert forall|q: Seq<char>| map@[n].contains(q) == import_class(files, n)(q) by {
                    assert(seen(n, q) == importable(files, n, q));
                }
                sorting::lemma_ascending_list(map@[n], import_class(files, n));
                assert(map@.dom().contains(n) == want.dom().contains(n));
                assert(want[n] == sorting::ascending_list(import_class(files, n)));
            }
            assert(map@ =~= want);
        }
        self.importable_fqns = map;
    }

    /// Brings the derived lists up to date, where a table changed since they were made.
    pub fn rebuild_bare_name_cache(&mut self)
        requires
            old(self).wf(),
        ensures
            final(self).wf(),
            final(self)@ == refreshed(old(self)@),
    {
        if !self.bare_names_dirty {
            return ;
        }
        self.bare_names_dirty = false;
        let mut names: Vec<String> = Vec::new();
        add_keys(&mut names, &self.definitions);
        add_keys(&mut names, &self.jar_definitions);
        let sorted = sorting::sorted_names(&names);
        proof {
            let v = old(self)@;
            assert forall|k: Seq<char>| sorted.deep_view().contains(k) == known_name(v)(k) by {
                assert(names.deep_view().contains(k) == known_name(v)(k));
            }
            sorting::lemma_ascending_list(sorted.deep_view(), known_name(v));
        }
        self.bare_name_cache = sorted;
        self.rebuild_importable_fqns();
        self.last_completion = None;
    }

    /// Brings the derived lists up to date before they are read.
    pub fn ensure_bare_names_fresh(&mut self)
        requires
            old(self).wf(),
        ensures
            final(self).wf(),
            !final(self)@.bare_names_dirty,
            final(self)@ == refreshed(old(self)@),
    {
        if self.bare_names_dirty {
            self.rebuild_bare_name_cache();
        }
    }
}

} // verus!
