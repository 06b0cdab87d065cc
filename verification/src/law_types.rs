//! What stands for type parameters, said of the arguments that are written.
use vstd::prelude::*;
use vstd::string::*;

use crate::enrich;
use crate::hierarchy;
use crate::hierarchy::{CLASS_HIERARCHY_MAX_DEPTH, ClassView, Way};
use crate::law_hovers;
use crate::law_sigs;
use crate::law_texts;
use crate::lists;
use crate::resolution;
use crate::resolution::ReadView;
use crate::text;
use crate::type_subst;
use crate::type_subst::Subst;
use crate::types;
use crate::types::{FileView, LocationView, SymbolKind, SymbolView};
use crate::unicode;
use crate::urls;

verus! {

// ---------------------------------------------------------------------------
// Pairs
// ---------------------------------------------------------------------------

/// Whether the first pair of a name gives a type.
pub open spec fn gives(subst: Subst, name: Seq<char>, t: Seq<char>) -> bool {
    exists|k: int|
        0 <= k < subst.len() && #[trigger] subst[k] == (name, t) && forall|j: int|
            0 <= j < k ==> (#[trigger] subst[j]).0 != name
}

/// Whether no pair is for a name.
pub open spec fn gives_none(subst: Subst, name: Seq<char>) -> bool {
    forall|j: int| 0 <= j < subst.len() ==> (#[trigger] subst[j]).0 != name
}

/// What stands for a name is what the first pair of the name gives.
pub proof fn law_first_pair_counts(subst: Subst, name: Seq<char>, t: Seq<char>)
    ensures
        gives(subst, name, t) <==> type_subst::value_of(subst, name) == Some(t),
        gives_none(subst, name) <==> type_subst::value_of(subst, name) is None,
{
    let p = type_subst::stands_for(name);
    lists::lemma_first_is(subst, p);
    if gives(subst, name, t) {
        let k = choose|k: int|
            0 <= k < subst.len() && #[trigger] subst[k] == (name, t) && forall|j: int|
                0 <= j < k ==> (#[trigger] subst[j]).0 != name;
        assert forall|j: int| 0 <= j < k implies !p(#[trigger] subst[j]) by {
            assert(subst[j].0 != name);
        }
        lists::lemma_first(subst, p, k);
    }
    match lists::first_where(subst, p) {
        Some(k) => {
            assert(p(subst[k]));
            assert forall|j: int| 0 <= j < k implies (#[trigger] subst[j]).0 != name by {
                assert(!p(subst[j]));
            }
            if subst[k].1 == t {
                assert(subst[k] == (name, t));
            }
            assert(subst[k].0 == name);
        },
        None => {
            assert forall|j: int| 0 <= j < subst.len() implies (#[trigger] subst[j]).0
                != name by {
                assert(!p(subst[j]));
            }
        },
    }
}

// ---------------------------------------------------------------------------
// Substitution
// ---------------------------------------------------------------------------

/// Two texts between which no name runs are replaced each by itself.
pub proof fn law_substitution_goes_by_names(a: Seq<char>, b: Seq<char>, subst: Subst)
    requires
        a.len() == 0 || b.len() == 0 || !text::id_char(a.last()) || !text::id_char(b[0]),
    ensures
        type_subst::substituted(a + b, subst) == type_subst::substituted(a, subst)
            + type_subst::substituted(b, subst),
    decreases a.len(),
{
    let p = text::ident_class();
    let s = a + b;
    if a.len() == 0 {
        assert(s =~= b);
        assert(type_subst::substituted(a, subst) =~= Seq::empty());
        assert(Seq::<char>::empty() + type_subst::substituted(b, subst)
            =~= type_subst::substituted(b, subst));
    } else {
        let n = text::span(a, p);
        text::lemma_span(a, p);
        assert forall|i: int| 0 <= i < n implies p(#[trigger] s[i]) by {
            assert(p(a[i]));
        }
        if n < a.len() {
            assert(s[n] == a[n]);
        } else if b.len() > 0 {
            assert(p(a[a.len() - 1]));
            assert(s[n] == b[0]);
        }
        text::lemma_span_unique(s, p, n);
        if n > 0 {
            let rest = a.skip(n);
            assert(s.take(n) =~= a.take(n));
            assert(s.skip(n) =~= rest + b);
            if rest.len() > 0 {
                assert(rest.last() == a.last());
            }
            law_substitution_goes_by_names(rest, b, subst);
            assert(type_subst::substituted(s, subst) =~= type_subst::substituted(a, subst)
                + type_subst::substituted(b, subst));
        } else {
            let rest = a.skip(1);
            assert(s.skip(1) =~= rest + b);
            assert(s[0] == a[0]);
            if rest.len() > 0 {
                assert(rest.last() == a.last());
            }
            law_substitution_goes_by_names(rest, b, subst);
            assert(type_subst::substituted(s, subst) =~= type_subst::substituted(a, subst)
                + type_subst::substituted(b, subst));
        }
    }
}

/// A name becomes what stands for it; one for which nothing stands, and whatever is no name, stays
/// as it is.
pub proof fn law_substitution_of_names(s: Seq<char>, t: Seq<char>, subst: Subst)
    ensures
        law_texts::is_name(s) && gives(subst, s, t) ==> type_subst::substituted(s, subst) == t,
        law_texts::is_name(s) && gives_none(subst, s) ==> type_subst::substituted(s, subst) == s,
        (forall|i: int| 0 <= i < s.len() ==> !text::id_char(#[trigger] s[i]))
            ==> type_subst::substituted(s, subst) == s,
    decreases s.len(),
{
    law_first_pair_counts(subst, s, t);
    if law_texts::is_name(s) {
        type_subst::law_parameter_becomes_its_value(s, subst);
    }
    if forall|i: int| 0 <= i < s.len() ==> !text::id_char(#[trigger] s[i]) {
        if s.len() > 0 {
            let p = text::ident_class();
            assert(!p(s[0]));
            text::lemma_span_unique(s, p, 0);
            let rest = s.skip(1);
            assert forall|i: int| 0 <= i < rest.len() implies !text::id_char(#[trigger] rest[i]) by {
                assert(rest[i] == s[i + 1]);
            }
            law_substitution_of_names(rest, t, subst);
            assert(seq![s[0]] + rest =~= s);
        } else {
            assert(type_subst::substituted(s, subst) =~= s);
        }
    }
}

// ---------------------------------------------------------------------------
// Type arguments
// ---------------------------------------------------------------------------

/// The arguments of a type are those between its brackets, without the white space round them.
pub proof fn law_type_arguments(
    base: Seq<char>,
    items: Seq<Seq<char>>,
    after: Seq<char>,
)
    requires
        law_texts::lacks(base, '<'),
        law_texts::lacks(after, '>'),
        items.len() > 0,
        law_sigs::all_items(items),
        forall|i: int| 0 <= i < items.len() ==> law_sigs::has_ink(#[trigger] items[i]),
    ensures
        type_subst::type_args(base + seq!['<'] + law_sigs::listed(items) + seq!['>'] + after).len()
            == items.len(),
        forall|i: int|
            0 <= i < items.len() ==> #[trigger] type_subst::type_args(
                base + seq!['<'] + law_sigs::listed(items) + seq!['>'] + after,
            )[i] == text::trimmed(items[i]),
{
    let inner = law_sigs::listed(items);
    let t = base + seq!['<'] + inner + seq!['>'] + after;
    assert(t =~= base + seq!['<'] + (inner + seq!['>'] + after));
    law_texts::law_character_is_found(base, '<', inner + seq!['>'] + after);
    let head = base + seq!['<'] + inner;
    assert(t =~= head + seq!['>'] + after);
    law_texts::law_character_is_found(head, '>', after);
    assert(t.subrange(base.len() as int + 1, head.len() as int) =~= inner);
    law_sigs::law_lists_are_parted(items);
}

/// A type without brackets has no arguments.
pub proof fn law_no_type_arguments(t: Seq<char>)
    requires
        law_texts::lacks(t, '<'),
    ensures
        type_subst::type_args(t).len() == 0,
{
    law_texts::law_character_is_found(t, '<', Seq::empty());
}

/// Each parameter of a class stands for the argument at its place.
pub proof fn law_arguments_by_place(
    f: crate::deps::Facts,
    class_name: Seq<char>,
    t: Seq<char>,
    i: int,
)
    requires
        0 <= i < (f.class_params)(class_name).len(),
        i < type_subst::type_args(t).len(),
        forall|j: int|
            0 <= j < i ==> #[trigger] (f.class_params)(class_name)[j] != (f.class_params)(
                class_name,
            )[i],
    ensures
        type_subst::value_of(
            type_subst::arg_subst(f, class_name, t),
            (f.class_params)(class_name)[i],
        ) == Some(type_subst::type_args(t)[i]),
{
    let ps = (f.class_params)(class_name);
    let subst = type_subst::arg_subst(f, class_name, t);
    assert(subst[i] == (ps[i], type_subst::type_args(t)[i]));
    assert forall|j: int| 0 <= j < i implies (#[trigger] subst[j]).0 != ps[i] by {
        assert(subst[j].0 == ps[j]);
    }
    assert(gives(subst, ps[i], type_subst::type_args(t)[i]));
    law_first_pair_counts(subst, ps[i], type_subst::type_args(t)[i]);
}

// ---------------------------------------------------------------------------
// Hierarchies
// ---------------------------------------------------------------------------

/// Whether the names differ from one another.
pub open spec fn distinct(names: Seq<Seq<char>>) -> bool {
    forall|i: int, j: int| 0 <= i < j < names.len() ==> #[trigger] names[i] != #[trigger] names[j]
}

/// Whether one class inherits from another: supertype `i` of its file is written on its line, the
/// index finds that name at place `p`, and symbol `k` stands there, which takes as many arguments
/// as are written. Each of its parameters stands for the argument at its place, as the lower class
/// sees it, and nothing else stands for anything.
pub open spec fn inherits_by(
    v: ReadView,
    lower: ClassView,
    upper: ClassView,
    i: int,
    p: int,
    k: int,
) -> bool {
    &&& (v.file)(lower.uri) matches Some(f) && 0 <= i < f.supers.len() && f.supers[i].0
        == lower.selection_line && ({
        let name = f.supers[i].1;
        let args = f.supers[i].2;
        let places = (v.locations)(name, None, lower.uri, false);
        &&& 0 <= p < places.len()
        &&& (v.file)(places[p].uri) matches Some(g) && law_hovers::stands_at(g, places[p], name, k) && ({
            let s = g.symbols[k];
            &&& upper.uri == places[p].uri
            &&& upper.name == s.name
            &&& upper.selection_line == s.selection_range.start.line
            &&& s.type_params.len() == args.len() == upper.substitution.len()
            &&& distinct(s.type_params) ==> forall|q: int|
                0 <= q < args.len() ==> gives(
                    upper.substitution,
                    #[trigger] s.type_params[q],
                    type_subst::substituted(args[q], lower.substitution),
                )
        })
    })
}

/// Whether one class inherits directly from another.
pub open spec fn inherits(v: ReadView, lower: ClassView, upper: ClassView) -> bool {
    exists|i: int, p: int, k: int| #[trigger] inherits_by(v, lower, upper, i, p, k)
}

/// Whether each class of a list but the last is one that a later one inherits from.
pub open spec fn linked(v: ReadView, classes: Seq<ClassView>) -> bool {
    forall|i: int|
        0 <= i < classes.len() - 1 ==> exists|j: int|
            i < j < classes.len() && inherits(v, #[trigger] classes[j], #[trigger] classes[i])
}

/// Whether each class of a list is one that a later one, or a class below them all, inherits from.
pub open spec fn linked_under(v: ReadView, classes: Seq<ClassView>, c: ClassView) -> bool {
    forall|i: int|
        0 <= i < classes.len() ==> (exists|j: int|
            i < j < classes.len() && inherits(v, #[trigger] classes[j], #[trigger] classes[i]))
            || inherits(v, c, classes[i])
}

proof fn lemma_bound(params: Seq<Seq<char>>, args: Seq<Seq<char>>)
    requires
        params.len() == args.len(),
        distinct(params),
    ensures
        forall|q: int|
            0 <= q < args.len() ==> gives(
                hierarchy::bound(params, args),
                #[trigger] params[q],
                args[q],
            ),
{
    let subst = hierarchy::bound(params, args);
    let n = params.len() as int;
    assert forall|q: int| 0 <= q < args.len() implies gives(
        subst,
        #[trigger] params[q],
        args[q],
    ) by {
        let k = n - 1 - q;
        assert(subst[k] == (params[q], args[q]));
        assert forall|j: int| 0 <= j < k implies (#[trigger] subst[j]).0 != params[q] by {
            assert(subst[j].0 == params[n - 1 - j]);
        }
    }
}

proof fn lemma_superclass(
    v: ReadView,
    c: ClassView,
    f: FileView,
    i: int,
    p: int,
)
    requires
        (v.file)(c.uri) == Some(f),
        0 <= i < f.supers.len(),
        f.supers[i].0 == c.selection_line,
        0 <= p < (v.locations)(f.supers[i].1, None, c.uri, false).len(),
    ensures
        hierarchy::superclass_at(
            v,
            f.supers[i].1,
            hierarchy::all_substituted(f.supers[i].2, c.substitution),
            (v.locations)(f.supers[i].1, None, c.uri, false)[p],
        ) matches Some(s) ==> inherits(v, c, s),
{
    let name = f.supers[i].1;
    let args = f.supers[i].2;
    let values = hierarchy::all_substituted(args, c.substitution);
    let l = (v.locations)(name, None, c.uri, false)[p];
    if let Some(s) = hierarchy::superclass_at(v, name, values, l) {
        let g = (v.file)(l.uri).unwrap();
        let k = lemma_entry(g, l, name);
        let e = g.symbols[k];
        if distinct(e.type_params) {
            lemma_bound(e.type_params, values);
            assert forall|q: int| 0 <= q < args.len() implies gives(
                s.substitution,
                #[trigger] e.type_params[q],
                type_subst::substituted(args[q], c.substitution),
            ) by {
                assert(values[q] == type_subst::substituted(args[q], c.substitution));
            }
        }
        assert(inherits_by(v, c, s, i, p, k));
    }
}

/// Where a symbol is found at a location, it stands there.
proof fn lemma_entry(f: FileView, l: LocationView, name: Seq<char>) -> (k: int)
    requires
        resolution::entry_at(f, l, name) is Some,
    ensures
        law_hovers::stands_at(f, l, name, k),
        resolution::entry_at(f, l, name) == Some(f.symbols[k]),
{
    let p = resolution::at_range(l.range);
    let q = crate::lookup::symbol_is(name);
    let all = f.symbols;
    lists::lemma_first_is(all, p);
    lists::lemma_first_is(all, q);
    match lists::first_where(all, p) {
        Some(i) => {
            assert(p(all[i]));
            assert forall|j: int| 0 <= j < i implies (#[trigger] f.symbols[j]).selection_range
                != l.range by {
                assert(!p(all[j]));
            }
            assert(law_hovers::first_in_range(f, l, i));
            i
        },
        None => {
            let i = lists::first_where(all, q).unwrap();
            assert(q(all[i]));
            assert forall|j: int| 0 <= j < i implies (#[trigger] f.symbols[j]).name != name by {
                assert(!q(all[j]));
            }
            assert forall|j: int| 0 <= j < all.len() implies (
            #[trigger] f.symbols[j]).selection_range != l.range by {
                assert(!p(all[j]));
            }
            assert(law_hovers::first_of_name(f, l, name, i));
            i
        },
    }
}

proof fn lemma_join(v: ReadView, a: Seq<ClassView>, b: Seq<ClassView>, c: ClassView)
    requires
        linked_under(v, a, c),
        linked_under(v, b, c),
    ensures
        linked_under(v, a + b, c),
{
    let s = a + b;
    assert forall|i: int| 0 <= i < s.len() implies (exists|j: int|
        i < j < s.len() && inherits(v, #[trigger] s[j], #[trigger] s[i])) || inherits(
        v,
        c,
        s[i],
    ) by {
        if i < a.len() {
            assert(s[i] == a[i]);
            if !inherits(v, c, a[i]) {
                let j = choose|j: int|
                    i < j < a.len() && inherits(v, #[trigger] a[j], #[trigger] a[i]);
                assert(s[j] == a[j]);
            }
        } else {
            let h = i - a.len();
            assert(s[i] == b[h]);
            if !inherits(v, c, b[h]) {
                let j = choose|j: int|
                    h < j < b.len() && inherits(v, #[trigger] b[j], #[trigger] b[h]);
                assert(s[j + a.len()] == b[j]);
            }
        }
    }
}

#[verifier::rlimit(60)]
proof fn lemma_lineage(v: ReadView, c: ClassView, way: Way, depth: int)
    ensures
        hierarchy::lineage(v, c, way, depth).len() > 0 ==> hierarchy::lineage(
            v,
            c,
            way,
            depth,
        ).last() == c,
        linked(v, hierarchy::lineage(v, c, way, depth)),
    decreases CLASS_HIERARCHY_MAX_DEPTH - depth, 2int, 0int,
{
    if depth < CLASS_HIERARCHY_MAX_DEPTH && !way.contains((c.uri, c.selection_line)) {
        if let Some(f) = (v.file)(c.uri) {
            let w = way.push((c.uri, c.selection_line));
            let n = f.supers.len() as int;
            lemma_lineage_of_supers(v, c, f, w, depth, n);
            let above = hierarchy::lineage_of_supers(v, c, f.supers, w, depth, n);
            let all = above.push(c);
            assert forall|i: int| 0 <= i < all.len() - 1 implies exists|j: int|
                i < j < all.len() && inherits(v, #[trigger] all[j], #[trigger] all[i]) by {
                assert(all[i] == above[i]);
                if inherits(v, c, above[i]) {
                    assert(all[all.len() - 1] == c);
                } else {
                    let j = choose|j: int|
                        i < j < above.len() && inherits(
                            v,
                            #[trigger] above[j],
                            #[trigger] above[i],
                        );
                    assert(all[j] == above[j]);
                }
            }
            assert(linked(v, all));
            assert(hierarchy::lineage(v, c, way, depth) == all);
        }
    }
}

proof fn lemma_lineage_of_supers(
    v: ReadView,
    c: ClassView,
    f: FileView,
    way: Way,
    depth: int,
    n: int,
)
    requires
        (v.file)(c.uri) == Some(f),
    ensures
        linked_under(v, hierarchy::lineage_of_supers(v, c, f.supers, way, depth, n), c),
    decreases CLASS_HIERARCHY_MAX_DEPTH - depth, 1int, n,
{
    if depth < CLASS_HIERARCHY_MAX_DEPTH && 0 < n <= f.supers.len() {
        lemma_lineage_of_supers(v, c, f, way, depth, n - 1);
        let s = f.supers[n - 1];
        if s.0 == c.selection_line {
            let places = (v.locations)(s.1, None, c.uri, false);
            let m = places.len() as int;
            lemma_lineage_of_places(v, c, f, n - 1, way, depth, m);
            lemma_join(
                v,
                hierarchy::lineage_of_supers(v, c, f.supers, way, depth, n - 1),
                hierarchy::lineage_of_places(
                    v,
                    s.1,
                    hierarchy::all_substituted(s.2, c.substitution),
                    places,
                    way,
                    depth,
                    m,
                ),
                c,
            );
        }
    }
}

proof fn lemma_lineage_of_places(
    v: ReadView,
    c: ClassView,
    f: FileView,
    i: int,
    way: Way,
    depth: int,
    n: int,
)
    requires
        (v.file)(c.uri) == Some(f),
        0 <= i < f.supers.len(),
        f.supers[i].0 == c.selection_line,
    ensures
        linked_under(
            v,
            hierarchy::lineage_of_places(
                v,
                f.supers[i].1,
                hierarchy::all_substituted(f.supers[i].2, c.substitution),
                (v.locations)(f.supers[i].1, None, c.uri, false),
                way,
                depth,
                n,
            ),
            c,
        ),
    decreases CLASS_HIERARCHY_MAX_DEPTH - depth, 0int, n,
{
    let name = f.supers[i].1;
    let args = hierarchy::all_substituted(f.supers[i].2, c.substitution);
    let places = (v.locations)(name, None, c.uri, false);
    if depth < CLASS_HIERARCHY_MAX_DEPTH && 0 < n <= places.len() {
        lemma_lineage_of_places(v, c, f, i, way, depth, n - 1);
        let a = hierarchy::lineage_of_places(v, name, args, places, way, depth, n - 1);
        lemma_superclass(v, c, f, i, n - 1);
        match hierarchy::superclass_at(v, name, args, places[n - 1]) {
            Some(s) => {
                lemma_lineage(v, s, way, depth + 1);
                let b = hierarchy::lineage(v, s, way, depth + 1);
                assert forall|i: int| 0 <= i < b.len() implies (exists|j: int|
                    i < j < b.len() && inherits(v, #[trigger] b[j], #[trigger] b[i]))
                    || inherits(v, c, b[i]) by {
                    if i == b.len() - 1 {
                        assert(b[i] == b.last());
                    }
                }
                lemma_join(v, a, b, c);
            },
            None => {
                assert(a + Seq::<ClassView>::empty() =~= a);
            },
        }
    }
}

/// Every class that a walk up a hierarchy reaches is one that a class below it inherits from, and
/// each of its type parameters stands for the argument that is written at its place there, in the
/// types of the class that the walk began at. The walk ends with that class.
pub proof fn law_arguments_are_bound_by_place(
    v: ReadView,
    uri: Seq<char>,
    name: Seq<char>,
    line: u32,
)
    ensures
        linked(v, hierarchy::hierarchy(v, uri, name, line)),
        hierarchy::hierarchy(v, uri, name, line).len() > 0 ==> ({
            let c = hierarchy::hierarchy(v, uri, name, line).last();
            Some(c.uri) == urls::parsed_url(uri) && c.name == name && c.selection_line == line
                && c.substitution.len() == 0
        }),
{
    if let Some(u) = urls::parsed_url(uri) {
        let c = ClassView { uri: u, name, selection_line: line, substitution: Seq::empty() };
        lemma_lineage(v, c, Seq::empty(), 0);
    }
}

/// The same of one step of the walk, with the name and value of a parameter.
pub proof fn law_parameter_stands_for_its_argument(
    v: ReadView,
    lower: ClassView,
    upper: ClassView,
    i: int,
    p: int,
    k: int,
    q: int,
)
    requires
        inherits_by(v, lower, upper, i, p, k),
        (v.file)(lower.uri) matches Some(f) && 0 <= q < f.supers[i].2.len(),
        (v.file)(upper.uri) matches Some(g) && distinct(g.symbols[k].type_params),
    ensures
        type_subst::value_of(
            upper.substitution,
            (v.file)(upper.uri).unwrap().symbols[k].type_params[q],
        ) == Some(
            type_subst::substituted(
                (v.file)(lower.uri).unwrap().supers[i].2[q],
                lower.substitution,
            ),
        ),
{
    let f = (v.file)(lower.uri).unwrap();
    let g = (v.file)(upper.uri).unwrap();
    let name = g.symbols[k].type_params[q];
    let t = type_subst::substituted(f.supers[i].2[q], lower.substitution);
    assert(gives(upper.substitution, name, t));
    law_first_pair_counts(upper.substitution, name, t);
}

proof fn lemma_places_hold(
    v: ReadView,
    name: Seq<char>,
    args: Seq<Seq<char>>,
    places: Seq<LocationView>,
    way: Way,
    depth: int,
    p: int,
    n: int,
    x: ClassView,
)
    requires
        0 <= p < n <= places.len(),
        depth < CLASS_HIERARCHY_MAX_DEPTH,
        hierarchy::superclass_at(v, name, args, places[p]) matches Some(s)
            && hierarchy::lineage(v, s, way, depth + 1).contains(x),
    ensures
        hierarchy::lineage_of_places(v, name, args, places, way, depth, n).contains(x),
    decreases n,
{
    let a = hierarchy::lineage_of_places(v, name, args, places, way, depth, n - 1);
    let whole = hierarchy::lineage_of_places(v, name, args, places, way, depth, n);
    let s = hierarchy::superclass_at(v, name, args, places[p]).unwrap();
    if p < n - 1 {
        lemma_places_hold(v, name, args, places, way, depth, p, n - 1, x);
        let i = choose|i: int| 0 <= i < a.len() && a[i] == x;
        match hierarchy::superclass_at(v, name, args, places[n - 1]) {
            Some(o) => {
                assert((a + hierarchy::lineage(v, o, way, depth + 1))[i] == x);
            },
            None => {
                assert((a + Seq::<ClassView>::empty())[i] == x);
            },
        }
    } else {
        let b = hierarchy::lineage(v, s, way, depth + 1);
        let i = choose|i: int| 0 <= i < b.len() && b[i] == x;
        assert(whole == a + b);
        assert(whole[a.len() + i] == x);
    }
}

proof fn lemma_supers_hold(
    v: ReadView,
    c: ClassView,
    f: FileView,
    way: Way,
    depth: int,
    i: int,
    p: int,
    n: int,
    x: ClassView,
)
    requires
        (v.file)(c.uri) == Some(f),
        depth < CLASS_HIERARCHY_MAX_DEPTH,
        0 <= i < n <= f.supers.len(),
        f.supers[i].0 == c.selection_line,
        0 <= p < (v.locations)(f.supers[i].1, None, c.uri, false).len(),
        hierarchy::superclass_at(
            v,
            f.supers[i].1,
            hierarchy::all_substituted(f.supers[i].2, c.substitution),
            (v.locations)(f.supers[i].1, None, c.uri, false)[p],
        ) matches Some(s) && hierarchy::lineage(v, s, way, depth + 1).contains(x),
    ensures
        hierarchy::lineage_of_supers(v, c, f.supers, way, depth, n).contains(x),
    decreases n,
{
    let e = f.supers[n - 1];
    let a = hierarchy::lineage_of_supers(v, c, f.supers, way, depth, n - 1);
    let args = hierarchy::all_substituted(e.2, c.substitution);
    let places = (v.locations)(e.1, None, c.uri, false);
    let b = hierarchy::lineage_of_places(v, e.1, args, places, way, depth, places.len() as int);
    if i < n - 1 {
        lemma_supers_hold(v, c, f, way, depth, i, p, n - 1, x);
        let h = choose|h: int| 0 <= h < a.len() && a[h] == x;
        assert((a + b)[h] == x);
    } else {
        lemma_places_hold(v, e.1, args, places, way, depth, p, places.len() as int, x);
        let h = choose|h: int| 0 <= h < b.len() && b[h] == x;
        assert((a + b)[a.len() + h] == x);
    }
}

/// A class that is written as a supertype on the line of a class, and that takes as many arguments
/// as are written, is reached by the walk up from that class, wherever in the file's list it
/// stands and at whichever of the places found.
pub proof fn law_superclass_is_reached(
    v: ReadView,
    uri: Seq<char>,
    name: Seq<char>,
    line: u32,
    f: FileView,
    i: int,
    p: int,
    g: FileView,
    k: int,
)
    requires
        urls::parsed_url(uri) == Some(uri),
        (v.file)(uri) == Some(f),
        0 <= i < f.supers.len(),
        f.supers[i].0 == line,
        0 <= p < (v.locations)(f.supers[i].1, None, uri, false).len(),
        (v.file)((v.locations)(f.supers[i].1, None, uri, false)[p].uri) == Some(g),
        law_hovers::stands_at(g, (v.locations)(f.supers[i].1, None, uri, false)[p], f.supers[i].1, k),
        g.symbols[k].type_params.len() == f.supers[i].2.len(),
        (v.locations)(f.supers[i].1, None, uri, false)[p].uri != uri
            || g.symbols[k].selection_range.start.line != line,
    ensures
        exists|h: int|
            0 <= h < hierarchy::hierarchy(v, uri, name, line).len() - 1 && ({
                let c = #[trigger] hierarchy::hierarchy(v, uri, name, line)[h];
                &&& c.uri == (v.locations)(f.supers[i].1, None, uri, false)[p].uri
                &&& c.name == g.symbols[k].name
                &&& c.selection_line == g.symbols[k].selection_range.start.line
                &&& distinct(g.symbols[k].type_params) ==> forall|q: int|
                    0 <= q < f.supers[i].2.len() ==> gives(
                        c.substitution,
                        #[trigger] g.symbols[k].type_params[q],
                        f.supers[i].2[q],
                    )
            }),
{
    let c = ClassView { uri, name, selection_line: line, substitution: Seq::empty() };
    let way: Way = Seq::<(Seq<char>, u32)>::empty().push((uri, line));
    let sup = f.supers[i];
    let args = hierarchy::all_substituted(sup.2, c.substitution);
    let l = (v.locations)(sup.1, None, uri, false)[p];
    law_hovers::law_symbol_at_a_location(g, l, sup.1, k);
    assert forall|q: int| 0 <= q < sup.2.len() implies #[trigger] args[q] == sup.2[q] by {
        type_subst::law_empty_subst_changes_nothing(sup.2[q]);
    }
    assert(args =~= sup.2);
    let s = hierarchy::superclass_at(v, sup.1, args, l).unwrap();
    if way.contains((s.uri, s.selection_line)) {
        assert(way[0] == (s.uri, s.selection_line));
    }
    let n = f.supers.len() as int;
    let b = hierarchy::lineage(v, s, way, 1);
    assert(b.len() > 0 && b.last() == s);
    lemma_supers_hold(v, c, f, way, 0, i, p, n, s);
    let above = hierarchy::lineage_of_supers(v, c, f.supers, way, 0, n);
    let h = choose|h: int| 0 <= h < above.len() && above[h] == s;
    assert(hierarchy::hierarchy(v, uri, name, line) == above.push(c));
    assert(hierarchy::hierarchy(v, uri, name, line)[h] == s);
    if distinct(g.symbols[k].type_params) {
        lemma_bound(g.symbols[k].type_params, args);
    }
}

/// Whether the class at one place, a file and a line, names the class at another as a supertype:
/// supertype `i` of its file is written on its line, the index finds that name at place `p`, and
/// symbol `k` stands there, which takes as many arguments as are written.
pub open spec fn names_super(
    v: ReadView,
    lower: (Seq<char>, u32),
    upper: (Seq<char>, u32),
    i: int,
    p: int,
    k: int,
) -> bool {
    (v.file)(lower.0) matches Some(f) && 0 <= i < f.supers.len() && f.supers[i].0 == lower.1 && ({
        let name = f.supers[i].1;
        let places = (v.locations)(name, None, lower.0, false);
        &&& 0 <= p < places.len()
        &&& places[p].uri == upper.0
        &&& (v.file)(upper.0) matches Some(g) && law_hovers::stands_at(g, places[p], name, k)
            && g.symbols[k].selection_range.start.line == upper.1
            && g.symbols[k].type_params.len() == f.supers[i].2.len()
    })
}

/// Whether each class of a chain, each by its file and line, names the next as a supertype, and
/// none occurs twice.
pub open spec fn is_chain(v: ReadView, chain: Seq<(Seq<char>, u32)>) -> bool {
    &&& chain.len() > 0
    &&& (v.file)(chain[0].0) is Some
    &&& forall|h: int|
        0 <= h < chain.len() - 1 ==> exists|i: int, p: int, k: int| #[trigger]
            names_super(v, #[trigger] chain[h], chain[h + 1], i, p, k)
    &&& forall|a: int, b: int|
        0 <= a < b < chain.len() ==> #[trigger] chain[a] != #[trigger] chain[b]
}

#[verifier::rlimit(60)]
proof fn lemma_chain(
    v: ReadView,
    c: ClassView,
    way: Way,
    depth: int,
    chain: Seq<(Seq<char>, u32)>,
) -> (x: ClassView)
    requires
        is_chain(v, chain),
        chain[0] == (c.uri, c.selection_line),
        0 <= depth,
        depth + chain.len() <= 12,
        forall|h: int| 0 <= h < chain.len() ==> !way.contains(#[trigger] chain[h]),
    ensures
        hierarchy::lineage(v, c, way, depth).contains(x),
        (x.uri, x.selection_line) == chain.last(),
    decreases chain.len(),
{
    let f = (v.file)(c.uri).unwrap();
    let w = way.push((c.uri, c.selection_line));
    let n = f.supers.len() as int;
    let above = hierarchy::lineage_of_supers(v, c, f.supers, w, depth, n);
    let all = hierarchy::lineage(v, c, way, depth);
    assert(!way.contains(chain[0]));
    assert(all == above.push(c));
    if chain.len() == 1 {
        assert(all[all.len() - 1] == c);
        c
    } else {
        assert(exists|i: int, p: int, k: int| #[trigger]
            names_super(v, chain[0], chain[1], i, p, k));
        let (i, p, k) = choose|i: int, p: int, k: int| #[trigger]
            names_super(v, chain[0], chain[1], i, p, k);
        let sup = f.supers[i];
        let args = hierarchy::all_substituted(sup.2, c.substitution);
        let l = (v.locations)(sup.1, None, c.uri, false)[p];
        let g = (v.file)(l.uri).unwrap();
        law_hovers::law_symbol_at_a_location(g, l, sup.1, k);
        let s = hierarchy::superclass_at(v, sup.1, args, l).unwrap();
        let rest = chain.skip(1);
        assert(rest[0] == chain[1]);
        assert(rest.last() == chain.last());
        assert forall|h: int| 0 <= h < rest.len() implies !w.contains(#[trigger] rest[h]) by {
            assert(rest[h] == chain[h + 1]);
            assert(chain[0] != chain[h + 1]);
            assert(!way.contains(chain[h + 1]));
            if w.contains(rest[h]) {
                let j = choose|j: int| 0 <= j < w.len() && w[j] == rest[h];
                if j < way.len() {
                    assert(way[j] == rest[h]);
                }
            }
        }
        assert forall|h: int| 0 <= h < rest.len() - 1 implies exists|i: int, p: int, k: int|
            #[trigger] names_super(v, #[trigger] rest[h], rest[h + 1], i, p, k) by {
            assert(rest[h] == chain[h + 1]);
            assert(rest[h + 1] == chain[h + 2]);
            assert(exists|i: int, p: int, k: int| #[trigger]
                names_super(v, chain[h + 1], chain[h + 2], i, p, k));
        }
        assert forall|a: int, b: int| 0 <= a < b < rest.len() implies #[trigger] rest[a]
            != #[trigger] rest[b] by {
            assert(rest[a] == chain[a + 1]);
            assert(rest[b] == chain[b + 1]);
        }
        let x = lemma_chain(v, s, w, depth + 1, rest);
        lemma_supers_hold(v, c, f, w, depth, i, p, n, x);
        let h = choose|h: int| 0 <= h < above.len() && above[h] == x;
        assert(all[h] == x);
        x
    }
}

/// A walk up a hierarchy reaches every class at the end of a chain of supertypes, up to eleven
/// steps away.
pub proof fn law_ancestors_are_reached(
    v: ReadView,
    uri: Seq<char>,
    name: Seq<char>,
    line: u32,
    chain: Seq<(Seq<char>, u32)>,
)
    requires
        urls::parsed_url(uri) == Some(uri),
        is_chain(v, chain),
        chain[0] == (uri, line),
        chain.len() <= 12,
    ensures
        exists|h: int|
            0 <= h < hierarchy::hierarchy(v, uri, name, line).len() && ({
                let c = #[trigger] hierarchy::hierarchy(v, uri, name, line)[h];
                (c.uri, c.selection_line) == chain.last()
            }),
{
    let c = ClassView { uri, name, selection_line: line, substitution: Seq::empty() };
    let x = lemma_chain(v, c, Seq::empty(), 0, chain);
    let all = hierarchy::hierarchy(v, uri, name, line);
    let h = choose|h: int| 0 <= h < all.len() && all[h] == x;
    assert((all[h].uri, all[h].selection_line) == chain.last());
}

// ---------------------------------------------------------------------------
// The types of a caller
// ---------------------------------------------------------------------------

/// Whether symbol `i` is the innermost type declared round a line: of those that span the line it
/// spans the fewest lines, and is the first of those that span as few.
pub open spec fn is_innermost(symbols: Seq<SymbolView>, line: u32, i: int) -> bool {
    &&& 0 <= i < symbols.len()
    &&& spans(symbols[i], line)
    &&& forall|j: int|
        0 <= j < symbols.len() && spans(#[trigger] symbols[j], line) ==> height(symbols[i]) <= height(
            symbols[j],
        ) && (j < i ==> height(symbols[i]) < height(symbols[j]))
}

/// Whether a symbol is a type whose declaration spans a line.
pub open spec fn spans(s: SymbolView, line: u32) -> bool {
    &&& s.kind == SymbolKind::Class || s.kind == SymbolKind::Interface || s.kind
        == SymbolKind::Struct || s.kind == SymbolKind::Enum || s.kind == SymbolKind::Object
    &&& s.range.start.line <= line <= s.range.end.line
}

/// How many lines a symbol spans.
pub open spec fn height(s: SymbolView) -> int {
    s.range.end.line - s.range.start.line
}

proof fn lemma_innermost(symbols: Seq<SymbolView>, line: u32, i: int, n: int)
    requires
        is_innermost(symbols, line, i),
        0 <= n <= symbols.len(),
    ensures
        n > i ==> types::innermost_type(symbols, line, n) == Some(i),
        n <= i ==> (types::innermost_type(symbols, line, n) matches Some(b) ==> 0 <= b < n && spans(
            symbols[b],
            line,
        )),
    decreases n,
{
    if n > 0 {
        lemma_innermost(symbols, line, i, n - 1);
        let s = symbols[n - 1];
        if spans(s, line) {
            assert(height(symbols[i]) <= height(symbols[n - 1]));
        }
    }
}

/// The class round a line is the innermost one; outside all types there is none.
pub proof fn law_innermost_class(f: FileView, line: u32, i: int)
    ensures
        is_innermost(f.symbols, line, i) ==> types::containing_class(f, line) == Some(
            f.symbols[i].name,
        ),
        (forall|j: int| 0 <= j < f.symbols.len() ==> !spans(#[trigger] f.symbols[j], line))
            ==> types::containing_class(f, line) is None,
{
    let n = f.symbols.len() as int;
    if is_innermost(f.symbols, line, i) {
        lemma_innermost(f.symbols, line, i, n);
    }
    if forall|j: int| 0 <= j < f.symbols.len() ==> !spans(#[trigger] f.symbols[j], line) {
        lemma_no_innermost(f.symbols, line, n);
    }
}

proof fn lemma_no_innermost(symbols: Seq<SymbolView>, line: u32, n: int)
    requires
        0 <= n <= symbols.len(),
        forall|j: int| 0 <= j < symbols.len() ==> !spans(#[trigger] symbols[j], line),
    ensures
        types::innermost_type(symbols, line, n) is None,
    decreases n,
{
    if n > 0 {
        lemma_no_innermost(symbols, line, n - 1);
        assert(!spans(symbols[n - 1], line));
    }
}

proof fn lemma_off_way(v: ReadView, c: ClassView, way: Way, depth: int)
    ensures
        forall|i: int|
            0 <= i < hierarchy::lineage(v, c, way, depth).len() ==> !way.contains(
                place_of(#[trigger] hierarchy::lineage(v, c, way, depth)[i]),
            ),
    decreases CLASS_HIERARCHY_MAX_DEPTH - depth, 2int, 0int,
{
    if depth < CLASS_HIERARCHY_MAX_DEPTH && !way.contains((c.uri, c.selection_line)) {
        if let Some(f) = (v.file)(c.uri) {
            let w = way.push((c.uri, c.selection_line));
            let n = f.supers.len() as int;
            lemma_supers_off_way(v, c, f.supers, w, depth, n);
            let above = hierarchy::lineage_of_supers(v, c, f.supers, w, depth, n);
            let all = hierarchy::lineage(v, c, way, depth);
            assert(all == above.push(c));
            assert forall|i: int| 0 <= i < all.len() implies !way.contains(
                place_of(#[trigger] all[i]),
            ) by {
                if i < above.len() {
                    assert(all[i] == above[i]);
                    if way.contains(place_of(all[i])) {
                        let j = choose|j: int| 0 <= j < way.len() && way[j] == place_of(all[i]);
                        assert(w[j] == place_of(above[i]));
                    }
                }
            }
        }
    }
}

/// Where a class is declared: its file and line.
pub open spec fn place_of(c: ClassView) -> (Seq<char>, u32) {
    (c.uri, c.selection_line)
}

proof fn lemma_supers_off_way(
    v: ReadView,
    c: ClassView,
    supers: Seq<(u32, Seq<char>, Seq<Seq<char>>)>,
    way: Way,
    depth: int,
    n: int,
)
    ensures
        forall|i: int|
            0 <= i < hierarchy::lineage_of_supers(v, c, supers, way, depth, n).len()
                ==> !way.contains(
                place_of(
                    #[trigger] hierarchy::lineage_of_supers(v, c, supers, way, depth, n)[i],
                ),
            ),
    decreases CLASS_HIERARCHY_MAX_DEPTH - depth, 1int, n,
{
    if depth < CLASS_HIERARCHY_MAX_DEPTH && 0 < n <= supers.len() {
        lemma_supers_off_way(v, c, supers, way, depth, n - 1);
        let s = supers[n - 1];
        if s.0 == c.selection_line {
            let places = (v.locations)(s.1, None, c.uri, false);
            let args = hierarchy::all_substituted(s.2, c.substitution);
            lemma_places_off_way(v, s.1, args, places, way, depth, places.len() as int);
            let a = hierarchy::lineage_of_supers(v, c, supers, way, depth, n - 1);
            let b = hierarchy::lineage_of_places(
                v,
                s.1,
                args,
                places,
                way,
                depth,
                places.len() as int,
            );
            let all = hierarchy::lineage_of_supers(v, c, supers, way, depth, n);
            assert(all == a + b);
            assert forall|i: int| 0 <= i < all.len() implies !way.contains(
                place_of(#[trigger] all[i]),
            ) by {
                if i < a.len() {
                    assert(all[i] == a[i]);
                } else {
                    assert(all[i] == b[i - a.len()]);
                }
            }
        } else {
            assert(hierarchy::lineage_of_supers(v, c, supers, way, depth, n)
                == hierarchy::lineage_of_supers(v, c, supers, way, depth, n - 1));
        }
    }
}

proof fn lemma_places_off_way(
    v: ReadView,
    name: Seq<char>,
    args: Seq<Seq<char>>,
    places: Seq<LocationView>,
    way: Way,
    depth: int,
    n: int,
)
    ensures
        forall|i: int|
            0 <= i < hierarchy::lineage_of_places(v, name, args, places, way, depth, n).len()
                ==> !way.contains(
                place_of(
                    #[trigger] hierarchy::lineage_of_places(
                        v,
                        name,
                        args,
                        places,
                        way,
                        depth,
                        n,
                    )[i],
                ),
            ),
    decreases CLASS_HIERARCHY_MAX_DEPTH - depth, 0int, n,
{
    if depth < CLASS_HIERARCHY_MAX_DEPTH && 0 < n <= places.len() {
        lemma_places_off_way(v, name, args, places, way, depth, n - 1);
        let a = hierarchy::lineage_of_places(v, name, args, places, way, depth, n - 1);
        let b = match hierarchy::superclass_at(v, name, args, places[n - 1]) {
            Some(s) => hierarchy::lineage(v, s, way, depth + 1),
            None => Seq::empty(),
        };
        if let Some(s) = hierarchy::superclass_at(v, name, args, places[n - 1]) {
            lemma_off_way(v, s, way, depth + 1);
        }
        let all = hierarchy::lineage_of_places(v, name, args, places, way, depth, n);
        assert(all == a + b);
        assert forall|i: int| 0 <= i < all.len() implies !way.contains(
            place_of(#[trigger] all[i]),
        ) by {
            if i < a.len() {
                assert(all[i] == a[i]);
            } else {
                assert(all[i] == b[i - a.len()]);
            }
        }
    }
}

/// Supertypes on other lines add nothing.
proof fn lemma_other_supers(
    v: ReadView,
    c: ClassView,
    supers: Seq<(u32, Seq<char>, Seq<Seq<char>>)>,
    way: Way,
    depth: int,
    from: int,
    n: int,
)
    requires
        0 <= from <= n <= supers.len(),
        forall|j: int| from <= j < n ==> (#[trigger] supers[j]).0 != c.selection_line,
    ensures
        hierarchy::lineage_of_supers(v, c, supers, way, depth, n)
            == hierarchy::lineage_of_supers(v, c, supers, way, depth, from),
    decreases n,
{
    if from < n {
        assert(supers[n - 1].0 != c.selection_line);
        lemma_other_supers(v, c, supers, way, depth, from, n - 1);
    }
}

/// Where a class inherits from one other, found at one place, a caller in that class sees the
/// members of the other with each type parameter standing for the argument written at its place.
#[verifier::rlimit(60)]
pub proof fn law_members_in_the_callers_types(
    v: ReadView,
    sym_uri: Seq<char>,
    sym_line: u32,
    g: FileView,
    k: int,
    caller_uri: Seq<char>,
    line: u32,
    f: FileView,
    c: int,
    i: int,
    q: int,
)
    requires
        sym_uri != caller_uri,
        urls::parsed_url(caller_uri) == Some(caller_uri),
        (v.file)(sym_uri) == Some(g),
        (v.file)(caller_uri) == Some(f),
        is_innermost(g.symbols, sym_line, k),
        forall|j: int|
            0 <= j < k && (#[trigger] g.symbols[j]).name == g.symbols[k].name
                ==> !(g.symbols[j].range.start.line <= sym_line <= g.symbols[j].range.end.line),
        distinct(g.symbols[k].type_params),
        is_innermost(f.symbols, line, c),
        forall|j: int| 0 <= j < c ==> (#[trigger] f.symbols[j]).name != f.symbols[c].name,
        0 <= i < f.supers.len(),
        forall|j: int|
            0 <= j < f.supers.len() ==> ((#[trigger] f.supers[j]).0
                == f.symbols[c].selection_range.start.line <==> j == i),
        (v.locations)(f.supers[i].1, None, caller_uri, false).len() == 1,
        (v.locations)(f.supers[i].1, None, caller_uri, false)[0].uri == sym_uri,
        law_hovers::stands_at(g, (v.locations)(f.supers[i].1, None, caller_uri, false)[0], f.supers[i].1, k),
        g.symbols[k].type_params.len() == f.supers[i].2.len(),
        0 <= q < f.supers[i].2.len(),
    ensures
        type_subst::value_of(
            enrich::param_subst(v, sym_uri, sym_line, caller_uri, Some(line)),
            g.symbols[k].type_params[q],
        ) == Some(f.supers[i].2[q]),
{
    let caller = f.symbols[c];
    let base = g.symbols[k];
    let start = caller.selection_range.start.line;
    law_innermost_class(g, sym_line, k);
    law_innermost_class(f, line, c);
    let in_base = enrich::spans_line(base.name, sym_line);
    assert forall|j: int| 0 <= j < k implies !in_base(#[trigger] g.symbols[j]) by {
        assert(g.symbols[j].name == base.name ==> !(g.symbols[j].range.start.line <= sym_line
            <= g.symbols[j].range.end.line));
    }
    lists::lemma_first(g.symbols, in_base, k);
    let named = crate::lookup::symbol_is(caller.name);
    assert forall|j: int| 0 <= j < c implies !named(#[trigger] f.symbols[j]) by {
        assert(f.symbols[j].name != caller.name);
    }
    lists::lemma_first(f.symbols, named, c);
    assert(enrich::container_of(v, sym_uri, sym_line) == Some(base));
    let whole = hierarchy::hierarchy(v, caller_uri, caller.name, start);
    let h = lemma_one_super(v, caller_uri, caller.name, start, f, i, g, k);
    let p = enrich::class_is(sym_uri, base.name, base.selection_range.start.line);
    assert forall|j: int| 0 <= j < h implies !p(#[trigger] whole[j]) by {
        assert(place_of(whole[j]) != (sym_uri, base.selection_range.start.line));
    }
    lists::lemma_first(whole, p, h);
    let subst = whole[h].substitution;
    lemma_bound(base.type_params, f.supers[i].2);
    assert(gives(subst, base.type_params[q], f.supers[i].2[q]));
    law_first_pair_counts(subst, base.type_params[q], f.supers[i].2[q]);
}

#[verifier::rlimit(60)]
proof fn lemma_one_lineage(
    v: ReadView,
    uri: Seq<char>,
    name: Seq<char>,
    line: u32,
    f: FileView,
    i: int,
    g: FileView,
    k: int,
)
    requires
        urls::parsed_url(uri) == Some(uri),
        (v.file)(uri) == Some(f),
        0 <= i < f.supers.len(),
        forall|j: int|
            0 <= j < f.supers.len() ==> ((#[trigger] f.supers[j]).0 == line <==> j == i),
        (v.locations)(f.supers[i].1, None, uri, false).len() == 1,
        (v.locations)(f.supers[i].1, None, uri, false)[0].uri != uri,
        (v.file)((v.locations)(f.supers[i].1, None, uri, false)[0].uri) == Some(g),
        law_hovers::stands_at(g, (v.locations)(f.supers[i].1, None, uri, false)[0], f.supers[i].1, k),
        g.symbols[k].type_params.len() == f.supers[i].2.len(),
    ensures
        hierarchy::hierarchy(v, uri, name, line) == hierarchy::lineage(
            v,
            (ClassView {
                uri: (v.locations)(f.supers[i].1, None, uri, false)[0].uri,
                name: g.symbols[k].name,
                selection_line: g.symbols[k].selection_range.start.line,
                substitution: hierarchy::bound(g.symbols[k].type_params, f.supers[i].2),
            }),
            Seq::<(Seq<char>, u32)>::empty().push((uri, line)),
            1,
        ).push((ClassView { uri, name, selection_line: line, substitution: Seq::empty() })),
{
    let c = ClassView { uri, name, selection_line: line, substitution: Seq::empty() };
    let way: Way = Seq::<(Seq<char>, u32)>::empty().push((uri, line));
    let sup = f.supers[i];
    let args = hierarchy::all_substituted(sup.2, c.substitution);
    let places = (v.locations)(sup.1, None, uri, false);
    let l = places[0];
    law_hovers::law_symbol_at_a_location(g, l, sup.1, k);
    assert forall|q: int| 0 <= q < sup.2.len() implies #[trigger] args[q] == sup.2[q] by {
        type_subst::law_empty_subst_changes_nothing(sup.2[q]);
    }
    assert(args =~= sup.2);
    let s = hierarchy::superclass_at(v, sup.1, args, l).unwrap();
    let n = f.supers.len() as int;
    lemma_other_supers(v, c, f.supers, way, 0, i + 1, n);
    lemma_other_supers(v, c, f.supers, way, 0, 0, i);
    let b = hierarchy::lineage(v, s, way, 1);
    let none = Seq::<ClassView>::empty();
    reveal_with_fuel(hierarchy::lineage_of_places, 3);
    assert(hierarchy::lineage_of_places(v, sup.1, args, places, way, 0, 0) =~= none);
    assert(none + b =~= b);
    assert(hierarchy::lineage_of_places(v, sup.1, args, places, way, 0, 1) =~= b);
    assert(hierarchy::lineage_of_supers(v, c, f.supers, way, 0, 0) =~= none);
    assert(hierarchy::lineage_of_supers(v, c, f.supers, way, 0, i + 1) =~= b);
    assert(hierarchy::hierarchy(v, uri, name, line) == b.push(c));
}

#[verifier::rlimit(60)]
proof fn lemma_one_super(
    v: ReadView,
    uri: Seq<char>,
    name: Seq<char>,
    line: u32,
    f: FileView,
    i: int,
    g: FileView,
    k: int,
) -> (h: int)
    requires
        urls::parsed_url(uri) == Some(uri),
        (v.file)(uri) == Some(f),
        0 <= i < f.supers.len(),
        forall|j: int|
            0 <= j < f.supers.len() ==> ((#[trigger] f.supers[j]).0 == line <==> j == i),
        (v.locations)(f.supers[i].1, None, uri, false).len() == 1,
        (v.locations)(f.supers[i].1, None, uri, false)[0].uri != uri,
        (v.file)((v.locations)(f.supers[i].1, None, uri, false)[0].uri) == Some(g),
        law_hovers::stands_at(g, (v.locations)(f.supers[i].1, None, uri, false)[0], f.supers[i].1, k),
        g.symbols[k].type_params.len() == f.supers[i].2.len(),
    ensures
        0 <= h < hierarchy::hierarchy(v, uri, name, line).len(),
        hierarchy::hierarchy(v, uri, name, line)[h] == (ClassView {
            uri: (v.locations)(f.supers[i].1, None, uri, false)[0].uri,
            name: g.symbols[k].name,
            selection_line: g.symbols[k].selection_range.start.line,
            substitution: hierarchy::bound(g.symbols[k].type_params, f.supers[i].2),
        }),
        forall|j: int|
            0 <= j < h ==> place_of(#[trigger] hierarchy::hierarchy(v, uri, name, line)[j]) != (
                (v.locations)(f.supers[i].1, None, uri, false)[0].uri,
                g.symbols[k].selection_range.start.line,
            ),
{
    let c = ClassView { uri, name, selection_line: line, substitution: Seq::empty() };
    let way: Way = Seq::<(Seq<char>, u32)>::empty().push((uri, line));
    let l = (v.locations)(f.supers[i].1, None, uri, false)[0];
    let s = ClassView {
        uri: l.uri,
        name: g.symbols[k].name,
        selection_line: g.symbols[k].selection_range.start.line,
        substitution: hierarchy::bound(g.symbols[k].type_params, f.supers[i].2),
    };
    lemma_one_lineage(v, uri, name, line, f, i, g, k);
    if way.contains(place_of(s)) {
        assert(way[0] == place_of(s));
    }
    let b = hierarchy::lineage(v, s, way, 1);
    let all = hierarchy::hierarchy(v, uri, name, line);
    assert(all == b.push(c));
    let h = b.len() - 1;
    assert(b.last() == s);
    assert(all[h] == s);
    let w = way.push(place_of(s));
    let above = hierarchy::lineage_of_supers(v, s, g.supers, w, 1, g.supers.len() as int);
    assert(b == above.push(s));
    lemma_supers_off_way(v, s, g.supers, w, 1, g.supers.len() as int);
    assert forall|j: int| 0 <= j < h implies place_of(#[trigger] all[j]) != place_of(s) by {
        assert(all[j] == above[j]);
        assert(w[w.len() - 1] == place_of(s));
        assert(!w.contains(place_of(above[j])));
    }
    h
}

proof fn lemma_no_supers(v: ReadView, c: ClassView, f: FileView, way: Way, depth: int)
    requires
        (v.file)(c.uri) == Some(f),
        0 <= depth < CLASS_HIERARCHY_MAX_DEPTH,
        !way.contains(place_of(c)),
        forall|j: int| 0 <= j < f.supers.len() ==> (#[trigger] f.supers[j]).0 != c.selection_line,
    ensures
        hierarchy::lineage(v, c, way, depth) == seq![c],
{
    let w = way.push(place_of(c));
    lemma_other_supers(v, c, f.supers, w, depth, 0, f.supers.len() as int);
    let none = hierarchy::lineage_of_supers(v, c, f.supers, w, depth, 0);
    assert(none =~= Seq::empty());
    assert(none.push(c) =~= seq![c]);
}

proof fn lemma_first_of_both(a: Subst, b: Subst, name: Seq<char>, t: Seq<char>)
    requires
        gives(a, name, t),
    ensures
        gives(a + b, name, t),
{
    let all = a + b;
    let k = choose|k: int|
        0 <= k < a.len() && #[trigger] a[k] == (name, t) && forall|j: int|
            0 <= j < k ==> (#[trigger] a[j]).0 != name;
    assert(all[k] == (name, t));
    assert forall|j: int| 0 <= j < k implies (#[trigger] all[j]).0 != name by {
        assert(all[j] == a[j]);
    }
}

/// In a class that inherits from one other, which inherits from none, each type parameter of the
/// other stands for the argument written at its place, whatever the types of its properties say.
#[verifier::rlimit(60)]
pub proof fn law_types_of_the_enclosing_class(
    v: ReadView,
    uri: Seq<char>,
    line: u32,
    f: FileView,
    c: int,
    i: int,
    g: FileView,
    k: int,
    q: int,
)
    requires
        urls::parsed_url(uri) == Some(uri),
        (v.file)(uri) == Some(f),
        is_innermost(f.symbols, line, c),
        forall|j: int| 0 <= j < c ==> (#[trigger] f.symbols[j]).name != f.symbols[c].name,
        0 <= i < f.supers.len(),
        forall|j: int|
            0 <= j < f.supers.len() ==> ((#[trigger] f.supers[j]).0
                == f.symbols[c].selection_range.start.line <==> j == i),
        (v.locations)(f.supers[i].1, None, uri, false).len() == 1,
        (v.locations)(f.supers[i].1, None, uri, false)[0].uri != uri,
        (v.file)((v.locations)(f.supers[i].1, None, uri, false)[0].uri) == Some(g),
        law_hovers::stands_at(g, (v.locations)(f.supers[i].1, None, uri, false)[0], f.supers[i].1, k),
        forall|j: int|
            0 <= j < g.supers.len() ==> (#[trigger] g.supers[j]).0
                != g.symbols[k].selection_range.start.line,
        g.symbols[k].type_params.len() == f.supers[i].2.len(),
        distinct(g.symbols[k].type_params),
        0 <= q < f.supers[i].2.len(),
    ensures
        type_subst::value_of(
            enrich::enclosing_subst(v, uri, line),
            g.symbols[k].type_params[q],
        ) == Some(f.supers[i].2[q]),
{
    let own = f.symbols[c];
    let base = g.symbols[k];
    let start = own.selection_range.start.line;
    law_innermost_class(f, line, c);
    let named = crate::lookup::symbol_is(own.name);
    assert forall|j: int| 0 <= j < c implies !named(#[trigger] f.symbols[j]) by {
        assert(f.symbols[j].name != own.name);
    }
    lists::lemma_first(f.symbols, named, c);
    let l = (v.locations)(f.supers[i].1, None, uri, false)[0];
    let sup = ClassView {
        uri: l.uri,
        name: base.name,
        selection_line: base.selection_range.start.line,
        substitution: hierarchy::bound(base.type_params, f.supers[i].2),
    };
    let me = ClassView { uri, name: own.name, selection_line: start, substitution: Seq::empty() };
    let h = lemma_one_super(v, uri, own.name, start, f, i, g, k);
    let way: Way = Seq::<(Seq<char>, u32)>::empty().push((uri, start));
    if way.contains(place_of(sup)) {
        assert(way[0] == place_of(sup));
    }
    lemma_no_supers(v, sup, g, way, 1);
    let all = hierarchy::hierarchy(v, uri, own.name, start);
    lemma_one_lineage(v, uri, own.name, start, f, i, g, k);
    assert(all =~= seq![sup, me]);
    reveal_with_fuel(enrich::others_subst, 3);
    assert(all.drop_last() =~= seq![sup]);
    assert(seq![sup].drop_last() =~= Seq::empty());
    let none: Subst = Seq::empty();
    assert(none + sup.substitution =~= sup.substitution);
    assert(enrich::others_subst(all, uri, start) == sup.substitution);
    lemma_bound(base.type_params, f.supers[i].2);
    let members = enrich::members_subst(v, f.symbols, start, own.range.end.line);
    assert(gives(sup.substitution, base.type_params[q], f.supers[i].2[q]));
    lemma_first_of_both(sup.substitution, members, base.type_params[q], f.supers[i].2[q]);
    law_first_pair_counts(
        sup.substitution + members,
        base.type_params[q],
        f.supers[i].2[q],
    );
}

// ---------------------------------------------------------------------------
// Properties
// ---------------------------------------------------------------------------

/// The type of a property is the name behind the first colon of its declaration, where that begins
/// with a capital.
pub proof fn law_type_of_a_property(
    a: Seq<char>,
    gap: Seq<char>,
    name: Seq<char>,
    rest: Seq<char>,
)
    requires
        law_texts::lacks(a, ':'),
        law_texts::blank(gap),
        law_texts::is_name(name),
        rest.len() > 0 ==> !text::id_char(rest[0]),
    ensures
        resolution::property_type(a + seq![':'] + gap + name + rest) == (if unicode::uppercase(
            name[0],
        ) {
            name
        } else {
            Seq::empty()
        }),
{
    let tail = gap + (name + rest);
    let whole = a + seq![':'] + gap + name + rest;
    assert(whole =~= a + seq![':'] + tail);
    law_texts::law_character_is_found(a, ':', tail);
    assert(whole.skip(a.len() as int + 1) =~= tail);
    law_texts::lemma_name_is_tight(name);
    assert((name + rest)[0] == name[0]);
    law_texts::lemma_start_blank(gap, name + rest);
    law_texts::law_names_at_the_ends(name, rest);
}

/// Whether the index declares a name first at a place of a file, at the first symbol of the name
/// there.
pub open spec fn is_declared(
    v: ReadView,
    name: Seq<char>,
    l: LocationView,
    f: FileView,
    k: int,
) -> bool {
    &&& (v.definitions)(name) matches Some(all) && all.len() > 0 && all[0] == l
    &&& (v.file)(l.uri) == Some(f)
    &&& 0 <= k < f.symbols.len()
    &&& f.symbols[k].name == name
    &&& forall|j: int| 0 <= j < k ==> (#[trigger] f.symbols[j]).name != name
}

proof fn lemma_is_declared(v: ReadView, name: Seq<char>, l: LocationView, f: FileView, k: int)
    requires
        is_declared(v, name, l, f, k),
    ensures
        enrich::declared(v, name) == Some((f, f.symbols[k])),
{
    let p = crate::lookup::symbol_is(name);
    assert forall|j: int| 0 <= j < k implies !p(#[trigger] f.symbols[j]) by {
        assert(f.symbols[j].name != name);
    }
    lists::lemma_first(f.symbols, p, k);
}

/// What a supertype is given for its type parameters: to each the argument written at its place.
pub proof fn law_arguments_of_a_supertype(
    v: ReadView,
    line: u32,
    name: Seq<char>,
    args: Seq<Seq<char>>,
    l: LocationView,
    f: FileView,
    k: int,
    q: int,
)
    requires
        is_declared(v, name, l, f, k),
        0 <= q < args.len(),
        q < f.symbols[k].type_params.len(),
        distinct(f.symbols[k].type_params),
    ensures
        type_subst::value_of(
            enrich::super_subst(v, (line, name, args)),
            f.symbols[k].type_params[q],
        ) == Some(args[q]),
{
    lemma_is_declared(v, name, l, f, k);
    let ps = f.symbols[k].type_params;
    let subst = enrich::super_subst(v, (line, name, args));
    assert(subst[q] == (ps[q], args[q]));
    assert forall|j: int| 0 <= j < q implies (#[trigger] subst[j]).0 != ps[q] by {
        assert(subst[j].0 == ps[j]);
    }
    assert(gives(subst, ps[q], args[q]));
    law_first_pair_counts(subst, ps[q], args[q]);
}

} // verus!
