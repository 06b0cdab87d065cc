//! The classes that a class inherits from, with what stands for their type parameters.
use vstd::prelude::*;
use vstd::string::*;

use crate::resolution;
use crate::resolution::{IndexRead, ReadView};
use crate::text;
use crate::type_subst;
use crate::type_subst::Subst;
use crate::types::{Location, LocationView};
use crate::urls;

verus! {

/// How many steps up a hierarchy are followed.
pub const CLASS_HIERARCHY_MAX_DEPTH: usize = 12;

/// A class found at a place, with what stands for its type parameters as the class that the walk
/// began at sees them.
#[derive(Debug)]
pub struct ResolvedHierarchyClass {
    pub uri: String,
    pub name: String,
    pub selection_line: u32,
    pub substitution: Vec<(String, String)>,
}

#[verifier::ext_equal]
pub struct ClassView {
    pub uri: Seq<char>,
    pub name: Seq<char>,
    pub selection_line: u32,
    pub substitution: Subst,
}

impl DeepView for ResolvedHierarchyClass {
    type V = ClassView;

    open spec fn deep_view(&self) -> ClassView {
        ClassView {
            uri: self.uri@,
            name: self.name@,
            selection_line: self.selection_line,
            substitution: self.substitution.deep_view(),
        }
    }
}

/// The classes on the way to one, each by its file and line.
pub type Way = Seq<(Seq<char>, u32)>;

/// Types with each identifier replaced by what stands for it.
pub open spec fn all_substituted(args: Seq<Seq<char>>, subst: Subst) -> Seq<Seq<char>> {
    args.map_values(|t: Seq<char>| type_subst::substituted(t, subst))
}

/// What the arguments put in the place of parameters; of two for one parameter the last counts.
pub open spec fn bound(params: Seq<Seq<char>>, args: Seq<Seq<char>>) -> Subst {
    type_subst::zipped(params, args).reverse()
}

/// The superclass declared at a location, where it takes as many arguments as are given.
pub open spec fn superclass_at(
    v: ReadView,
    name: Seq<char>,
    args: Seq<Seq<char>>,
    l: LocationView,
) -> Option<ClassView> {
    match (v.file)(l.uri) {
        Some(f) => match resolution::entry_at(f, l, name) {
            Some(s) => if s.type_params.len() == args.len() {
                Some(
                    ClassView {
                        uri: l.uri,
                        name: s.name,
                        selection_line: s.selection_range.start.line,
                        substitution: bound(s.type_params, args),
                    },
                )
            } else {
                None
            },
            None => None,
        },
        None => None,
    }
}

/// The classes above a class and the class itself, each below those that it inherits from. A
/// class on the way already, one too far up and one of an unknown file are left out.
pub open spec fn lineage(v: ReadView, c: ClassView, way: Way, depth: int) -> Seq<ClassView>
    decreases CLASS_HIERARCHY_MAX_DEPTH - depth, 2int, 0int,
{
    if depth >= CLASS_HIERARCHY_MAX_DEPTH || way.contains((c.uri, c.selection_line)) {
        Seq::empty()
    } else {
        match (v.file)(c.uri) {
            Some(f) => lineage_of_supers(
                v,
                c,
                f.supers,
                way.push((c.uri, c.selection_line)),
                depth,
                f.supers.len() as int,
            ).push(c),
            None => Seq::empty(),
        }
    }
}

/// The classes above a class, by way of the first `n` supertypes that its file lists.
pub open spec fn lineage_of_supers(
    v: ReadView,
    c: ClassView,
    supers: Seq<(u32, Seq<char>, Seq<Seq<char>>)>,
    way: Way,
    depth: int,
    n: int,
) -> Seq<ClassView>
    decreases CLASS_HIERARCHY_MAX_DEPTH - depth, 1int, n,
{
    if depth >= CLASS_HIERARCHY_MAX_DEPTH || n <= 0 || n > supers.len() {
        Seq::empty()
    } else {
        let before = lineage_of_supers(v, c, supers, way, depth, n - 1);
        let s = supers[n - 1];
        if s.0 == c.selection_line {
            let places = (v.locations)(s.1, None, c.uri, false);
            before + lineage_of_places(
                v,
                s.1,
                all_substituted(s.2, c.substitution),
                places,
                way,
                depth,
                places.len() as int,
            )
        } else {
            before
        }
    }
}

/// The superclasses declared at the first `n` places, with the classes above them.
pub open spec fn lineage_of_places(
    v: ReadView,
    name: Seq<char>,
    args: Seq<Seq<char>>,
    places: Seq<LocationView>,
    way: Way,
    depth: int,
    n: int,
) -> Seq<ClassView>
    decreases CLASS_HIERARCHY_MAX_DEPTH - depth, 0int, n,
{
    if depth >= CLASS_HIERARCHY_MAX_DEPTH || n <= 0 || n > places.len() {
        Seq::empty()
    } else {
        lineage_of_places(v, name, args, places, way, depth, n - 1) + match superclass_at(
            v,
            name,
            args,
            places[n - 1],
        ) {
            Some(s) => lineage(v, s, way, depth + 1),
            None => Seq::empty(),
        }
    }
}

/// The classes above a class and the class itself, which stands in a file on a line.
pub open spec fn hierarchy(v: ReadView, uri: Seq<char>, name: Seq<char>, line: u32) -> Seq<
    ClassView,
> {
    match urls::parsed_url(uri) {
        Some(u) => lineage(
            v,
            ClassView { uri: u, name, selection_line: line, substitution: Seq::empty() },
            Seq::empty(),
            0,
        ),
        None => Seq::empty(),
    }
}

// ---------------------------------------------------------------------------
// The walk
// ---------------------------------------------------------------------------

pub(crate) fn on_way(way: &Vec<(String, u32)>, uri: &str, line: u32) -> (r: bool)
    ensures
        r == way.deep_view().contains((uri@, line)),
{
    let ghost all = way.deep_view();
    let mut i: usize = 0;
    while i < way.len()
        invariant
            i <= way@.len(),
            all == way.deep_view(),
            forall|k: int| 0 <= k < i ==> all[k] != (uri@, line),
        decreases way@.len() - i,
    {
        assert(all[i as int] == way@[i as int].deep_view());
        if way[i].1 == line && text::same(way[i].0.as_str(), uri) {
            return true;
        }
        i += 1;
    }
    false
}

pub(crate) fn substitute_all(args: &Vec<String>, subst: &Vec<(String, String)>) -> (r: Vec<String>)
    ensures
        r.deep_view() == all_substituted(args.deep_view(), subst.deep_view()),
{
    let ghost all = args.deep_view();
    let mut out: Vec<String> = Vec::new();
    let mut i: usize = 0;
    while i < args.len()
        invariant
            i <= args@.len(),
            all == args.deep_view(),
            out@.len() == i,
            forall|k: int|
                0 <= k < i ==> (#[trigger] out@[k])@ == type_subst::substituted(
                    all[k],
                    subst.deep_view(),
                ),
        decreases args@.len() - i,
    {
        assert(all[i as int] == args@[i as int]@);
        out.push(type_subst::apply_type_subst(args[i].as_str(), subst));
        i += 1;
    }
    assert(out.deep_view() =~= all_substituted(all, subst.deep_view()));
    out
}

fn bind(params: &Vec<String>, args: &Vec<String>) -> (r: Vec<(String, String)>)
    requires
        params@.len() == args@.len(),
    ensures
        r.deep_view() == bound(params.deep_view(), args.deep_view()),
{
    let ghost ps = params.deep_view();
    let ghost xs = args.deep_view();
    let n: usize = params.len();
    let mut out: Vec<(String, String)> = Vec::new();
    let mut i: usize = n;
    while i > 0
        invariant
            i <= n == params@.len() == args@.len(),
            ps == params.deep_view(),
            xs == args.deep_view(),
            out@.len() == n - i,
            forall|k: int|
                0 <= k < out@.len() ==> (#[trigger] out@[k]).deep_view() == (
                    ps[n - 1 - k],
                    xs[n - 1 - k],
                ),
        decreases i,
    {
        i = i - 1;
        assert(ps[i as int] == params@[i as int]@);
        assert(xs[i as int] == args@[i as int]@);
        out.push((params[i].clone(), args[i].clone()));
    }
    assert(out.deep_view() =~= bound(ps, xs));
    out
}

pub(crate) fn superclass<I: IndexRead>(index: &I, name: &str, args: &Vec<String>, place: &Location) -> (r:
    Option<ResolvedHierarchyClass>)
    requires
        index.ready(),
    ensures
        r.deep_view() == superclass_at(
            index.seen(),
            name@,
            args.deep_view(),
            place.deep_view(),
        ),
{
    match index.get_file_data(place.uri.as_str()) {
        Some(f) => match resolution::find_symbol_entry(f, place, name) {
            Some(s) => if s.type_params.len() == args.len() {
                Some(
                    ResolvedHierarchyClass {
                        uri: place.uri.clone(),
                        name: s.name.clone(),
                        selection_line: s.selection_start(),
                        substitution: bind(&s.type_params, args),
                    },
                )
            } else {
                None
            },
            None => None,
        },
        None => None,
    }
}

fn walk_class_hierarchy_recursive<I: IndexRead>(
    index: &I,
    class: ResolvedHierarchyClass,
    way: &mut Vec<(String, u32)>,
    classes: &mut Vec<ResolvedHierarchyClass>,
    depth: usize,
)
    requires
        index.ready(),
    ensures
        final(way).deep_view() == old(way).deep_view(),
        final(classes).deep_view() == old(classes).deep_view() + lineage(
            index.seen(),
            class.deep_view(),
            old(way).deep_view(),
            depth as int,
        ),
    decreases CLASS_HIERARCHY_MAX_DEPTH - depth, 2int,
{
    let ghost v = index.seen();
    let ghost c = class.deep_view();
    let ghost w0 = way.deep_view();
    let ghost start = classes.deep_view();
    if depth >= CLASS_HIERARCHY_MAX_DEPTH || on_way(way, class.uri.as_str(), class.selection_line) {
        assert(start + Seq::<ClassView>::empty() =~= start);
        return;
    }
    let file = match index.get_file_data(class.uri.as_str()) {
        Some(f) => f,
        None => {
            assert(start + Seq::<ClassView>::empty() =~= start);
            return;
        },
    };
    let ghost f = file.deep_view();
    way.push((class.uri.clone(), class.selection_line));
    let ghost w = w0.push((c.uri, c.selection_line));
    assert(way.deep_view() =~= w);
    let ghost supers = f.supers;
    let mut i: usize = 0;
    assert(start + lineage_of_supers(v, c, supers, w, depth as int, 0) =~= start);
    while i < file.supers.len()
        invariant
            index.ready(),
            v == index.seen(),
            c == class.deep_view(),
            depth < CLASS_HIERARCHY_MAX_DEPTH,
            i <= file.supers@.len(),
            supers == file.supers.deep_view(),
            way.deep_view() == w,
            classes.deep_view() == start + lineage_of_supers(
                v,
                c,
                supers,
                w,
                depth as int,
                i as int,
            ),
        decreases file.supers@.len() - i,
    {
        let above = &file.supers[i];
        let ghost before = classes.deep_view();
        proof {
            assert(supers[i as int] == above.deep_view());
        }
        if above.0 == class.selection_line {
            let args = substitute_all(&above.2, &class.substitution);
            let places = index.resolve_locations(
                above.1.as_str(),
                None,
                class.uri.as_str(),
                false,
            );
            walk_places(index, above.1.as_str(), &args, &places, way, classes, depth);
            proof {
                let more = lineage_of_places(
                    v,
                    above.1@,
                    args.deep_view(),
                    places.deep_view(),
                    w,
                    depth as int,
                    places.deep_view().len() as int,
                );
                assert(classes.deep_view() =~= before + more);
                assert(before + more =~= start + (lineage_of_supers(
                    v,
                    c,
                    supers,
                    w,
                    depth as int,
                    i as int,
                ) + more));
            }
        }
        i += 1;
    }
    let ghost whole = way@;
    way.pop();
    proof {
        assert(w.len() == whole.len());
        assert(way@ == whole.drop_last());
        assert forall|k: int| 0 <= k < w0.len() implies #[trigger] way.deep_view()[k] == w0[k] by {
            assert(w[k] == whole[k].deep_view());
        }
        assert(way.deep_view() =~= w0);
    }
    let ghost before = classes.deep_view();
    classes.push(class);
    proof {
        let above = lineage_of_supers(v, c, supers, w, depth as int, supers.len() as int);
        assert(classes.deep_view() =~= before.push(c));
        assert(before.push(c) =~= start + above.push(c));
    }
}

fn walk_places<I: IndexRead>(
    index: &I,
    name: &str,
    args: &Vec<String>,
    places: &Vec<Location>,
    way: &mut Vec<(String, u32)>,
    classes: &mut Vec<ResolvedHierarchyClass>,
    depth: usize,
)
    requires
        index.ready(),
        depth < CLASS_HIERARCHY_MAX_DEPTH,
    ensures
        final(way).deep_view() == old(way).deep_view(),
        final(classes).deep_view() == old(classes).deep_view() + lineage_of_places(
            index.seen(),
            name@,
            args.deep_view(),
            places.deep_view(),
            old(way).deep_view(),
            depth as int,
            places.deep_view().len() as int,
        ),
    decreases CLASS_HIERARCHY_MAX_DEPTH - depth, 1int,
{
    let ghost v = index.seen();
    let ghost all = places.deep_view();
    let ghost w = way.deep_view();
    let ghost start = classes.deep_view();
    let mut i: usize = 0;
    assert(start + lineage_of_places(v, name@, args.deep_view(), all, w, depth as int, 0)
        =~= start);
    while i < places.len()
        invariant
            index.ready(),
            v == index.seen(),
            depth < CLASS_HIERARCHY_MAX_DEPTH,
            i <= places@.len(),
            all == places.deep_view(),
            way.deep_view() == w,
            classes.deep_view() == start + lineage_of_places(
                v,
                name@,
                args.deep_view(),
                all,
                w,
                depth as int,
                i as int,
            ),
        decreases places@.len() - i,
    {
        let ghost before = classes.deep_view();
        let ghost so_far = lineage_of_places(
            v,
            name@,
            args.deep_view(),
            all,
            w,
            depth as int,
            i as int,
        );
        assert(all[i as int] == places@[i as int].deep_view());
        if let Some(s) = superclass(index, name, args, &places[i]) {
            let ghost more = lineage(v, s.deep_view(), w, depth + 1);
            walk_class_hierarchy_recursive(index, s, way, classes, depth + 1);
            assert(before + more =~= start + (so_far + more));
        } else {
            assert(so_far + Seq::<ClassView>::empty() =~= so_far);
        }
        i += 1;
    }
}

/// The classes above a class and the class itself, each below those that it inherits from.
/// Supertypes are looked up as the file that names them sees them, and one that is given too
/// many or too few type arguments is left out.
pub fn walk_class_hierarchy<I: IndexRead>(
    index: &I,
    class_uri: &str,
    class_name: &str,
    class_selection_line: u32,
) -> (r: Vec<ResolvedHierarchyClass>)
    requires
        index.ready(),
    ensures
        r.deep_view() == hierarchy(index.seen(), class_uri@, class_name@, class_selection_line),
{
    let mut classes: Vec<ResolvedHierarchyClass> = Vec::new();
    assert(classes.deep_view() =~= Seq::empty());
    if let Some(uri) = urls::parse_url(class_uri) {
        let mut way: Vec<(String, u32)> = Vec::new();
        let none: Vec<(String, String)> = Vec::new();
        let class = ResolvedHierarchyClass {
            uri,
            name: class_name.to_owned(),
            selection_line: class_selection_line,
            substitution: none,
        };
        proof {
            assert(way.deep_view() =~= Seq::empty());
            assert(class.substitution.deep_view() =~= Seq::empty());
            assert forall|s: Seq<ClassView>| #[trigger] (Seq::<ClassView>::empty() + s) == s by {
                assert(Seq::<ClassView>::empty() + s =~= s);
            }
        }
        walk_class_hierarchy_recursive(index, class, &mut way, &mut classes, 0);
    }
    classes
}

// ---------------------------------------------------------------------------
// Laws
// ---------------------------------------------------------------------------

/// Whether a class was found as a superclass: at a place that declares it, and with an argument
/// for each of its type parameters.
pub open spec fn is_superclass(v: ReadView, c: ClassView) -> bool {
    exists|name: Seq<char>, args: Seq<Seq<char>>, l: LocationView|
        #[trigger] superclass_at(v, name, args, l) == Some(c)
}

proof fn lemma_lineage(v: ReadView, c: ClassView, way: Way, depth: int)
    ensures
        forall|i: int|
            0 <= i < lineage(v, c, way, depth).len() - 1 ==> is_superclass(
                v,
                #[trigger] lineage(v, c, way, depth)[i],
            ),
        lineage(v, c, way, depth).len() > 0 ==> lineage(v, c, way, depth).last() == c,
    decreases CLASS_HIERARCHY_MAX_DEPTH - depth, 2int, 0int,
{
    if depth < CLASS_HIERARCHY_MAX_DEPTH && !way.contains((c.uri, c.selection_line)) {
        if let Some(f) = (v.file)(c.uri) {
            let w = way.push((c.uri, c.selection_line));
            lemma_lineage_of_supers(v, c, f.supers, w, depth, f.supers.len() as int);
            let above = lineage_of_supers(v, c, f.supers, w, depth, f.supers.len() as int);
            let whole = lineage(v, c, way, depth);
            assert(whole == above.push(c));
            assert forall|i: int| 0 <= i < whole.len() - 1 implies is_superclass(
                v,
                #[trigger] whole[i],
            ) by {
                assert(whole[i] == above[i]);
            }
        }
    }
}

proof fn lemma_lineage_of_supers(
    v: ReadView,
    c: ClassView,
    supers: Seq<(u32, Seq<char>, Seq<Seq<char>>)>,
    way: Way,
    depth: int,
    n: int,
)
    ensures
        forall|i: int|
            0 <= i < lineage_of_supers(v, c, supers, way, depth, n).len() ==> is_superclass(
                v,
                #[trigger] lineage_of_supers(v, c, supers, way, depth, n)[i],
            ),
    decreases CLASS_HIERARCHY_MAX_DEPTH - depth, 1int, n,
{
    if depth < CLASS_HIERARCHY_MAX_DEPTH && 0 < n <= supers.len() {
        lemma_lineage_of_supers(v, c, supers, way, depth, n - 1);
        let s = supers[n - 1];
        if s.0 == c.selection_line {
            let places = (v.locations)(s.1, None, c.uri, false);
            lemma_lineage_of_places(
                v,
                s.1,
                all_substituted(s.2, c.substitution),
                places,
                way,
                depth,
                places.len() as int,
            );
            let a = lineage_of_supers(v, c, supers, way, depth, n - 1);
            let b = lineage_of_places(
                v,
                s.1,
                all_substituted(s.2, c.substitution),
                places,
                way,
                depth,
                places.len() as int,
            );
            lemma_all_above(v, a, b);
            assert(lineage_of_supers(v, c, supers, way, depth, n) == a + b);
        }
    }
}

proof fn lemma_all_above(v: ReadView, a: Seq<ClassView>, b: Seq<ClassView>)
    requires
        forall|i: int| 0 <= i < a.len() ==> is_superclass(v, #[trigger] a[i]),
        forall|i: int| 0 <= i < b.len() ==> is_superclass(v, #[trigger] b[i]),
    ensures
        forall|i: int| 0 <= i < (a + b).len() ==> is_superclass(v, #[trigger] (a + b)[i]),
{
    assert forall|i: int| 0 <= i < (a + b).len() implies is_superclass(
        v,
        #[trigger] (a + b)[i],
    ) by {
        if i < a.len() {
            assert((a + b)[i] == a[i]);
        } else {
            assert((a + b)[i] == b[i - a.len()]);
        }
    }
}

proof fn lemma_lineage_of_places(
    v: ReadView,
    name: Seq<char>,
    args: Seq<Seq<char>>,
    places: Seq<LocationView>,
    way: Way,
    depth: int,
    n: int,
)
    ensures
        forall|i: int|
            0 <= i < lineage_of_places(v, name, args, places, way, depth, n).len()
                ==> is_superclass(
                v,
                #[trigger] lineage_of_places(v, name, args, places, way, depth, n)[i],
            ),
    decreases CLASS_HIERARCHY_MAX_DEPTH - depth, 0int, n,
{
    if depth < CLASS_HIERARCHY_MAX_DEPTH && 0 < n <= places.len() {
        lemma_lineage_of_places(v, name, args, places, way, depth, n - 1);
        let a = lineage_of_places(v, name, args, places, way, depth, n - 1);
        if let Some(s) = superclass_at(v, name, args, places[n - 1]) {
            lemma_lineage(v, s, way, depth + 1);
            let b = lineage(v, s, way, depth + 1);
            assert(is_superclass(v, s));
            assert forall|i: int| 0 <= i < b.len() implies is_superclass(v, #[trigger] b[i]) by {
                if i == b.len() - 1 {
                    assert(b.last() == s);
                }
            }
            lemma_all_above(v, a, b);
        } else {
            assert(a + Seq::<ClassView>::empty() =~= a);
        }
    }
}

/// A walk up the hierarchy of a class whose file is known ends with the class itself, in whose
/// terms nothing is replaced; every class before it is declared at a place where the index finds
/// a supertype of that name, with one type argument for each of its type parameters.
pub proof fn law_hierarchy(v: ReadView, uri: Seq<char>, name: Seq<char>, line: u32)
    ensures
        match urls::parsed_url(uri) {
            Some(u) => {
                let all = hierarchy(v, uri, name, line);
                &&& all.len() > 0 <==> (v.file)(u) is Some
                &&& all.len() > 0 ==> all.last() == (ClassView {
                    uri: u,
                    name,
                    selection_line: line,
                    substitution: Seq::empty(),
                })
                &&& forall|i: int| 0 <= i < all.len() - 1 ==> is_superclass(v, #[trigger] all[i])
            },
            None => hierarchy(v, uri, name, line).len() == 0,
        },
{
    if let Some(u) = urls::parsed_url(uri) {
        let c = ClassView { uri: u, name, selection_line: line, substitution: Seq::empty() };
        lemma_lineage(v, c, Seq::empty(), 0);
    }
}

/// A class that is on the way already is not walked again, so inheritance in a circle ends.
pub proof fn law_circles_end(v: ReadView, c: ClassView, way: Way, depth: int)
    requires
        way.contains((c.uri, c.selection_line)),
    ensures
        lineage(v, c, way, depth).len() == 0,
{
}

} // verus!
