//! What the user of a symbol sees of it: its signature, in the types of the place where it is
//! used, and its documentation.
use vstd::prelude::*;
use vstd::string::*;

use crate::doc;
use crate::hierarchy;
use crate::hierarchy::{ClassView, ResolvedHierarchyClass};
use crate::lists;
use crate::lookup;
use crate::resolution;
use crate::resolution::{IndexRead, ReadView, ResolveOptions};
use crate::text;
use crate::type_subst;
use crate::type_subst::Subst;
use crate::types;
use crate::types::{
    FileData, FileView, Location, LocationView, Replicate, SymbolEntry, SymbolKind, SymbolView,
};
use crate::urls;

verus! {

// ---------------------------------------------------------------------------
// The types of a symbol's file, as the caller sees them
// ---------------------------------------------------------------------------

/// Whether a symbol of the name is declared around a line.
pub open spec fn spans_line(name: Seq<char>, line: u32) -> spec_fn(SymbolView) -> bool {
    |s: SymbolView| s.name == name && s.range.start.line <= line <= s.range.end.line
}

/// Whether a class is the one declared at a place.
pub open spec fn class_is(uri: Seq<char>, name: Seq<char>, line: u32) -> spec_fn(ClassView) -> bool {
    |c: ClassView| c.uri == uri && c.name == name && c.selection_line == line
}

/// The line on which the class around a line of a file is first declared.
pub open spec fn class_around(f: FileView, line: u32) -> Option<(Seq<char>, SymbolView)> {
    match types::containing_class(f, line) {
        Some(name) => match lists::find_where(f.symbols, lookup::symbol_is(name)) {
            Some(s) => Some((name, s)),
            None => None,
        },
        None => None,
    }
}

/// What stands for the type parameters of the class around a symbol, for a caller in another
/// file: what the class around the caller's cursor puts in their place by inheriting from it.
/// Where the cursor's line is not known, the first class of the caller's file counts that
/// inherits from it.
pub open spec fn param_subst(
    v: ReadView,
    sym_uri: Seq<char>,
    sym_line: u32,
    caller_uri: Seq<char>,
    cursor_line: Option<u32>,
) -> Subst {
    if sym_uri == caller_uri {
        Seq::empty()
    } else {
        match (container_of(v, sym_uri, sym_line), (v.file)(caller_uri)) {
            (Some(container), Some(f)) => match cursor_line {
                Some(line) => match class_around(f, line) {
                    Some((name, s)) => given_by(v, caller_uri, name, s, sym_uri, container),
                    None => Seq::empty(),
                },
                None => given_by_first(v, caller_uri, f.symbols, sym_uri, container, 0),
            },
            _ => Seq::empty(),
        }
    }
}

/// What a class of a file puts in the place of the type parameters of another; nothing where it
/// does not inherit from it.
pub open spec fn given_by(
    v: ReadView,
    caller_uri: Seq<char>,
    name: Seq<char>,
    s: SymbolView,
    sym_uri: Seq<char>,
    container: SymbolView,
) -> Subst {
    inherited_subst(
        hierarchy::hierarchy(v, caller_uri, name, s.selection_range.start.line),
        sym_uri,
        container,
    )
}

/// Whether a symbol is a class that inherits from another.
pub open spec fn inherits(
    v: ReadView,
    caller_uri: Seq<char>,
    s: SymbolView,
    sym_uri: Seq<char>,
    container: SymbolView,
) -> bool {
    types::class_like(s.kind) && lists::find_where(
        hierarchy::hierarchy(v, caller_uri, s.name, s.selection_range.start.line),
        class_is(sym_uri, container.name, container.selection_range.start.line),
    ) is Some
}

/// What the first class from `i` on that inherits from another puts in the place of its type
/// parameters.
pub open spec fn given_by_first(
    v: ReadView,
    caller_uri: Seq<char>,
    symbols: Seq<SymbolView>,
    sym_uri: Seq<char>,
    container: SymbolView,
    i: int,
) -> Subst
    decreases symbols.len() - i,
{
    if i < 0 || i >= symbols.len() {
        Seq::empty()
    } else if inherits(v, caller_uri, symbols[i], sym_uri, container) {
        given_by(v, caller_uri, symbols[i].name, symbols[i], sym_uri, container)
    } else {
        given_by_first(v, caller_uri, symbols, sym_uri, container, i + 1)
    }
}

/// The class around a symbol, where it has type parameters.
pub open spec fn container_of(v: ReadView, sym_uri: Seq<char>, sym_line: u32) -> Option<
    SymbolView,
> {
    match (v.file)(sym_uri) {
        Some(f) => match types::containing_class(f, sym_line) {
            Some(name) => match lists::find_where(f.symbols, spans_line(name, sym_line)) {
                Some(s) => if s.type_params.len() > 0 {
                    Some(s)
                } else {
                    None
                },
                None => None,
            },
            None => None,
        },
        None => None,
    }
}

/// The class around the caller's cursor.
pub open spec fn caller_class(v: ReadView, uri: Seq<char>, line: u32) -> Option<
    (Seq<char>, SymbolView),
> {
    match (v.file)(uri) {
        Some(f) => class_around(f, line),
        None => None,
    }
}

/// What stands for the type parameters of a class, among the classes of a hierarchy.
pub open spec fn inherited_subst(
    classes: Seq<ClassView>,
    uri: Seq<char>,
    container: SymbolView,
) -> Subst {
    match lists::find_where(
        classes,
        class_is(uri, container.name, container.selection_range.start.line),
    ) {
        Some(c) => c.substitution,
        None => Seq::empty(),
    }
}

fn spanning<'a>(symbols: &'a Vec<SymbolEntry>, name: &str, line: u32) -> (r: Option<&'a SymbolEntry>)
    ensures
        match r {
            Some(s) => lists::find_where(symbols.deep_view(), spans_line(name@, line)) == Some(
                s.deep_view(),
            ),
            None => lists::find_where(symbols.deep_view(), spans_line(name@, line)) is None,
        },
{
    let ghost all = symbols.deep_view();
    let ghost p = spans_line(name@, line);
    let mut i: usize = 0;
    while i < symbols.len()
        invariant
            i <= symbols@.len(),
            all == symbols.deep_view(),
            p == spans_line(name@, line),
            forall|k: int| 0 <= k < i ==> !p(#[trigger] all[k]),
        decreases symbols@.len() - i,
    {
        let s = &symbols[i];
        assert(all[i as int] == s.deep_view());
        if text::same(s.name.as_str(), name) && s.range.start.line <= line && line
            <= s.range.end.line {
            proof {
                lists::lemma_first(all, p, i as int);
            }
            return Some(&symbols[i]);
        }
        i += 1;
    }
    proof {
        lists::lemma_no_first(all, p);
    }
    None
}

pub(crate) fn container<'a, I: IndexRead>(index: &'a I, sym_uri: &str, sym_line: u32) -> (r: Option<
    &'a SymbolEntry,
>)
    requires
        index.ready(),
    ensures
        match r {
            Some(s) => container_of(index.seen(), sym_uri@, sym_line) == Some(s.deep_view()),
            None => container_of(index.seen(), sym_uri@, sym_line) is None,
        },
{
    match index.get_file_data(sym_uri) {
        Some(f) => match f.containing_class_at(sym_line) {
            Some(name) => match spanning(&f.symbols, name.as_str(), sym_line) {
                Some(s) => {
                    assert(s.deep_view().type_params.len() == s.type_params@.len());
                    if s.type_params.len() > 0 {
                        Some(s)
                    } else {
                        None
                    }
                },
                None => None,
            },
            None => None,
        },
        None => None,
    }
}

pub(crate) fn class_symbol<'a>(file: &'a FileData, line: u32) -> (r: Option<(String, &'a SymbolEntry)>)
    ensures
        match r {
            Some((name, s)) => class_around(file.deep_view(), line) == Some(
                (name@, s.deep_view()),
            ),
            None => class_around(file.deep_view(), line) is None,
        },
{
    match file.containing_class_at(line) {
        Some(name) => match lookup::symbol_named(&file.symbols, name.as_str()) {
            Some(s) => Some((name, s)),
            None => None,
        },
        None => None,
    }
}

fn find_class<'a>(
    classes: &'a Vec<ResolvedHierarchyClass>,
    uri: &str,
    container: &SymbolEntry,
) -> (r: Option<&'a ResolvedHierarchyClass>)
    ensures
        match r {
            Some(c) => lists::find_where(
                classes.deep_view(),
                class_is(uri@, container.name@, container.selection_range.start.line),
            ) == Some(c.deep_view()),
            None => lists::find_where(
                classes.deep_view(),
                class_is(uri@, container.name@, container.selection_range.start.line),
            ) is None,
        },
{
    let ghost all = classes.deep_view();
    let line: u32 = container.selection_start();
    let ghost p = class_is(uri@, container.name@, line);
    let mut i: usize = 0;
    while i < classes.len()
        invariant
            i <= classes@.len(),
            all == classes.deep_view(),
            line == container.selection_range.start.line,
            p == class_is(uri@, container.name@, line),
            forall|k: int| 0 <= k < i ==> !p(#[trigger] all[k]),
        decreases classes@.len() - i,
    {
        let c = &classes[i];
        assert(all[i as int] == c.deep_view());
        if c.selection_line == line && text::same(c.uri.as_str(), uri) && text::same(
            c.name.as_str(),
            container.name.as_str(),
        ) {
            proof {
                lists::lemma_first(all, p, i as int);
            }
            return Some(c);
        }
        i += 1;
    }
    proof {
        lists::lemma_no_first(all, p);
    }
    None
}

fn subst_of_first<I: IndexRead>(
    index: &I,
    calling_uri: &str,
    symbols: &Vec<SymbolEntry>,
    sym_uri: &str,
    outer: &SymbolEntry,
) -> (r: Vec<(String, String)>)
    requires
        index.ready(),
    ensures
        r.deep_view() == given_by_first(
            index.seen(),
            calling_uri@,
            symbols.deep_view(),
            sym_uri@,
            outer.deep_view(),
            0,
        ),
{
    let ghost v = index.seen();
    let ghost all = symbols.deep_view();
    let ghost o = outer.deep_view();
    let mut i: usize = 0;
    while i < symbols.len()
        invariant
            index.ready(),
            v == index.seen(),
            i <= symbols@.len(),
            all == symbols.deep_view(),
            o == outer.deep_view(),
            given_by_first(v, calling_uri@, all, sym_uri@, o, 0) == given_by_first(
                v,
                calling_uri@,
                all,
                sym_uri@,
                o,
                i as int,
            ),
        decreases symbols@.len() - i,
    {
        let s = &symbols[i];
        assert(all[i as int] == s.deep_view());
        if types::is_class_like(s.kind) {
            let classes = hierarchy::walk_class_hierarchy(
                index,
                calling_uri,
                s.name.as_str(),
                s.selection_start(),
            );
            if let Some(c) = find_class(&classes, sym_uri, outer) {
                return c.substitution.replicate();
            }
        }
        i += 1;
    }
    let none: Vec<(String, String)> = Vec::new();
    assert(none.deep_view() =~= Seq::empty());
    none
}

/// What stands for the type parameters of the class around a symbol, for a caller in another
/// file.
pub fn build_type_param_subst<I: IndexRead>(
    index: &I,
    sym_uri: &str,
    sym_line: u32,
    calling_uri: &str,
    cursor_line: Option<u32>,
) -> (r: Vec<(String, String)>)
    requires
        index.ready(),
    ensures
        r.deep_view() == param_subst(index.seen(), sym_uri@, sym_line, calling_uri@, cursor_line),
{
    let none: Vec<(String, String)> = Vec::new();
    assert(none.deep_view() =~= Seq::empty());
    if text::same(sym_uri, calling_uri) {
        return none;
    }
    let outer = match container(index, sym_uri, sym_line) {
        Some(s) => s,
        None => {
            return none;
        },
    };
    let file = match index.get_file_data(calling_uri) {
        Some(f) => f,
        None => {
            return none;
        },
    };
    let line: u32 = match cursor_line {
        Some(line) => line,
        None => {
            return subst_of_first(index, calling_uri, &file.symbols, sym_uri, outer);
        },
    };
    match class_symbol(file, line) {
        Some((name, s)) => {
            let classes = hierarchy::walk_class_hierarchy(
                index,
                calling_uri,
                name.as_str(),
                s.selection_start(),
            );
            match find_class(&classes, sym_uri, outer) {
                Some(c) => c.substitution.replicate(),
                None => none,
            }
        },
        None => none,
    }
}

/// A signature of one file in the types of a caller in another.
pub fn cross_file_type_subst<I: IndexRead>(
    index: &I,
    sym_uri: &str,
    sym_line: u32,
    calling_uri: &str,
    caller_cursor_line: Option<u32>,
    sig: &str,
) -> (r: String)
    requires
        index.ready(),
    ensures
        r@ == type_subst::substituted(
            sig@,
            param_subst(index.seen(), sym_uri@, sym_line, calling_uri@, caller_cursor_line),
        ),
{
    let subst = build_type_param_subst(index, sym_uri, sym_line, calling_uri, caller_cursor_line);
    if subst.len() == 0 {
        proof {
            assert(subst.deep_view() =~= Seq::empty());
            type_subst::law_empty_subst_changes_nothing(sig@);
        }
        sig.to_owned()
    } else {
        type_subst::apply_type_subst(sig, &subst)
    }
}

// ---------------------------------------------------------------------------
// The types of the class around the cursor
// ---------------------------------------------------------------------------

/// What all classes of a hierarchy but one put in the place of type parameters.
pub open spec fn others_subst(classes: Seq<ClassView>, uri: Seq<char>, line: u32) -> Subst
    decreases classes.len(),
{
    if classes.len() == 0 {
        Seq::empty()
    } else {
        let before = others_subst(classes.drop_last(), uri, line);
        let c = classes.last();
        if c.uri == uri && c.selection_line == line {
            before
        } else {
            before + c.substitution
        }
    }
}

/// The first place where a name is declared.
pub open spec fn first_definition(v: ReadView, name: Seq<char>) -> Option<LocationView> {
    match (v.definitions)(name) {
        Some(l) => if l.len() > 0 {
            Some(l[0])
        } else {
            None
        },
        None => None,
    }
}

/// The file that first declares a name, and the symbol there.
pub open spec fn declared(v: ReadView, name: Seq<char>) -> Option<(FileView, SymbolView)> {
    match first_definition(v, name) {
        Some(l) => match (v.file)(l.uri) {
            Some(f) => match lists::find_where(f.symbols, lookup::symbol_is(name)) {
                Some(s) => Some((f, s)),
                None => None,
            },
            None => None,
        },
        None => None,
    }
}

/// What the type arguments given to a supertype stand for.
pub open spec fn super_subst(v: ReadView, s: (u32, Seq<char>, Seq<Seq<char>>)) -> Subst {
    if s.2.len() == 0 {
        Seq::empty()
    } else {
        match declared(v, s.1) {
            Some((f, d)) => type_subst::zipped(d.type_params, s.2),
            None => Seq::empty(),
        }
    }
}

/// What the supertypes of the class on a line stand for.
pub open spec fn supers_subst(
    v: ReadView,
    supers: Seq<(u32, Seq<char>, Seq<Seq<char>>)>,
    line: u32,
) -> Subst
    decreases supers.len(),
{
    if supers.len() == 0 {
        Seq::empty()
    } else {
        let before = supers_subst(v, supers.drop_last(), line);
        if supers.last().0 == line {
            before + super_subst(v, supers.last())
        } else {
            before
        }
    }
}

/// Whether a symbol is a member property of the class that spans the lines.
pub open spec fn is_member(s: SymbolView, first: u32, last: u32) -> bool {
    &&& first < s.selection_range.start.line <= last
    &&& s.kind == SymbolKind::Field || s.kind == SymbolKind::Property
}

/// What the supertypes of a property's type stand for.
pub open spec fn property_subst(v: ReadView, s: SymbolView) -> Subst {
    let t = resolution::property_type(s.detail);
    if t.len() == 0 {
        Seq::empty()
    } else {
        match declared(v, t) {
            Some((f, d)) => supers_subst(v, f.supers, d.selection_range.start.line),
            None => Seq::empty(),
        }
    }
}

/// What the supertypes of the member properties' types stand for.
pub open spec fn members_subst(v: ReadView, symbols: Seq<SymbolView>, first: u32, last: u32) -> Subst
    decreases symbols.len(),
{
    if symbols.len() == 0 {
        Seq::empty()
    } else {
        let before = members_subst(v, symbols.drop_last(), first, last);
        if is_member(symbols.last(), first, last) {
            before + property_subst(v, symbols.last())
        } else {
            before
        }
    }
}

/// What stands for type parameters in the class around the cursor: first what the class puts
/// in their place by inheriting, then what the types of its properties do.
pub open spec fn enclosing_subst(v: ReadView, uri: Seq<char>, cursor_line: u32) -> Subst {
    match (v.file)(uri) {
        Some(f) => match class_around(f, cursor_line) {
            Some((name, s)) => others_subst(
                hierarchy::hierarchy(v, uri, name, s.selection_range.start.line),
                uri,
                s.selection_range.start.line,
            ) + members_subst(
                v,
                f.symbols,
                s.selection_range.start.line,
                s.range.end.line,
            ),
            None => Seq::empty(),
        },
        None => Seq::empty(),
    }
}

fn subst_of_others(classes: &Vec<ResolvedHierarchyClass>, uri: &str, line: u32) -> (r: Vec<
    (String, String),
>)
    ensures
        r.deep_view() == others_subst(classes.deep_view(), uri@, line),
{
    let ghost all = classes.deep_view();
    let mut out: Vec<(String, String)> = Vec::new();
    let mut i: usize = 0;
    assert(out.deep_view() =~= others_subst(all.take(0), uri@, line));
    while i < classes.len()
        invariant
            i <= classes@.len(),
            all == classes.deep_view(),
            out.deep_view() == others_subst(all.take(i as int), uri@, line),
        decreases classes@.len() - i,
    {
        let c = &classes[i];
        let ghost before = out.deep_view();
        proof {
            assert(all.take(i + 1).last() == c.deep_view());
            assert(all.take(i + 1).drop_last() =~= all.take(i as int));
        }
        if !(c.selection_line == line && text::same(c.uri.as_str(), uri)) {
            let mut more = c.substitution.replicate();
            let ghost m = more.deep_view();
            out.append(&mut more);
            assert(out.deep_view() =~= before + m);
        }
        i += 1;
    }
    assert(all.take(all.len() as int) =~= all);
    out
}

fn declaration<'a, I: IndexRead>(index: &'a I, name: &str) -> (r: Option<
    (&'a FileData, &'a SymbolEntry),
>)
    requires
        index.ready(),
    ensures
        match r {
            Some((f, s)) => declared(index.seen(), name@) == Some((f.deep_view(), s.deep_view())),
            None => declared(index.seen(), name@) is None,
        },
{
    let places = match index.get_definitions(name) {
        Some(l) => l,
        None => {
            return None;
        },
    };
    assert(places.deep_view().len() == places@.len());
    if places.len() == 0 {
        return None;
    }
    assert(places.deep_view()[0] == places@[0].deep_view());
    match index.get_file_data(places[0].uri.as_str()) {
        Some(f) => match lookup::symbol_named(&f.symbols, name) {
            Some(s) => Some((f, s)),
            None => None,
        },
        None => None,
    }
}

fn zip(params: &Vec<String>, args: &Vec<String>) -> (r: Vec<(String, String)>)
    ensures
        r.deep_view() == type_subst::zipped(params.deep_view(), args.deep_view()),
{
    let ghost ps = params.deep_view();
    let ghost xs = args.deep_view();
    let mut out: Vec<(String, String)> = Vec::new();
    let mut i: usize = 0;
    while i < params.len() && i < args.len()
        invariant
            i <= params@.len(),
            i <= args@.len(),
            ps == params.deep_view(),
            xs == args.deep_view(),
            out@.len() == i,
            forall|k: int| 0 <= k < i ==> (#[trigger] out@[k]).deep_view() == (ps[k], xs[k]),
        decreases params@.len() - i,
    {
        assert(ps[i as int] == params@[i as int]@);
        assert(xs[i as int] == args@[i as int]@);
        out.push((params[i].clone(), args[i].clone()));
        i += 1;
    }
    assert(out.deep_view() =~= type_subst::zipped(ps, xs));
    out
}

fn subst_of_supers<I: IndexRead>(
    index: &I,
    supers: &Vec<(u32, String, Vec<String>)>,
    line: u32,
) -> (r: Vec<(String, String)>)
    requires
        index.ready(),
    ensures
        r.deep_view() == supers_subst(index.seen(), supers.deep_view(), line),
{
    let ghost v = index.seen();
    let ghost all = supers.deep_view();
    let mut out: Vec<(String, String)> = Vec::new();
    let mut i: usize = 0;
    assert(out.deep_view() =~= supers_subst(v, all.take(0), line));
    while i < supers.len()
        invariant
            index.ready(),
            v == index.seen(),
            i <= supers@.len(),
            all == supers.deep_view(),
            out.deep_view() == supers_subst(v, all.take(i as int), line),
        decreases supers@.len() - i,
    {
        let s = &supers[i];
        let ghost before = out.deep_view();
        proof {
            assert(all.take(i + 1).last() == s.deep_view());
            assert(all.take(i + 1).drop_last() =~= all.take(i as int));
            assert(before + Seq::<(Seq<char>, Seq<char>)>::empty() =~= before);
            assert(s.deep_view().2.len() == s.2@.len());
        }
        if s.0 == line && s.2.len() > 0 {
            if let Some((f, d)) = declaration(index, s.1.as_str()) {
                let mut more = zip(&d.type_params, &s.2);
                let ghost m = more.deep_view();
                out.append(&mut more);
                assert(out.deep_view() =~= before + m);
            }
        }
        i += 1;
    }
    assert(all.take(all.len() as int) =~= all);
    out
}

fn subst_of_property<I: IndexRead>(index: &I, s: &SymbolEntry) -> (r: Vec<(String, String)>)
    requires
        index.ready(),
    ensures
        r.deep_view() == property_subst(index.seen(), s.deep_view()),
{
    let none: Vec<(String, String)> = Vec::new();
    assert(none.deep_view() =~= Seq::empty());
    let t = resolution::extract_property_type_name(s.detail.as_str());
    if t.is_empty() {
        return none;
    }
    match declaration(index, t) {
        Some((f, d)) => subst_of_supers(index, &f.supers, d.selection_start()),
        None => none,
    }
}

fn subst_of_members<I: IndexRead>(index: &I, symbols: &Vec<SymbolEntry>, first: u32, last: u32) -> (r:
    Vec<(String, String)>)
    requires
        index.ready(),
    ensures
        r.deep_view() == members_subst(index.seen(), symbols.deep_view(), first, last),
{
    let ghost v = index.seen();
    let ghost all = symbols.deep_view();
    let mut out: Vec<(String, String)> = Vec::new();
    let mut i: usize = 0;
    assert(out.deep_view() =~= members_subst(v, all.take(0), first, last));
    while i < symbols.len()
        invariant
            index.ready(),
            v == index.seen(),
            i <= symbols@.len(),
            all == symbols.deep_view(),
            out.deep_view() == members_subst(v, all.take(i as int), first, last),
        decreases symbols@.len() - i,
    {
        let s = &symbols[i];
        let ghost before = out.deep_view();
        proof {
            assert(all.take(i + 1).last() == s.deep_view());
            assert(all.take(i + 1).drop_last() =~= all.take(i as int));
        }
        if first < s.selection_start() && s.selection_start() <= last && (s.kind
            == SymbolKind::Field || s.kind == SymbolKind::Property) {
            let mut more = subst_of_property(index, s);
            let ghost m = more.deep_view();
            out.append(&mut more);
            assert(out.deep_view() =~= before + m);
        }
        i += 1;
    }
    assert(all.take(all.len() as int) =~= all);
    out
}

/// What stands for type parameters in the class around the cursor.
pub fn build_subst_map<I: IndexRead>(index: &I, uri: &str, cursor_line: u32) -> (r: Vec<
    (String, String),
>)
    requires
        index.ready(),
    ensures
        r.deep_view() == enclosing_subst(index.seen(), uri@, cursor_line),
{
    let none: Vec<(String, String)> = Vec::new();
    assert(none.deep_view() =~= Seq::empty());
    let file = match index.get_file_data(uri) {
        Some(f) => f,
        None => {
            return none;
        },
    };
    match class_symbol(file, cursor_line) {
        Some((name, s)) => {
            let line: u32 = s.selection_start();
            let classes = hierarchy::walk_class_hierarchy(index, uri, name.as_str(), line);
            let mut out = subst_of_others(&classes, uri, line);
            let mut more = subst_of_members(index, &file.symbols, line, s.range.end.line);
            let ghost a = out.deep_view();
            let ghost b = more.deep_view();
            out.append(&mut more);
            assert(out.deep_view() =~= a + b);
            out
        },
        None => none,
    }
}

// ---------------------------------------------------------------------------
// Symbols as their users see them
// ---------------------------------------------------------------------------

/// Whose types a signature is shown in.
pub enum SubstitutionContext<'a> {
    /// In those of the symbol itself.
    Own,
    /// In those of a caller in another file; the cursor's line tells which class calls, and
    /// without one it is the first that inherits from the symbol's class.
    CrossFile { calling_uri: &'a str, cursor_line: Option<u32> },
    /// In those that the pairs give.
    Precomputed(&'a Vec<(String, String)>),
}

/// Whose types a signature is shown in.
pub enum ContextView {
    Own,
    CrossFile { calling_uri: Seq<char>, cursor_line: Option<u32> },
    Precomputed(Subst),
}

impl<'a> DeepView for SubstitutionContext<'a> {
    type V = ContextView;

    open spec fn deep_view(&self) -> ContextView {
        match self {
            SubstitutionContext::Own => ContextView::Own,
            SubstitutionContext::CrossFile { calling_uri, cursor_line } => ContextView::CrossFile {
                calling_uri: calling_uri@,
                cursor_line: *cursor_line,
            },
            SubstitutionContext::Precomputed(m) => ContextView::Precomputed(m.deep_view()),
        }
    }
}

/// What is found out about a symbol.
#[derive(Debug)]
pub struct ResolvedSymbol {
    pub location: Location,
    /// The name that the index has for the symbol.
    pub name: String,
    pub kind: SymbolKind,
    /// The signature in the symbol's own types.
    pub raw_signature: String,
    /// The signature in the types of the context.
    pub signature: String,
    /// What stands for type parameters in `signature`.
    pub subst: Vec<(String, String)>,
    pub doc: String,
}

#[verifier::ext_equal]
pub struct ResolvedView {
    pub location: LocationView,
    pub name: Seq<char>,
    pub kind: SymbolKind,
    pub raw_signature: Seq<char>,
    pub signature: Seq<char>,
    pub subst: Subst,
    pub doc: Seq<char>,
}

impl DeepView for ResolvedSymbol {
    type V = ResolvedView;

    open spec fn deep_view(&self) -> ResolvedView {
        ResolvedView {
            location: self.location.deep_view(),
            name: self.name@,
            kind: self.kind,
            raw_signature: self.raw_signature@,
            signature: self.signature@,
            subst: self.subst.deep_view(),
            doc: self.doc@,
        }
    }
}

/// What stands for type parameters in a context.
pub open spec fn context_subst(
    v: ReadView,
    l: LocationView,
    ctx: ContextView,
    options: ResolveOptions,
) -> Subst {
    if !options.apply_subst {
        Seq::empty()
    } else {
        match ctx {
            ContextView::Own => Seq::empty(),
            ContextView::CrossFile { calling_uri, cursor_line } => param_subst(
                v,
                l.uri,
                l.range.start.line,
                calling_uri,
                cursor_line,
            ),
            ContextView::Precomputed(m) => m,
        }
    }
}

/// The signature of a symbol in its own types: the text of its declaration; that of a property
/// declared without a type shows the type that can be inferred.
pub open spec fn own_signature(
    v: ReadView,
    f: FileView,
    uri: Seq<char>,
    s: SymbolView,
    name: Seq<char>,
    options: ResolveOptions,
) -> Seq<char> {
    let raw = resolution::canonical(s, f, options.prefer_cached_detail);
    if resolution::is_value(s.kind) && !text::contains_text(raw, name + ":"@) {
        match (v.var_type)(name, uri) {
            Some(t) => resolution::augmented(raw, name, s.kind, t),
            None => raw,
        }
    } else {
        raw
    }
}

/// The documentation of a symbol: the comment above it, else the text stored with it.
pub open spec fn documentation(f: FileView, s: SymbolView, options: ResolveOptions) -> Seq<char> {
    if !options.include_doc {
        Seq::empty()
    } else {
        match doc::doc_above(f.lines, s.selection_range.start.line as int) {
            Some(d) => if d.len() > 0 {
                d
            } else {
                doc::formatted(s.doc)
            },
            None => doc::formatted(s.doc),
        }
    }
}

/// What is found out about the symbol at a location of a file.
pub open spec fn enriched(
    v: ReadView,
    f: FileView,
    l: LocationView,
    name: Seq<char>,
    ctx: ContextView,
    options: ResolveOptions,
) -> Option<ResolvedView> {
    match resolution::entry_at(f, l, name) {
        Some(s) => {
            let raw = own_signature(v, f, l.uri, s, name, options);
            let subst = context_subst(v, l, ctx, options);
            Some(
                ResolvedView {
                    location: l,
                    name: s.name,
                    kind: s.kind,
                    raw_signature: raw,
                    signature: type_subst::substituted(raw, subst),
                    subst,
                    doc: documentation(f, s, options),
                },
            )
        },
        None => None,
    }
}

/// What stands for type parameters in a context.
pub fn build_subst_if_needed<I: IndexRead>(
    index: &I,
    location: &Location,
    subst_ctx: &SubstitutionContext<'_>,
    options: &ResolveOptions,
) -> (r: Vec<(String, String)>)
    requires
        index.ready(),
    ensures
        r.deep_view() == context_subst(
            index.seen(),
            location.deep_view(),
            subst_ctx.deep_view(),
            *options,
        ),
{
    let none: Vec<(String, String)> = Vec::new();
    assert(none.deep_view() =~= Seq::empty());
    if !options.apply_subst {
        return none;
    }
    match subst_ctx {
        SubstitutionContext::Own => none,
        SubstitutionContext::CrossFile { calling_uri, cursor_line } => build_type_param_subst(
            index,
            location.uri.as_str(),
            location.range.start.line,
            calling_uri,
            *cursor_line,
        ),
        SubstitutionContext::Precomputed(m) => m.replicate(),
    }
}

fn signature_of<I: IndexRead>(
    index: &I,
    data: &FileData,
    uri: &str,
    sym: &SymbolEntry,
    name: &str,
    options: &ResolveOptions,
) -> (r: String)
    requires
        index.ready(),
    ensures
        r@ == own_signature(
            index.seen(),
            data.deep_view(),
            uri@,
            sym.deep_view(),
            name@,
            *options,
        ),
{
    let raw = resolution::extract_canonical_signature(sym, data, options.prefer_cached_detail);
    let typed = text::concat(name, ":");
    if (sym.kind == SymbolKind::Property || sym.kind == SymbolKind::Variable) && !text::contains(
        raw.as_str(),
        typed.as_str(),
    ) {
        match index.infer_variable_type_for(name, uri) {
            Some(t) => resolution::augment_property_sig(raw.as_str(), name, sym.kind, t.as_str()),
            None => raw,
        }
    } else {
        raw
    }
}

fn doc_of(data: &FileData, sym: &SymbolEntry, options: &ResolveOptions) -> (r: String)
    ensures
        r@ == documentation(data.deep_view(), sym.deep_view(), *options),
{
    if !options.include_doc {
        return String::new();
    }
    if let Some(d) = doc::extract_doc_comment(&data.lines, sym.selection_start() as usize) {
        if !d.as_str().is_empty() {
            return d;
        }
    }
    doc::format_doc_comment(sym.doc.as_str())
}

/// What is found out about the symbol at a location of a file.
pub fn enrich_symbol<I: IndexRead>(
    index: &I,
    data: &FileData,
    location: &Location,
    name: &str,
    subst_ctx: &SubstitutionContext<'_>,
    options: &ResolveOptions,
) -> (r: Option<ResolvedSymbol>)
    requires
        index.ready(),
    ensures
        r.deep_view() == enriched(
            index.seen(),
            data.deep_view(),
            location.deep_view(),
            name@,
            subst_ctx.deep_view(),
            *options,
        ),
{
    let sym = match resolution::find_symbol_entry(data, location, name) {
        Some(s) => s,
        None => {
            return None;
        },
    };
    let raw_signature = signature_of(index, data, location.uri.as_str(), sym, name, options);
    let subst = build_subst_if_needed(index, location, subst_ctx, options);
    let signature = resolution::apply_subst(raw_signature.as_str(), &subst);
    let doc = doc_of(data, sym, options);
    Some(
        ResolvedSymbol {
            location: location.replicate(),
            name: sym.name.clone(),
            kind: sym.kind,
            raw_signature,
            signature,
            subst,
            doc,
        },
    )
}

/// What is found out about the symbol at a location.
pub open spec fn enriched_at(
    v: ReadView,
    l: LocationView,
    name: Seq<char>,
    ctx: ContextView,
    options: ResolveOptions,
) -> Option<ResolvedView> {
    match (v.file)(l.uri) {
        Some(f) => enriched(v, f, l, name, ctx, options),
        None => None,
    }
}

/// What is found out about the symbol at a location.
pub fn enrich_at_location<I: IndexRead>(
    index: &I,
    location: &Location,
    name: &str,
    subst_ctx: &SubstitutionContext<'_>,
    options: &ResolveOptions,
) -> (r: Option<ResolvedSymbol>)
    requires
        index.ready(),
    ensures
        r.deep_view() == enriched_at(
            index.seen(),
            location.deep_view(),
            name@,
            subst_ctx.deep_view(),
            *options,
        ),
{
    match index.get_file_data(location.uri.as_str()) {
        Some(data) => enrich_symbol(index, data, location, name, subst_ctx, options),
        None => None,
    }
}

/// What is found out about the symbol that a name in a file stands for: the first of those that
/// it may stand for.
pub open spec fn symbol_info(
    v: ReadView,
    name: Seq<char>,
    qualifier: Option<Seq<char>>,
    from_uri: Seq<char>,
    ctx: ContextView,
    options: ResolveOptions,
) -> Option<ResolvedView> {
    let places = (v.locations)(name, qualifier, from_uri, options.allow_rg);
    if places.len() > 0 {
        enriched_at(v, places[0], name, ctx, options)
    } else {
        None
    }
}

/// What is found out about the symbol that a name in a file stands for.
pub fn resolve_symbol_info<I: IndexRead>(
    index: &I,
    name: &str,
    qualifier: Option<&str>,
    from_uri: &str,
    subst_ctx: &SubstitutionContext<'_>,
    options: &ResolveOptions,
) -> (r: Option<ResolvedSymbol>)
    requires
        index.ready(),
    ensures
        r.deep_view() == symbol_info(
            index.seen(),
            name@,
            qualifier.deep_view(),
            from_uri@,
            subst_ctx.deep_view(),
            *options,
        ),
{
    let places = index.resolve_locations(name, qualifier, from_uri, options.allow_rg);
    assert(places.deep_view().len() == places@.len());
    if places.len() == 0 {
        return None;
    }
    assert(places.deep_view()[0] == places@[0].deep_view());
    enrich_at_location(index, &places[0], name, subst_ctx, options)
}

/// Whether a symbol's name stands at a position.
pub open spec fn name_at(line: u32, col: u32) -> spec_fn(SymbolView) -> bool {
    |s: SymbolView|
        s.selection_range.start.line == line && s.selection_range.start.character <= col
            < s.selection_range.end.character
}

/// Whether a symbol's name stands on a line.
pub open spec fn name_on(line: u32) -> spec_fn(SymbolView) -> bool {
    |s: SymbolView| s.selection_range.start.line == line
}

/// The symbol at a position, else the first on its line.
pub open spec fn symbol_at(f: FileView, line: u32, col: u32) -> Option<SymbolView> {
    match lists::find_where(f.symbols, name_at(line, col)) {
        Some(s) => Some(s),
        None => lists::find_where(f.symbols, name_on(line)),
    }
}

fn find_at<'a>(data: &'a FileData, line: u32, col: u32) -> (r: Option<&'a SymbolEntry>)
    ensures
        match r {
            Some(s) => symbol_at(data.deep_view(), line, col) == Some(s.deep_view()),
            None => symbol_at(data.deep_view(), line, col) is None,
        },
{
    let ghost all = data.symbols.deep_view();
    let ghost p = name_at(line, col);
    let ghost q = name_on(line);
    let mut on_line: Option<usize> = None;
    let mut i: usize = 0;
    while i < data.symbols.len()
        invariant
            i <= data.symbols@.len(),
            all == data.symbols.deep_view(),
            p == name_at(line, col),
            q == name_on(line),
            forall|k: int| 0 <= k < i ==> !p(#[trigger] all[k]),
            match on_line {
                Some(k) => k < data.symbols@.len() && lists::find_where(all, q) == Some(
                    all[k as int],
                ),
                None => forall|k: int| 0 <= k < i ==> !q(#[trigger] all[k]),
            },
        decreases data.symbols@.len() - i,
    {
        let s = &data.symbols[i];
        assert(all[i as int] == s.deep_view());
        if s.selection_start() == line {
            if s.selection_range.start.character <= col && col < s.selection_range.end.character {
                proof {
                    lists::lemma_first(all, p, i as int);
                }
                return Some(s);
            }
            if on_line.is_none() {
                proof {
                    lists::lemma_first(all, q, i as int);
                }
                on_line = Some(i);
            }
        }
        i += 1;
    }
    proof {
        lists::lemma_no_first(all, p);
    }
    match on_line {
        Some(k) => {
            assert(all[k as int] == data.symbols@[k as int].deep_view());
            Some(&data.symbols[k])
        },
        None => {
            proof {
                lists::lemma_no_first(all, q);
            }
            None
        },
    }
}

/// What is found out about the symbol at a position of a file, else about the first on the line.
pub open spec fn enriched_on(
    v: ReadView,
    uri: Seq<char>,
    line: u32,
    col: u32,
    ctx: ContextView,
    options: ResolveOptions,
) -> Option<ResolvedView> {
    match (v.file)(uri) {
        Some(f) => match symbol_at(f, line, col) {
            Some(s) => match urls::parsed_url(uri) {
                Some(u) => enriched(
                    v,
                    f,
                    LocationView { uri: u, range: s.selection_range },
                    s.name,
                    ctx,
                    options,
                ),
                None => None,
            },
            None => None,
        },
        None => None,
    }
}

/// What is found out about the symbol at a position of a file, else about the first on the line.
pub fn enrich_at_line<I: IndexRead>(
    index: &I,
    uri: &str,
    line: u32,
    col: u32,
    subst_ctx: &SubstitutionContext<'_>,
    options: &ResolveOptions,
) -> (r: Option<ResolvedSymbol>)
    requires
        index.ready(),
    ensures
        r.deep_view() == enriched_on(
            index.seen(),
            uri@,
            line,
            col,
            subst_ctx.deep_view(),
            *options,
        ),
{
    let data = match index.get_file_data(uri) {
        Some(d) => d,
        None => {
            return None;
        },
    };
    let sym = match find_at(data, line, col) {
        Some(s) => s,
        None => {
            return None;
        },
    };
    match urls::parse_url(uri) {
        Some(u) => {
            let location = Location { uri: u, range: sym.selection_range };
            enrich_symbol(index, data, &location, sym.name.as_str(), subst_ctx, options)
        },
        None => None,
    }
}

// ---------------------------------------------------------------------------
// Laws
// ---------------------------------------------------------------------------

proof fn lemma_first_gives(
    v: ReadView,
    caller_uri: Seq<char>,
    symbols: Seq<SymbolView>,
    sym_uri: Seq<char>,
    container: SymbolView,
    from: int,
    k: int,
)
    requires
        0 <= from <= k < symbols.len(),
        inherits(v, caller_uri, symbols[k], sym_uri, container),
        forall|j: int|
            from <= j < k ==> !inherits(v, caller_uri, #[trigger] symbols[j], sym_uri, container),
    ensures
        given_by_first(v, caller_uri, symbols, sym_uri, container, from) == given_by(
            v,
            caller_uri,
            symbols[k].name,
            symbols[k],
            sym_uri,
            container,
        ),
    decreases k - from,
{
    if from < k {
        assert(!inherits(v, caller_uri, symbols[from], sym_uri, container));
        lemma_first_gives(v, caller_uri, symbols, sym_uri, container, from + 1, k);
    }
}

/// For a caller whose line is not known, the first class of its file counts that inherits from
/// the class around the symbol.
pub proof fn law_unknown_line_takes_the_first_class(
    v: ReadView,
    sym_uri: Seq<char>,
    sym_line: u32,
    caller_uri: Seq<char>,
    k: int,
)
    requires
        sym_uri != caller_uri,
        container_of(v, sym_uri, sym_line) is Some,
        (v.file)(caller_uri) is Some,
        0 <= k < (v.file)(caller_uri)->0.symbols.len(),
        inherits(
            v,
            caller_uri,
            (v.file)(caller_uri)->0.symbols[k],
            sym_uri,
            container_of(v, sym_uri, sym_line)->0,
        ),
        forall|j: int|
            0 <= j < k ==> !inherits(
                v,
                caller_uri,
                #[trigger] (v.file)(caller_uri)->0.symbols[j],
                sym_uri,
                container_of(v, sym_uri, sym_line)->0,
            ),
    ensures
        ({
            let s = (v.file)(caller_uri)->0.symbols[k];
            param_subst(v, sym_uri, sym_line, caller_uri, None) == given_by(
                v,
                caller_uri,
                s.name,
                s,
                sym_uri,
                container_of(v, sym_uri, sym_line)->0,
            )
        }),
{
    let symbols = (v.file)(caller_uri)->0.symbols;
    let container = container_of(v, sym_uri, sym_line)->0;
    lemma_first_gives(v, caller_uri, symbols, sym_uri, container, 0, k);
}

/// Seen from its own file a symbol keeps its own types.
pub proof fn law_own_types_at_home(
    v: ReadView,
    f: FileView,
    l: LocationView,
    name: Seq<char>,
    calling_uri: Seq<char>,
    cursor_line: Option<u32>,
    options: ResolveOptions,
)
    requires
        calling_uri == l.uri,
    ensures
        match enriched(
            v,
            f,
            l,
            name,
            ContextView::CrossFile { calling_uri, cursor_line },
            options,
        ) {
            Some(r) => r.subst.len() == 0 && r.signature == r.raw_signature,
            None => true,
        },
{
    if let Some(s) = resolution::entry_at(f, l, name) {
        let raw = own_signature(v, f, l.uri, s, name, options);
        type_subst::law_empty_subst_changes_nothing(raw);
    }
}

/// Going to a definition shows neither documentation nor other types.
pub proof fn law_goto_shows_the_symbol_alone(
    v: ReadView,
    f: FileView,
    l: LocationView,
    name: Seq<char>,
    ctx: ContextView,
    options: ResolveOptions,
)
    requires
        !options.include_doc,
        !options.apply_subst,
    ensures
        match enriched(v, f, l, name, ctx, options) {
            Some(r) => {
                &&& r.location == l
                &&& r.doc.len() == 0
                &&& r.subst.len() == 0
                &&& r.signature == r.raw_signature
            },
            None => true,
        },
{
    if let Some(s) = resolution::entry_at(f, l, name) {
        let raw = own_signature(v, f, l.uri, s, name, options);
        type_subst::law_empty_subst_changes_nothing(raw);
    }
}

} // verus!
