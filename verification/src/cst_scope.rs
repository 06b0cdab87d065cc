//! What the syntax tree round a cursor declares: locals, members, types and lambda parameters.
use vstd::prelude::*;
use vstd::string::*;

use crate::cst::{DocView, LiveDoc};
use crate::cst_lambda::{LambdaParamKind, ThisContext, ThisView};
use crate::deps::{Facts, InferDeps};
use crate::index::{IndexView, Indexer};
use crate::it_this;
use crate::it_this::{CstCursor, CstCursorView};
use crate::receiver;
use crate::scope;
use crate::text;
use crate::text::CharClass;
use crate::types::CursorPos;

verus! {

// ---------------------------------------------------------------------------
// Lambda parameters
// ---------------------------------------------------------------------------

/// The names found so far, with those of a list that are to be collected.
pub open spec fn collected(found: Seq<Seq<char>>, names: Seq<Seq<char>>) -> Seq<Seq<char>>
    decreases names.len(),
{
    if names.len() == 0 {
        found
    } else {
        let before = collected(found, names.drop_last());
        let name = names.last();
        if scope::lambda_name(name) && !before.contains(name) {
            before.push(name)
        } else {
            before
        }
    }
}

/// The names found so far, with the parameters of the lambdas from a node upwards.
pub open spec fn params_above(d: DocView, n: int, found: Seq<Seq<char>>) -> Seq<Seq<char>>
    decreases n,
{
    if !d.has(n) {
        found
    } else {
        let here = if d.kind(n) == "lambda_literal"@ {
            collected(found, d.lambda_params(n))
        } else {
            found
        };
        match d.nodes[n].parent {
            Some(p) => if 0 <= p < n {
                params_above(d, p, here)
            } else {
                here
            },
            None => here,
        }
    }
}

fn collect_names(out: &mut Vec<String>, names: &Vec<String>)
    ensures
        final(out).deep_view() == collected(old(out).deep_view(), names.deep_view()),
{
    let ghost start = out.deep_view();
    let ghost all = names.deep_view();
    let mut i: usize = 0;
    while i < names.len()
        invariant
            i <= names@.len(),
            all == names.deep_view(),
            out.deep_view() == collected(start, all.take(i as int)),
        decreases names@.len() - i,
    {
        let ghost before = out.deep_view();
        proof {
            assert(all[i as int] == names@[i as int]@);
            assert(all.take(i + 1).drop_last() =~= all.take(i as int));
            assert(all.take(i + 1).last() == all[i as int]);
        }
        if scope::should_collect_lambda_param(names[i].as_str(), out) {
            out.push(names[i].clone());
            assert(out.deep_view() =~= before.push(all[i as int]));
        }
        i += 1;
    }
    assert(all.take(all.len() as int) =~= all);
}

/// The parameters of the lambdas round the cursor's node, the innermost lambda's first.
pub fn collect_cst_lambda_params(node: usize, doc: &LiveDoc) -> (r: Vec<String>)
    requires
        doc.wf(),
        node < doc.nodes@.len(),
    ensures
        r.deep_view() == params_above(doc.deep_view(), node as int, Seq::empty()),
{
    let ghost d = doc.deep_view();
    let mut out: Vec<String> = Vec::new();
    let mut cur: usize = node;
    assert(out.deep_view() =~= Seq::empty());
    loop
        invariant
            doc.wf(),
            d == doc.deep_view(),
            cur <= node < doc.nodes@.len(),
            params_above(d, node as int, Seq::empty()) == params_above(
                d,
                cur as int,
                out.deep_view(),
            ),
        decreases cur,
    {
        if doc.kind_is(cur, "lambda_literal") {
            let names = doc.lambda_param_names(cur);
            collect_names(&mut out, &names);
        }
        match doc.parent(cur) {
            Some(p) => {
                cur = p;
            },
            None => {
                return out;
            },
        }
    }
}

// ---------------------------------------------------------------------------
// Declared types
// ---------------------------------------------------------------------------

/// The type that follows a name among some nodes: what the first type written there reads,
/// without the question mark of a nullable one.
pub open spec fn annotation_in(d: DocView, list: Seq<int>, named: bool) -> Option<Seq<char>>
    decreases list.len(),
{
    if list.len() == 0 {
        None
    } else {
        let c = list[0];
        if d.kind(c) == "simple_identifier"@ {
            annotation_in(d, list.skip(1), true)
        } else if named && d.kind(c) == "user_type"@ {
            if d.node_text(c).len() > 0 {
                Some(d.node_text(c))
            } else {
                None
            }
        } else if named && d.kind(c) == "nullable_type"@ {
            Some(text::without_suffix_of(d.node_text(c), text::only('?')))
        } else {
            annotation_in(d, list.skip(1), named)
        }
    }
}

/// The type that a declaration writes after its name.
pub open spec fn annotation(d: DocView, n: int) -> Option<Seq<char>> {
    annotation_in(d, d.nodes[n].children, false)
}

/// What a written type reads.
pub fn user_type_name(n: usize, doc: &LiveDoc) -> (r: Option<String>)
    requires
        doc.wf(),
        n < doc.nodes@.len(),
    ensures
        r.deep_view() == if doc.deep_view().node_text(n as int).len() > 0 {
            Some(doc.deep_view().node_text(n as int))
        } else {
            None
        },
{
    let raw = doc.text_of(n);
    if raw.is_empty() {
        None
    } else {
        Some(raw.to_owned())
    }
}

/// What a nullable type reads, without its question mark.
pub fn nullable_user_type_name(n: usize, doc: &LiveDoc) -> (r: String)
    requires
        doc.wf(),
        n < doc.nodes@.len(),
    ensures
        r@ == text::without_suffix_of(doc.deep_view().node_text(n as int), text::only('?')),
{
    text::trim_end_class(doc.text_of(n), CharClass::Only('?')).to_owned()
}

/// The type that a declaration writes after its name.
pub fn type_annotation_from_node(n: usize, doc: &LiveDoc) -> (r: Option<String>)
    requires
        doc.wf(),
        n < doc.nodes@.len(),
    ensures
        r.deep_view() == annotation(doc.deep_view(), n as int),
{
    let ghost d = doc.deep_view();
    let ghost all = d.nodes[n as int].children;
    let list = &doc.nodes[n].children;
    let mut named: bool = false;
    let mut i: usize = 0;
    proof {
        assert(d.node_ok(n as int));
        assert(d.nodes[n as int] == doc.nodes@[n as int].deep_view());
        assert(all.skip(0) =~= all);
    }
    while i < list.len()
        invariant
            doc.wf(),
            n < doc.nodes@.len(),
            d == doc.deep_view(),
            d.node_ok(n as int),
            all == d.nodes[n as int].children,
            all == list@.map_values(|c: usize| c as int),
            i <= list@.len(),
            annotation(d, n as int) == annotation_in(d, all.skip(i as int), named),
        decreases list@.len() - i,
    {
        let c: usize = list[i];
        proof {
            assert(all[i as int] == c as int);
            assert(all.skip(i as int)[0] == c as int);
            assert(all.skip(i as int).skip(1) =~= all.skip(i + 1));
        }
        if doc.kind_is(c, "simple_identifier") {
            named = true;
        } else if named && doc.kind_is(c, "user_type") {
            return user_type_name(c, doc);
        } else if named && doc.kind_is(c, "nullable_type") {
            return Some(nullable_user_type_name(c, doc));
        }
        i += 1;
    }
    assert(all.skip(i as int).len() == 0);
    None
}

/// The binding class that an initializer such as `FooBinding.inflate(inflater)` yields.
pub open spec fn initializer_binding(d: DocView, n: int) -> Option<Seq<char>> {
    if d.kind(n) == "call_expression"@ {
        match d.first_child(n) {
            Some(c) => if d.kind(c) == "navigation_expression"@ {
                match (d.first_named(c), d.nav_member(c)) {
                    (Some(r), Some(m)) => if text::ends_with(d.node_text(r), "Binding"@) && (m
                        == "inflate"@ || m == "bind"@) {
                        Some(d.node_text(r))
                    } else {
                        None
                    },
                    _ => None,
                }
            } else {
                None
            },
            None => None,
        }
    } else {
        None
    }
}

/// The binding class that an initializer yields.
pub fn infer_type_from_initializer_node(n: usize, doc: &LiveDoc) -> (r: Option<String>)
    requires
        doc.wf(),
        n < doc.nodes@.len(),
    ensures
        r.deep_view() == initializer_binding(doc.deep_view(), n as int),
{
    if !doc.kind_is(n, "call_expression") {
        return None;
    }
    match doc.child0(n) {
        Some(c) => if doc.kind_is(c, "navigation_expression") {
            match (doc.first_named_child(c), doc.navigation_member(c)) {
                (Some(inner), Some(m)) => {
                    let class = doc.text_of(inner);
                    if text::has_suffix(class, "Binding") && (text::same(m, "inflate")
                        || text::same(m, "bind")) {
                        Some(class.to_owned())
                    } else {
                        None
                    }
                },
                _ => None,
            }
        } else {
            None
        },
        None => None,
    }
}

/// The first binding class that one of some nodes yields as an initializer.
pub open spec fn initializer_in(d: DocView, list: Seq<int>) -> Option<Seq<char>>
    decreases list.len(),
{
    if list.len() == 0 {
        None
    } else {
        receiver::either(initializer_binding(d, list[0]), initializer_in(d, list.skip(1)))
    }
}

/// The binding class that the initializer of a variable yields.
pub fn initializer_type_from_variable_declaration(n: usize, doc: &LiveDoc) -> (r: Option<String>)
    requires
        doc.wf(),
        n < doc.nodes@.len(),
    ensures
        r.deep_view() == initializer_in(
            doc.deep_view(),
            doc.deep_view().nodes[n as int].children,
        ),
{
    let ghost d = doc.deep_view();
    let ghost all = d.nodes[n as int].children;
    let list = &doc.nodes[n].children;
    let mut i: usize = 0;
    proof {
        assert(d.node_ok(n as int));
        assert(d.nodes[n as int] == doc.nodes@[n as int].deep_view());
        assert(all.skip(0) =~= all);
    }
    while i < list.len()
        invariant
            doc.wf(),
            n < doc.nodes@.len(),
            d == doc.deep_view(),
            d.node_ok(n as int),
            all == d.nodes[n as int].children,
            all == list@.map_values(|c: usize| c as int),
            i <= list@.len(),
            initializer_in(d, all) == initializer_in(d, all.skip(i as int)),
        decreases list@.len() - i,
    {
        let c: usize = list[i];
        proof {
            assert(all[i as int] == c as int);
            assert(all.skip(i as int)[0] == c as int);
            assert(all.skip(i as int).skip(1) =~= all.skip(i + 1));
        }
        let found = infer_type_from_initializer_node(c, doc);
        if found.is_some() {
            return found;
        }
        i += 1;
    }
    assert(all.skip(i as int).len() == 0);
    None
}

/// The binding class that a delegate such as `by viewBinding(FooBinding::bind)` yields.
pub open spec fn delegate_binding(d: DocView, n: int) -> Option<Seq<char>> {
    match d.child_of(n, "property_delegate"@) {
        Some(c) => match text::find_text(d.node_text(c), "::"@) {
            Some(i) => {
                let name = text::last_ident_of(d.node_text(c).take(i));
                if text::ends_with(name, "Binding"@) {
                    Some(name)
                } else {
                    None
                }
            },
            None => None,
        },
        None => None,
    }
}

fn binding_of_delegate(n: usize, doc: &LiveDoc) -> (r: Option<String>)
    requires
        doc.wf(),
        n < doc.nodes@.len(),
    ensures
        r.deep_view() == delegate_binding(doc.deep_view(), n as int),
{
    match doc.first_child_of_kind(n, "property_delegate") {
        Some(c) => {
            let written = doc.text_of(c);
            match text::find(written, "::") {
                Some(i) => {
                    let name = text::last_ident_in(text::take(written, i));
                    if text::has_suffix(name, "Binding") {
                        Some(name.to_owned())
                    } else {
                        None
                    }
                },
                None => None,
            }
        },
        None => None,
    }
}

// ---------------------------------------------------------------------------
// Bindings of names
// ---------------------------------------------------------------------------

/// Whether a child of a kind declares the name.
pub open spec fn child_names(d: DocView, n: int, kind: Seq<char>, name: Seq<char>) -> bool {
    match d.child_of(n, kind) {
        Some(c) => d.ident_in(c) == Some(name),
        None => false,
    }
}

fn child_declares(n: usize, kind: &str, doc: &LiveDoc, name: &str) -> (r: bool)
    requires
        doc.wf(),
        n < doc.nodes@.len(),
    ensures
        r == child_names(doc.deep_view(), n as int, kind@, name@),
{
    match doc.first_child_of_kind(n, kind) {
        Some(c) => names_node(c, doc, name),
        None => false,
    }
}

fn names_node(n: usize, doc: &LiveDoc, name: &str) -> (r: bool)
    requires
        doc.wf(),
        n < doc.nodes@.len(),
    ensures
        r == (doc.deep_view().ident_in(n as int) == Some(name@)),
{
    match doc.ident_text(n) {
        Some(t) => text::same(t, name),
        None => false,
    }
}

/// Whether one of some nodes is of the kind and declares the name.
pub open spec fn some_names(d: DocView, list: Seq<int>, kind: Seq<char>, name: Seq<char>) -> bool {
    exists|i: int|
        0 <= i < list.len() && d.kind(#[trigger] list[i]) == kind && d.ident_in(list[i]) == Some(
            name,
        )
}

fn some_child_declares(n: usize, kind: &str, doc: &LiveDoc, name: &str) -> (r: bool)
    requires
        doc.wf(),
        n < doc.nodes@.len(),
    ensures
        r == some_names(
            doc.deep_view(),
            doc.deep_view().nodes[n as int].children,
            kind@,
            name@,
        ),
{
    let ghost d = doc.deep_view();
    let ghost all = d.nodes[n as int].children;
    let list = &doc.nodes[n].children;
    let mut i: usize = 0;
    proof {
        assert(d.node_ok(n as int));
        assert(d.nodes[n as int] == doc.nodes@[n as int].deep_view());
    }
    while i < list.len()
        invariant
            doc.wf(),
            n < doc.nodes@.len(),
            d == doc.deep_view(),
            d.node_ok(n as int),
            all == d.nodes[n as int].children,
            all == list@.map_values(|c: usize| c as int),
            i <= list@.len(),
            forall|k: int|
                0 <= k < i ==> !(d.kind(#[trigger] all[k]) == kind@ && d.ident_in(all[k]) == Some(
                    name@,
                )),
        decreases list@.len() - i,
    {
        let c: usize = list[i];
        assert(all[i as int] == c as int);
        if doc.kind_is(c, kind) && names_node(c, doc, name) {
            return true;
        }
        i += 1;
    }
    false
}

/// Whether a `val` or `var` declares the name.
pub fn property_declaration_binds_name(n: usize, doc: &LiveDoc, name: &str) -> (r: bool)
    requires
        doc.wf(),
        n < doc.nodes@.len(),
    ensures
        r == property_names(doc.deep_view(), n as int, name@),
{
    doc.kind_is(n, "property_declaration") && child_declares(n, "variable_declaration", doc, name)
}

/// Whether a `val` or `var` declares the name.
pub open spec fn property_names(d: DocView, n: int, name: Seq<char>) -> bool {
    d.kind(n) == "property_declaration"@ && child_names(d, n, "variable_declaration"@, name)
}

/// Whether a list of variables declares the name.
pub open spec fn multi_names(d: DocView, n: int, name: Seq<char>) -> bool {
    some_names(d, d.nodes[n].children, "variable_declaration"@, name)
}

/// Whether a list of variables declares the name.
pub fn destructuring_in_multi_binds_name(multi: usize, doc: &LiveDoc, name: &str) -> (r: bool)
    requires
        doc.wf(),
        multi < doc.nodes@.len(),
    ensures
        r == multi_names(doc.deep_view(), multi as int, name@),
{
    some_child_declares(multi, "variable_declaration", doc, name)
}

/// Whether a destructuring declaration declares the name.
pub open spec fn destructuring_names(d: DocView, n: int, name: Seq<char>) -> bool {
    match d.child_of(n, "multi_variable_declaration"@) {
        Some(m) => multi_names(d, m, name),
        None => false,
    }
}

/// Whether a destructuring declaration declares the name.
pub fn destructuring_binds_name(n: usize, doc: &LiveDoc, name: &str) -> (r: bool)
    requires
        doc.wf(),
        n < doc.nodes@.len(),
    ensures
        r == destructuring_names(doc.deep_view(), n as int, name@),
{
    match doc.first_child_of_kind(n, "multi_variable_declaration") {
        Some(m) => destructuring_in_multi_binds_name(m, doc, name),
        None => false,
    }
}

/// Whether a `for` loop declares the name.
pub open spec fn for_names(d: DocView, n: int, name: Seq<char>) -> bool {
    match d.child_of(n, "multi_variable_declaration"@) {
        Some(m) => multi_names(d, m, name),
        None => child_names(d, n, "variable_declaration"@, name),
    }
}

/// Whether a `for` loop declares the name.
pub fn for_loop_binds_name(n: usize, doc: &LiveDoc, name: &str) -> (r: bool)
    requires
        doc.wf(),
        n < doc.nodes@.len(),
    ensures
        r == for_names(doc.deep_view(), n as int, name@),
{
    match doc.first_child_of_kind(n, "multi_variable_declaration") {
        Some(m) => destructuring_in_multi_binds_name(m, doc, name),
        None => child_declares(n, "variable_declaration", doc, name),
    }
}

/// Whether a `catch` block declares the name.
pub fn catch_block_binds_name(n: usize, doc: &LiveDoc, name: &str) -> (r: bool)
    requires
        doc.wf(),
        n < doc.nodes@.len(),
    ensures
        r == some_names(
            doc.deep_view(),
            doc.deep_view().nodes[n as int].children,
            "parameter"@,
            name@,
        ),
{
    some_child_declares(n, "parameter", doc, name)
}

/// Whether the subject of a `when` declares the name.
pub open spec fn when_names(d: DocView, n: int, name: Seq<char>) -> bool {
    match d.child_of(n, "when_subject"@) {
        Some(s) => match d.child_of(s, "variable_declaration"@) {
            Some(v) => d.ident_in(v) == Some(name),
            None => d.ident_in(s) == Some(name),
        },
        None => false,
    }
}

/// Whether the subject of a `when` declares the name.
pub fn when_subject_binds_name(n: usize, doc: &LiveDoc, name: &str) -> (r: bool)
    requires
        doc.wf(),
        n < doc.nodes@.len(),
    ensures
        r == when_names(doc.deep_view(), n as int, name@),
{
    match doc.first_child_of_kind(n, "when_subject") {
        Some(s) => match doc.first_child_of_kind(s, "variable_declaration") {
            Some(v) => names_node(v, doc, name),
            None => names_node(s, doc, name),
        },
        None => false,
    }
}

/// Whether a node declares the name as a local: a `val` or `var`, a destructuring, a `for`
/// loop, a `catch` block or the subject of a `when`.
pub open spec fn local_names(d: DocView, n: int, name: Seq<char>) -> bool {
    let kind = d.kind(n);
    if kind == "property_declaration"@ {
        property_names(d, n, name) || destructuring_names(d, n, name)
    } else if kind == "for_statement"@ {
        for_names(d, n, name)
    } else if kind == "catch_block"@ {
        some_names(d, d.nodes[n].children, "parameter"@, name)
    } else if kind == "when_expression"@ {
        when_names(d, n, name)
    } else {
        false
    }
}

/// Whether a node declares the name as a local.
pub fn local_binding_binds_name(n: usize, doc: &LiveDoc, name: &str) -> (r: bool)
    requires
        doc.wf(),
        n < doc.nodes@.len(),
    ensures
        r == local_names(doc.deep_view(), n as int, name@),
{
    if doc.kind_is(n, "property_declaration") {
        property_declaration_binds_name(n, doc, name) || destructuring_binds_name(n, doc, name)
    } else if doc.kind_is(n, "for_statement") {
        for_loop_binds_name(n, doc, name)
    } else if doc.kind_is(n, "catch_block") {
        catch_block_binds_name(n, doc, name)
    } else if doc.kind_is(n, "when_expression") {
        when_subject_binds_name(n, doc, name)
    } else {
        false
    }
}

/// Whether a function has a parameter of the name.
pub open spec fn param_named(d: DocView, n: int, name: Seq<char>) -> bool {
    match d.child_of(n, "function_value_parameters"@) {
        Some(p) => some_names(d, d.nodes[p].children, "parameter"@, name),
        None => false,
    }
}

fn function_has_parameter(n: usize, doc: &LiveDoc, name: &str) -> (r: bool)
    requires
        doc.wf(),
        n < doc.nodes@.len(),
    ensures
        r == param_named(doc.deep_view(), n as int, name@),
{
    match doc.first_child_of_kind(n, "function_value_parameters") {
        Some(p) => some_child_declares(p, "parameter", doc, name),
        None => false,
    }
}

/// The names of the parameters among some nodes.
pub open spec fn params_in(d: DocView, list: Seq<int>) -> Seq<Seq<char>>
    decreases list.len(),
{
    if list.len() == 0 {
        Seq::empty()
    } else {
        let before = params_in(d, list.drop_last());
        let c = list.last();
        if d.kind(c) == "parameter"@ && d.ident_in(c) is Some {
            before.push(d.ident_in(c).unwrap())
        } else {
            before
        }
    }
}

/// The names of a function's parameters.
pub fn function_value_parameter_names(n: usize, doc: &LiveDoc) -> (r: Vec<String>)
    requires
        doc.wf(),
        n < doc.nodes@.len(),
    ensures
        r.deep_view() == match doc.deep_view().child_of(
            n as int,
            "function_value_parameters"@,
        ) {
            Some(p) => params_in(doc.deep_view(), doc.deep_view().nodes[p].children),
            None => Seq::empty(),
        },
{
    let mut out: Vec<String> = Vec::new();
    let p: usize = match doc.first_child_of_kind(n, "function_value_parameters") {
        Some(p) => p,
        None => {
            assert(out.deep_view() =~= Seq::empty());
            return out;
        },
    };
    let ghost d = doc.deep_view();
    let ghost all = d.nodes[p as int].children;
    let list = &doc.nodes[p].children;
    let mut i: usize = 0;
    proof {
        assert(d.node_ok(p as int));
        assert(d.nodes[p as int] == doc.nodes@[p as int].deep_view());
        assert(out.deep_view() =~= params_in(d, all.take(0)));
    }
    while i < list.len()
        invariant
            doc.wf(),
            p < doc.nodes@.len(),
            d == doc.deep_view(),
            d.node_ok(p as int),
            all == d.nodes[p as int].children,
            all == list@.map_values(|c: usize| c as int),
            i <= list@.len(),
            out.deep_view() == params_in(d, all.take(i as int)),
        decreases list@.len() - i,
    {
        let c: usize = list[i];
        let ghost before = out.deep_view();
        proof {
            assert(all[i as int] == c as int);
            assert(all.take(i + 1).last() == c as int);
            assert(all.take(i + 1).drop_last() =~= all.take(i as int));
        }
        if doc.kind_is(c, "parameter") {
            if let Some(name) = doc.ident_text(c) {
                out.push(name.to_owned());
                assert(out.deep_view() =~= before.push(name@));
            }
        }
        i += 1;
    }
    assert(all.take(all.len() as int) =~= all);
    out
}

// ---------------------------------------------------------------------------
// Scopes
// ---------------------------------------------------------------------------

/// Whether a node holds the members of a type, or a whole file.
pub open spec fn holds_members(d: DocView, n: int) -> bool {
    d.kind(n) == "class_body"@ || d.kind(n) == "enum_class_body"@ || d.kind(n) == "source_file"@
}

fn is_member_container(n: usize, doc: &LiveDoc) -> (r: bool)
    requires
        n < doc.nodes@.len(),
    ensures
        r == holds_members(doc.deep_view(), n as int),
{
    doc.kind_is(n, "class_body") || doc.kind_is(n, "enum_class_body") || doc.kind_is(
        n,
        "source_file",
    )
}

/// The local scope that a node opens: a lambda, or the body of a function.
pub open spec fn scope_of(d: DocView, n: int) -> Option<int> {
    if d.kind(n) == "lambda_literal"@ {
        Some(n)
    } else if d.kind(n) == "function_declaration"@ {
        d.child_of(n, "function_body"@)
    } else {
        None
    }
}

/// The outermost local scope from a node up to the members of the type that it belongs to;
/// `found` where there is none.
pub open spec fn scope_above(d: DocView, n: int, found: Option<int>) -> Option<int>
    decreases n,
{
    if !d.has(n) {
        found
    } else {
        let here = if scope_of(d, n) is Some {
            scope_of(d, n)
        } else {
            found
        };
        match d.nodes[n].parent {
            Some(p) => if !(0 <= p < n) || holds_members(d, p) {
                here
            } else {
                scope_above(d, p, here)
            },
            None => here,
        }
    }
}

/// The outermost local scope round the cursor's node, up to the members of the type that it
/// belongs to.
pub fn enclosing_local_scope_subtree(node: usize, doc: &LiveDoc) -> (r: Option<usize>)
    requires
        doc.wf(),
        node < doc.nodes@.len(),
    ensures
        match r {
            Some(s) => scope_above(doc.deep_view(), node as int, None) == Some(s as int) && s
                < doc.nodes@.len(),
            None => scope_above(doc.deep_view(), node as int, None) is None,
        },
{
    let ghost d = doc.deep_view();
    let mut found: Option<usize> = None;
    let mut cur: usize = node;
    loop
        invariant
            doc.wf(),
            d == doc.deep_view(),
            cur <= node < doc.nodes@.len(),
            match found {
                Some(s) => s < doc.nodes@.len() && scope_above(d, node as int, None)
                    == scope_above(d, cur as int, Some(s as int)),
                None => scope_above(d, node as int, None) == scope_above(d, cur as int, None),
            },
        decreases cur,
    {
        if doc.kind_is(cur, "lambda_literal") {
            found = Some(cur);
        } else if doc.kind_is(cur, "function_declaration") {
            if let Some(body) = doc.first_child_of_kind(cur, "function_body") {
                found = Some(body);
            }
        }
        match doc.parent(cur) {
            Some(p) => {
                if is_member_container(p, doc) {
                    return found;
                }
                cur = p;
            },
            None => {
                return found;
            },
        }
    }
}

/// The nodes under which the locals of a scope are declared: for the body of a function the
/// function first.
pub open spec fn search_roots(d: DocView, scope: int) -> Seq<int> {
    match d.nodes[scope].parent {
        Some(p) => if d.kind(scope) == "function_body"@ {
            seq![p, scope]
        } else {
            seq![scope]
        },
        None => seq![scope],
    }
}

/// The nodes under which the locals of a scope are declared.
pub fn local_scope_search_roots(scope_root: usize, doc: &LiveDoc) -> (r: Vec<usize>)
    requires
        doc.wf(),
        scope_root < doc.nodes@.len(),
    ensures
        r@.map_values(|c: usize| c as int) == search_roots(doc.deep_view(), scope_root as int),
        forall|i: int| 0 <= i < r@.len() ==> #[trigger] r@[i] < doc.nodes@.len(),
{
    let mut out: Vec<usize> = Vec::new();
    if doc.kind_is(scope_root, "function_body") {
        if let Some(p) = doc.parent(scope_root) {
            out.push(p);
        }
    }
    out.push(scope_root);
    assert(out@.map_values(|c: usize| c as int) =~= search_roots(
        doc.deep_view(),
        scope_root as int,
    ));
    out
}

// ---------------------------------------------------------------------------
// Shadowing
// ---------------------------------------------------------------------------

/// Whether a node itself declares the name: as a local, as a function's parameter or as a
/// lambda's.
pub open spec fn declares_here(d: DocView, n: int, name: Seq<char>) -> bool {
    ||| local_names(d, n, name)
    ||| d.kind(n) == "function_declaration"@ && param_named(d, n, name)
    ||| d.kind(n) == "lambda_literal"@ && d.lambda_place(n, name) is Some
}

/// Whether a node or one below it declares the name.
pub open spec fn declared_below(d: DocView, n: int, name: Seq<char>) -> bool
    decreases d.nodes.len() - n, d.nodes[n].children.len() + 1,
{
    d.has(n) && (declares_here(d, n, name) || declared_by_child(
        d,
        n,
        d.nodes[n].children.len(),
        name,
    ))
}

/// Whether one of the first `k` children of a node, or a node below one, declares the name.
pub open spec fn declared_by_child(d: DocView, n: int, k: nat, name: Seq<char>) -> bool
    decreases d.nodes.len() - n, k,
{
    if k == 0 || !d.has(n) {
        false
    } else {
        let c = d.nodes[n].children[k - 1];
        declared_by_child(d, n, (k - 1) as nat, name) || (n < c < d.nodes.len() && declared_below(
            d,
            c,
            name,
        ))
    }
}

/// Whether a node or one below it declares the name.
pub fn local_name_bound_in_subtree(n: usize, doc: &LiveDoc, name: &str) -> (r: bool)
    requires
        doc.wf(),
        n < doc.nodes@.len(),
    ensures
        r == declared_below(doc.deep_view(), n as int, name@),
    decreases doc.nodes@.len() - n,
{
    let ghost d = doc.deep_view();
    if local_binding_binds_name(n, doc, name) {
        return true;
    }
    if doc.kind_is(n, "function_declaration") && function_has_parameter(n, doc, name) {
        return true;
    }
    if doc.kind_is(n, "lambda_literal") && doc.lambda_param_position(n, name).is_some() {
        return true;
    }
    let ghost all = d.nodes[n as int].children;
    let list = &doc.nodes[n].children;
    let mut i: usize = 0;
    proof {
        assert(d.node_ok(n as int));
        assert(d.nodes[n as int] == doc.nodes@[n as int].deep_view());
    }
    while i < list.len()
        invariant
            doc.wf(),
            n < doc.nodes@.len(),
            d == doc.deep_view(),
            d.node_ok(n as int),
            all == d.nodes[n as int].children,
            all == list@.map_values(|c: usize| c as int),
            i <= list@.len(),
            !declared_by_child(d, n as int, i as nat, name@),
        decreases list@.len() - i,
    {
        let c: usize = list[i];
        assert(all[i as int] == c as int);
        if local_name_bound_in_subtree(c, doc, name) {
            proof {
                assert(declared_by_child(d, n as int, (i + 1) as nat, name@));
                lemma_declared_by_child(d, n as int, (i + 1) as nat, all.len(), name@);
            }
            return true;
        }
        i += 1;
    }
    false
}

proof fn lemma_declared_by_child(d: DocView, n: int, k: nat, m: nat, name: Seq<char>)
    requires
        k <= m,
        d.has(n),
        declared_by_child(d, n, k, name),
    ensures
        declared_by_child(d, n, m, name),
    decreases m,
{
    if k < m {
        lemma_declared_by_child(d, n, k, (m - 1) as nat, name);
    }
}

/// Whether a local declaration hides what the name would mean without it: one below the local
/// scope round the node.
pub open spec fn shadowed(d: DocView, node: int, name: Seq<char>) -> bool {
    match scope_above(d, node, None) {
        Some(s) => declared_under(d, search_roots(d, s), name),
        None => false,
    }
}

/// Whether one of some nodes, or one below it, declares the name.
pub open spec fn declared_under(d: DocView, roots: Seq<int>, name: Seq<char>) -> bool {
    exists|i: int| 0 <= i < roots.len() && declared_below(d, #[trigger] roots[i], name)
}

/// Whether a local declaration hides what the name would mean without it.
pub fn name_shadowed_by_local_declaration(cursor: &CstCursor, name: &str) -> (r: bool)
    requires
        cursor.wf(),
    ensures
        r == shadowed(cursor.doc.deep_view(), cursor.node as int, name@),
{
    let doc = cursor.doc;
    let ghost d = doc.deep_view();
    let s: usize = match enclosing_local_scope_subtree(cursor.node, doc) {
        Some(s) => s,
        None => {
            return false;
        },
    };
    let roots = local_scope_search_roots(s, doc);
    let ghost all = search_roots(d, s as int);
    let mut i: usize = 0;
    while i < roots.len()
        invariant
            doc.wf(),
            d == doc.deep_view(),
            all == roots@.map_values(|c: usize| c as int),
            all == search_roots(d, s as int),
            scope_above(d, cursor.node as int, None) == Some(s as int),
            d == cursor.doc.deep_view(),
            i <= roots@.len(),
            forall|k: int| 0 <= k < roots@.len() ==> #[trigger] roots@[k] < doc.nodes@.len(),
            forall|k: int| 0 <= k < i ==> !declared_below(d, #[trigger] all[k], name@),
        decreases roots@.len() - i,
    {
        assert(all[i as int] == roots@[i as int] as int);
        if local_name_bound_in_subtree(roots[i], doc, name) {
            assert(declared_below(d, all[i as int], name@));
            assert(declared_under(d, all, name@));
            return true;
        }
        i += 1;
    }
    false
}

// ---------------------------------------------------------------------------
// Types of variables
// ---------------------------------------------------------------------------

/// The first type that a parameter of the name writes, among some nodes.
pub open spec fn param_type_in(d: DocView, list: Seq<int>, name: Seq<char>) -> Option<Seq<char>>
    decreases list.len(),
{
    if list.len() == 0 {
        None
    } else {
        let c = list[0];
        let here = if d.kind(c) == "parameter"@ && d.ident_in(c) == Some(name) {
            annotation(d, c)
        } else {
            None
        };
        receiver::either(here, param_type_in(d, list.skip(1), name))
    }
}

/// The type of a function's parameter.
pub open spec fn param_type(d: DocView, n: int, name: Seq<char>) -> Option<Seq<char>> {
    match d.child_of(n, "function_value_parameters"@) {
        Some(p) => param_type_in(d, d.nodes[p].children, name),
        None => None,
    }
}

/// The type that a parameter writes, where it bears the name.
pub fn parameter_type_if_named(parameter: usize, name: &str, doc: &LiveDoc) -> (r: Option<String>)
    requires
        doc.wf(),
        parameter < doc.nodes@.len(),
    ensures
        r.deep_view() == if doc.deep_view().ident_in(parameter as int) == Some(name@) {
            annotation(doc.deep_view(), parameter as int)
        } else {
            None
        },
{
    if names_node(parameter, doc, name) {
        type_annotation_from_node(parameter, doc)
    } else {
        None
    }
}

/// The type of a function's parameter.
pub fn function_parameter_type(n: usize, name: &str, doc: &LiveDoc) -> (r: Option<String>)
    requires
        doc.wf(),
        n < doc.nodes@.len(),
    ensures
        r.deep_view() == param_type(doc.deep_view(), n as int, name@),
{
    let p: usize = match doc.first_child_of_kind(n, "function_value_parameters") {
        Some(p) => p,
        None => {
            return None;
        },
    };
    let ghost d = doc.deep_view();
    let ghost all = d.nodes[p as int].children;
    let list = &doc.nodes[p].children;
    let mut i: usize = 0;
    proof {
        assert(d.node_ok(p as int));
        assert(d.nodes[p as int] == doc.nodes@[p as int].deep_view());
        assert(all.skip(0) =~= all);
    }
    while i < list.len()
        invariant
            doc.wf(),
            p < doc.nodes@.len(),
            d == doc.deep_view(),
            d.node_ok(p as int),
            all == d.nodes[p as int].children,
            all == list@.map_values(|c: usize| c as int),
            d.child_of(n as int, "function_value_parameters"@) == Some(p as int),
            i <= list@.len(),
            param_type_in(d, all, name@) == param_type_in(d, all.skip(i as int), name@),
        decreases list@.len() - i,
    {
        let c: usize = list[i];
        proof {
            assert(all[i as int] == c as int);
            assert(all.skip(i as int)[0] == c as int);
            assert(all.skip(i as int).skip(1) =~= all.skip(i + 1));
        }
        if doc.kind_is(c, "parameter") {
            let found = parameter_type_if_named(c, name, doc);
            if found.is_some() {
                return found;
            }
        }
        i += 1;
    }
    assert(all.skip(i as int).len() == 0);
    None
}

/// The type of a `val` or `var` of the name: as it is written, else the binding class that its
/// initializer or its delegate yields.
pub open spec fn property_type(d: DocView, n: int, name: Seq<char>) -> Option<Seq<char>> {
    if property_names(d, n, name) {
        match d.child_of(n, "variable_declaration"@) {
            Some(v) => receiver::either(
                annotation(d, v),
                receiver::either(initializer_in(d, d.nodes[v].children), delegate_binding(d, n)),
            ),
            None => None,
        }
    } else {
        None
    }
}

/// The type of a `val` or `var` of the name.
pub fn property_declaration_type(n: usize, name: &str, doc: &LiveDoc) -> (r: Option<String>)
    requires
        doc.wf(),
        n < doc.nodes@.len(),
    ensures
        r.deep_view() == property_type(doc.deep_view(), n as int, name@),
{
    if !property_declaration_binds_name(n, doc, name) {
        return None;
    }
    let v: usize = match doc.first_child_of_kind(n, "variable_declaration") {
        Some(v) => v,
        None => {
            return None;
        },
    };
    let written = type_annotation_from_node(v, doc);
    if written.is_some() {
        return written;
    }
    let built = initializer_type_from_variable_declaration(v, doc);
    if built.is_some() {
        return built;
    }
    binding_of_delegate(n, doc)
}

/// The type that a local of the name has by what is declared at or below a node, before a place
/// of the text: a function's parameter, a `val` or `var`, else the last one found below.
pub open spec fn local_type(d: DocView, n: int, name: Seq<char>, before: int) -> Option<Seq<char>>
    decreases d.nodes.len() - n, d.nodes[n].children.len() + 1,
{
    if !d.has(n) || d.nodes[n].start >= before {
        None
    } else {
        let of_param = if d.kind(n) == "function_declaration"@ {
            param_type(d, n, name)
        } else {
            None
        };
        receiver::either(
            of_param,
            receiver::either(
                property_type(d, n, name),
                latest_type(d, n, d.nodes[n].children.len(), name, before),
            ),
        )
    }
}

/// The last type found below the first `k` children of a node.
pub open spec fn latest_type(
    d: DocView,
    n: int,
    k: nat,
    name: Seq<char>,
    before: int,
) -> Option<Seq<char>>
    decreases d.nodes.len() - n, k,
{
    if k == 0 || !d.has(n) {
        None
    } else {
        let c = d.nodes[n].children[k - 1];
        let here = if n < c < d.nodes.len() {
            local_type(d, c, name, before)
        } else {
            None
        };
        receiver::either(here, latest_type(d, n, (k - 1) as nat, name, before))
    }
}

/// The type that a local of the name has by what is declared at or below a node, before a place
/// of the text.
pub fn local_type_for_name_in_subtree_before(
    n: usize,
    doc: &LiveDoc,
    name: &str,
    before: usize,
) -> (r: Option<String>)
    requires
        doc.wf(),
        n < doc.nodes@.len(),
    ensures
        r.deep_view() == local_type(doc.deep_view(), n as int, name@, before as int),
    decreases doc.nodes@.len() - n,
{
    let ghost d = doc.deep_view();
    proof {
        assert(d.node_ok(n as int));
        assert(d.nodes[n as int] == doc.nodes@[n as int].deep_view());
    }
    if doc.nodes[n].start >= before {
        return None;
    }
    if doc.kind_is(n, "function_declaration") {
        let of_param = function_parameter_type(n, name, doc);
        if of_param.is_some() {
            return of_param;
        }
    }
    let own = property_declaration_type(n, name, doc);
    if own.is_some() {
        return own;
    }
    let ghost all = d.nodes[n as int].children;
    let list = &doc.nodes[n].children;
    let mut latest: Option<String> = None;
    let mut i: usize = 0;
    while i < list.len()
        invariant
            doc.wf(),
            n < doc.nodes@.len(),
            d == doc.deep_view(),
            d.node_ok(n as int),
            all == d.nodes[n as int].children,
            all == list@.map_values(|c: usize| c as int),
            i <= list@.len(),
            latest.deep_view() == latest_type(d, n as int, i as nat, name@, before as int),
        decreases list@.len() - i,
    {
        let c: usize = list[i];
        assert(all[i as int] == c as int);
        let found = local_type_for_name_in_subtree_before(c, doc, name, before);
        if found.is_some() {
            latest = found;
        }
        i += 1;
    }
    latest
}

/// The first type that a member of the name has, among some nodes.
pub open spec fn member_type_in(d: DocView, list: Seq<int>, name: Seq<char>) -> Option<Seq<char>>
    decreases list.len(),
{
    if list.len() == 0 {
        None
    } else {
        receiver::either(property_type(d, list[0], name), member_type_in(d, list.skip(1), name))
    }
}

/// The type of a property that a container declares.
pub fn member_property_type(container: usize, name: &str, doc: &LiveDoc) -> (r: Option<String>)
    requires
        doc.wf(),
        container < doc.nodes@.len(),
    ensures
        r.deep_view() == member_type_in(
            doc.deep_view(),
            doc.deep_view().nodes[container as int].children,
            name@,
        ),
{
    let ghost d = doc.deep_view();
    let ghost all = d.nodes[container as int].children;
    let list = &doc.nodes[container].children;
    let mut i: usize = 0;
    proof {
        assert(d.node_ok(container as int));
        assert(d.nodes[container as int] == doc.nodes@[container as int].deep_view());
        assert(all.skip(0) =~= all);
    }
    while i < list.len()
        invariant
            doc.wf(),
            container < doc.nodes@.len(),
            d == doc.deep_view(),
            d.node_ok(container as int),
            all == d.nodes[container as int].children,
            all == list@.map_values(|c: usize| c as int),
            i <= list@.len(),
            member_type_in(d, all, name@) == member_type_in(d, all.skip(i as int), name@),
        decreases list@.len() - i,
    {
        let c: usize = list[i];
        proof {
            assert(all[i as int] == c as int);
            assert(all.skip(i as int)[0] == c as int);
            assert(all.skip(i as int).skip(1) =~= all.skip(i + 1));
        }
        let found = property_declaration_type(c, name, doc);
        if found.is_some() {
            return found;
        }
        i += 1;
    }
    assert(all.skip(i as int).len() == 0);
    None
}

/// The type of the property of the name in the nearest type body, or the file, above a node.
pub open spec fn member_type_above(d: DocView, n: int, name: Seq<char>) -> Option<Seq<char>>
    decreases n,
{
    if !d.has(n) {
        None
    } else {
        match d.nodes[n].parent {
            Some(p) => if !(0 <= p < n) {
                None
            } else if holds_members(d, p) {
                member_type_in(d, d.nodes[p].children, name)
            } else {
                member_type_above(d, p, name)
            },
            None => None,
        }
    }
}

/// The type that locals of the name have under the first of some roots that knows one.
pub open spec fn local_type_in(d: DocView, roots: Seq<int>, name: Seq<char>, before: int) -> Option<
    Seq<char>,
>
    decreases roots.len(),
{
    if roots.len() == 0 {
        None
    } else {
        receiver::either(
            local_type(d, roots[0], name, before),
            local_type_in(d, roots.skip(1), name, before),
        )
    }
}

/// The type of a variable that is visible at a node and place of the text: that of a local,
/// else of a property of the nearest type, or of the file.
pub open spec fn variable_type(d: DocView, node: int, name: Seq<char>, at: int) -> Option<
    Seq<char>,
> {
    let local = match scope_above(d, node, None) {
        Some(s) => local_type_in(d, search_roots(d, s), name, at),
        None => None,
    };
    receiver::either(local, member_type_above(d, node, name))
}

/// The type of a variable that is visible at a cursor, which stands before the character `at`
/// of the text.
pub fn variable_type_at(cursor: &CstCursor, name: &str, at: usize) -> (r: Option<String>)
    requires
        cursor.wf(),
    ensures
        r.deep_view() == variable_type(
            cursor.doc.deep_view(),
            cursor.node as int,
            name@,
            at as int,
        ),
{
    let doc = cursor.doc;
    let ghost d = doc.deep_view();
    if let Some(s) = enclosing_local_scope_subtree(cursor.node, doc) {
        let roots = local_scope_search_roots(s, doc);
        let ghost all = search_roots(d, s as int);
        let mut i: usize = 0;
        assert(all.skip(0) =~= all);
        while i < roots.len()
            invariant
                doc.wf(),
                d == doc.deep_view(),
                d == cursor.doc.deep_view(),
                scope_above(d, cursor.node as int, None) == Some(s as int),
                all == roots@.map_values(|c: usize| c as int),
                all == search_roots(d, s as int),
                i <= roots@.len(),
                forall|k: int| 0 <= k < roots@.len() ==> #[trigger] roots@[k] < doc.nodes@.len(),
                local_type_in(d, all, name@, at as int) == local_type_in(
                    d,
                    all.skip(i as int),
                    name@,
                    at as int,
                ),
            decreases roots@.len() - i,
        {
            proof {
                assert(all[i as int] == roots@[i as int] as int);
                assert(all.skip(i as int)[0] == all[i as int]);
                assert(all.skip(i as int).skip(1) =~= all.skip(i + 1));
            }
            let found = local_type_for_name_in_subtree_before(roots[i], doc, name, at);
            if found.is_some() {
                return found;
            }
            i += 1;
        }
        assert(all.skip(i as int).len() == 0);
    }
    let mut cur: usize = cursor.node;
    loop
        invariant
            doc.wf(),
            d == doc.deep_view(),
            cur < doc.nodes@.len(),
            member_type_above(d, cursor.node as int, name@) == member_type_above(
                d,
                cur as int,
                name@,
            ),
            variable_type(d, cursor.node as int, name@, at as int) == member_type_above(
                d,
                cursor.node as int,
                name@,
            ),
            d == cursor.doc.deep_view(),
        decreases cur,
    {
        match doc.parent(cur) {
            Some(p) => {
                if is_member_container(p, doc) {
                    return member_property_type(p, name, doc);
                }
                cur = p;
            },
            None => {
                return None;
            },
        }
    }
}

// ---------------------------------------------------------------------------
// Enclosing types
// ---------------------------------------------------------------------------

/// The name that a type declaration gives.
pub open spec fn type_name_of(d: DocView, n: int) -> Option<Seq<char>> {
    match d.child_of(n, "type_identifier"@) {
        Some(c) => Some(d.node_text(c)),
        None => d.ident_in(n),
    }
}

fn extract_type_name(n: usize, doc: &LiveDoc) -> (r: Option<String>)
    requires
        doc.wf(),
        n < doc.nodes@.len(),
    ensures
        r.deep_view() == type_name_of(doc.deep_view(), n as int),
{
    match doc.first_child_of_kind(n, "type_identifier") {
        Some(c) => Some(doc.text_of(c).to_owned()),
        None => match doc.ident_text(n) {
            Some(t) => Some(t.to_owned()),
            None => None,
        },
    }
}

/// Whether a node declares a type.
pub open spec fn declares_type(d: DocView, n: int) -> bool {
    d.kind(n) == "class_declaration"@ || d.kind(n) == "interface_declaration"@ || d.kind(n)
        == "object_declaration"@ || d.kind(n) == "companion_object"@
}

/// Whether one of some nodes is a class body that begins above the row.
pub open spec fn body_above(d: DocView, list: Seq<int>, row: int) -> bool {
    exists|i: int|
        0 <= i < list.len() && d.kind(#[trigger] list[i]) == "class_body"@ && d.nodes[list[i]].row
            < row
}

fn has_body_above(n: usize, doc: &LiveDoc, row: usize) -> (r: bool)
    requires
        doc.wf(),
        n < doc.nodes@.len(),
    ensures
        r == body_above(doc.deep_view(), doc.deep_view().nodes[n as int].children, row as int),
{
    let ghost d = doc.deep_view();
    let ghost all = d.nodes[n as int].children;
    let list = &doc.nodes[n].children;
    let mut i: usize = 0;
    proof {
        assert(d.node_ok(n as int));
        assert(d.nodes[n as int] == doc.nodes@[n as int].deep_view());
    }
    while i < list.len()
        invariant
            doc.wf(),
            n < doc.nodes@.len(),
            d == doc.deep_view(),
            d.node_ok(n as int),
            all == d.nodes[n as int].children,
            all == list@.map_values(|c: usize| c as int),
            i <= list@.len(),
            forall|k: int|
                0 <= k < i ==> !(d.kind(#[trigger] all[k]) == "class_body"@ && d.nodes[all[k]].row
                    < row),
        decreases list@.len() - i,
    {
        let c: usize = list[i];
        proof {
            assert(all[i as int] == c as int);
            assert(d.nodes[c as int] == doc.nodes@[c as int].deep_view());
        }
        if doc.kind_is(c, "class_body") && doc.nodes[c].row < row {
            return true;
        }
        i += 1;
    }
    false
}

/// The name of the type that a node declares, where the row lies in its body.
pub open spec fn type_round(d: DocView, n: int, row: int) -> Option<Seq<char>> {
    if declares_type(d, n) && d.nodes[n].row < row && body_above(d, d.nodes[n].children, row) {
        type_name_of(d, n)
    } else {
        None
    }
}

/// The name of the nearest type, from a node upwards, in whose body the row lies.
pub open spec fn type_above(d: DocView, n: int, row: int) -> Option<Seq<char>>
    decreases n,
{
    if !d.has(n) {
        None
    } else {
        match type_round(d, n, row) {
            Some(name) => Some(name),
            None => match d.nodes[n].parent {
                Some(p) => if 0 <= p < n {
                    type_above(d, p, row)
                } else {
                    None
                },
                None => None,
            },
        }
    }
}

/// The name of the nearest type round the cursor's node in whose body the row lies.
pub fn enclosing_class_in_tree(cursor: &CstCursor, row: usize) -> (r: Option<String>)
    requires
        cursor.wf(),
    ensures
        r.deep_view() == type_above(cursor.doc.deep_view(), cursor.node as int, row as int),
{
    let doc = cursor.doc;
    let ghost d = doc.deep_view();
    let mut cur: usize = cursor.node;
    loop
        invariant
            doc.wf(),
            d == doc.deep_view(),
            cur < doc.nodes@.len(),
            type_above(d, cursor.node as int, row as int) == type_above(d, cur as int, row as int),
            d == cursor.doc.deep_view(),
        decreases cur,
    {
        assert(d.nodes[cur as int] == doc.nodes@[cur as int].deep_view());
        let declares = doc.kind_is(cur, "class_declaration") || doc.kind_is(
            cur,
            "interface_declaration",
        ) || doc.kind_is(cur, "object_declaration") || doc.kind_is(cur, "companion_object");
        if declares && doc.nodes[cur].row < row && has_body_above(cur, doc, row) {
            let name = extract_type_name(cur, doc);
            if name.is_some() {
                return name;
            }
        }
        match doc.parent(cur) {
            Some(p) => {
                cur = p;
            },
            None => {
                return None;
            },
        }
    }
}

/// The type that encloses a row of a file: by the syntax tree, else by the text that was
/// indexed.
pub open spec fn enclosing_class(
    v: IndexView,
    uri: Seq<char>,
    row: int,
    cursor: Option<CstCursorView>,
) -> Option<Seq<char>> {
    let by_tree = match cursor {
        Some(c) => type_above(c.doc, c.node, row),
        None => None,
    };
    receiver::either(
        by_tree,
        if v.files.dom().contains(uri) {
            scope::enclosing_type(v.files[uri].lines, row)
        } else {
            None
        },
    )
}

impl Indexer {
    /// The type that encloses a row of a file: by the syntax tree, where `cursor` is the node
    /// at the row, else by the text that was indexed.
    pub fn enclosing_class_at(&self, uri: &str, row: u32, cursor: Option<&CstCursor>) -> (r: Option<
        String,
    >)
        requires
            self.wf(),
            cursor is Some ==> cursor.unwrap().wf(),
            self@.files.dom().contains(uri@) ==> scope::braces_from(
                self@.files[uri@].lines,
                0,
            ) <= i32::MAX,
        ensures
            r.deep_view() == enclosing_class(self@, uri@, row as int, cursor.deep_view()),
    {
        if let Some(c) = cursor {
            let found = enclosing_class_in_tree(c, row as usize);
            if found.is_some() {
                return found;
            }
        }
        match self.files.get(uri) {
            Some(file) => scope::enclosing_class_in_text(&file.lines, row as usize),
            None => None,
        }
    }

    /// The parameters of the lambdas round a cursor: by the syntax tree where there is one,
    /// else by the text.
    pub fn lambda_params_at_col(
        &self,
        uri: &str,
        cursor_line: usize,
        cursor_col: usize,
        cursor: Option<&CstCursor>,
    ) -> (r: Vec<String>)
        requires
            self.wf(),
            cursor is Some ==> cursor.unwrap().wf(),
        ensures
            r.deep_view() == match cursor.deep_view() {
                Some(c) => params_above(c.doc, c.node, Seq::empty()),
                None => scope::lambda_params_at(
                    match scope::known_lines(self@, uri@) {
                        Some(l) => l,
                        None => Seq::empty(),
                    },
                    cursor_line as int,
                    cursor_col as int,
                ),
            },
    {
        match cursor {
            Some(c) => collect_cst_lambda_params(c.node, c.doc),
            None => self.text_lambda_params_at_col(uri, cursor_line, cursor_col),
        }
    }
}

// ---------------------------------------------------------------------------
// Types of lambda parameters
// ---------------------------------------------------------------------------

/// The type of a name that may be `it`, `this` or a lambda's parameter. Where no lambda says
/// what `it` or `this` is, it is what its place as an argument says, and `this` last of all the
/// enclosing class; but `this` in a lambda with a receiver of an unknown type is neither.
pub open spec fn inferred_type(
    f: Facts,
    name: Seq<char>,
    lines: Seq<Seq<char>>,
    pos: CursorPos,
    has_doc: bool,
    cursor: Option<CstCursorView>,
    call_arg_type: Option<Seq<char>>,
    class: Option<Seq<char>>,
    uri: Seq<char>,
) -> Option<Seq<char>> {
    if name == "this"@ {
        match it_this::this_context(f, lines, pos, cursor, uri) {
            ThisView::Resolved(t) => Some(t),
            ThisView::InsideReceiver => None,
            ThisView::NotFound => receiver::either(call_arg_type, class),
        }
    } else if name == "it"@ {
        receiver::either(
            it_this::implicit_type(f, lines, pos, cursor, LambdaParamKind::It, uri),
            call_arg_type,
        )
    } else if has_doc {
        it_this::named_type_in(f, lines, name, pos, cursor, uri)
    } else {
        None
    }
}

/// The type of a name that may be `it`, `this` or a lambda's parameter. `has_doc` says whether
/// the file has a syntax tree, `cursor` where in it the name stands; `call_arg_type` is what
/// the name's place as an argument says of it and `class` the enclosing class.
pub fn infer_lambda_param_type_at<D: InferDeps>(
    name: &str,
    lines: &Vec<String>,
    pos: CursorPos,
    has_doc: bool,
    cursor: Option<&CstCursor>,
    call_arg_type: Option<String>,
    class: Option<String>,
    deps: &D,
    uri: &str,
) -> (r: Option<String>)
    requires
        deps.ready(),
        cursor is Some ==> cursor.unwrap().wf(),
    ensures
        r.deep_view() == inferred_type(
            deps.facts(),
            name@,
            lines.deep_view(),
            pos,
            has_doc,
            cursor.deep_view(),
            call_arg_type.deep_view(),
            class.deep_view(),
            uri@,
        ),
{
    if text::same(name, "this") {
        return match it_this::find_this_context_in_lines(lines, pos, cursor, deps, uri) {
            ThisContext::Resolved(t) => Some(t),
            ThisContext::InsideReceiver => None,
            ThisContext::NotFound => match call_arg_type {
                Some(t) => Some(t),
                None => class,
            },
        };
    }
    if text::same(name, "it") {
        let found = it_this::find_it_element_type_in_lines(lines, pos, cursor, deps, uri);
        return match found {
            Some(t) => Some(t),
            None => call_arg_type,
        };
    }
    if has_doc {
        it_this::find_named_lambda_param_type_in_lines(lines, name, pos, cursor, deps, uri)
    } else {
        None
    }
}

/// In a lambda with a receiver of an unknown type `this` is not taken for the enclosing class.
pub proof fn law_unknown_receiver_is_not_the_class(
    f: Facts,
    lines: Seq<Seq<char>>,
    pos: CursorPos,
    has_doc: bool,
    cursor: Option<CstCursorView>,
    call_arg_type: Option<Seq<char>>,
    class: Option<Seq<char>>,
    uri: Seq<char>,
)
    requires
        it_this::this_context(f, lines, pos, cursor, uri) == ThisView::InsideReceiver,
    ensures
        inferred_type(
            f,
            "this"@,
            lines,
            pos,
            has_doc,
            cursor,
            call_arg_type,
            class,
            uri,
        ) is None,
{
}

} // verus!
