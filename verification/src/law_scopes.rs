//! What declarations in a syntax tree say of the types of variables and of what they hide.
use vstd::prelude::*;
use vstd::string::*;

use crate::cst::DocView;
use crate::cst_scope;
use crate::law_inputs;
use crate::law_receivers;
use crate::law_trees;
use crate::lists;
use crate::text;

verus! {

// ---------------------------------------------------------------------------
// Written types
// ---------------------------------------------------------------------------

/// Whether a node is a type that a declaration may write.
pub open spec fn is_type_node(d: DocView, c: int) -> bool {
    d.nodes[c].kind == "user_type"@ || d.nodes[c].kind == "nullable_type"@
}

/// Whether one of the first `k` children of a node is an identifier.
pub open spec fn named_before(d: DocView, n: int, k: int) -> bool {
    exists|i: int|
        0 <= i < k && d.nodes[#[trigger] d.nodes[n].children[i]].kind == "simple_identifier"@
}

/// Whether the first type after the name of a declaration is its child `k`.
pub open spec fn typed_by(d: DocView, n: int, k: int) -> bool {
    &&& 0 <= k < d.nodes[n].children.len()
    &&& is_type_node(d, d.nodes[n].children[k])
    &&& named_before(d, n, k)
    &&& forall|j: int|
        0 <= j < k && is_type_node(d, #[trigger] d.nodes[n].children[j]) ==> !named_before(d, n, j)
}

/// Whether a declaration writes no type after its name.
pub open spec fn untyped(d: DocView, n: int) -> bool {
    forall|j: int|
        0 <= j < d.nodes[n].children.len() && is_type_node(d, #[trigger] d.nodes[n].children[j])
            ==> !named_before(d, n, j)
}

/// Whether a type node says a type: a type as it is written, a nullable one without the question
/// marks at its end.
pub open spec fn says(d: DocView, c: int, t: Seq<char>) -> bool {
    if d.nodes[c].kind == "user_type"@ {
        t.len() > 0 && law_trees::reads(d, c, t)
    } else {
        (t.len() == 0 || t.last() != '?') && exists|marks: Seq<char>| #[trigger]
            law_trees::reads(d, c, t + marks) && forall|i: int|
            0 <= i < marks.len() ==> #[trigger] marks[i] == '?'
    }
}

/// Whether a declaration writes a type after its name.
pub open spec fn annotates(d: DocView, n: int, t: Seq<char>) -> bool {
    exists|k: int| #[trigger] typed_by(d, n, k) && says(d, d.nodes[n].children[k], t)
}

proof fn lemma_kinds()
    ensures
        "user_type"@ != "nullable_type"@,
        "simple_identifier"@ != "user_type"@,
        "simple_identifier"@ != "nullable_type"@,
{
    reveal_strlit("user_type");
    reveal_strlit("nullable_type");
    reveal_strlit("simple_identifier");
    assert("user_type"@.len() == 9);
    assert("nullable_type"@.len() == 13);
    assert("simple_identifier"@.len() == 17);
}

proof fn lemma_annotation_at(d: DocView, n: int, from: int, k: int)
    requires
        typed_by(d, n, k),
        0 <= from <= k,
    ensures
        cst_scope::annotation_in(
            d,
            d.nodes[n].children.skip(from),
            named_before(d, n, from),
        ) == cst_scope::annotation_in(d, d.nodes[n].children.skip(k), true),
    decreases k - from,
{
    let all = d.nodes[n].children;
    lemma_kinds();
    if from < k {
        let list = all.skip(from);
        assert(list[0] == all[from]);
        assert(list.skip(1) =~= all.skip(from + 1));
        if d.nodes[all[from]].kind == "simple_identifier"@ {
            assert(named_before(d, n, from + 1));
        } else if named_before(d, n, from) {
            let i = choose|i: int|
                0 <= i < from && d.nodes[#[trigger] d.nodes[n].children[i]].kind
                    == "simple_identifier"@;
            assert(named_before(d, n, from + 1));
            assert(!is_type_node(d, all[from]));
        } else {
            assert(!named_before(d, n, from + 1));
        }
        lemma_annotation_at(d, n, from + 1, k);
    }
}

proof fn lemma_no_annotation(d: DocView, n: int, from: int)
    requires
        untyped(d, n),
        0 <= from <= d.nodes[n].children.len(),
    ensures
        cst_scope::annotation_in(
            d,
            d.nodes[n].children.skip(from),
            named_before(d, n, from),
        ) is None,
    decreases d.nodes[n].children.len() - from,
{
    let all = d.nodes[n].children;
    lemma_kinds();
    if from < all.len() {
        let list = all.skip(from);
        assert(list[0] == all[from]);
        assert(list.skip(1) =~= all.skip(from + 1));
        if d.nodes[all[from]].kind == "simple_identifier"@ {
            assert(named_before(d, n, from + 1));
        } else if named_before(d, n, from) {
            let i = choose|i: int|
                0 <= i < from && d.nodes[#[trigger] d.nodes[n].children[i]].kind
                    == "simple_identifier"@;
            assert(named_before(d, n, from + 1));
            assert(!is_type_node(d, all[from]));
        } else {
            assert(!named_before(d, n, from + 1));
        }
        lemma_no_annotation(d, n, from + 1);
    }
}

/// The type of a declaration is the first type written after its name; a nullable type counts
/// without the question marks at its end.
pub proof fn law_written_type_is_read(d: DocView, n: int, t: Seq<char>)
    requires
        annotates(d, n, t),
    ensures
        cst_scope::annotation(d, n) == Some(t),
{
    let k = choose|k: int| #[trigger] typed_by(d, n, k) && says(d, d.nodes[n].children[k], t);
    let all = d.nodes[n].children;
    let c = all[k];
    lemma_kinds();
    lemma_annotation_at(d, n, 0, k);
    assert(all.skip(0) =~= all);
    assert(!named_before(d, n, 0));
    assert(all.skip(k)[0] == c);
    if d.nodes[c].kind != "user_type"@ {
        let marks = choose|marks: Seq<char>| #[trigger]
            law_trees::reads(d, c, t + marks) && forall|i: int|
                0 <= i < marks.len() ==> #[trigger] marks[i] == '?';
        let s = t + marks;
        let p = text::only('?');
        assert forall|i: int| s.len() - marks.len() <= i < s.len() implies p(#[trigger] s[i]) by {
            assert(marks[i - t.len()] == '?');
        }
        text::lemma_rspan_unique(s, p, marks.len() as int);
        assert(s.take(s.len() - marks.len()) =~= t);
    }
}

/// A declaration with a written type never has none.
pub proof fn law_written_type_is_some(d: DocView, n: int, k: int)
    requires
        typed_by(d, n, k),
        0 <= d.nodes[d.nodes[n].children[k]].start < d.nodes[d.nodes[n].children[k]].end
            <= d.text.len(),
    ensures
        cst_scope::annotation(d, n) is Some,
{
    let all = d.nodes[n].children;
    lemma_kinds();
    lemma_annotation_at(d, n, 0, k);
    assert(all.skip(0) =~= all);
    assert(!named_before(d, n, 0));
    assert(all.skip(k)[0] == all[k]);
}

/// A declaration that writes no type after its name has none.
pub proof fn law_unwritten_type_is_none(d: DocView, n: int)
    requires
        untyped(d, n),
    ensures
        cst_scope::annotation(d, n) is None,
{
    lemma_no_annotation(d, n, 0);
    assert(d.nodes[n].children.skip(0) =~= d.nodes[n].children);
    assert(!named_before(d, n, 0));
}

// ---------------------------------------------------------------------------
// Locals
// ---------------------------------------------------------------------------

/// Whether a node is a `val` or `var` of the name.
pub open spec fn is_property(d: DocView, n: int, name: Seq<char>) -> bool {
    d.nodes[n].kind == "property_declaration"@ && exists|v: int| #[trigger]
        law_trees::first_of(d, n, "variable_declaration"@, v) && law_trees::bears(d, v, name)
}

/// Whether a node is a `val` or `var` of the name with a written type.
pub open spec fn is_typed_property(d: DocView, n: int, name: Seq<char>, t: Seq<char>) -> bool {
    d.nodes[n].kind == "property_declaration"@ && exists|v: int| #[trigger]
        law_trees::first_of(d, n, "variable_declaration"@, v) && law_trees::bears(d, v, name) && annotates(d, v, t)
}

/// Whether a node is a function, one of whose parameters bears the name.
pub open spec fn takes(d: DocView, n: int, name: Seq<char>) -> bool {
    d.nodes[n].kind == "function_declaration"@ && exists|l: int, i: int| #[trigger]
        law_trees::first_of(d, n, "function_value_parameters"@, l) && 0 <= i < d.nodes[l].children.len()
            && d.nodes[#[trigger] d.nodes[l].children[i]].kind == "parameter"@ && law_trees::bears(
            d,
            d.nodes[l].children[i],
            name,
        )
}

/// Whether a node is a function, the first of whose parameters of the name has the written type.
pub open spec fn takes_typed(d: DocView, n: int, name: Seq<char>, t: Seq<char>) -> bool {
    d.nodes[n].kind == "function_declaration"@ && exists|l: int, i: int| #[trigger]
        law_trees::first_of(d, n, "function_value_parameters"@, l) && 0 <= i < d.nodes[l].children.len()
            && d.nodes[#[trigger] d.nodes[l].children[i]].kind == "parameter"@ && law_trees::bears(
            d,
            d.nodes[l].children[i],
            name,
        ) && annotates(d, d.nodes[l].children[i], t) && forall|j: int|
            0 <= j < i && d.nodes[#[trigger] d.nodes[l].children[j]].kind == "parameter"@ ==> !law_trees::bears(
                d,
                d.nodes[l].children[j],
                name,
            )
}

/// Whether each node of a way is a child of the one before it: `way[i + 1]` its child `at[i]`.
pub open spec fn descends(d: DocView, way: Seq<int>, at: Seq<int>) -> bool {
    &&& way.len() == at.len() + 1
    &&& forall|i: int| 0 <= i < way.len() ==> 0 <= #[trigger] way[i] < d.nodes.len()
    &&& forall|i: int|
        0 <= i < at.len() ==> 0 <= #[trigger] at[i] < d.nodes[way[i]].children.len()
            && d.nodes[way[i]].children[at[i]] == way[i + 1]
}

/// Whether no node from a node downwards is a `val`, `var` or function parameter of the name.
pub open spec fn quiet(d: DocView, n: int, name: Seq<char>) -> bool {
    forall|way: Seq<int>, at: Seq<int>| #[trigger]
        descends(d, way, at) && way[0] == n ==> !is_property(d, way.last(), name) && !takes(
            d,
            way.last(),
            name,
        )
}

proof fn lemma_is_property(d: DocView, n: int, name: Seq<char>)
    ensures
        cst_scope::property_names(d, n, name) == is_property(d, n, name),
{
    if is_property(d, n, name) {
        let v = choose|v: int| #[trigger]
            law_trees::first_of(d, n, "variable_declaration"@, v) && law_trees::bears(d, v, name);
        law_trees::lemma_first_of(d, n, "variable_declaration"@, v);
        law_trees::lemma_bears(d, v, name);
    } else if cst_scope::property_names(d, n, name) {
        lemma_child(d, n, "variable_declaration"@);
        let v = d.child_of(n, "variable_declaration"@).unwrap();
        lemma_ident(d, v, name);
    }
}

/// The first child of a kind that is found is the first.
proof fn lemma_child(d: DocView, n: int, kind: Seq<char>)
    ensures
        match d.child_of(n, kind) {
            Some(c) => law_trees::first_of(d, n, kind, c),
            None => law_trees::none_of(d, n, kind),
        },
{
    let list = d.nodes[n].children;
    let p = d.of_kind(kind);
    lists::lemma_first_is(list, p);
    match lists::first_where(list, p) {
        Some(k) => {
            let c = list[k];
            assert forall|j: int| 0 <= j < k implies d.nodes[#[trigger] list[j]].kind != kind by {
                assert(!p(list[j]));
            }
            assert(p(list[k]));
            assert(law_trees::first_of(d, n, kind, c));
        },
        None => {
            assert forall|j: int| 0 <= j < list.len() implies d.nodes[#[trigger] list[j]].kind
                != kind by {
                assert(!p(list[j]));
            }
        },
    }
}

proof fn lemma_ident(d: DocView, n: int, name: Seq<char>)
    requires
        d.ident_in(n) == Some(name),
    ensures
        law_trees::bears(d, n, name),
{
    lemma_child(d, n, "simple_identifier"@);
    let c = d.child_of(n, "simple_identifier"@).unwrap();
    assert(law_trees::first_of(d, n, "simple_identifier"@, c) && law_trees::reads(d, c, name));
}

proof fn lemma_param_type_in(d: DocView, l: int, from: int, name: Seq<char>)
    requires
        0 <= from <= d.nodes[l].children.len(),
        forall|j: int|
            from <= j < d.nodes[l].children.len() && d.nodes[#[trigger] d.nodes[l].children[j]].kind
                == "parameter"@ ==> !law_trees::bears(d, d.nodes[l].children[j], name),
    ensures
        cst_scope::param_type_in(d, d.nodes[l].children.skip(from), name) is None,
    decreases d.nodes[l].children.len() - from,
{
    let all = d.nodes[l].children;
    if from < all.len() {
        let list = all.skip(from);
        assert(list[0] == all[from]);
        assert(list.skip(1) =~= all.skip(from + 1));
        if d.nodes[all[from]].kind == "parameter"@ && d.ident_in(all[from]) == Some(name) {
            lemma_ident(d, all[from], name);
        }
        lemma_param_type_in(d, l, from + 1, name);
    }
}

proof fn lemma_param_type_at(d: DocView, l: int, from: int, i: int, name: Seq<char>, t: Seq<char>)
    requires
        0 <= from <= i < d.nodes[l].children.len(),
        d.nodes[d.nodes[l].children[i]].kind == "parameter"@,
        law_trees::bears(d, d.nodes[l].children[i], name),
        annotates(d, d.nodes[l].children[i], t),
        forall|j: int|
            0 <= j < i && d.nodes[#[trigger] d.nodes[l].children[j]].kind == "parameter"@ ==> !law_trees::bears(
                d,
                d.nodes[l].children[j],
                name,
            ),
    ensures
        cst_scope::param_type_in(d, d.nodes[l].children.skip(from), name) == Some(t),
    decreases i - from,
{
    let all = d.nodes[l].children;
    let list = all.skip(from);
    assert(list[0] == all[from]);
    assert(list.skip(1) =~= all.skip(from + 1));
    if from < i {
        if d.nodes[all[from]].kind == "parameter"@ && d.ident_in(all[from]) == Some(name) {
            lemma_ident(d, all[from], name);
        }
        lemma_param_type_at(d, l, from + 1, i, name, t);
    } else {
        law_trees::lemma_bears(d, all[i], name);
        law_written_type_is_read(d, all[i], t);
    }
}

proof fn lemma_takes_none(d: DocView, n: int, name: Seq<char>)
    requires
        !takes(d, n, name),
        d.nodes[n].kind == "function_declaration"@,
    ensures
        cst_scope::param_type(d, n, name) is None,
{
    lemma_child(d, n, "function_value_parameters"@);
    match d.child_of(n, "function_value_parameters"@) {
        Some(l) => {
            let all = d.nodes[l].children;
            assert forall|j: int| 0 <= j < all.len() && d.nodes[#[trigger] all[j]].kind
                == "parameter"@ implies !law_trees::bears(d, all[j], name) by {
                if law_trees::bears(d, all[j], name) {
                    assert(law_trees::first_of(d, n, "function_value_parameters"@, l));
                    assert(d.nodes[d.nodes[l].children[j]].kind == "parameter"@);
                }
            }
            lemma_param_type_in(d, l, 0, name);
            assert(all.skip(0) =~= all);
        },
        None => {},
    }
}

proof fn lemma_takes_typed(d: DocView, n: int, name: Seq<char>, t: Seq<char>)
    requires
        takes_typed(d, n, name, t),
    ensures
        cst_scope::param_type(d, n, name) == Some(t),
{
    let (l, i) = choose|l: int, i: int| #[trigger]
        law_trees::first_of(d, n, "function_value_parameters"@, l) && 0 <= i < d.nodes[l].children.len()
            && d.nodes[#[trigger] d.nodes[l].children[i]].kind == "parameter"@ && law_trees::bears(
            d,
            d.nodes[l].children[i],
            name,
        ) && annotates(d, d.nodes[l].children[i], t) && forall|j: int|
            0 <= j < i && d.nodes[#[trigger] d.nodes[l].children[j]].kind == "parameter"@ ==> !law_trees::bears(
                d,
                d.nodes[l].children[j],
                name,
            );
    law_trees::lemma_first_of(d, n, "function_value_parameters"@, l);
    lemma_param_type_at(d, l, 0, i, name, t);
    assert(d.nodes[l].children.skip(0) =~= d.nodes[l].children);
}

proof fn lemma_typed_property(d: DocView, n: int, name: Seq<char>, t: Seq<char>)
    requires
        is_typed_property(d, n, name, t),
    ensures
        cst_scope::property_type(d, n, name) == Some(t),
        is_property(d, n, name),
{
    let v = choose|v: int| #[trigger]
        law_trees::first_of(d, n, "variable_declaration"@, v) && law_trees::bears(d, v, name) && annotates(d, v, t);
    law_trees::lemma_first_of(d, n, "variable_declaration"@, v);
    lemma_is_property(d, n, name);
    law_written_type_is_read(d, v, t);
}

/// A node below a child of a quiet node is quiet too.
proof fn lemma_quiet_child(d: DocView, n: int, k: int, name: Seq<char>)
    requires
        quiet(d, n, name),
        0 <= n < d.nodes.len(),
        0 <= k < d.nodes[n].children.len(),
    ensures
        quiet(d, d.nodes[n].children[k], name),
{
    let c = d.nodes[n].children[k];
    assert forall|way: Seq<int>, at: Seq<int>| #[trigger]
        descends(d, way, at) && way[0] == c implies !is_property(d, way.last(), name) && !takes(
        d,
        way.last(),
        name,
    ) by {
        let longer = seq![n] + way;
        let places = seq![k] + at;
        assert forall|i: int| 0 <= i < longer.len() implies 0 <= #[trigger] longer[i]
            < d.nodes.len() by {
            if i > 0 {
                assert(longer[i] == way[i - 1]);
            }
        }
        assert forall|i: int| 0 <= i < places.len() implies 0 <= #[trigger] places[i]
            < d.nodes[longer[i]].children.len() && d.nodes[longer[i]].children[places[i]]
            == longer[i + 1] by {
            if i > 0 {
                assert(places[i] == at[i - 1]);
                assert(longer[i] == way[i - 1]);
                assert(longer[i + 1] == way[i]);
            } else {
                assert(longer[1] == way[0]);
            }
        }
        assert(descends(d, longer, places));
        assert(longer.last() == way.last());
    }
}

proof fn lemma_quiet_here(d: DocView, n: int, name: Seq<char>)
    requires
        quiet(d, n, name),
        0 <= n < d.nodes.len(),
    ensures
        !is_property(d, n, name),
        !takes(d, n, name),
{
    assert(descends(d, seq![n], Seq::empty()));
    assert(seq![n].last() == n);
}

/// Below a quiet node no local of the name has a type.
proof fn lemma_quiet(d: DocView, n: int, name: Seq<char>, before: int)
    requires
        d.wf(),
        quiet(d, n, name),
        0 <= n < d.nodes.len(),
    ensures
        cst_scope::local_type(d, n, name, before) is None,
    decreases d.nodes.len() - n, d.nodes[n].children.len() + 1,
{
    lemma_quiet_here(d, n, name);
    lemma_is_property(d, n, name);
    if d.nodes[n].kind == "function_declaration"@ {
        lemma_takes_none(d, n, name);
    }
    lemma_quiet_children(d, n, 0, d.nodes[n].children.len(), name, before);
}

/// Children that are quiet, or begin at the place or behind it, add nothing to what those before
/// them say.
proof fn lemma_quiet_children(d: DocView, n: int, j: int, k: nat, name: Seq<char>, before: int)
    requires
        d.wf(),
        0 <= n < d.nodes.len(),
        0 <= j <= k <= d.nodes[n].children.len(),
        forall|i: int|
            j <= i < k ==> quiet(d, #[trigger] d.nodes[n].children[i], name)
                || d.nodes[d.nodes[n].children[i]].start >= before || quiet(d, n, name),
    ensures
        cst_scope::latest_type(d, n, k, name, before) == cst_scope::latest_type(
            d,
            n,
            j as nat,
            name,
            before,
        ),
    decreases d.nodes.len() - n, k,
{
    if j < k {
        assert(d.node_ok(n));
        let c = d.nodes[n].children[k - 1];
        lemma_quiet_children(d, n, j, (k - 1) as nat, name, before);
        if d.nodes[c].start < before {
            if !quiet(d, c, name) {
                lemma_quiet_child(d, n, k - 1, name);
            }
            lemma_quiet(d, c, name, before);
        }
    }
}

/// Whether the declaration that a way leads down to is the last of the name before a place: all
/// that begins between it and the place is quiet, and nothing on the way declares the name.
pub open spec fn is_latest(
    d: DocView,
    way: Seq<int>,
    at: Seq<int>,
    name: Seq<char>,
    before: int,
) -> bool {
    &&& descends(d, way, at)
    &&& forall|i: int| 0 <= i < way.len() ==> d.nodes[#[trigger] way[i]].start < before
    &&& forall|i: int|
        0 <= i < at.len() ==> !is_property(d, #[trigger] way[i], name) && !takes(d, way[i], name)
    &&& forall|i: int, k: int|
        0 <= i < at.len() && at[i] < k < d.nodes[way[i]].children.len() ==> quiet(
            d,
            #[trigger] d.nodes[way[i]].children[k],
            name,
        ) || d.nodes[d.nodes[way[i]].children[k]].start >= before
}

/// The type of a local is the one that the last declaration of its name before the place writes.
#[verifier::rlimit(60)]
pub proof fn law_latest_declaration_counts(
    d: DocView,
    way: Seq<int>,
    at: Seq<int>,
    name: Seq<char>,
    t: Seq<char>,
    before: int,
)
    requires
        d.wf(),
        is_latest(d, way, at, name, before),
        is_typed_property(d, way.last(), name, t),
    ensures
        cst_scope::local_type(d, way[0], name, before) == Some(t),
    decreases way.len(),
{
    let n = way[0];
    assert(d.node_ok(n));
    lemma_is_property(d, n, name);
    reveal_strlit("property_declaration");
    reveal_strlit("function_declaration");
    assert("property_declaration"@[0] != "function_declaration"@[0]);
    if way.len() == 1 {
        lemma_typed_property(d, n, name, t);
    } else {
        let rest = way.skip(1);
        let places = at.skip(1);
        assert forall|i: int| 0 <= i < rest.len() implies 0 <= #[trigger] rest[i] < d.nodes.len()
            && d.nodes[rest[i]].start < before by {
            assert(rest[i] == way[i + 1]);
        }
        assert forall|i: int| 0 <= i < places.len() implies 0 <= #[trigger] places[i]
            < d.nodes[rest[i]].children.len() && d.nodes[rest[i]].children[places[i]]
            == rest[i + 1] by {
            assert(places[i] == at[i + 1]);
            assert(rest[i] == way[i + 1]);
            assert(rest[i + 1] == way[i + 2]);
        }
        assert forall|i: int| 0 <= i < places.len() implies !is_property(
            d,
            #[trigger] rest[i],
            name,
        ) && !takes(d, rest[i], name) by {
            assert(rest[i] == way[i + 1]);
        }
        assert forall|i: int, k: int|
            0 <= i < places.len() && places[i] < k < d.nodes[rest[i]].children.len() implies quiet(
            d,
            #[trigger] d.nodes[rest[i]].children[k],
            name,
        ) || d.nodes[d.nodes[rest[i]].children[k]].start >= before by {
            assert(rest[i] == way[i + 1]);
            assert(places[i] == at[i + 1]);
            assert(d.nodes[way[i + 1]].children[k] == d.nodes[rest[i]].children[k]);
        }
        assert(rest.last() == way.last());
        law_latest_declaration_counts(d, rest, places, name, t, before);
        let k = at[0];
        let c = way[1];
        assert(d.nodes[n].children[k] == c);
        assert(rest[0] == c);
        if d.nodes[n].kind == "function_declaration"@ {
            lemma_takes_none(d, n, name);
        }
        assert(!is_property(d, way[0], name));
        assert forall|i: int| k + 1 <= i < d.nodes[n].children.len() implies quiet(
            d,
            #[trigger] d.nodes[n].children[i],
            name,
        ) || d.nodes[d.nodes[n].children[i]].start >= before || quiet(d, n, name) by {
            assert(quiet(d, d.nodes[way[0]].children[i], name)
                || d.nodes[d.nodes[way[0]].children[i]].start >= before);
        }
        lemma_quiet_children(d, n, k + 1, d.nodes[n].children.len(), name, before);
        assert(cst_scope::latest_type(d, n, (k + 1) as nat, name, before) == Some(t));
    }
}

// ---------------------------------------------------------------------------
// Functions
// ---------------------------------------------------------------------------

/// Whether a node holds the members of a type, or a file.
pub open spec fn is_holder(d: DocView, n: int) -> bool {
    d.nodes[n].kind == "class_body"@ || d.nodes[n].kind == "enum_class_body"@ || d.nodes[n].kind
        == "source_file"@
}

/// Whether a way leads up from a node to the outermost function round it that belongs to a type
/// or a file. `body` is the body of that function.
pub open spec fn outermost(d: DocView, up: Seq<int>, body: int) -> bool {
    let fun = up.last();
    &&& law_trees::climbs(d, up)
    &&& d.nodes[fun].kind == "function_declaration"@
    &&& law_trees::first_of(d, fun, "function_body"@, body)
    &&& d.nodes[body].parent == Some(fun)
    &&& match d.nodes[fun].parent {
        Some(p) => is_holder(d, p),
        None => true,
    }
    &&& forall|i: int| 0 < i < up.len() ==> !is_holder(d, #[trigger] up[i])
}

proof fn lemma_scope(d: DocView, up: Seq<int>, body: int, found: Option<int>)
    requires
        d.wf(),
        outermost(d, up, body),
    ensures
        cst_scope::scope_above(d, up[0], found) == Some(body),
    decreases up.len(),
{
    let n = up[0];
    assert(d.node_ok(n));
    let here = if cst_scope::scope_of(d, n) is Some {
        cst_scope::scope_of(d, n)
    } else {
        found
    };
    if up.len() > 1 {
        law_trees::lemma_shorter(d, up);
        let rest = up.skip(1);
        assert(rest.last() == up.last());
        assert(!is_holder(d, up[1]));
        assert forall|i: int| 0 < i < rest.len() implies !is_holder(d, #[trigger] rest[i]) by {
            assert(rest[i] == up[i + 1]);
        }
        lemma_scope(d, rest, body, here);
    } else {
        law_trees::lemma_first_of(d, n, "function_body"@, body);
        reveal_strlit("lambda_literal");
        reveal_strlit("function_declaration");
        assert("lambda_literal"@[0] != "function_declaration"@[0]);
    }
}

/// A variable at a place in a function has the type that the last `val` or `var` of its name
/// before the place writes, though a member of the type or of the file bears the name too.
pub proof fn law_local_hides_members(
    d: DocView,
    up: Seq<int>,
    body: int,
    way: Seq<int>,
    at: Seq<int>,
    name: Seq<char>,
    t: Seq<char>,
    place: int,
)
    requires
        d.wf(),
        outermost(d, up, body),
        way.len() > 0,
        way[0] == up.last(),
        is_latest(d, way, at, name, place),
        is_typed_property(d, way.last(), name, t),
    ensures
        cst_scope::variable_type(d, up[0], name, place) == Some(t),
{
    lemma_scope(d, up, body, None);
    let b = choose|k: int|
        0 <= k < d.nodes[up.last()].children.len() && #[trigger] d.nodes[up.last()].children[k]
            == body && d.nodes[body].kind == "function_body"@ && forall|j: int|
            0 <= j < k ==> d.nodes[#[trigger] d.nodes[up.last()].children[j]].kind
                != "function_body"@;
    law_latest_declaration_counts(d, way, at, name, t, place);
    let roots = cst_scope::search_roots(d, body);
    assert(roots[0] == up.last());
}

/// A variable at a place in a function that takes a parameter of its name has the parameter's
/// type.
pub proof fn law_parameter_counts_first(
    d: DocView,
    up: Seq<int>,
    body: int,
    name: Seq<char>,
    t: Seq<char>,
    place: int,
)
    requires
        d.wf(),
        outermost(d, up, body),
        takes_typed(d, up.last(), name, t),
        d.nodes[up.last()].start < place,
    ensures
        cst_scope::variable_type(d, up[0], name, place) == Some(t),
{
    lemma_scope(d, up, body, None);
    lemma_takes_typed(d, up.last(), name, t);
    let roots = cst_scope::search_roots(d, body);
    assert(roots[0] == up.last());
}

/// Whether a node is a member of the name with a written type, and the first of its siblings to
/// bear the name.
pub open spec fn is_first_member(
    d: DocView,
    holder: int,
    k: int,
    name: Seq<char>,
    t: Seq<char>,
) -> bool {
    &&& 0 <= k < d.nodes[holder].children.len()
    &&& is_typed_property(d, d.nodes[holder].children[k], name, t)
    &&& forall|j: int|
        0 <= j < k ==> !is_property(d, #[trigger] d.nodes[holder].children[j], name)
}

proof fn lemma_member(d: DocView, holder: int, from: int, k: int, name: Seq<char>, t: Seq<char>)
    requires
        is_first_member(d, holder, k, name, t),
        0 <= from <= k,
    ensures
        cst_scope::member_type_in(d, d.nodes[holder].children.skip(from), name) == Some(t),
    decreases k - from,
{
    let all = d.nodes[holder].children;
    let list = all.skip(from);
    assert(list[0] == all[from]);
    assert(list.skip(1) =~= all.skip(from + 1));
    lemma_is_property(d, all[from], name);
    if from < k {
        assert(!is_property(d, all[from], name));
        lemma_member(d, holder, from + 1, k, name, t);
    } else {
        lemma_typed_property(d, all[k], name, t);
    }
}

proof fn lemma_member_above(d: DocView, up: Seq<int>, k: int, name: Seq<char>, t: Seq<char>)
    requires
        d.wf(),
        law_trees::climbs(d, up),
        up.len() > 1,
        is_holder(d, up.last()),
        forall|i: int| 0 < i < up.len() - 1 ==> !is_holder(d, #[trigger] up[i]),
        is_first_member(d, up.last(), k, name, t),
    ensures
        cst_scope::member_type_above(d, up[0], name) == Some(t),
    decreases up.len(),
{
    assert(d.node_ok(up[0]));
    assert(d.nodes[up[0]].parent == Some(up[1]));
    if up.len() == 2 {
        lemma_member(d, up[1], 0, k, name, t);
        assert(d.nodes[up[1]].children.skip(0) =~= d.nodes[up[1]].children);
    } else {
        let rest = up.skip(1);
        law_trees::lemma_shorter(d, up);
        assert(rest.last() == up.last());
        assert(!is_holder(d, up[1]));
        assert forall|i: int| 0 < i < rest.len() - 1 implies !is_holder(d, #[trigger] rest[i]) by {
            assert(rest[i] == up[i + 1]);
        }
        lemma_member_above(d, rest, k, name, t);
    }
}

/// A variable that no local of the function declares has the type of the member of the nearest
/// type, or of the file, that bears its name.
#[verifier::rlimit(60)]
pub proof fn law_member_of_the_nearest_type(
    d: DocView,
    up: Seq<int>,
    body: int,
    holder: int,
    k: int,
    name: Seq<char>,
    t: Seq<char>,
    place: int,
)
    requires
        d.wf(),
        outermost(d, up, body),
        quiet(d, up.last(), name),
        d.nodes[up.last()].parent == Some(holder),
        is_first_member(d, holder, k, name, t),
    ensures
        cst_scope::variable_type(d, up[0], name, place) == Some(t),
{
    lemma_scope(d, up, body, None);
    let fun = up.last();
    assert(d.node_ok(fun));
    let b = choose|k: int|
        0 <= k < d.nodes[fun].children.len() && #[trigger] d.nodes[fun].children[k] == body
            && d.nodes[body].kind == "function_body"@ && forall|j: int|
            0 <= j < k ==> d.nodes[#[trigger] d.nodes[fun].children[j]].kind != "function_body"@;
    lemma_quiet_child(d, fun, b, name);
    lemma_quiet(d, fun, name, place);
    lemma_quiet(d, body, name, place);
    let roots = cst_scope::search_roots(d, body);
    assert(roots =~= seq![fun, body]);
    assert(roots.skip(1) =~= seq![body]);
    assert(roots.skip(1).skip(1) =~= Seq::empty());
    reveal_with_fuel(cst_scope::local_type_in, 3);
    assert(cst_scope::local_type_in(d, roots, name, place) is None);
    let way = up + seq![holder];
    assert forall|i: int| 0 <= i < way.len() implies 0 <= #[trigger] way[i] < d.nodes.len() by {
        if i < up.len() {
            assert(way[i] == up[i]);
        }
    }
    assert forall|i: int| 0 <= i < way.len() - 1 implies d.nodes[#[trigger] way[i]].parent == Some(
        way[i + 1],
    ) by {
        assert(way[i] == up[i]);
        if i < up.len() - 1 {
            assert(way[i + 1] == up[i + 1]);
        }
    }
    assert forall|i: int| 0 < i < way.len() - 1 implies !is_holder(d, #[trigger] way[i]) by {
        assert(way[i] == up[i]);
    }
    lemma_member_above(d, way, k, name, t);
    assert(way[0] == up[0]);
}

// ---------------------------------------------------------------------------
// Shadowing
// ---------------------------------------------------------------------------

/// Whether a child of a node is of the kind and bears the name.
pub open spec fn some_bears(d: DocView, n: int, kind: Seq<char>, name: Seq<char>) -> bool {
    exists|i: int|
        0 <= i < d.nodes[n].children.len() && d.nodes[#[trigger] d.nodes[n].children[i]].kind == kind
            && law_trees::bears(d, d.nodes[n].children[i], name)
}

/// Whether the first child of a kind has a child of another that bears the name.
pub open spec fn lists_name(
    d: DocView,
    n: int,
    list: Seq<char>,
    kind: Seq<char>,
    name: Seq<char>,
) -> bool {
    exists|l: int| #[trigger] law_trees::first_of(d, n, list, l) && some_bears(d, l, kind, name)
}

/// Whether the first child of a kind bears the name.
pub open spec fn first_bears(d: DocView, n: int, kind: Seq<char>, name: Seq<char>) -> bool {
    exists|c: int| #[trigger] law_trees::first_of(d, n, kind, c) && law_trees::bears(d, c, name)
}

/// Whether a node declares a local of the name: a `val` or `var`, alone or among others; the
/// variable of a loop, of a `catch` or of a `when`; a parameter of a function or of a lambda.
pub open spec fn declares(d: DocView, n: int, name: Seq<char>) -> bool {
    let kind = d.nodes[n].kind;
    ||| kind == "property_declaration"@ && (first_bears(d, n, "variable_declaration"@, name)
        || lists_name(d, n, "multi_variable_declaration"@, "variable_declaration"@, name))
    ||| kind == "for_statement"@ && lists_name(
        d,
        n,
        "multi_variable_declaration"@,
        "variable_declaration"@,
        name,
    )
    ||| kind == "for_statement"@ && law_trees::none_of(d, n, "multi_variable_declaration"@) && first_bears(
        d,
        n,
        "variable_declaration"@,
        name,
    )
    ||| kind == "catch_block"@ && some_bears(d, n, "parameter"@, name)
    ||| kind == "when_expression"@ && exists|s: int| #[trigger]
        law_trees::first_of(d, n, "when_subject"@, s) && (first_bears(d, s, "variable_declaration"@, name) || (
        law_trees::none_of(d, s, "variable_declaration"@) && law_trees::bears(d, s, name)))
    ||| kind == "function_declaration"@ && lists_name(
        d,
        n,
        "function_value_parameters"@,
        "parameter"@,
        name,
    )
    ||| kind == "lambda_literal"@ && lists_name(
        d,
        n,
        "lambda_parameters"@,
        "variable_declaration"@,
        name,
    )
}

proof fn lemma_first_bears(d: DocView, n: int, kind: Seq<char>, name: Seq<char>)
    ensures
        cst_scope::child_names(d, n, kind, name) == first_bears(d, n, kind, name),
{
    lemma_child(d, n, kind);
    if first_bears(d, n, kind, name) {
        let c = choose|c: int| #[trigger] law_trees::first_of(d, n, kind, c) && law_trees::bears(d, c, name);
        law_trees::lemma_first_of(d, n, kind, c);
        law_trees::lemma_bears(d, c, name);
    }
    if cst_scope::child_names(d, n, kind, name) {
        lemma_ident(d, d.child_of(n, kind).unwrap(), name);
    }
}

proof fn lemma_some_bears(d: DocView, n: int, kind: Seq<char>, name: Seq<char>)
    ensures
        cst_scope::some_names(d, d.nodes[n].children, kind, name) == some_bears(d, n, kind, name),
{
    let all = d.nodes[n].children;
    if some_bears(d, n, kind, name) {
        let i = choose|i: int|
            0 <= i < all.len() && d.nodes[#[trigger] d.nodes[n].children[i]].kind == kind && law_trees::bears(
                d,
                d.nodes[n].children[i],
                name,
            );
        law_trees::lemma_bears(d, all[i], name);
        assert(d.kind(all[i]) == kind && d.ident_in(all[i]) == Some(name));
    }
    if cst_scope::some_names(d, all, kind, name) {
        let i = choose|i: int|
            0 <= i < all.len() && d.kind(#[trigger] all[i]) == kind && d.ident_in(all[i]) == Some(
                name,
            );
        lemma_ident(d, all[i], name);
        assert(d.nodes[d.nodes[n].children[i]].kind == kind);
    }
}

proof fn lemma_lists_name(d: DocView, n: int, list: Seq<char>, kind: Seq<char>, name: Seq<char>)
    ensures
        lists_name(d, n, list, kind, name) == match d.child_of(n, list) {
            Some(l) => cst_scope::some_names(d, d.nodes[l].children, kind, name),
            None => false,
        },
{
    lemma_child(d, n, list);
    if lists_name(d, n, list, kind, name) {
        let l = choose|l: int| #[trigger] law_trees::first_of(d, n, list, l) && some_bears(d, l, kind, name);
        law_trees::lemma_first_of(d, n, list, l);
    }
    if let Some(l) = d.child_of(n, list) {
        lemma_some_bears(d, l, kind, name);
    }
}

proof fn lemma_declared_in(d: DocView, list: Seq<int>, name: Seq<char>)
    ensures
        d.declared_in(list).contains(name) == cst_scope::some_names(
            d,
            list,
            "variable_declaration"@,
            name,
        ),
    decreases list.len(),
{
    let kind = "variable_declaration"@;
    if list.len() > 0 {
        let fewer = list.drop_last();
        let c = list.last();
        lemma_declared_in(d, fewer, name);
        let before = d.declared_in(fewer);
        let now = d.declared_in(list);
        if d.kind(c) == kind && d.ident_in(c) is Some {
            if d.ident_in(c) == Some(name) {
                assert(now[now.len() - 1] == name);
                assert(d.kind(list[list.len() - 1]) == kind);
            } else if now.contains(name) {
                let i = choose|i: int| 0 <= i < now.len() && now[i] == name;
                assert(before[i] == name);
            }
        }
        if before.contains(name) {
            let i = choose|i: int| 0 <= i < before.len() && before[i] == name;
            assert(now[i] == name);
        }
        if cst_scope::some_names(d, fewer, kind, name) {
            let i = choose|i: int|
                0 <= i < fewer.len() && d.kind(#[trigger] fewer[i]) == kind && d.ident_in(fewer[i])
                    == Some(name);
            assert(list[i] == fewer[i]);
            assert(d.kind(list[i]) == kind);
        }
        if cst_scope::some_names(d, list, kind, name) {
            let i = choose|i: int|
                0 <= i < list.len() && d.kind(#[trigger] list[i]) == kind && d.ident_in(list[i])
                    == Some(name);
            if i < fewer.len() {
                assert(fewer[i] == list[i]);
                assert(d.kind(fewer[i]) == kind);
            }
        }
    }
}

proof fn lemma_lambda_lists(d: DocView, n: int, name: Seq<char>)
    ensures
        (d.lambda_place(n, name) is Some) == lists_name(
            d,
            n,
            "lambda_parameters"@,
            "variable_declaration"@,
            name,
        ),
{
    lemma_lists_name(d, n, "lambda_parameters"@, "variable_declaration"@, name);
    let names = d.lambda_params(n);
    let p = crate::cst::equal_to(name);
    lists::lemma_first_is(names, p);
    if let Some(l) = d.child_of(n, "lambda_parameters"@) {
        lemma_declared_in(d, d.nodes[l].children, name);
        if names.contains(name) {
            let i = choose|i: int| 0 <= i < names.len() && names[i] == name;
            assert(p(names[i]));
        }
        if let Some(i) = lists::first_where(names, p) {
            assert(p(names[i]));
            assert(names.contains(name));
        }
    }
}

proof fn lemma_scope_kinds()
    ensures
        "property_declaration"@ != "for_statement"@,
        "property_declaration"@ != "catch_block"@,
        "property_declaration"@ != "when_expression"@,
        "for_statement"@ != "catch_block"@,
        "for_statement"@ != "when_expression"@,
        "catch_block"@ != "when_expression"@,
{
    reveal_strlit("property_declaration");
    reveal_strlit("for_statement");
    reveal_strlit("catch_block");
    reveal_strlit("when_expression");
    assert("property_declaration"@[0] == 'p');
    assert("for_statement"@[0] == 'f');
    assert("catch_block"@[0] == 'c');
    assert("when_expression"@[0] == 'w');
}

#[verifier::rlimit(60)]
proof fn lemma_declares(d: DocView, n: int, name: Seq<char>)
    ensures
        cst_scope::declares_here(d, n, name) == declares(d, n, name),
{
    lemma_scope_kinds();
    lemma_first_bears(d, n, "variable_declaration"@, name);
    lemma_lists_name(d, n, "multi_variable_declaration"@, "variable_declaration"@, name);
    lemma_child(d, n, "multi_variable_declaration"@);
    if law_trees::none_of(d, n, "multi_variable_declaration"@) {
        law_trees::lemma_none_of(d, n, "multi_variable_declaration"@);
    }
    lemma_some_bears(d, n, "parameter"@, name);
    lemma_lists_name(d, n, "function_value_parameters"@, "parameter"@, name);
    lemma_lambda_lists(d, n, name);
    lemma_when(d, n, name);
}

proof fn lemma_when(d: DocView, n: int, name: Seq<char>)
    ensures
        cst_scope::when_names(d, n, name) == exists|s: int| #[trigger]
            law_trees::first_of(d, n, "when_subject"@, s) && (first_bears(d, s, "variable_declaration"@, name)
                || (law_trees::none_of(d, s, "variable_declaration"@) && law_trees::bears(d, s, name))),
{
    lemma_child(d, n, "when_subject"@);
    if let Some(s) = d.child_of(n, "when_subject"@) {
        lemma_child(d, s, "variable_declaration"@);
        lemma_first_bears(d, s, "variable_declaration"@, name);
        if law_trees::none_of(d, s, "variable_declaration"@) {
            law_trees::lemma_none_of(d, s, "variable_declaration"@);
        }
        if law_trees::bears(d, s, name) {
            law_trees::lemma_bears(d, s, name);
        }
        if d.ident_in(s) == Some(name) {
            lemma_ident(d, s, name);
        }
    }
    if exists|s: int| #[trigger]
        law_trees::first_of(d, n, "when_subject"@, s) && (first_bears(d, s, "variable_declaration"@, name) || (
        law_trees::none_of(d, s, "variable_declaration"@) && law_trees::bears(d, s, name))) {
        let s = choose|s: int| #[trigger]
            law_trees::first_of(d, n, "when_subject"@, s) && (first_bears(d, s, "variable_declaration"@, name)
                || (law_trees::none_of(d, s, "variable_declaration"@) && law_trees::bears(d, s, name)));
        law_trees::lemma_first_of(d, n, "when_subject"@, s);
    }
}

/// Whether a node from a node downwards declares a local of the name.
pub open spec fn declares_below(d: DocView, n: int, name: Seq<char>) -> bool {
    exists|way: Seq<int>, at: Seq<int>| #[trigger]
        descends(d, way, at) && way[0] == n && declares(d, way.last(), name)
}

proof fn lemma_longer(d: DocView, n: int, k: int, way: Seq<int>, at: Seq<int>)
    requires
        descends(d, way, at),
        0 <= n < d.nodes.len(),
        0 <= k < d.nodes[n].children.len(),
        d.nodes[n].children[k] == way[0],
    ensures
        descends(d, seq![n] + way, seq![k] + at),
        (seq![n] + way).last() == way.last(),
{
    let longer = seq![n] + way;
    let places = seq![k] + at;
    assert forall|i: int| 0 <= i < longer.len() implies 0 <= #[trigger] longer[i]
        < d.nodes.len() by {
        if i > 0 {
            assert(longer[i] == way[i - 1]);
        }
    }
    assert forall|i: int| 0 <= i < places.len() implies 0 <= #[trigger] places[i]
        < d.nodes[longer[i]].children.len() && d.nodes[longer[i]].children[places[i]] == longer[i
        + 1] by {
        if i > 0 {
            assert(places[i] == at[i - 1]);
            assert(longer[i] == way[i - 1]);
            assert(longer[i + 1] == way[i]);
        } else {
            assert(longer[1] == way[0]);
        }
    }
}

proof fn lemma_declared_below(d: DocView, n: int, name: Seq<char>)
    requires
        d.wf(),
        cst_scope::declared_below(d, n, name),
    ensures
        declares_below(d, n, name),
    decreases d.nodes.len() - n, d.nodes[n].children.len() + 1,
{
    lemma_declares(d, n, name);
    if declares(d, n, name) {
        let way = seq![n];
        assert(descends(d, way, Seq::empty()));
        assert(way.last() == n);
    } else {
        lemma_declared_by_child(d, n, d.nodes[n].children.len(), name);
    }
}

proof fn lemma_declared_by_child(d: DocView, n: int, k: nat, name: Seq<char>)
    requires
        d.wf(),
        d.has(n),
        k <= d.nodes[n].children.len(),
        cst_scope::declared_by_child(d, n, k, name),
    ensures
        declares_below(d, n, name),
    decreases d.nodes.len() - n, k,
{
    if cst_scope::declared_by_child(d, n, (k - 1) as nat, name) {
        lemma_declared_by_child(d, n, (k - 1) as nat, name);
    } else {
        let c = d.nodes[n].children[k - 1];
        lemma_declared_below(d, c, name);
        let (way, at) = choose|way: Seq<int>, at: Seq<int>| #[trigger]
            descends(d, way, at) && way[0] == c && declares(d, way.last(), name);
        lemma_longer(d, n, k - 1, way, at);
        assert((seq![n] + way)[0] == n);
    }
}

proof fn lemma_way_declares(d: DocView, way: Seq<int>, at: Seq<int>, name: Seq<char>)
    requires
        d.wf(),
        descends(d, way, at),
        declares(d, way.last(), name),
    ensures
        cst_scope::declared_below(d, way[0], name),
    decreases way.len(),
{
    let n = way[0];
    assert(d.node_ok(n));
    if way.len() == 1 {
        lemma_declares(d, n, name);
    } else {
        let rest = way.skip(1);
        let places = at.skip(1);
        assert forall|i: int| 0 <= i < rest.len() implies 0 <= #[trigger] rest[i]
            < d.nodes.len() by {
            assert(rest[i] == way[i + 1]);
        }
        assert forall|i: int| 0 <= i < places.len() implies 0 <= #[trigger] places[i]
            < d.nodes[rest[i]].children.len() && d.nodes[rest[i]].children[places[i]]
            == rest[i + 1] by {
            assert(places[i] == at[i + 1]);
            assert(rest[i] == way[i + 1]);
            assert(rest[i + 1] == way[i + 2]);
        }
        assert(rest.last() == way.last());
        lemma_way_declares(d, rest, places, name);
        assert(rest[0] == way[1]);
        assert(d.nodes[n].children[at[0]] == way[1]);
        lemma_child_declares(d, n, at[0], d.nodes[n].children.len(), name);
    }
}

proof fn lemma_child_declares(d: DocView, n: int, k: int, m: nat, name: Seq<char>)
    requires
        d.wf(),
        d.has(n),
        0 <= k < m <= d.nodes[n].children.len(),
        cst_scope::declared_below(d, d.nodes[n].children[k], name),
    ensures
        cst_scope::declared_by_child(d, n, m, name),
    decreases m,
{
    assert(d.node_ok(n));
    if k < m - 1 {
        lemma_child_declares(d, n, k, (m - 1) as nat, name);
    }
}

/// In a function a name is hidden exactly where the function, or a node below it, declares a local
/// of the name.
pub proof fn law_locals_hide_names(d: DocView, up: Seq<int>, body: int, name: Seq<char>)
    requires
        d.wf(),
        outermost(d, up, body),
    ensures
        cst_scope::shadowed(d, up[0], name) == declares_below(d, up.last(), name),
{
    lemma_scope(d, up, body, None);
    let fun = up.last();
    let roots = cst_scope::search_roots(d, body);
    assert(roots =~= seq![fun, body]);
    if declares_below(d, fun, name) {
        let (way, at) = choose|way: Seq<int>, at: Seq<int>| #[trigger]
            descends(d, way, at) && way[0] == fun && declares(d, way.last(), name);
        lemma_way_declares(d, way, at, name);
        assert(cst_scope::declared_below(d, roots[0], name));
    }
    if cst_scope::shadowed(d, up[0], name) {
        let i = choose|i: int|
            0 <= i < roots.len() && cst_scope::declared_below(d, #[trigger] roots[i], name);
        lemma_declared_below(d, roots[i], name);
        if i == 1 {
            let b = choose|k: int|
                0 <= k < d.nodes[fun].children.len() && #[trigger] d.nodes[fun].children[k] == body
                    && d.nodes[body].kind == "function_body"@ && forall|j: int|
                    0 <= j < k ==> d.nodes[#[trigger] d.nodes[fun].children[j]].kind
                        != "function_body"@;
            let (way, at) = choose|way: Seq<int>, at: Seq<int>| #[trigger]
                descends(d, way, at) && way[0] == body && declares(d, way.last(), name);
            lemma_longer(d, fun, b, way, at);
            assert((seq![fun] + way)[0] == fun);
        }
    }
}

/// Outside all functions and lambdas nothing is hidden.
pub proof fn law_members_hide_nothing(d: DocView, up: Seq<int>, name: Seq<char>)
    requires
        d.wf(),
        law_trees::climbs(d, up),
        forall|i: int|
            0 <= i < up.len() ==> d.nodes[#[trigger] up[i]].kind != "lambda_literal"@
                && d.nodes[up[i]].kind != "function_declaration"@,
        match d.nodes[up.last()].parent {
            Some(p) => is_holder(d, p),
            None => true,
        },
    ensures
        !cst_scope::shadowed(d, up[0], name),
{
    lemma_no_scope(d, up);
}

proof fn lemma_no_scope(d: DocView, up: Seq<int>)
    requires
        d.wf(),
        law_trees::climbs(d, up),
        forall|i: int|
            0 <= i < up.len() ==> d.nodes[#[trigger] up[i]].kind != "lambda_literal"@
                && d.nodes[up[i]].kind != "function_declaration"@,
        match d.nodes[up.last()].parent {
            Some(p) => is_holder(d, p),
            None => true,
        },
    ensures
        cst_scope::scope_above(d, up[0], None) is None,
    decreases up.len(),
{
    assert(d.node_ok(up[0]));
    if up.len() > 1 {
        law_trees::lemma_shorter(d, up);
        let rest = up.skip(1);
        assert(rest.last() == up.last());
        assert forall|i: int| 0 <= i < rest.len() implies d.nodes[#[trigger] rest[i]].kind
            != "lambda_literal"@ && d.nodes[rest[i]].kind != "function_declaration"@ by {
            assert(rest[i] == up[i + 1]);
        }
        lemma_no_scope(d, rest);
    }
}

/// Whether a way leads up from a node to the outermost lambda round it, which stands in no
/// function.
pub open spec fn outermost_lambda(d: DocView, up: Seq<int>, k: int) -> bool {
    &&& law_trees::climbs(d, up)
    &&& 0 <= k < up.len()
    &&& d.nodes[up[k]].kind == "lambda_literal"@
    &&& forall|i: int|
        k < i < up.len() ==> d.nodes[#[trigger] up[i]].kind != "lambda_literal"@ && d.nodes[up[i]].kind
            != "function_declaration"@
    &&& forall|i: int| 0 < i < up.len() ==> !is_holder(d, #[trigger] up[i])
    &&& match d.nodes[up.last()].parent {
        Some(p) => is_holder(d, p),
        None => true,
    }
}

proof fn lemma_lambda_scope(d: DocView, up: Seq<int>, k: int, found: Option<int>)
    requires
        d.wf(),
        law_trees::climbs(d, up),
        0 <= k < up.len() ==> d.nodes[up[k]].kind == "lambda_literal"@,
        -1 <= k < up.len(),
        forall|i: int|
            k < i < up.len() ==> d.nodes[#[trigger] up[i]].kind != "lambda_literal"@ && d.nodes[up[i]].kind
                != "function_declaration"@,
        forall|i: int| 0 < i < up.len() ==> !is_holder(d, #[trigger] up[i]),
        match d.nodes[up.last()].parent {
            Some(p) => is_holder(d, p),
            None => true,
        },
    ensures
        cst_scope::scope_above(d, up[0], found) == if k >= 0 {
            Some(up[k])
        } else {
            found
        },
    decreases up.len(),
{
    let n = up[0];
    assert(d.node_ok(n));
    let here = if cst_scope::scope_of(d, n) is Some {
        cst_scope::scope_of(d, n)
    } else {
        found
    };
    if up.len() > 1 {
        law_trees::lemma_shorter(d, up);
        let rest = up.skip(1);
        assert(rest.last() == up.last());
        assert(!is_holder(d, up[1]));
        assert forall|i: int| 0 < i < rest.len() implies !is_holder(d, #[trigger] rest[i]) by {
            assert(rest[i] == up[i + 1]);
        }
        let j = if k > 0 {
            k - 1
        } else {
            -1
        };
        assert forall|i: int| j < i < rest.len() implies d.nodes[#[trigger] rest[i]].kind
            != "lambda_literal"@ && d.nodes[rest[i]].kind != "function_declaration"@ by {
            assert(rest[i] == up[i + 1]);
        }
        if k > 0 {
            assert(rest[k - 1] == up[k]);
        }
        lemma_lambda_scope(d, rest, j, here);
    }
}

/// In a lambda that stands in no function a name is hidden exactly where the outermost such lambda,
/// or a node below it, declares a local of the name.
pub proof fn law_locals_of_lambdas_hide_names(d: DocView, up: Seq<int>, k: int, name: Seq<char>)
    requires
        d.wf(),
        outermost_lambda(d, up, k),
    ensures
        cst_scope::shadowed(d, up[0], name) == declares_below(d, up[k], name),
{
    lemma_lambda_scope(d, up, k, None);
    reveal_strlit("lambda_literal");
    reveal_strlit("function_body");
    assert("lambda_literal"@[0] != "function_body"@[0]);
    let roots = cst_scope::search_roots(d, up[k]);
    assert(roots =~= seq![up[k]]);
    if declares_below(d, up[k], name) {
        let (way, at) = choose|way: Seq<int>, at: Seq<int>| #[trigger]
            descends(d, way, at) && way[0] == up[k] && declares(d, way.last(), name);
        lemma_way_declares(d, way, at, name);
        assert(cst_scope::declared_below(d, roots[0], name));
    }
    if cst_scope::shadowed(d, up[0], name) {
        let i = choose|i: int|
            0 <= i < roots.len() && cst_scope::declared_below(d, #[trigger] roots[i], name);
        lemma_declared_below(d, roots[i], name);
    }
}

// ---------------------------------------------------------------------------
// Bindings
// ---------------------------------------------------------------------------

/// Whether a node is a call of `inflate` or `bind` on a binding class.
pub open spec fn makes_binding(d: DocView, n: int, class: Seq<char>) -> bool {
    let c = d.nodes[n].children[0];
    &&& d.nodes[n].kind == "call_expression"@
    &&& d.nodes[n].children.len() > 0
    &&& d.nodes[c].kind == "navigation_expression"@
    &&& law_trees::names(d, c, "inflate"@) || law_trees::names(d, c, "bind"@)
    &&& exists|r: int| #[trigger] law_inputs::first_rule(d, c, r) && law_trees::reads(d, r, class)
    &&& class.len() >= 7
    &&& class.skip(class.len() - 7) == "Binding"@
}

proof fn lemma_makes_binding(d: DocView, n: int, class: Seq<char>)
    requires
        makes_binding(d, n, class),
    ensures
        cst_scope::initializer_binding(d, n) == Some(class),
{
    let c = d.nodes[n].children[0];
    let r = choose|r: int| #[trigger] law_inputs::first_rule(d, c, r) && law_trees::reads(d, r, class);
    law_inputs::lemma_first_rule(d, c, r);
    reveal_strlit("Binding");
    if law_trees::names(d, c, "inflate"@) {
        law_receivers::lemma_nav(d, c, "inflate"@);
    } else {
        law_receivers::lemma_nav(d, c, "bind"@);
    }
}

proof fn lemma_initializer(d: DocView, list: Seq<int>, k: int, class: Seq<char>)
    requires
        0 <= k < list.len(),
        makes_binding(d, list[k], class),
        forall|j: int| 0 <= j < k ==> d.nodes[#[trigger] list[j]].kind != "call_expression"@,
    ensures
        cst_scope::initializer_in(d, list) == Some(class),
    decreases k,
{
    lemma_makes_binding(d, list[k], class);
    if k > 0 {
        assert(d.nodes[list[0]].kind != "call_expression"@);
        let rest = list.skip(1);
        assert(rest[k - 1] == list[k]);
        assert forall|j: int| 0 <= j < k - 1 implies d.nodes[#[trigger] rest[j]].kind
            != "call_expression"@ by {
            assert(rest[j] == list[j + 1]);
        }
        lemma_initializer(d, rest, k - 1, class);
    }
}

/// A `val` or `var` that writes no type and is initialized by `inflate` or `bind` of a binding
/// class is of that class; a written type counts before it.
pub proof fn law_type_of_a_binding(
    d: DocView,
    n: int,
    v: int,
    k: int,
    name: Seq<char>,
    class: Seq<char>,
    t: Seq<char>,
)
    requires
        d.nodes[n].kind == "property_declaration"@,
        law_trees::first_of(d, n, "variable_declaration"@, v),
        law_trees::bears(d, v, name),
    ensures
        untyped(d, v) && 0 <= k < d.nodes[v].children.len() && makes_binding(
            d,
            d.nodes[v].children[k],
            class,
        ) && (forall|j: int|
            0 <= j < k ==> d.nodes[#[trigger] d.nodes[v].children[j]].kind != "call_expression"@)
            ==> cst_scope::property_type(d, n, name) == Some(class),
        annotates(d, v, t) ==> cst_scope::property_type(d, n, name) == Some(t),
{
    law_trees::lemma_first_of(d, n, "variable_declaration"@, v);
    law_trees::lemma_bears(d, v, name);
    if untyped(d, v) {
        law_unwritten_type_is_none(d, v);
        if 0 <= k < d.nodes[v].children.len() && makes_binding(d, d.nodes[v].children[k], class) && (
        forall|j: int|
            0 <= j < k ==> d.nodes[#[trigger] d.nodes[v].children[j]].kind
                != "call_expression"@) {
            lemma_initializer(d, d.nodes[v].children, k, class);
        }
    }
    if annotates(d, v, t) {
        law_written_type_is_read(d, v, t);
    }
}

} // verus!
