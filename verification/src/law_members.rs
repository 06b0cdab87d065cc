//! What types members have, and what a receiver puts in the place of type parameters.
use vstd::prelude::*;
use vstd::string::*;

use crate::cst::DocView;
use crate::cst_lambda;
use crate::cst_lambda::LambdaParamKind;
use crate::deps::{CallableView, Facts};
use crate::it_this;
use crate::it_this::CstCursorView;
use crate::law_inputs;
use crate::law_inputs::{Called, Given};
use crate::law_lambdas::FunParam;
use crate::law_receivers;
use crate::law_sigs;
use crate::law_texts;
use crate::law_trees;
use crate::law_types;
use crate::text;
use crate::type_subst;
use crate::types::CursorPos;
use crate::unicode;

verus! {

// ---------------------------------------------------------------------------
// Types with arguments
// ---------------------------------------------------------------------------

/// A type with arguments, as it is written.
pub open spec fn applied(class: Seq<char>, items: Seq<Seq<char>>, after: Seq<char>) -> Seq<char> {
    class + seq!['<'] + law_sigs::listed(items) + seq!['>'] + after
}

/// Whether the pieces make a type with arguments.
pub open spec fn is_applied(class: Seq<char>, items: Seq<Seq<char>>, after: Seq<char>) -> bool {
    &&& law_texts::is_name(class)
    &&& law_texts::lacks(after, '>')
    &&& items.len() > 0
    &&& law_sigs::all_items(items)
    &&& forall|i: int| 0 <= i < items.len() ==> law_sigs::has_ink(#[trigger] items[i])
}

/// Whether a text is a type with white space round it and perhaps a question mark behind it.
pub open spec fn shows(item: Seq<char>, t: Seq<char>) -> bool {
    &&& t.len() > 0
    &&& law_texts::tight(t)
    &&& t.last() != '?'
    &&& exists|a: Seq<char>, b: Seq<char>|
        law_texts::blank(a) && law_texts::blank(b) && (item == #[trigger] (a + t + b) || item == a + t + seq!['?'] + b)
}

pub(crate) proof fn lemma_shows(item: Seq<char>, t: Seq<char>)
    requires
        shows(item, t),
    ensures
        type_subst::plain_type(text::trimmed(item)) == t,
        type_subst::plain_type(item) == t,
{
    let (a, b) = choose|a: Seq<char>, b: Seq<char>|
        law_texts::blank(a) && law_texts::blank(b) && (item == #[trigger] (a + t + b) || item == a + t + seq!['?'] + b);
    let p = text::only('?');
    if item == a + t + b {
        law_texts::law_trimming(a, t, b);
        law_texts::lemma_tight(t);
        text::lemma_rspan_unique(t, p, 0);
        assert(t.take(t.len() as int) =~= t);
    } else {
        let u = t + seq!['?'];
        assert(u.last() == '?');
        assert(u[0] == t[0]);
        assert(law_texts::tight(u));
        assert(item =~= a + u + b);
        law_texts::law_trimming(a, u, b);
        law_texts::lemma_tight(u);
        assert forall|i: int| u.len() - 1 <= i < u.len() implies p(#[trigger] u[i]) by {}
        assert(u[u.len() - 2] == t.last());
        text::lemma_rspan_unique(u, p, 1);
        assert(u.take(u.len() - 1) =~= t);
    }
}

pub(crate) proof fn lemma_applied(class: Seq<char>, items: Seq<Seq<char>>, after: Seq<char>)
    requires
        is_applied(class, items, after),
    ensures
        type_subst::class_base(applied(class, items, after)) == class,
        type_subst::type_args(applied(class, items, after)).len() == items.len(),
        forall|i: int|
            0 <= i < items.len() ==> #[trigger] type_subst::type_args(
                applied(class, items, after),
            )[i] == text::trimmed(items[i]),
{
    law_texts::lemma_name_is_tight(class);
    let t = applied(class, items, after);
    let rest = seq!['<'] + law_sigs::listed(items) + seq!['>'] + after;
    assert(t =~= class + rest);
    law_texts::law_names_at_the_ends(class, rest);
    law_texts::law_last_segment(Seq::empty(), class);
    assert forall|i: int| 0 <= i < class.len() implies #[trigger] class[i] != '<' by {
        assert(text::id_char(class[i]));
    }
    law_types::law_type_arguments(class, items, after);
}

/// What looks like a type parameter is taken for one, and nothing else.
pub proof fn law_type_parameters_by_their_look(s: Seq<char>)
    ensures
        type_subst::generic_param(s) == law_inputs::looks_generic(s),
{
}

/// A member whose declared type is a type parameter of its class has the argument that is written
/// at the parameter's place: a field, else what a method returns.
pub proof fn law_member_has_the_argument(
    f: Facts,
    class: Seq<char>,
    items: Seq<Seq<char>>,
    after: Seq<char>,
    member: Seq<char>,
    i: int,
    t: Seq<char>,
    uri: Seq<char>,
)
    requires
        is_applied(class, items, after),
        0 <= i < items.len(),
        i < (f.class_params)(class).len(),
        law_texts::is_name((f.class_params)(class)[i]),
        forall|j: int|
            0 <= j < i ==> #[trigger] (f.class_params)(class)[j] != (f.class_params)(class)[i],
        (f.field_type)(class, member, uri) == Some((f.class_params)(class)[i]) || ((f.field_type)(
            class,
            member,
            uri,
        ) is None && (f.method_return)(class, member) == Some((f.class_params)(class)[i])),
        shows(items[i], t),
        !law_inputs::looks_generic(t),
    ensures
        type_subst::member_type(f, applied(class, items, after), member, uri) == Some(t),
{
    let whole = applied(class, items, after);
    let name = (f.class_params)(class)[i];
    lemma_applied(class, items, after);
    law_types::law_arguments_by_place(f, class, whole, i);
    let subst = type_subst::arg_subst(f, class, whole);
    type_subst::law_parameter_becomes_its_value(name, subst);
    assert(type_subst::type_args(whole)[i] == text::trimmed(items[i]));
    lemma_shows(items[i], t);
    law_type_parameters_by_their_look(t);
}

/// A member whose declared type is a class, and none of the type parameters, has that type.
pub proof fn law_member_has_its_type(
    f: Facts,
    class: Seq<char>,
    rest: Seq<char>,
    member: Seq<char>,
    t: Seq<char>,
    uri: Seq<char>,
)
    requires
        law_texts::is_name(class),
        rest.len() > 0 ==> !text::id_char(rest[0]) && rest[0] != '.',
        (f.field_type)(class, member, uri) == Some(t) || ((f.field_type)(class, member, uri) is None
            && (f.method_return)(class, member) == Some(t)),
        law_texts::is_name(t),
        !law_inputs::looks_generic(t),
        forall|j: int|
            0 <= j < (f.class_params)(class).len() ==> #[trigger] (f.class_params)(class)[j] != t,
    ensures
        type_subst::member_type(f, class + rest, member, uri) == Some(t),
{
    let whole = class + rest;
    law_texts::lemma_name_is_tight(class);
    law_texts::lemma_name_is_tight(t);
    law_texts::law_names_at_the_ends(class, rest);
    law_texts::law_last_segment(Seq::empty(), class);
    let subst = type_subst::arg_subst(f, class, whole);
    assert forall|j: int| 0 <= j < subst.len() implies (#[trigger] subst[j]).0 != t by {
        assert(subst[j].0 == (f.class_params)(class)[j]);
    }
    assert(law_types::gives_none(subst, t));
    law_types::law_substitution_of_names(t, t, subst);
    assert(t.last() != '?') by {
        assert(text::id_char(t[t.len() - 1]));
    }
    let none = Seq::<char>::empty();
    assert(none + t + none =~= t);
    assert(shows(t, t));
    lemma_shows(t, t);
    law_type_parameters_by_their_look(t);
}

/// A member of which nothing is known has no type.
pub proof fn law_unknown_member(
    f: Facts,
    class: Seq<char>,
    rest: Seq<char>,
    member: Seq<char>,
    uri: Seq<char>,
)
    requires
        law_texts::is_name(class),
        rest.len() > 0 ==> !text::id_char(rest[0]) && rest[0] != '.',
        (f.field_type)(class, member, uri) is None,
        (f.method_return)(class, member) is None,
    ensures
        type_subst::member_type(f, class + rest, member, uri) is None,
{
    law_texts::lemma_name_is_tight(class);
    law_texts::law_names_at_the_ends(class, rest);
    law_texts::law_last_segment(Seq::empty(), class);
}

// ---------------------------------------------------------------------------
// Expressions
// ---------------------------------------------------------------------------

/// The type of an expression in the tree: of a name that of the variable, else the name itself
/// where it begins with a capital; of a call what the function returns, else the same; of a member
/// of an expression the type of the member.
pub proof fn law_types_of_expressions(
    f: Facts,
    d: DocView,
    n: int,
    c: int,
    node: int,
    name: Seq<char>,
    t: Seq<char>,
    uri: Seq<char>,
)
    requires
        d.wf(),
        0 <= n < d.nodes.len(),
    ensures
        d.nodes[n].kind == "simple_identifier"@ && law_trees::reads(d, n, name) ==> cst_lambda::node_type(
            f,
            d,
            n,
            uri,
        ) == (match (f.var_type)(name, uri) {
            Some(v) => Some(v),
            None => if name.len() > 0 && unicode::uppercase(name[0]) {
                Some(name)
            } else {
                None
            },
        }),
        d.nodes[n].kind == "call_expression"@ && d.nodes[n].children.len() > 0
            && d.nodes[n].children[0] == c && d.nodes[c].kind == "simple_identifier"@ && law_trees::reads(
            d,
            c,
            name,
        ) ==> cst_lambda::node_type(f, d, n, uri) == (match (f.fun_return)(name) {
            Some(v) => Some(v),
            None => if name.len() > 0 && unicode::uppercase(name[0]) {
                Some(name)
            } else {
                None
            },
        }),
        d.nodes[n].kind == "navigation_expression"@ && law_trees::names(d, n, name) && law_inputs::first_rule(d, n, node)
            && cst_lambda::node_type(f, d, node, uri) == Some(t) ==> cst_lambda::node_type(
            f,
            d,
            n,
            uri,
        ) == type_subst::member_type(f, t, name, uri),
{
    reveal_strlit("simple_identifier");
    reveal_strlit("call_expression");
    reveal_strlit("navigation_expression");
    assert("simple_identifier"@[0] == 's');
    assert("call_expression"@[0] == 'c');
    assert("navigation_expression"@[0] == 'n');
    assert(d.node_ok(n));
    if d.nodes[n].kind == "navigation_expression"@ && law_trees::names(d, n, name) && law_inputs::first_rule(d, n, node) {
        law_receivers::lemma_nav(d, n, name);
        law_inputs::lemma_first_rule(d, n, node);
        let k = choose|k: int|
            0 <= k < d.nodes[n].children.len() && #[trigger] d.nodes[n].children[k] == node
                && d.nodes[node].named && forall|j: int|
                0 <= j < k ==> !d.nodes[#[trigger] d.nodes[n].children[j]].named;
        assert(n < d.nodes[n].children[k] < d.nodes.len());
        if cst_lambda::node_type(f, d, node, uri) == Some(t) {
            assert(cst_lambda::callee_chain(f, d, n, uri) == Some((t, name)));
        }
    }
}

// ---------------------------------------------------------------------------
// Type parameters of functions
// ---------------------------------------------------------------------------

/// Whether the arguments of a pattern are names, and the first that is `name` is at `i`.
pub open spec fn is_pattern(patterns: Seq<Seq<char>>, i: int, name: Seq<char>) -> bool {
    &&& 0 <= i < patterns.len()
    &&& patterns[i] == name
    &&& forall|j: int| 0 <= j < patterns.len() ==> law_texts::is_name(#[trigger] patterns[j])
    &&& forall|j: int| 0 <= j < i ==> #[trigger] patterns[j] != name
}

proof fn lemma_unified_name(
    pattern: Seq<char>,
    actual: Seq<char>,
    params: Seq<Seq<char>>,
    fuel: nat,
)
    requires
        law_texts::is_name(pattern),
    ensures
        type_subst::unified(pattern, actual, params, fuel) == (if params.contains(pattern) {
            seq![(pattern, type_subst::plain_type(actual))]
        } else {
            Seq::empty()
        }),
{
    law_texts::lemma_name_is_tight(pattern);
    assert(pattern.last() != '?') by {
        assert(text::id_char(pattern[pattern.len() - 1]));
    }
    let none = Seq::<char>::empty();
    assert(none + pattern + none =~= pattern);
    assert(shows(pattern, pattern));
    lemma_shows(pattern, pattern);
    assert forall|i: int| 0 <= i < pattern.len() implies #[trigger] pattern[i] != '<' by {
        assert(text::id_char(pattern[i]));
    }
    law_types::law_no_type_arguments(pattern);
    if !params.contains(pattern) && fuel > 0 {
        assert(type_subst::unified(pattern, actual, params, fuel) =~= Seq::empty());
    }
}

#[verifier::rlimit(60)]
proof fn lemma_unified_args(
    ps: Seq<Seq<char>>,
    xs: Seq<Seq<char>>,
    params: Seq<Seq<char>>,
    i: int,
    name: Seq<char>,
    n: nat,
    fuel: nat,
)
    requires
        is_pattern(ps, i, name),
        params.contains(name),
        n <= ps.len(),
        n <= xs.len(),
    ensures
        n <= i ==> law_types::gives_none(type_subst::unified_args(ps, xs, params, n, fuel), name),
        n > i ==> law_types::gives(
            type_subst::unified_args(ps, xs, params, n, fuel),
            name,
            type_subst::plain_type(xs[i]),
        ),
    decreases n,
{
    if n > 0 {
        lemma_unified_args(ps, xs, params, i, name, (n - 1) as nat, fuel);
        lemma_unified_name(ps[n - 1], xs[n - 1], params, fuel);
        let a = type_subst::unified_args(ps, xs, params, (n - 1) as nat, fuel);
        let b = type_subst::unified(ps[n - 1], xs[n - 1], params, fuel);
        let all = a + b;
        let t = type_subst::plain_type(xs[i]);
        assert(type_subst::unified_args(ps, xs, params, n, fuel) == all);
        if n - 1 > i {
            let k = choose|k: int|
                0 <= k < a.len() && #[trigger] a[k] == (name, t) && forall|j: int|
                    0 <= j < k ==> (#[trigger] a[j]).0 != name;
            assert(all[k] == (name, t));
            assert forall|j: int| 0 <= j < k implies (#[trigger] all[j]).0 != name by {
                assert(all[j] == a[j]);
            }
        } else if n - 1 == i {
            let k = a.len() as int;
            assert(all[k] == (name, t));
            assert forall|j: int| 0 <= j < k implies (#[trigger] all[j]).0 != name by {
                assert(all[j] == a[j]);
            }
        } else {
            assert forall|j: int| 0 <= j < all.len() implies (#[trigger] all[j]).0 != name by {
                if j < a.len() {
                    assert(all[j] == a[j]);
                } else {
                    assert(all[j] == b[j - a.len()]);
                    assert(ps[n - 1] != name);
                }
            }
        }
    }
}

/// What a receiver puts in the place of a type parameter of an extension function is the argument
/// of its type at the place where the declared receiver has the parameter.
#[verifier::rlimit(60)]
pub proof fn law_receiver_settles_type_parameters(
    class: Seq<char>,
    patterns: Seq<Seq<char>>,
    actual: Seq<char>,
    items: Seq<Seq<char>>,
    after: Seq<char>,
    params: Seq<Seq<char>>,
    i: int,
    name: Seq<char>,
    t: Seq<char>,
)
    requires
        is_applied(class, patterns, Seq::empty()),
        is_pattern(patterns, i, name),
        params.contains(name),
        forall|j: int| 0 <= j < params.len() ==> law_texts::is_name(#[trigger] params[j]),
        is_applied(actual, items, after),
        i < items.len(),
        shows(items[i], t),
    ensures
        type_subst::value_of(
            type_subst::ext_subst(
                applied(class, patterns, Seq::empty()),
                applied(actual, items, after),
                params,
            ),
            name,
        ) == Some(t),
{
    let pattern = applied(class, patterns, Seq::empty());
    let whole = applied(actual, items, after);
    lemma_applied(class, patterns, Seq::empty());
    lemma_applied(actual, items, after);
    let ps = type_subst::type_args(pattern);
    let xs = type_subst::type_args(whole);
    assert forall|j: int| 0 <= j < patterns.len() implies #[trigger] ps[j] == patterns[j] by {
        assert(type_subst::type_args(pattern)[j] == text::trimmed(patterns[j]));
        assert(law_texts::is_name(patterns[j]));
        law_texts::lemma_name_is_tight(patterns[j]);
        law_texts::lemma_tight(patterns[j]);
    }
    assert(ps =~= patterns);
    let n: nat = if ps.len() < xs.len() {
        ps.len()
    } else {
        xs.len()
    };
    lemma_whole_is_no_param(class, patterns, params);
    assert(pattern.len() > 0);
    let fuel = (pattern.len() - 1) as nat;
    lemma_unified_args(ps, xs, params, i, name, n, fuel);
    assert(xs[i] == text::trimmed(items[i]));
    lemma_shows(items[i], t);
    let subst = type_subst::ext_subst(pattern, whole, params);
    assert(law_types::gives(subst, name, t));
    law_types::law_first_pair_counts(subst, name, t);
}

proof fn lemma_whole_is_no_param(
    class: Seq<char>,
    patterns: Seq<Seq<char>>,
    params: Seq<Seq<char>>,
)
    requires
        is_applied(class, patterns, Seq::empty()),
        forall|j: int| 0 <= j < params.len() ==> law_texts::is_name(#[trigger] params[j]),
    ensures
        !params.contains(type_subst::plain_type(applied(class, patterns, Seq::empty()))),
{
    let pattern = applied(class, patterns, Seq::empty());
    law_texts::lemma_name_is_tight(class);
    assert(pattern[0] == class[0]);
    assert(pattern.last() == '>');
    assert(law_texts::tight(pattern));
    let none = Seq::<char>::empty();
    assert(none + pattern + none =~= pattern);
    assert(shows(pattern, pattern));
    lemma_shows(pattern, pattern);
    if params.contains(pattern) {
        let j = choose|j: int| 0 <= j < params.len() && params[j] == pattern;
        assert(law_texts::is_name(params[j]));
        assert(text::id_char(pattern[pattern.len() - 1]));
    }
}

/// In a lambda that is given to a generic extension function `it` has the type that the receiver
/// puts in the place of the type parameter.
#[verifier::rlimit(60)]
pub proof fn law_it_of_a_generic_function(
    f: Facts,
    lines: Seq<Seq<char>>,
    pos: CursorPos,
    d: DocView,
    up: Seq<int>,
    way: Seq<int>,
    out: Seq<int>,
    how: Given,
    name: Seq<char>,
    node: int,
    variable: Seq<char>,
    actual: Seq<char>,
    items: Seq<Seq<char>>,
    after: Seq<char>,
    params: Seq<Seq<char>>,
    p: FunParam,
    inputs: Seq<Seq<char>>,
    generic: Seq<char>,
    info: CallableView,
    class: Seq<char>,
    patterns: Seq<Seq<char>>,
    i: int,
    t: Seq<char>,
    uri: Seq<char>,
)
    requires
        d.wf(),
        law_trees::reaches(d, up, "lambda_literal"@),
        way.len() > 0,
        way[0] == up.last(),
        law_inputs::is_unnamed(d, up.last()),
        law_inputs::is_given(d, way, out, how, params, p),
        d.nodes[node].kind == "simple_identifier"@,
        law_trees::reads(d, node, variable),
        (f.var_type)(variable, uri) == Some(applied(actual, items, after)),
        law_inputs::has_params(
            f,
            d,
            out.last(),
            name,
            Called::On {
                node,
                before: Seq::empty(),
                variable,
                class: actual,
                rest: seq!['<'] + law_sigs::listed(items) + seq!['>'] + after,
            },
            law_sigs::listed(params),
            uri,
        ),
        law_inputs::input_is(p, inputs, 0, generic),
        (f.callable)(name, uri) == Some(info),
        info.type_params.contains(generic),
        forall|j: int| 0 <= j < info.type_params.len() ==> law_texts::is_name(#[trigger] info.type_params[j]),
        info.extension_receiver_type == applied(class, patterns, Seq::empty()),
        is_applied(class, patterns, Seq::empty()),
        is_pattern(patterns, i, generic),
        is_applied(actual, items, after),
        i < items.len(),
        shows(items[i], t),
        t != generic,
        !law_inputs::looks_generic(t),
    ensures
        it_this::implicit_type(
            f,
            lines,
            pos,
            Some((CstCursorView { doc: d, node: up[0] })),
            LambdaParamKind::It,
            uri,
        ) == Some(t),
{
    let call = out.last();
    let c = d.nodes[call].children[0];
    let called = Called::On {
        node,
        before: Seq::empty(),
        variable,
        class: actual,
        rest: seq!['<'] + law_sigs::listed(items) + seq!['>'] + after,
    };
    let whole = applied(actual, items, after);
    law_inputs::lemma_implicit_climbs(f, d, up, lines, LambdaParamKind::It, uri);
    law_inputs::lemma_unnamed(d, up.last());
    law_inputs::lemma_params(f, d, call, name, called, law_sigs::listed(params), uri);
    law_inputs::lemma_given(f, d, way, out, how, params, p, uri);
    law_inputs::lemma_input(p, inputs, 0, generic);
    law_receiver_settles_type_parameters(
        class,
        patterns,
        actual,
        items,
        after,
        info.type_params,
        i,
        generic,
        t,
    );
    lemma_called_on(f, d, call, node, name, variable, whole, uri);
    let pattern = info.extension_receiver_type;
    let subst = type_subst::ext_subst(pattern, whole, info.type_params);
    law_types::law_first_pair_counts(subst, generic, t);
    assert(subst.len() > 0);
    assert(pattern.len() > 0);
    law_type_parameters_by_their_look(t);
    assert(cst_lambda::by_signature(f, d, way[0], 0, uri) == Some(t));
}

pub(crate) proof fn lemma_called_on(
    f: Facts,
    d: DocView,
    call: int,
    node: int,
    name: Seq<char>,
    variable: Seq<char>,
    t: Seq<char>,
    uri: Seq<char>,
)
    requires
        d.wf(),
        0 <= call < d.nodes.len(),
        d.nodes[call].children.len() > 0,
        d.nodes[d.nodes[call].children[0]].kind == "navigation_expression"@,
        law_trees::names(d, d.nodes[call].children[0], name),
        law_inputs::first_rule(d, d.nodes[call].children[0], node),
        d.nodes[node].kind == "simple_identifier"@,
        law_trees::reads(d, node, variable),
        (f.var_type)(variable, uri) == Some(t),
    ensures
        cst_lambda::call_receiver(f, d, call, uri) == Some(t),
{
    let c = d.nodes[call].children[0];
    assert(d.node_ok(call));
    assert(call < d.nodes[call].children[0] < d.nodes.len());
    assert(d.node_ok(c));
    law_receivers::lemma_nav(d, c, name);
    law_inputs::lemma_first_rule(d, c, node);
    let k = choose|k: int|
        0 <= k < d.nodes[c].children.len() && #[trigger] d.nodes[c].children[k] == node
            && d.nodes[node].named && forall|j: int|
            0 <= j < k ==> !d.nodes[#[trigger] d.nodes[c].children[j]].named;
    assert(c < d.nodes[c].children[k] < d.nodes.len());
    law_types_of_expressions(f, d, node, 0, 0, variable, t, uri);
}

} // verus!
