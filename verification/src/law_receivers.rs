//! What `this` means in the lambdas of scope functions and of labelled arguments.
use vstd::prelude::*;
use vstd::string::*;

use crate::cst::DocView;
use crate::cst_lambda;
use crate::cst_lambda::{CtxView, ThisView};
use crate::deps::Facts;
use crate::it_this;
use crate::it_this::CstCursorView;
use crate::law_inputs;
use crate::law_inputs::Called;
use crate::law_lambdas;
use crate::law_lambdas::FunParam;
use crate::law_sigs;
use crate::law_texts;
use crate::law_trees;
use crate::receiver;
use crate::sig;
use crate::text;
use crate::types::CursorPos;
use crate::unicode;

verus! {

/// In a lambda that is a labelled argument `this` is the receiver that the parameter says which
/// the label names.
#[verifier::rlimit(60)]
pub proof fn law_this_in_a_labelled_argument(
    f: Facts,
    lines: Seq<Seq<char>>,
    pos: CursorPos,
    d: DocView,
    up: Seq<int>,
    out: Seq<int>,
    name: Seq<char>,
    called: Called,
    params: Seq<Seq<char>>,
    p: FunParam,
    j: int,
    uri: Seq<char>,
)
    requires
        d.wf(),
        law_trees::reaches(d, up, "lambda_literal"@),
        law_trees::reaches(d, out, "call_expression"@),
        out[0] == up.last(),
        out.len() > 1,
        d.nodes[out[1]].kind == "value_argument"@,
        exists|e: int| #[trigger] law_trees::first_of(d, out[1], "="@, e),
        law_trees::bears(d, out[1], p.name),
        law_inputs::has_params(f, d, out.last(), name, called, law_sigs::listed(params), uri),
        name != "with"@,
        name != "run"@,
        name != "apply"@,
        law_sigs::all_items(params),
        forall|i: int| 0 <= i < params.len() ==> law_sigs::has_ink(#[trigger] params[i]),
        0 <= j < params.len(),
        params[j] == law_lambdas::param_text(p),
        forall|i: int| 0 <= i < j ==> sig::param_name(#[trigger] params[i]) != Some(p.name),
        law_lambdas::is_fun_param(p),
        p.receiver.len() > 0,
    ensures
        it_this::this_context(
            f,
            lines,
            pos,
            Some((CstCursorView { doc: d, node: up[0] })),
            uri,
        ) == ThisView::Resolved(p.receiver),
{
    let lambda = up.last();
    let arg = out[1];
    law_lambdas::lemma_this_climbs(f, d, up, uri);
    law_trees::law_nearest_is_found(d, out, "call_expression"@);
    law_inputs::lemma_params(f, d, out.last(), name, called, law_sigs::listed(params), uri);
    law_lambdas::lemma_fun_param(p);
    law_sigs::law_parameter_is_found_by_name(params, p.name, j);
    law_sigs::law_receiver_of_a_function_type(p.receiver, p.inputs, p.mid, p.result);
    assert(d.nodes[out[0]].parent == Some(out[1]));
    let e = choose|e: int| #[trigger] law_trees::first_of(d, arg, "="@, e);
    law_trees::lemma_first_of(d, arg, "="@, e);
    law_trees::lemma_bears(d, arg, p.name);
    assert(cst_lambda::label_receiver(f, d, lambda, out.last(), uri) == Some(p.receiver));
    assert(cst_lambda::this_of_lambda(f, d, lambda, uri) == CtxView::Resolved(p.receiver));
}

/// Whether a type is that of a class of a name, perhaps in an outer one, perhaps with arguments or
/// a question mark.
pub open spec fn is_class_type(
    t: Seq<char>,
    outer: Seq<char>,
    class: Seq<char>,
    rest: Seq<char>,
) -> bool {
    &&& t == outer + class + rest
    &&& law_texts::is_name(class)
    &&& outer.len() > 0 ==> outer.last() == '.'
    &&& forall|i: int| 0 <= i < outer.len() ==> text::id_char(#[trigger] outer[i]) || outer[i] == '.'
    &&& rest.len() > 0 ==> !text::id_char(rest[0]) && rest[0] != '.'
}

#[verifier::rlimit(60)]
proof fn lemma_short_base(t: Seq<char>, outer: Seq<char>, class: Seq<char>, rest: Seq<char>)
    requires
        is_class_type(t, outer, class, rest),
    ensures
        cst_lambda::short_base(t) == class,
{
    law_texts::lemma_name_is_tight(class);
    let q = text::only('?');
    text::lemma_rspan(t, q);
    let cut = text::rspan(t, q);
    let u = text::without_suffix_of(t, q);
    let whole = outer + class;
    if t.len() - cut < whole.len() {
        assert(q(t[whole.len() - 1]));
        assert(t[whole.len() - 1] == class.last());
        assert(text::id_char(class.last()));
    }
    let more = u.skip(whole.len() as int);
    assert(u =~= whole + more);
    if more.len() > 0 {
        assert(more[0] == rest[0]);
    }
    let p = text::dotted_class();
    assert forall|i: int| 0 <= i < whole.len() implies p(#[trigger] u[i]) by {
        if i < outer.len() {
            assert(u[i] == outer[i]);
        } else {
            assert(u[i] == class[i - outer.len()]);
            assert(text::id_char(class[i - outer.len()]));
        }
    }
    if more.len() > 0 {
        assert(u[whole.len() as int] == more[0]);
    }
    text::lemma_span_unique(u, p, whole.len() as int);
    assert(u.take(whole.len() as int) =~= whole);
    assert(whole.last() == class.last());
    assert(class.last() != '.');
    text::lemma_rspan_unique(whole, text::only('.'), 0);
    assert(whole.take(whole.len() as int) =~= whole);
    if outer.len() > 0 {
        law_texts::law_last_segment(outer.drop_last(), class);
        assert(outer.drop_last() + seq!['.'] + class =~= whole);
    } else {
        law_texts::law_last_segment(Seq::empty(), class);
        assert(whole =~= class);
    }
}

/// In the lambda of `run` and of `apply` `this` is the class of what they are called on.
#[verifier::rlimit(60)]
pub proof fn law_this_in_run_and_apply(
    f: Facts,
    lines: Seq<Seq<char>>,
    pos: CursorPos,
    d: DocView,
    up: Seq<int>,
    out: Seq<int>,
    node: int,
    name: Seq<char>,
    variable: Seq<char>,
    t: Seq<char>,
    outer: Seq<char>,
    class: Seq<char>,
    rest: Seq<char>,
    uri: Seq<char>,
)
    requires
        d.wf(),
        law_trees::reaches(d, up, "lambda_literal"@),
        law_trees::reaches(d, out, "call_expression"@),
        out[0] == up.last(),
        name == "run"@ || name == "apply"@,
        d.nodes[out.last()].children.len() > 0,
        d.nodes[d.nodes[out.last()].children[0]].kind == "navigation_expression"@,
        law_trees::names(d, d.nodes[out.last()].children[0], name),
        law_inputs::first_rule(d, d.nodes[out.last()].children[0], node),
        d.nodes[node].kind == "simple_identifier"@,
        law_trees::reads(d, node, variable),
        (f.var_type)(variable, uri) == Some(t),
        is_class_type(t, outer, class, rest),
    ensures
        it_this::this_context(
            f,
            lines,
            pos,
            Some((CstCursorView { doc: d, node: up[0] })),
            uri,
        ) == ThisView::Resolved(class),
{
    let lambda = up.last();
    let call = out.last();
    let c = d.nodes[call].children[0];
    law_lambdas::lemma_this_climbs(f, d, up, uri);
    law_trees::law_nearest_is_found(d, out, "call_expression"@);
    law_trees::law_call_is_named(d, call, name);
    law_inputs::lemma_first_rule(d, c, node);
    lemma_short_base(t, outer, class, rest);
    assert(d.node_ok(call));
    assert(d.node_ok(c));
    reveal_strlit("with");
    reveal_strlit("run");
    reveal_strlit("apply");
    assert("with"@.len() == 4);
    assert("run"@.len() == 3);
    assert("apply"@.len() == 5);
    assert(d.node_text(node) == variable);
    assert(cst_lambda::node_type(f, d, node, uri) == Some(t));
    assert(d.nav_member(c) is Some) by {
        lemma_nav(d, c, name);
    }
    assert(cst_lambda::callee_chain(f, d, c, uri) is Some);
    assert(cst_lambda::call_receiver(f, d, call, uri) == Some(t));
    assert(cst_lambda::this_of_lambda(f, d, lambda, uri) == CtxView::Resolved(class));
}

pub(crate) proof fn lemma_nav(d: DocView, c: int, name: Seq<char>)
    requires
        d.nodes[c].kind == "navigation_expression"@,
        law_trees::names(d, c, name),
    ensures
        d.nav_member(c) == Some(name),
{
    reveal_strlit("simple_identifier");
    reveal_strlit("navigation_expression");
    assert("simple_identifier"@[0] != "navigation_expression"@[0]);
    let s = choose|s: int| #[trigger] law_trees::first_of(d, c, "navigation_suffix"@, s) && law_trees::bears(d, s, name);
    law_trees::lemma_first_of(d, c, "navigation_suffix"@, s);
    law_trees::lemma_bears(d, s, name);
}

/// Whether an expression is what the first argument in a call's own list gives.
pub open spec fn gives_first(d: DocView, call: int, e: int) -> bool {
    exists|s: int, l: int, a: int|
        #![trigger law_trees::first_of(d, call, "call_suffix"@, s), law_trees::first_of(d, s, "value_arguments"@, l),
            law_trees::first_of(d, l, "value_argument"@, a)]
        law_trees::first_of(d, call, "call_suffix"@, s) && law_trees::first_of(d, s, "value_arguments"@, l) && law_trees::first_of(
            d,
            l,
            "value_argument"@,
            a,
        ) && last_rule(d, a, e)
}

/// Whether a child of a node is the last that is a rule of the grammar.
pub open spec fn last_rule(d: DocView, n: int, c: int) -> bool {
    exists|k: int|
        0 <= k < d.nodes[n].children.len() && #[trigger] d.nodes[n].children[k] == c
            && d.nodes[c].named && forall|j: int|
            k < j < d.nodes[n].children.len() ==> !d.nodes[#[trigger] d.nodes[n].children[j]].named
}

proof fn lemma_last_rule(d: DocView, n: int, k: int, m: int)
    requires
        0 <= k < m <= d.nodes[n].children.len(),
        d.nodes[d.nodes[n].children[k]].named,
        forall|j: int|
            k < j < d.nodes[n].children.len() ==> !d.nodes[#[trigger] d.nodes[n].children[j]].named,
    ensures
        d.last_named(d.nodes[n].children.take(m)) == Some(d.nodes[n].children[k]),
    decreases m,
{
    let list = d.nodes[n].children.take(m);
    assert(list.last() == d.nodes[n].children[m - 1]);
    if k < m - 1 {
        assert(list.drop_last() =~= d.nodes[n].children.take(m - 1));
        lemma_last_rule(d, n, k, m - 1);
    }
}

proof fn lemma_gives_first(d: DocView, call: int, e: int)
    requires
        gives_first(d, call, e),
    ensures
        d.own_first_arg(call) == Some(e),
{
    let (s, l, a) = choose|s: int, l: int, a: int|
        #![trigger law_trees::first_of(d, call, "call_suffix"@, s), law_trees::first_of(d, s, "value_arguments"@, l),
            law_trees::first_of(d, l, "value_argument"@, a)]
        law_trees::first_of(d, call, "call_suffix"@, s) && law_trees::first_of(d, s, "value_arguments"@, l) && law_trees::first_of(
            d,
            l,
            "value_argument"@,
            a,
        ) && last_rule(d, a, e);
    law_trees::lemma_first_of(d, call, "call_suffix"@, s);
    law_trees::lemma_first_of(d, s, "value_arguments"@, l);
    law_trees::lemma_first_of(d, l, "value_argument"@, a);
    let all = d.nodes[a].children;
    let k = choose|k: int|
        0 <= k < all.len() && #[trigger] d.nodes[a].children[k] == e && d.nodes[e].named && forall|
            j: int,
        |
            k < j < all.len() ==> !d.nodes[#[trigger] d.nodes[a].children[j]].named;
    lemma_last_rule(d, a, k, all.len() as int);
    assert(all.take(all.len() as int) =~= all);
}

pub(crate) proof fn lemma_class_name(class: Seq<char>, rest: Seq<char>)
    requires
        law_texts::is_name(class),
        unicode::uppercase(class[0]),
        !law_inputs::looks_generic(class),
        rest.len() > 0 ==> !text::id_char(rest[0]) && rest[0] != '.',
    ensures
        receiver::upper_dotted(class + rest) == Some(class),
{
    law_texts::lemma_name_is_tight(class);
    law_texts::law_names_at_the_ends(class, rest);
    assert(class.last() != '.');
    text::lemma_rspan_unique(class, text::only('.'), 0);
    assert(class.take(class.len() as int) =~= class);
    law_texts::law_character_is_found(class, '.', Seq::empty());
    assert(text::parts(class, '.')[0] =~= class);
}

/// In the lambda of `with` `this` is the class of the argument, a variable of that class.
#[verifier::rlimit(60)]
pub proof fn law_this_in_with(
    f: Facts,
    lines: Seq<Seq<char>>,
    pos: CursorPos,
    d: DocView,
    up: Seq<int>,
    out: Seq<int>,
    e: int,
    suffix: int,
    variable: Seq<char>,
    class: Seq<char>,
    rest: Seq<char>,
    uri: Seq<char>,
)
    requires
        d.wf(),
        law_trees::reaches(d, up, "lambda_literal"@),
        law_trees::reaches(d, out, "call_expression"@),
        out[0] == up.last(),
        d.nodes[out.last()].children.len() > 0,
        d.nodes[d.nodes[out.last()].children[0]].kind == "call_expression"@,
        d.nodes[d.nodes[out.last()].children[0]].children.len() > 0,
        law_trees::names(d, d.nodes[d.nodes[out.last()].children[0]].children[0], "with"@),
        law_trees::first_of(d, out.last(), "call_suffix"@, suffix),
        law_trees::none_of(d, suffix, "value_arguments"@),
        gives_first(d, d.nodes[out.last()].children[0], e),
        0 <= e < d.nodes.len(),
        d.nodes[e].kind == "simple_identifier"@,
        law_trees::reads(d, e, variable),
        (f.var_type)(variable, uri) == Some(class + rest),
        law_texts::is_name(class),
        unicode::uppercase(class[0]),
        !law_inputs::looks_generic(class),
        rest.len() > 0 ==> !text::id_char(rest[0]) && rest[0] != '.',
    ensures
        it_this::this_context(
            f,
            lines,
            pos,
            Some((CstCursorView { doc: d, node: up[0] })),
            uri,
        ) == ThisView::Resolved(class),
{
    let lambda = up.last();
    let call = out.last();
    law_lambdas::lemma_this_climbs(f, d, up, uri);
    law_trees::law_nearest_is_found(d, out, "call_expression"@);
    assert(law_trees::calls(d, call, "with"@));
    law_lambdas::lemma_lambda_call_name(d, call, "with"@);
    law_trees::lemma_first_of(d, call, "call_suffix"@, suffix);
    law_trees::lemma_none_of(d, suffix, "value_arguments"@);
    lemma_gives_first(d, d.nodes[call].children[0], e);
    assert(d.first_arg(call) == Some(e));
    lemma_class_name(class, rest);
    assert(d.node_text(e) == variable);
    assert(cst_lambda::node_type(f, d, e, uri) == Some(class + rest));
    assert(cst_lambda::this_of_lambda(f, d, lambda, uri) == CtxView::Resolved(class));
}

} // verus!
