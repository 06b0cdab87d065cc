//! What types `it` and named lambda parameters have, said of the tree and of the signatures round
//! the lambda.
use vstd::prelude::*;
use vstd::string::*;

use crate::cst::DocView;
use crate::cst_lambda;
use crate::cst_lambda::{LambdaParamKind, ParamView};
use crate::deps::Facts;
use crate::it_this;
use crate::it_this::CstCursorView;
use crate::lambda_types;
use crate::law_lambdas;
use crate::law_lambdas::FunParam;
use crate::law_sigs;
use crate::law_texts;
use crate::law_trees;
use crate::lists;
use crate::sig;
use crate::text;
use crate::types::{CursorPos, Position};
use crate::unicode;

verus! {

// ---------------------------------------------------------------------------
// What a lambda is given to
// ---------------------------------------------------------------------------

/// Whether a way leads up from a lambda to the nearest node above it that tells what it is given
/// to, which is of the kind.
pub open spec fn is_held(d: DocView, way: Seq<int>, kind: Seq<char>) -> bool {
    &&& law_trees::climbs(d, way)
    &&& way.len() > 1
    &&& d.nodes[way.last()].kind == kind
    &&& forall|i: int|
        0 < i < way.len() - 1 ==> d.nodes[#[trigger] way[i]].kind != "value_argument"@
            && d.nodes[way[i]].kind != "call_suffix"@ && d.nodes[way[i]].kind
            != "lambda_literal"@
}

pub(crate) proof fn lemma_holder(d: DocView, way: Seq<int>, kind: Seq<char>)
    requires
        d.wf(),
        is_held(d, way, kind),
        kind == "value_argument"@ || kind == "call_suffix"@,
    ensures
        cst_lambda::holder(d, way[0]) == Some(way.last()),
    decreases way.len(),
{
    assert(d.node_ok(way[0]));
    assert(d.nodes[way[0]].parent == Some(way[1]));
    if way.len() > 2 {
        law_trees::lemma_shorter(d, way);
        let rest = way.skip(1);
        assert(rest.last() == way.last());
        assert forall|i: int| 0 < i < rest.len() - 1 implies d.nodes[#[trigger] rest[i]].kind
            != "value_argument"@ && d.nodes[rest[i]].kind != "call_suffix"@
            && d.nodes[rest[i]].kind != "lambda_literal"@ by {
            assert(rest[i] == way[i + 1]);
        }
        assert(d.nodes[way[1]].kind != "value_argument"@);
        lemma_holder(d, rest, kind);
    }
}

/// Whether a name looks like a type parameter: a capital letter, alone or with a digit.
pub open spec fn looks_generic(s: Seq<char>) -> bool {
    ||| s.len() == 1 && unicode::uppercase(s[0])
    ||| s.len() == 2 && unicode::uppercase(s[0]) && '0' <= s[1] <= '9'
}

/// Whether a type that the signature of a function names is no type parameter of it.
pub open spec fn is_settled(f: Facts, name: Seq<char>, t: Seq<char>, uri: Seq<char>) -> bool {
    match (f.callable)(name, uri) {
        Some(c) => !c.type_params.contains(t),
        None => !looks_generic(t),
    }
}

/// Whether a child of a node is the first that is a rule of the grammar.
pub open spec fn first_rule(d: DocView, n: int, c: int) -> bool {
    exists|k: int|
        0 <= k < d.nodes[n].children.len() && #[trigger] d.nodes[n].children[k] == c
            && d.nodes[c].named && forall|j: int|
            0 <= j < k ==> !d.nodes[#[trigger] d.nodes[n].children[j]].named
}

/// Whether a variable has a type: as it is visible anywhere in the file, or nowhere, and then as
/// the file knows it.
pub open spec fn has_type(f: Facts, name: Seq<char>, t: Seq<char>, uri: Seq<char>) -> bool {
    ||| forall|p: Position| #[trigger] (f.var_type_at)(name, uri, p) == Some(t)
    ||| (f.var_type)(name, uri) == Some(t) && forall|p: Position| #[trigger]
        (f.var_type_at)(name, uri, p) is None
}

/// A function called by its name alone, or on a variable.
pub enum Called {
    Plain,
    /// On what ends in a variable, whose type begins with the name of a class.
    On { node: int, before: Seq<char>, variable: Seq<char>, class: Seq<char>, rest: Seq<char> },
}

/// Whether a call calls a function of a name whose parameters are known: those of the function, or
/// of the method of the class that it is called on.
pub open spec fn has_params(
    f: Facts,
    d: DocView,
    call: int,
    name: Seq<char>,
    how: Called,
    params: Seq<char>,
    uri: Seq<char>,
) -> bool {
    let c = d.nodes[call].children[0];
    &&& d.nodes[call].children.len() > 0
    &&& match how {
        Called::Plain => {
            &&& d.nodes[c].kind == "simple_identifier"@
            &&& law_trees::reads(d, c, name)
            &&& (f.fun_params)(name, uri) == Some(params)
        },
        Called::On { node, before, variable, class, rest } => {
            &&& d.nodes[c].kind == "navigation_expression"@
            &&& law_trees::names(d, c, name)
            &&& first_rule(d, c, node)
            &&& law_trees::reads(d, node, before + variable)
            &&& law_texts::is_name(variable)
            &&& before.len() > 0 ==> !text::id_char(before.last())
            &&& has_type(f, variable, class + rest, uri)
            &&& law_texts::is_name(class)
            &&& rest.len() > 0 ==> !text::id_char(rest[0]) && rest[0] != '.'
            &&& {
                ||| (f.method_params)(class, name) == Some(params)
                ||| (f.method_params)(class, name) is None && (f.fun_params)(name, uri) == Some(
                    params,
                )
            }
        },
    }
}

pub(crate) proof fn lemma_first_rule(d: DocView, n: int, c: int)
    requires
        first_rule(d, n, c),
    ensures
        d.first_named(n) == Some(c),
{
    let all = d.nodes[n].children;
    let k = choose|k: int|
        0 <= k < d.nodes[n].children.len() && #[trigger] d.nodes[n].children[k] == c
            && d.nodes[c].named && forall|j: int|
            0 <= j < k ==> !d.nodes[#[trigger] d.nodes[n].children[j]].named;
    let p = d.is_named();
    assert forall|j: int| 0 <= j < k implies !p(#[trigger] all[j]) by {
        assert(!d.nodes[d.nodes[n].children[j]].named);
    }
    lists::lemma_first(all, p, k);
}

#[verifier::rlimit(60)]
pub(crate) proof fn lemma_params(
    f: Facts,
    d: DocView,
    call: int,
    name: Seq<char>,
    how: Called,
    params: Seq<char>,
    uri: Seq<char>,
)
    requires
        has_params(f, d, call, name, how, params, uri),
    ensures
        d.call_name(call) == Some(name),
        cst_lambda::params_of_call(f, d, call, uri) == Some(params),
{
    law_trees::law_call_is_named(d, call, name);
    reveal_strlit("simple_identifier");
    reveal_strlit("navigation_expression");
    assert("simple_identifier"@[0] != "navigation_expression"@[0]);
    let c = d.nodes[call].children[0];
    match how {
        Called::Plain => {},
        Called::On { node, before, variable, class, rest } => {
            lemma_first_rule(d, c, node);
            law_texts::law_names_at_the_ends(variable, before);
            law_texts::law_names_at_the_ends(class, rest);
            assert(d.node_text(node) == before + variable);
            assert(d.call_qualifier(call) == Some(variable));
            assert((f.var_type_at)(variable, uri, d.position(node)) is None || (f.var_type_at)(
                variable,
                uri,
                d.position(node),
            ) == Some(class + rest));
            assert(cst_lambda::qualifier_type(f, d, call, uri) == Some(class + rest));
        },
    }
}

/// How a lambda is given to a call.
pub enum Given {
    /// Behind the call.
    Trailing,
    /// As the argument at a node, labelled with the name of its parameter.
    Labelled { arg: int },
    /// As the argument at a node, which is child `at` of its list.
    Placed { arg: int, list: int, at: int },
}

/// How many of the first `k` children of a list are arguments.
pub open spec fn arguments(d: DocView, list: int, k: int) -> int
    decreases k,
{
    if k <= 0 {
        0
    } else {
        arguments(d, list, k - 1) + if d.nodes[d.nodes[list].children[k - 1]].kind
            == "value_argument"@ {
            1int
        } else {
            0
        }
    }
}

/// Whether a lambda is given to a call for the parameter `p` among `params`. `way` leads up from
/// the lambda to what holds it, `out` from the lambda, or from the argument, to the call.
pub open spec fn is_given(
    d: DocView,
    way: Seq<int>,
    out: Seq<int>,
    how: Given,
    params: Seq<Seq<char>>,
    p: FunParam,
) -> bool {
    &&& law_trees::reaches(d, out, "call_expression"@)
    &&& params.len() > 0
    &&& law_sigs::all_items(params)
    &&& forall|i: int| 0 <= i < params.len() ==> law_sigs::has_ink(#[trigger] params[i])
    &&& law_lambdas::is_fun_param(p)
    &&& match how {
        Given::Trailing => {
            &&& is_held(d, way, "call_suffix"@)
            &&& out[0] == way[0]
            &&& params.last() == law_lambdas::param_text(p)
        },
        Given::Labelled { arg } => {
            &&& is_held(d, way, "value_argument"@)
            &&& out[0] == way.last() == arg
            &&& exists|e: int| #[trigger] law_trees::first_of(d, arg, "="@, e)
            &&& law_trees::bears(d, arg, p.name)
            &&& exists|j: int|
                0 <= j < params.len() && #[trigger] params[j] == law_lambdas::param_text(p) && forall|i: int|
                    0 <= i < j ==> sig::param_name(#[trigger] params[i]) != Some(p.name)
        },
        Given::Placed { arg, list, at } => {
            &&& is_held(d, way, "value_argument"@)
            &&& out[0] == way.last() == arg
            &&& law_trees::none_of(d, arg, "="@)
            &&& d.nodes[arg].parent == Some(list)
            &&& 0 <= at < d.nodes[list].children.len()
            &&& d.nodes[list].children[at] == arg
            &&& forall|i: int| 0 <= i < at ==> #[trigger] d.nodes[list].children[i] != arg
            &&& arguments(d, list, at) < params.len()
            &&& params[arguments(d, list, at)] == law_lambdas::param_text(p)
        },
    }
}

proof fn lemma_arguments(d: DocView, list: int, from: int, at: int)
    requires
        0 <= from <= at < d.nodes[list].children.len(),
        forall|i: int|
            0 <= i < at ==> #[trigger] d.nodes[list].children[i] != d.nodes[list].children[at],
    ensures
        d.args_before(d.nodes[list].children.skip(from), d.nodes[list].children[at]) == arguments(
            d,
            list,
            at,
        ) - arguments(d, list, from),
    decreases at - from,
{
    let all = d.nodes[list].children;
    let rest = all.skip(from);
    assert(rest[0] == all[from]);
    if from < at {
        assert(all[from] != all[at]);
        assert(rest.skip(1) =~= all.skip(from + 1));
        lemma_arguments(d, list, from + 1, at);
    }
}

proof fn lemma_arguments_count(d: DocView, list: int, k: int)
    ensures
        arguments(d, list, k) >= 0,
    decreases k,
{
    if k > 0 {
        lemma_arguments_count(d, list, k - 1);
    }
}

#[verifier::rlimit(60)]
pub(crate) proof fn lemma_given(
    f: Facts,
    d: DocView,
    way: Seq<int>,
    out: Seq<int>,
    how: Given,
    params: Seq<Seq<char>>,
    p: FunParam,
    uri: Seq<char>,
)
    requires
        d.wf(),
        is_given(d, way, out, how, params, p),
        cst_lambda::params_of_call(f, d, out.last(), uri) == Some(law_sigs::listed(params)),
    ensures
        cst_lambda::call_and_param(f, d, way[0], uri) == Some((out.last(), law_lambdas::type_text(p))),
{
    law_trees::law_nearest_is_found(d, out, "call_expression"@);
    law_sigs::law_lists_are_parted(params);
    law_lambdas::lemma_fun_param(p);
    reveal_strlit("value_argument");
    reveal_strlit("call_suffix");
    assert("value_argument"@[0] != "call_suffix"@[0]);
    match how {
        Given::Trailing => {
            lemma_holder(d, way, "call_suffix"@);
        },
        Given::Labelled { arg } => {
            lemma_holder(d, way, "value_argument"@);
            let e = choose|e: int| #[trigger] law_trees::first_of(d, arg, "="@, e);
            law_trees::lemma_first_of(d, arg, "="@, e);
            law_trees::lemma_bears(d, arg, p.name);
            let j = choose|j: int|
                0 <= j < params.len() && #[trigger] params[j] == law_lambdas::param_text(p) && forall|i: int|
                    0 <= i < j ==> sig::param_name(#[trigger] params[i]) != Some(p.name);
            law_sigs::law_parameter_is_found_by_name(params, p.name, j);
        },
        Given::Placed { arg, list, at } => {
            lemma_holder(d, way, "value_argument"@);
            law_trees::lemma_none_of(d, arg, "="@);
            lemma_arguments(d, list, 0, at);
            lemma_arguments_count(d, list, at);
            assert(d.nodes[list].children.skip(0) =~= d.nodes[list].children);
            assert(d.arg_place(arg) as int == arguments(d, list, at));
            let n = arguments(d, list, at);
            assert(sig::nth_type(law_sigs::listed(params), n) == sig::param_type(params[n]));
        },
    }
}

/// Whether the input at `n` of a function type is a type of a name, perhaps with arguments or a
/// question mark, perhaps with a name of its own before it.
pub open spec fn input_is(p: FunParam, items: Seq<Seq<char>>, n: int, t: Seq<char>) -> bool {
    &&& p.inputs == law_sigs::listed(items)
    &&& law_sigs::all_items(items)
    &&& forall|i: int| 0 <= i < items.len() ==> law_sigs::has_ink(#[trigger] items[i])
    &&& 0 <= n < items.len()
    &&& law_texts::is_name(t)
    &&& exists|a: Seq<char>, b: Seq<char>|
        law_texts::blank(a) && (b.len() > 0 ==> !text::id_char(b[0]) && b[0] != '.') && {
            ||| items[n] == #[trigger] (a + t + b) && law_texts::lacks(items[n], ':')
            ||| sig::param_type(items[n]) == Some(a + t + b)
        }
}

pub(crate) proof fn lemma_input(p: FunParam, items: Seq<Seq<char>>, n: int, t: Seq<char>)
    requires
        law_lambdas::is_fun_param(p),
        input_is(p, items, n, t),
    ensures
        lambda_types::nth_input(law_lambdas::type_text(p), n) == Some(t),
{
    let (a, b) = choose|a: Seq<char>, b: Seq<char>|
        law_texts::blank(a) && (b.len() > 0 ==> !text::id_char(b[0]) && b[0] != '.') && {
            ||| items[n] == #[trigger] (a + t + b) && law_texts::lacks(items[n], ':')
            ||| sig::param_type(items[n]) == Some(a + t + b)
        };
    law_sigs::law_input_of_a_function_type(p.receiver, items, p.mid, p.result, n, a, t, b);
}

proof fn lemma_by_signature(
    f: Facts,
    d: DocView,
    way: Seq<int>,
    out: Seq<int>,
    how: Given,
    name: Seq<char>,
    called: Called,
    params: Seq<Seq<char>>,
    p: FunParam,
    items: Seq<Seq<char>>,
    n: int,
    t: Seq<char>,
    uri: Seq<char>,
)
    requires
        d.wf(),
        is_given(d, way, out, how, params, p),
        has_params(f, d, out.last(), name, called, law_sigs::listed(params), uri),
        input_is(p, items, n, t),
        is_settled(f, name, t, uri),
    ensures
        cst_lambda::by_signature(f, d, way[0], n, uri) == Some(t),
{
    lemma_params(f, d, out.last(), name, called, law_sigs::listed(params), uri);
    lemma_given(f, d, way, out, how, params, p, uri);
    lemma_input(p, items, n, t);
}

// ---------------------------------------------------------------------------
// The implicit parameter
// ---------------------------------------------------------------------------

/// Whether a lambda names no parameter but `it` and `_`.
pub open spec fn is_unnamed(d: DocView, lambda: int) -> bool {
    ||| law_trees::none_of(d, lambda, "lambda_parameters"@)
    ||| exists|l: int| #[trigger]
        law_trees::first_of(d, lambda, "lambda_parameters"@, l) && forall|i: int, name: Seq<char>|
            0 <= i < d.nodes[l].children.len() && d.nodes[#[trigger] d.nodes[l].children[i]].kind
                == "variable_declaration"@ && #[trigger] law_trees::bears(d, d.nodes[l].children[i], name)
                ==> name == "it"@ || name == "_"@
}

/// Whether a name that a lambda declares is borne by one of its parameters.
proof fn lemma_declared(d: DocView, l: int, n: int, k: int)
    requires
        0 <= n <= d.nodes[l].children.len(),
        0 <= k < d.declared_in(d.nodes[l].children.take(n)).len(),
    ensures
        exists|i: int|
            0 <= i < n && d.nodes[#[trigger] d.nodes[l].children[i]].kind
                == "variable_declaration"@ && law_trees::bears(
                d,
                d.nodes[l].children[i],
                d.declared_in(d.nodes[l].children.take(n))[k],
            ),
    decreases n,
{
    let list = d.nodes[l].children.take(n);
    if n > 0 {
        assert(list.drop_last() =~= d.nodes[l].children.take(n - 1));
        let before = d.declared_in(list.drop_last());
        let c = list.last();
        if k < before.len() {
            lemma_declared(d, l, n - 1, k);
        } else {
            lemma_bears_ident(d, c);
            assert(d.nodes[l].children[n - 1] == c);
        }
    }
}

proof fn lemma_bears_ident(d: DocView, n: int)
    requires
        d.ident_in(n) is Some,
    ensures
        law_trees::bears(d, n, d.ident_in(n).unwrap()),
{
    let list = d.nodes[n].children;
    let p = d.of_kind("simple_identifier"@);
    lists::lemma_first_is(list, p);
    let k = lists::first_where(list, p).unwrap();
    let c = list[k];
    assert(p(list[k]));
    assert forall|j: int| 0 <= j < k implies d.nodes[#[trigger] list[j]].kind
        != "simple_identifier"@ by {
        assert(!p(list[j]));
    }
    assert(law_trees::first_of(d, n, "simple_identifier"@, c));
    assert(law_trees::reads(d, c, d.ident_in(n).unwrap()));
}

pub(crate) proof fn lemma_unnamed(d: DocView, lambda: int)
    requires
        is_unnamed(d, lambda),
    ensures
        !d.lambda_named(lambda),
{
    if law_trees::none_of(d, lambda, "lambda_parameters"@) {
        law_trees::lemma_none_of(d, lambda, "lambda_parameters"@);
    } else {
        let l = choose|l: int| #[trigger]
            law_trees::first_of(d, lambda, "lambda_parameters"@, l) && forall|i: int, name: Seq<char>|
                0 <= i < d.nodes[l].children.len()
                    && d.nodes[#[trigger] d.nodes[l].children[i]].kind == "variable_declaration"@
                    && #[trigger] law_trees::bears(d, d.nodes[l].children[i], name) ==> name == "it"@ || name
                    == "_"@;
        law_trees::lemma_first_of(d, lambda, "lambda_parameters"@, l);
        let names = d.lambda_params(lambda);
        assert forall|k: int| 0 <= k < names.len() implies !crate::cst::own_name(
            #[trigger] names[k],
        ) by {
            let n = d.nodes[l].children.len() as int;
            assert(d.nodes[l].children.take(n) =~= d.nodes[l].children);
            lemma_declared(d, l, n, k);
            let i = choose|i: int|
                0 <= i < n && d.nodes[#[trigger] d.nodes[l].children[i]].kind
                    == "variable_declaration"@ && law_trees::bears(d, d.nodes[l].children[i], names[k]);
            assert(law_trees::bears(d, d.nodes[l].children[i], names[k]));
        }
    }
}

pub(crate) proof fn lemma_implicit_climbs(
    f: Facts,
    d: DocView,
    up: Seq<int>,
    lines: Seq<Seq<char>>,
    kind: LambdaParamKind,
    uri: Seq<char>,
)
    requires
        d.wf(),
        law_trees::reaches(d, up, "lambda_literal"@),
    ensures
        cst_lambda::implicit_at(f, d, up[0], lines, kind, uri) == cst_lambda::implicit_at(
            f,
            d,
            up.last(),
            lines,
            kind,
            uri,
        ),
    decreases up.len(),
{
    assert(d.node_ok(up[0]));
    if up.len() > 1 {
        let rest = up.skip(1);
        law_trees::lemma_shorter(d, up);
        assert(rest.last() == up.last());
        assert forall|i: int| 0 <= i < rest.len() - 1 implies d.nodes[#[trigger] rest[i]].kind
            != "lambda_literal"@ by {
            assert(rest[i] == up[i + 1]);
        }
        lemma_implicit_climbs(f, d, rest, lines, kind, uri);
        assert(d.nodes[up[0]].kind != "lambda_literal"@);
    }
}

/// In a lambda that names no parameters `it` has the type of the first input of the function type
/// that the parameter has which the lambda is given for: the last parameter for a trailing lambda,
/// the labelled one for a labelled argument, else the one at the place of the argument.
pub proof fn law_it_has_the_first_input(
    f: Facts,
    lines: Seq<Seq<char>>,
    pos: CursorPos,
    d: DocView,
    up: Seq<int>,
    way: Seq<int>,
    out: Seq<int>,
    how: Given,
    name: Seq<char>,
    called: Called,
    params: Seq<Seq<char>>,
    p: FunParam,
    items: Seq<Seq<char>>,
    t: Seq<char>,
    uri: Seq<char>,
)
    requires
        d.wf(),
        law_trees::reaches(d, up, "lambda_literal"@),
        way.len() > 0,
        way[0] == up.last(),
        is_unnamed(d, up.last()),
        is_given(d, way, out, how, params, p),
        has_params(f, d, out.last(), name, called, law_sigs::listed(params), uri),
        input_is(p, items, 0, t),
        is_settled(f, name, t, uri),
        !looks_generic(t),
    ensures
        it_this::implicit_type(
            f,
            lines,
            pos,
            Some((CstCursorView { doc: d, node: up[0] })),
            LambdaParamKind::It,
            uri,
        ) == Some(t),
{
    lemma_implicit_climbs(f, d, up, lines, LambdaParamKind::It, uri);
    lemma_unnamed(d, up.last());
    lemma_by_signature(f, d, way, out, how, name, called, params, p, items, 0, t, uri);
}

// ---------------------------------------------------------------------------
// Named parameters
// ---------------------------------------------------------------------------

/// How many of the first `k` children of a list declare a variable.
pub open spec fn variables(d: DocView, l: int, k: int) -> int
    decreases k,
{
    if k <= 0 {
        0
    } else {
        let c = d.nodes[l].children[k - 1];
        variables(d, l, k - 1) + if d.nodes[c].kind == "variable_declaration"@ && !law_trees::none_of(
            d,
            c,
            "simple_identifier"@,
        ) {
            1int
        } else {
            0
        }
    }
}

/// Whether a lambda declares a name as its parameter at a place, and at no place before.
pub open spec fn declares_at(d: DocView, lambda: int, name: Seq<char>, place: int) -> bool {
    exists|l: int, k: int| #[trigger]
        law_trees::first_of(d, lambda, "lambda_parameters"@, l) && 0 <= k < d.nodes[l].children.len()
            && d.nodes[#[trigger] d.nodes[l].children[k]].kind == "variable_declaration"@ && law_trees::bears(
            d,
            d.nodes[l].children[k],
            name,
        ) && variables(d, l, k) == place && forall|j: int|
            0 <= j < k && d.nodes[#[trigger] d.nodes[l].children[j]].kind
                == "variable_declaration"@ ==> !law_trees::bears(d, d.nodes[l].children[j], name)
}

/// Whether a lambda declares no parameter of a name.
pub open spec fn declares_not(d: DocView, lambda: int, name: Seq<char>) -> bool {
    ||| law_trees::none_of(d, lambda, "lambda_parameters"@)
    ||| exists|l: int| #[trigger]
        law_trees::first_of(d, lambda, "lambda_parameters"@, l) && forall|j: int|
            0 <= j < d.nodes[l].children.len() && d.nodes[#[trigger] d.nodes[l].children[j]].kind
                == "variable_declaration"@ ==> !law_trees::bears(d, d.nodes[l].children[j], name)
}

proof fn lemma_variables(d: DocView, l: int, k: int)
    requires
        0 <= k <= d.nodes[l].children.len(),
    ensures
        d.declared_in(d.nodes[l].children.take(k)).len() == variables(d, l, k),
    decreases k,
{
    if k > 0 {
        let list = d.nodes[l].children.take(k);
        assert(list.drop_last() =~= d.nodes[l].children.take(k - 1));
        lemma_variables(d, l, k - 1);
        let c = list.last();
        assert(c == d.nodes[l].children[k - 1]);
        if law_trees::none_of(d, c, "simple_identifier"@) {
            law_trees::lemma_none_of(d, c, "simple_identifier"@);
        } else if d.ident_in(c) is None {
            let all = d.nodes[c].children;
            let q = d.of_kind("simple_identifier"@);
            lists::lemma_first_is(all, q);
            assert forall|j: int| 0 <= j < all.len() implies d.nodes[#[trigger] all[j]].kind
                != "simple_identifier"@ by {
                assert(!q(all[j]));
            }
            assert(law_trees::none_of(d, c, "simple_identifier"@));
        }
    }
}

proof fn lemma_declared_prefix(d: DocView, l: int, k: int, n: int)
    requires
        0 <= k <= n <= d.nodes[l].children.len(),
    ensures
        d.declared_in(d.nodes[l].children.take(k)).len() <= d.declared_in(
            d.nodes[l].children.take(n),
        ).len(),
        forall|i: int|
            0 <= i < d.declared_in(d.nodes[l].children.take(k)).len() ==> #[trigger] d.declared_in(
                d.nodes[l].children.take(n),
            )[i] == d.declared_in(d.nodes[l].children.take(k))[i],
    decreases n,
{
    if k < n {
        let list = d.nodes[l].children.take(n);
        assert(list.drop_last() =~= d.nodes[l].children.take(n - 1));
        lemma_declared_prefix(d, l, k, n - 1);
        let before = d.declared_in(list.drop_last());
        let now = d.declared_in(list);
        assert forall|i: int| 0 <= i < before.len() implies #[trigger] now[i] == before[i] by {}
    }
}

#[verifier::rlimit(60)]
pub(crate) proof fn lemma_declares_at(d: DocView, lambda: int, name: Seq<char>, place: int)
    requires
        declares_at(d, lambda, name, place),
    ensures
        d.lambda_place(lambda, name) == Some(place),
{
    let (l, k) = choose|l: int, k: int| #[trigger]
        law_trees::first_of(d, lambda, "lambda_parameters"@, l) && 0 <= k < d.nodes[l].children.len()
            && d.nodes[#[trigger] d.nodes[l].children[k]].kind == "variable_declaration"@ && law_trees::bears(
            d,
            d.nodes[l].children[k],
            name,
        ) && variables(d, l, k) == place && forall|j: int|
            0 <= j < k && d.nodes[#[trigger] d.nodes[l].children[j]].kind
                == "variable_declaration"@ ==> !law_trees::bears(d, d.nodes[l].children[j], name);
    law_trees::lemma_first_of(d, lambda, "lambda_parameters"@, l);
    let all = d.nodes[l].children;
    let n = all.len() as int;
    let names = d.lambda_params(lambda);
    assert(all.take(n) =~= all);
    lemma_variables(d, l, k);
    lemma_declared_prefix(d, l, k, n);
    lemma_declared_prefix(d, l, k + 1, n);
    let before = d.declared_in(all.take(k));
    let upto = d.declared_in(all.take(k + 1));
    assert(all.take(k + 1).drop_last() =~= all.take(k));
    assert(all.take(k + 1).last() == all[k]);
    law_trees::lemma_bears(d, all[k], name);
    assert(upto == before.push(name));
    assert(names[place] == upto[place]);
    let p = crate::cst::equal_to(name);
    assert forall|i: int| 0 <= i < place implies !p(#[trigger] names[i]) by {
        assert(names[i] == before[i]);
        lemma_declared(d, l, k, i);
        let j = choose|j: int|
            0 <= j < k && d.nodes[#[trigger] d.nodes[l].children[j]].kind == "variable_declaration"@
                && law_trees::bears(d, d.nodes[l].children[j], before[i]);
        assert(!law_trees::bears(d, d.nodes[l].children[j], name));
    }
    lists::lemma_first(names, p, place);
}

proof fn lemma_declares_not(d: DocView, lambda: int, name: Seq<char>)
    requires
        declares_not(d, lambda, name),
    ensures
        d.lambda_place(lambda, name) is None,
{
    let names = d.lambda_params(lambda);
    let p = crate::cst::equal_to(name);
    if law_trees::none_of(d, lambda, "lambda_parameters"@) {
        law_trees::lemma_none_of(d, lambda, "lambda_parameters"@);
        lists::lemma_no_first(names, p);
    } else {
        let l = choose|l: int| #[trigger]
            law_trees::first_of(d, lambda, "lambda_parameters"@, l) && forall|j: int|
                0 <= j < d.nodes[l].children.len()
                    && d.nodes[#[trigger] d.nodes[l].children[j]].kind == "variable_declaration"@
                    ==> !law_trees::bears(d, d.nodes[l].children[j], name);
        law_trees::lemma_first_of(d, lambda, "lambda_parameters"@, l);
        let n = d.nodes[l].children.len() as int;
        assert(d.nodes[l].children.take(n) =~= d.nodes[l].children);
        assert forall|i: int| 0 <= i < names.len() implies !p(#[trigger] names[i]) by {
            lemma_declared(d, l, n, i);
            let j = choose|j: int|
                0 <= j < n && d.nodes[#[trigger] d.nodes[l].children[j]].kind
                    == "variable_declaration"@ && law_trees::bears(d, d.nodes[l].children[j], names[i]);
            assert(!law_trees::bears(d, d.nodes[l].children[j], name));
        }
        lists::lemma_no_first(names, p);
    }
}

/// Whether a way leads up to the nearest lambda that declares a name, at a place.
pub open spec fn finds(d: DocView, up: Seq<int>, name: Seq<char>, place: int) -> bool {
    &&& law_trees::climbs(d, up)
    &&& d.nodes[up.last()].kind == "lambda_literal"@
    &&& declares_at(d, up.last(), name, place)
    &&& forall|i: int|
        0 <= i < up.len() - 1 && d.nodes[#[trigger] up[i]].kind == "lambda_literal"@
            ==> declares_not(d, up[i], name)
}

#[verifier::rlimit(60)]
pub(crate) proof fn lemma_named_climbs(f: Facts, d: DocView, up: Seq<int>, name: Seq<char>, place: int, uri: Seq<char>)
    requires
        d.wf(),
        finds(d, up, name, place),
    ensures
        cst_lambda::named_param(f, d, up[0], name, uri) == cst_lambda::named_param(
            f,
            d,
            up.last(),
            name,
            uri,
        ),
    decreases up.len(),
{
    assert(d.node_ok(up[0]));
    if up.len() > 1 {
        let rest = up.skip(1);
        law_trees::lemma_shorter(d, up);
        assert(rest.last() == up.last());
        assert forall|i: int|
            0 <= i < rest.len() - 1 && d.nodes[#[trigger] rest[i]].kind
                == "lambda_literal"@ implies declares_not(d, rest[i], name) by {
            assert(rest[i] == up[i + 1]);
        }
        lemma_named_climbs(f, d, rest, name, place, uri);
        assert(rest[0] == up[1]);
        if d.nodes[up[0]].kind == "lambda_literal"@ {
            lemma_declares_not(d, up[0], name);
            assert(d.enclosing(up[0], "lambda_literal"@) == Some(up[0]));
        } else {
            assert(d.enclosing(up[0], "lambda_literal"@) == d.enclosing(
                up[1],
                "lambda_literal"@,
            ));
            lemma_enclosing_below(d, up[1]);
            if let Some(l) = d.enclosing(up[1], "lambda_literal"@) {
                assert(d.node_ok(l));
            }
        }
    }
}

proof fn lemma_enclosing_below(d: DocView, n: int)
    ensures
        d.enclosing(n, "lambda_literal"@) matches Some(l) ==> 0 <= l <= n && l < d.nodes.len(),
    decreases n,
{
    if d.has(n) && d.nodes[n].kind != "lambda_literal"@ {
        if let Some(p) = d.nodes[n].parent {
            if 0 <= p < n {
                lemma_enclosing_below(d, p);
            }
        }
    }
}

/// A named parameter has the type of the input at its place of the function type that the
/// parameter has which its lambda is given for. The nearest lambda that declares the name counts.
pub proof fn law_named_parameter_has_its_input(
    f: Facts,
    lines: Seq<Seq<char>>,
    pos: CursorPos,
    d: DocView,
    up: Seq<int>,
    param: Seq<char>,
    place: int,
    way: Seq<int>,
    out: Seq<int>,
    how: Given,
    name: Seq<char>,
    called: Called,
    params: Seq<Seq<char>>,
    p: FunParam,
    items: Seq<Seq<char>>,
    t: Seq<char>,
    uri: Seq<char>,
)
    requires
        d.wf(),
        finds(d, up, param, place),
        way.len() > 0,
        way[0] == up.last(),
        is_given(d, way, out, how, params, p),
        has_params(f, d, out.last(), name, called, law_sigs::listed(params), uri),
        input_is(p, items, place, t),
        is_settled(f, name, t, uri),
    ensures
        it_this::named_type_in(
            f,
            lines,
            param,
            pos,
            Some((CstCursorView { doc: d, node: up[0] })),
            uri,
        ) == Some(t),
{
    lemma_named_climbs(f, d, up, param, place, uri);
    lemma_declares_at(d, up.last(), param, place);
    lemma_by_signature(f, d, way, out, how, name, called, params, p, items, place, t, uri);
    assert(d.enclosing(up.last(), "lambda_literal"@) == Some(up.last()));
    assert(cst_lambda::named_param(f, d, up.last(), param, uri) == ParamView::Resolved(t));
}

/// A lambda that names its parameters has no `it`: that is then the one of the next lambda round
/// it. `up` leads from the cursor to the inner lambda, `more` from above that to the outer one.
pub proof fn law_it_passes_over_named_lambdas(
    f: Facts,
    lines: Seq<Seq<char>>,
    pos: CursorPos,
    d: DocView,
    up: Seq<int>,
    more: Seq<int>,
    param: Seq<char>,
    place: int,
    uri: Seq<char>,
)
    requires
        d.wf(),
        law_trees::reaches(d, up, "lambda_literal"@),
        law_trees::reaches(d, more, "lambda_literal"@),
        d.nodes[up.last()].parent == Some(more[0]),
        declares_at(d, up.last(), param, place),
        param != "it"@,
        param != "_"@,
    ensures
        it_this::implicit_type(
            f,
            lines,
            pos,
            Some((CstCursorView { doc: d, node: up[0] })),
            LambdaParamKind::It,
            uri,
        ) == it_this::implicit_type(
            f,
            lines,
            pos,
            Some((CstCursorView { doc: d, node: more.last() })),
            LambdaParamKind::It,
            uri,
        ),
{
    lemma_implicit_climbs(f, d, up, lines, LambdaParamKind::It, uri);
    lemma_implicit_climbs(f, d, more, lines, LambdaParamKind::It, uri);
    lemma_declares_at(d, up.last(), param, place);
    let names = d.lambda_params(up.last());
    let p = crate::cst::equal_to(param);
    lists::lemma_first_is(names, p);
    assert(p(names[place]));
    assert(crate::cst::own_name(names[place]));
    assert(d.lambda_named(up.last()));
    assert(d.node_ok(up.last()));
}

} // verus!
