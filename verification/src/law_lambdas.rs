//! What `this` means in a lambda, said of the tree and of the signatures round it.
use vstd::prelude::*;
use vstd::string::*;

use crate::cst::DocView;
use crate::cst_lambda;
use crate::cst_lambda::{CtxView, ThisView};
use crate::deps::Facts;
use crate::it_this;
use crate::it_this::CstCursorView;
use crate::law_sigs;
use crate::law_texts;
use crate::law_trees;
use crate::text;
use crate::types::CursorPos;
use crate::unicode;

verus! {

/// A parameter that takes a function with a receiver, as it is written in a signature.
#[verifier::ext_equal]
pub struct FunParam {
    pub before: Seq<char>,
    pub name: Seq<char>,
    pub gap: Seq<char>,
    pub receiver: Seq<char>,
    pub inputs: Seq<char>,
    pub mid: Seq<char>,
    pub result: Seq<char>,
    pub rest: Seq<char>,
}

/// The type that a parameter has.
pub open spec fn type_text(p: FunParam) -> Seq<char> {
    law_sigs::arrow(p.receiver, p.inputs, p.mid, p.result)
}

/// The text of a parameter.
pub open spec fn param_text(p: FunParam) -> Seq<char> {
    law_sigs::written(p.before, p.name, p.gap, type_text(p), p.rest)
}

/// Whether the pieces make a parameter: what stands before its name holds no colon, and its type
/// is a function type that holds no equals sign.
pub open spec fn is_fun_param(p: FunParam) -> bool {
    &&& law_texts::lacks(p.before, ':')
    &&& p.before.len() > 0 ==> !text::id_char(p.before.last())
    &&& law_texts::is_name(p.name)
    &&& law_texts::blank(p.gap)
    &&& law_sigs::is_arrow(p.receiver, p.inputs, p.mid)
    &&& law_texts::lacks(p.inputs, '=')
    &&& p.result.len() > 0
    &&& !unicode::whitespace(p.result.last())
    &&& law_texts::lacks(p.result, '=')
    &&& law_sigs::is_rest(p.rest)
}

#[verifier::rlimit(60)]
pub(crate) proof fn lemma_fun_param(p: FunParam)
    requires
        is_fun_param(p),
    ensures
        crate::sig::param_type(param_text(p)) == Some(type_text(p)),
        crate::sig::param_name(param_text(p)) == Some(p.name),
        law_sigs::has_ink(param_text(p)),
{
    let t = type_text(p);
    reveal_strlit("->");
    let r = if p.receiver.len() > 0 {
        p.receiver + seq!['.']
    } else {
        p.receiver
    };
    if p.receiver.len() > 0 {
        law_texts::lemma_name_is_tight(p.receiver);
        assert(t[0] == p.receiver[0]);
    } else {
        assert(t[0] == '(');
    }
    assert(t.last() == p.result.last());
    assert forall|i: int| 0 <= i < t.len() implies #[trigger] t[i] != '=' by {
        let a = r.len() as int;
        let b = a + 1 + p.inputs.len();
        let c = b + 1 + p.mid.len();
        if i < a {
            if i < p.receiver.len() {
                assert(t[i] == p.receiver[i]);
            }
        } else if a < i < b {
            assert(t[i] == p.inputs[i - a - 1]);
        } else if b < i < c {
            assert(t[i] == p.mid[i - b - 1]);
            assert(unicode::whitespace(p.mid[i - b - 1]));
        } else if c + 2 <= i {
            assert(t[i] == p.result[i - c - 2]);
        }
    }
    assert forall|i: int| 0 <= i < p.gap.len() implies #[trigger] p.gap[i] != '=' by {
        assert(unicode::whitespace(p.gap[i]));
    }
    law_sigs::law_parameter_is_read(p.before, p.name, p.gap, t, p.rest);
    let w = param_text(p);
    law_texts::lemma_name_is_tight(p.name);
    assert(w[p.before.len() as int] == p.name[0]);
    assert(!unicode::whitespace(w[p.before.len() as int]));
}

/// What `this` means below a lambda is what it means in the lambda, where no other lambda stands
/// between.
pub(crate) proof fn lemma_this_climbs(f: Facts, d: DocView, up: Seq<int>, uri: Seq<char>)
    requires
        d.wf(),
        law_trees::reaches(d, up, "lambda_literal"@),
    ensures
        cst_lambda::this_at(f, d, up[0], uri) == cst_lambda::this_at(f, d, up.last(), uri),
    decreases up.len(),
{
    assert(d.node_ok(up[0]));
    if up.len() > 1 {
        let rest = up.skip(1);
        law_trees::lemma_shorter(d, up);
        assert(rest.last() == up.last());
        assert forall|i: int| 0 <= i < rest.len() - 1 implies d.nodes[#[trigger] rest[i]].kind
            != "lambda_literal"@ by {
            assert(rest[i] == up[i + 1]);
        }
        lemma_this_climbs(f, d, rest, uri);
        assert(d.nodes[up[0]].kind != "lambda_literal"@);
    }
}

pub(crate) proof fn lemma_lambda_call_name(d: DocView, call: int, name: Seq<char>)
    requires
        law_trees::calls(d, call, name),
    ensures
        cst_lambda::lambda_call_name(d, call) == Some(name),
{
    let c = d.nodes[call].children[0];
    if law_trees::names(d, c, name) {
        law_trees::law_call_is_named(d, call, name);
    } else {
        law_trees::law_call_is_named(d, c, name);
        reveal_strlit("simple_identifier");
        reveal_strlit("navigation_expression");
        reveal_strlit("call_expression");
        assert("call_expression"@.len() != "simple_identifier"@.len());
        assert("call_expression"@.len() != "navigation_expression"@.len());
        assert(d.call_name(call) is None);
    }
}

/// In a lambda that trails a call, with arguments or without, `this` is the receiver that the
/// last parameter of the called function says, however the call is broken into lines. `up` leads
/// from the cursor to the lambda, `out` from the lambda to its call.
#[verifier::rlimit(60)]
pub proof fn law_this_in_a_trailing_lambda(
    f: Facts,
    lines: Seq<Seq<char>>,
    pos: CursorPos,
    d: DocView,
    up: Seq<int>,
    out: Seq<int>,
    name: Seq<char>,
    params: Seq<Seq<char>>,
    p: FunParam,
    uri: Seq<char>,
)
    requires
        d.wf(),
        law_trees::reaches(d, up, "lambda_literal"@),
        law_trees::reaches(d, out, "call_expression"@),
        out[0] == up.last(),
        out.len() > 1,
        d.nodes[out[1]].kind != "value_argument"@,
        law_trees::calls(d, out.last(), name),
        name != "with"@,
        name != "run"@,
        name != "apply"@,
        params.len() > 0,
        law_sigs::all_items(params),
        forall|i: int| 0 <= i < params.len() ==> law_sigs::has_ink(#[trigger] params[i]),
        (f.fun_params)(name, uri) == Some(law_sigs::listed(params)),
        params.last() == param_text(p),
        is_fun_param(p),
        p.receiver.len() > 0,
    ensures
        it_this::this_context(
            f,
            lines,
            pos,
            Some((CstCursorView { doc: d, node: up[0] })),
            uri,
        ) == ThisView::Resolved(p.receiver),
{
    let lambda = up.last();
    lemma_this_climbs(f, d, up, uri);
    law_trees::law_nearest_is_found(d, out, "call_expression"@);
    lemma_lambda_call_name(d, out.last(), name);
    lemma_fun_param(p);
    law_sigs::law_lists_are_parted(params);
    law_sigs::law_receiver_of_a_function_type(p.receiver, p.inputs, p.mid, p.result);
    assert(d.nodes[out[0]].parent == Some(out[1]));
    assert(cst_lambda::label_receiver(f, d, lambda, out.last(), uri) is None);
    assert(cst_lambda::this_of_lambda(f, d, lambda, uri) == CtxView::Resolved(p.receiver));
}

/// A lambda without a receiver is passed over: `this` is then what it is in the next lambda round
/// it. `up` leads from the cursor to the inner lambda, `more` from above that to the outer one.
pub proof fn law_this_passes_over_lambdas(
    f: Facts,
    lines: Seq<Seq<char>>,
    pos: CursorPos,
    d: DocView,
    up: Seq<int>,
    more: Seq<int>,
    uri: Seq<char>,
)
    requires
        d.wf(),
        law_trees::reaches(d, up, "lambda_literal"@),
        law_trees::reaches(d, more, "lambda_literal"@),
        d.nodes[up.last()].parent == Some(more[0]),
        cst_lambda::this_of_lambda(f, d, up.last(), uri) == CtxView::NotReceiver,
    ensures
        it_this::this_context(
            f,
            lines,
            pos,
            Some((CstCursorView { doc: d, node: up[0] })),
            uri,
        ) == it_this::this_context(
            f,
            lines,
            pos,
            Some((CstCursorView { doc: d, node: more.last() })),
            uri,
        ),
{
    lemma_this_climbs(f, d, up, uri);
    lemma_this_climbs(f, d, more, uri);
    assert(d.node_ok(up.last()));
}

/// In a lambda with a receiver of an unknown type `this` is known to be no more than that; outside
/// all lambdas it is nothing.
pub proof fn law_this_without_a_type(
    f: Facts,
    lines: Seq<Seq<char>>,
    pos: CursorPos,
    d: DocView,
    up: Seq<int>,
    uri: Seq<char>,
)
    requires
        d.wf(),
        law_trees::climbs(d, up),
    ensures
        law_trees::reaches(d, up, "lambda_literal"@) && cst_lambda::this_of_lambda(
            f,
            d,
            up.last(),
            uri,
        ) == CtxView::Receiver ==> it_this::this_context(
            f,
            lines,
            pos,
            Some((CstCursorView { doc: d, node: up[0] })),
            uri,
        ) == ThisView::InsideReceiver,
        d.nodes[up.last()].parent is None && (forall|i: int|
            0 <= i < up.len() ==> d.nodes[#[trigger] up[i]].kind != "lambda_literal"@)
            ==> it_this::this_context(
            f,
            lines,
            pos,
            Some((CstCursorView { doc: d, node: up[0] })),
            uri,
        ) == ThisView::NotFound,
{
    if law_trees::reaches(d, up, "lambda_literal"@) {
        lemma_this_climbs(f, d, up, uri);
    }
    if d.nodes[up.last()].parent is None && (forall|i: int|
        0 <= i < up.len() ==> d.nodes[#[trigger] up[i]].kind != "lambda_literal"@) {
        lemma_no_lambda(f, d, up, uri);
    }
}

proof fn lemma_no_lambda(f: Facts, d: DocView, up: Seq<int>, uri: Seq<char>)
    requires
        d.wf(),
        law_trees::climbs(d, up),
        d.nodes[up.last()].parent is None,
        forall|i: int| 0 <= i < up.len() ==> d.nodes[#[trigger] up[i]].kind != "lambda_literal"@,
    ensures
        cst_lambda::this_at(f, d, up[0], uri) == ThisView::NotFound,
    decreases up.len(),
{
    assert(d.node_ok(up[0]));
    assert(d.nodes[up[0]].kind != "lambda_literal"@);
    if up.len() > 1 {
        let rest = up.skip(1);
        law_trees::lemma_shorter(d, up);
        assert(rest.last() == up.last());
        assert forall|i: int| 0 <= i < rest.len() implies d.nodes[#[trigger] rest[i]].kind
            != "lambda_literal"@ by {
            assert(rest[i] == up[i + 1]);
        }
        lemma_no_lambda(f, d, rest, uri);
    }
}

} // verus!
