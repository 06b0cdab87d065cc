//! What lambda parameters are where no signature says it.
use vstd::prelude::*;
use vstd::string::*;

use crate::cst::DocView;
use crate::cst_lambda;
use crate::cst_lambda::{CtxView, LambdaParamKind, ParamView};
use crate::deps::Facts;
use crate::it_this;
use crate::it_this::CstCursorView;
use crate::law_calls;
use crate::law_inputs;
use crate::law_members;
use crate::law_receivers;
use crate::law_texts;
use crate::law_trees;
use crate::receiver;
use crate::text;
use crate::type_subst;
use crate::types::{CursorPos, Position};
use crate::unicode;

verus! {

/// Whether nothing is known of the function that a trailing lambda is given to. `way` leads from
/// the lambda to what holds it, `out` from the lambda to its call.
pub open spec fn is_unknown(f: Facts, d: DocView, way: Seq<int>, out: Seq<int>, uri: Seq<char>) -> bool {
    &&& law_inputs::is_held(d, way, "call_suffix"@)
    &&& law_trees::reaches(d, out, "call_expression"@)
    &&& out[0] == way[0]
    &&& cst_lambda::params_of_call(f, d, out.last(), uri) is None
}

proof fn lemma_unknown(f: Facts, d: DocView, way: Seq<int>, out: Seq<int>, uri: Seq<char>)
    requires
        d.wf(),
        is_unknown(f, d, way, out, uri),
    ensures
        cst_lambda::call_and_param(f, d, way[0], uri) is None,
{
    law_inputs::lemma_holder(d, way, "call_suffix"@);
    law_trees::law_nearest_is_found(d, out, "call_expression"@);
    reveal_strlit("value_argument");
    reveal_strlit("call_suffix");
    assert("value_argument"@[0] != "call_suffix"@[0]);
}

/// Whether a call is called on a variable of a type.
pub open spec fn is_on(
    f: Facts,
    d: DocView,
    call: int,
    node: int,
    name: Seq<char>,
    variable: Seq<char>,
    t: Seq<char>,
    uri: Seq<char>,
) -> bool {
    &&& 0 <= call < d.nodes.len()
    &&& d.nodes[call].children.len() > 0
    &&& d.nodes[d.nodes[call].children[0]].kind == "navigation_expression"@
    &&& law_trees::names(d, d.nodes[call].children[0], name)
    &&& law_inputs::first_rule(d, d.nodes[call].children[0], node)
    &&& d.nodes[node].kind == "simple_identifier"@
    &&& law_trees::reads(d, node, variable)
    &&& (f.var_type)(variable, uri) == Some(t)
}

/// The only named parameter of a lambda that is given to an unknown function is an element of the
/// collection that the function is called on.
pub proof fn law_named_element(
    f: Facts,
    lines: Seq<Seq<char>>,
    pos: CursorPos,
    d: DocView,
    up: Seq<int>,
    param: Seq<char>,
    way: Seq<int>,
    out: Seq<int>,
    node: int,
    name: Seq<char>,
    variable: Seq<char>,
    class: Seq<char>,
    items: Seq<Seq<char>>,
    after: Seq<char>,
    a: Seq<char>,
    element: Seq<char>,
    b: Seq<char>,
    uri: Seq<char>,
)
    requires
        d.wf(),
        law_inputs::finds(d, up, param, 0),
        d.lambda_params(up.last()).len() == 1,
        way.len() > 0,
        way[0] == up.last(),
        is_unknown(f, d, way, out, uri),
        is_on(
            f,
            d,
            out.last(),
            node,
            name,
            variable,
            law_members::applied(class, items, after),
            uri,
        ),
        law_members::is_applied(class, items, after),
        law_calls::is_collection(class),
        items[0] == a + element + b,
        law_texts::blank(a),
        law_texts::is_name(element),
        b.len() > 0 ==> !text::id_char(b[0]) && b[0] != '.',
        !law_inputs::looks_generic(element),
    ensures
        it_this::named_type_in(
            f,
            lines,
            param,
            pos,
            Some((CstCursorView { doc: d, node: up[0] })),
            uri,
        ) == Some(element),
{
    let t = law_members::applied(class, items, after);
    law_inputs::lemma_named_climbs(f, d, up, param, 0, uri);
    law_inputs::lemma_declares_at(d, up.last(), param, 0);
    lemma_unknown(f, d, way, out, uri);
    law_trees::law_nearest_is_found(d, out, "call_expression"@);
    law_members::lemma_called_on(f, d, out.last(), node, name, variable, t, uri);
    law_calls::law_element_of_a_collection(class, items, a, element, b, after);
    assert(cst_lambda::forwarded(f, d, up.last(), uri) == Some(element));
    assert(d.enclosing(up.last(), "lambda_literal"@) == Some(up.last()));
    assert(cst_lambda::named_param(f, d, up.last(), param, uri) == ParamView::Resolved(element));
}

/// The only named parameter of a lambda that is given to an unknown function, called on a variable
/// of a class that is no collection, is of that class.
pub proof fn law_named_receiver(
    f: Facts,
    lines: Seq<Seq<char>>,
    pos: CursorPos,
    d: DocView,
    up: Seq<int>,
    param: Seq<char>,
    way: Seq<int>,
    out: Seq<int>,
    node: int,
    name: Seq<char>,
    variable: Seq<char>,
    t: Seq<char>,
    class: Seq<char>,
    rest: Seq<char>,
    uri: Seq<char>,
)
    requires
        d.wf(),
        law_inputs::finds(d, up, param, 0),
        d.lambda_params(up.last()).len() == 1,
        way.len() > 0,
        way[0] == up.last(),
        is_unknown(f, d, way, out, uri),
        is_on(f, d, out.last(), node, name, variable, t, uri),
        law_calls::is_single(t, class, rest),
        unicode::uppercase(class[0]),
        !law_inputs::looks_generic(class),
    ensures
        it_this::named_type_in(
            f,
            lines,
            param,
            pos,
            Some((CstCursorView { doc: d, node: up[0] })),
            uri,
        ) == Some(class),
{
    law_inputs::lemma_named_climbs(f, d, up, param, 0, uri);
    law_inputs::lemma_declares_at(d, up.last(), param, 0);
    lemma_unknown(f, d, way, out, uri);
    law_trees::law_nearest_is_found(d, out, "call_expression"@);
    law_members::lemma_called_on(f, d, out.last(), node, name, variable, t, uri);
    law_calls::lemma_single(t, class, rest);
    law_receivers::lemma_class_name(class, rest);
    assert(cst_lambda::forwarded(f, d, up.last(), uri) == Some(class));
    assert(d.enclosing(up.last(), "lambda_literal"@) == Some(up.last()));
    assert(cst_lambda::named_param(f, d, up.last(), param, uri) == ParamView::Resolved(class));
}

/// Of several parameters of a lambda that is given to an unknown function all but the last have no
/// type, whatever the text says.
pub proof fn law_first_of_several_is_unknown(
    f: Facts,
    lines: Seq<Seq<char>>,
    pos: CursorPos,
    d: DocView,
    up: Seq<int>,
    param: Seq<char>,
    place: int,
    way: Seq<int>,
    out: Seq<int>,
    uri: Seq<char>,
)
    requires
        d.wf(),
        law_inputs::finds(d, up, param, place),
        place + 1 < d.lambda_params(up.last()).len(),
        way.len() > 0,
        way[0] == up.last(),
        is_unknown(f, d, way, out, uri),
    ensures
        it_this::named_type_in(
            f,
            lines,
            param,
            pos,
            Some((CstCursorView { doc: d, node: up[0] })),
            uri,
        ) is None,
{
    law_inputs::lemma_named_climbs(f, d, up, param, place, uri);
    law_inputs::lemma_declares_at(d, up.last(), param, place);
    lemma_unknown(f, d, way, out, uri);
    assert(d.enclosing(up.last(), "lambda_literal"@) == Some(up.last()));
    assert(cst_lambda::named_param(f, d, up.last(), param, uri) == ParamView::AuthoritativeNone);
}

/// Whether a text stands before a node on the line where it begins.
pub open spec fn precedes(d: DocView, n: int, from: int, before: Seq<char>) -> bool {
    &&& 0 <= from <= d.nodes[n].start <= d.text.len()
    &&& before == d.text.subrange(from, d.nodes[n].start)
    &&& law_texts::lacks(before, '\n')
    &&& from == 0 || d.text[from - 1] == '\n'
}

proof fn lemma_precedes(d: DocView, n: int, from: int, before: Seq<char>)
    requires
        precedes(d, n, from, before),
    ensures
        d.before_node(n) == before,
{
    let at = d.nodes[n].start;
    let head = d.text.take(at);
    if from == 0 {
        assert(head =~= before);
        law_texts::law_character_is_found(before, '\n', Seq::empty());
        assert(text::rindex_of(head, '\n') is None);
    } else {
        let a = d.text.take(from - 1);
        assert(head =~= a + seq!['\n'] + before);
        law_texts::law_character_is_found(a, '\n', before);
        assert(text::rindex_of(head, '\n') == Some(from - 1));
    }
}

/// In a lambda that is given to an unknown function `it` is what the text before the lambda says.
pub proof fn law_it_by_the_text_before(
    f: Facts,
    lines: Seq<Seq<char>>,
    pos: CursorPos,
    d: DocView,
    up: Seq<int>,
    way: Seq<int>,
    out: Seq<int>,
    from: int,
    before: Seq<char>,
    space: Seq<char>,
    t: Seq<char>,
    uri: Seq<char>,
)
    requires
        d.wf(),
        law_trees::reaches(d, up, "lambda_literal"@),
        law_inputs::is_unnamed(d, up.last()),
        way.len() > 0,
        way[0] == up.last(),
        is_unknown(f, d, way, out, uri),
        precedes(d, up.last(), from, before + space),
        law_texts::blank(space),
        before.len() > 0 ==> !unicode::whitespace(before.last()),
        forall|p: Position| #[trigger] receiver::context_input(f, before, uri, Some(p)) == Some(t),
        !law_inputs::looks_generic(t),
    ensures
        it_this::implicit_type(
            f,
            lines,
            pos,
            Some((CstCursorView { doc: d, node: up[0] })),
            LambdaParamKind::It,
            uri,
        ) == Some(t),
{
    let lambda = up.last();
    law_inputs::lemma_implicit_climbs(f, d, up, lines, LambdaParamKind::It, uri);
    law_inputs::lemma_unnamed(d, lambda);
    lemma_unknown(f, d, way, out, uri);
    lemma_precedes(d, lambda, from, before + space);
    law_texts::lemma_end_blank(before, space);
    assert(cst_lambda::by_signature(f, d, lambda, 0, uri) is None);
    assert(receiver::context_input(f, before, uri, Some(d.position(lambda))) == Some(t));
    assert(cst_lambda::it_by_text(f, d, lambda, lines, uri) == Some(t));
    assert(type_subst::generic_param(t) == law_inputs::looks_generic(t));
}

/// Whether what stands before a lambda gives `this` a meaning, wherever the lambda is.
pub open spec fn says_this(f: Facts, before: Seq<char>, uri: Seq<char>, meaning: CtxView) -> bool {
    forall|p: Position| #[trigger]
        cst_lambda::this_in_lambda(f, before, uri, Some(p)) == meaning
}

/// The type of `this` as the implicit parameter of a lambda that names none is what the text before
/// the lambda says; a receiver of an unknown type has none, and a lambda without a receiver is
/// passed over.
pub proof fn law_implicit_this(
    f: Facts,
    lines: Seq<Seq<char>>,
    d: DocView,
    up: Seq<int>,
    out: Seq<int>,
    name: Seq<char>,
    from: int,
    before: Seq<char>,
    space: Seq<char>,
    t: Seq<char>,
    uri: Seq<char>,
)
    requires
        d.wf(),
        law_trees::reaches(d, up, "lambda_literal"@),
        law_inputs::is_unnamed(d, up.last()),
        law_trees::reaches(d, out, "call_expression"@),
        out[0] == up.last(),
        d.nodes[out.last()].children.len() > 0,
        law_trees::names(d, d.nodes[out.last()].children[0], name),
        name != "with"@,
        precedes(d, up.last(), from, before + space),
        law_texts::blank(space),
        before.len() > 0 ==> !unicode::whitespace(before.last()),
    ensures
        says_this(f, before, uri, CtxView::Resolved(t)) ==> cst_lambda::implicit_at(
            f,
            d,
            up[0],
            lines,
            LambdaParamKind::This,
            uri,
        ) == Some(t),
        says_this(f, before, uri, CtxView::Receiver) ==> cst_lambda::implicit_at(
            f,
            d,
            up[0],
            lines,
            LambdaParamKind::This,
            uri,
        ) is None,
        says_this(f, before, uri, CtxView::NotReceiver) && d.nodes[up.last()].parent is Some
            ==> cst_lambda::implicit_at(f, d, up[0], lines, LambdaParamKind::This, uri)
            == cst_lambda::implicit_at(
            f,
            d,
            d.nodes[up.last()].parent.unwrap(),
            lines,
            LambdaParamKind::This,
            uri,
        ),
{
    let lambda = up.last();
    law_inputs::lemma_implicit_climbs(f, d, up, lines, LambdaParamKind::This, uri);
    law_inputs::lemma_unnamed(d, lambda);
    lemma_precedes(d, lambda, from, before + space);
    law_texts::lemma_end_blank(before, space);
    law_trees::law_nearest_is_found(d, out, "call_expression"@);
    law_trees::law_call_is_named(d, out.last(), name);
    assert(d.node_ok(lambda));
    let here = cst_lambda::this_in_lambda(f, before, uri, Some(d.position(lambda)));
    assert(cst_lambda::this_simple(f, d, lambda, uri) == here);
}

/// A cursor stands in a lambda with a receiver where the text before some lambda round it, which
/// names no parameters, says so. `up` leads from the cursor to the lambda.
pub proof fn law_cursor_in_a_receiver_lambda(
    f: Facts,
    lines: Seq<Seq<char>>,
    pos: CursorPos,
    d: DocView,
    up: Seq<int>,
    from: int,
    before: Seq<char>,
    space: Seq<char>,
    meaning: CtxView,
    uri: Seq<char>,
)
    requires
        d.wf(),
        law_trees::climbs(d, up),
        d.nodes[up.last()].kind == "lambda_literal"@,
        law_inputs::is_unnamed(d, up.last()),
        precedes(d, up.last(), from, before + space),
        law_texts::blank(space),
        before.len() > 0 ==> !unicode::whitespace(before.last()),
        says_this(f, before, uri, meaning),
        meaning !is NotReceiver,
    ensures
        it_this::in_receiver_lambda(
            f,
            lines,
            pos,
            Some((CstCursorView { doc: d, node: up[0] })),
            uri,
        ),
{
    let lambda = up.last();
    law_inputs::lemma_unnamed(d, lambda);
    lemma_precedes(d, lambda, from, before + space);
    law_texts::lemma_end_blank(before, space);
    assert(cst_lambda::this_in_lambda(f, before, uri, Some(d.position(lambda))) == meaning);
    lemma_receiver_above(f, d, up, uri);
}

proof fn lemma_receiver_above(f: Facts, d: DocView, up: Seq<int>, uri: Seq<char>)
    requires
        d.wf(),
        law_trees::climbs(d, up),
        it_this::receiver_above(f, d, up.last(), uri),
    ensures
        it_this::receiver_above(f, d, up[0], uri),
    decreases up.len(),
{
    assert(d.node_ok(up[0]));
    if up.len() > 1 {
        law_trees::lemma_shorter(d, up);
        let rest = up.skip(1);
        assert(rest.last() == up.last());
        lemma_receiver_above(f, d, rest, uri);
    }
}

} // verus!
