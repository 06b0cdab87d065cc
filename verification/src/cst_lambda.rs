//! The types of lambda parameters and receivers, by the syntax tree round the lambda.
use vstd::prelude::*;
use vstd::string::*;

use crate::brackets;
use crate::cst::{DocView, LiveDoc};
use crate::deps::{CallableInfo, CallableView, Facts, InferDeps};
use crate::lambda_types;
use crate::receiver;
use crate::sig;
use crate::text;
use crate::text::CharClass;
use crate::type_subst;
use crate::types::Position;

verus! {

// ---------------------------------------------------------------------------
// Results
// ---------------------------------------------------------------------------

/// What the tree says of the type of a lambda's named parameter.
#[derive(Debug)]
pub enum CstParamResult {
    /// The parameter has this type.
    Resolved(String),
    /// The tree does not say; the text may.
    TryFallback,
    /// The parameter has no type that could be shown, and the text would give a wrong one.
    AuthoritativeNone,
}

#[verifier::ext_equal]
pub enum ParamView {
    Resolved(Seq<char>),
    TryFallback,
    AuthoritativeNone,
}

impl DeepView for CstParamResult {
    type V = ParamView;

    open spec fn deep_view(&self) -> ParamView {
        match self {
            CstParamResult::Resolved(s) => ParamView::Resolved(s@),
            CstParamResult::TryFallback => ParamView::TryFallback,
            CstParamResult::AuthoritativeNone => ParamView::AuthoritativeNone,
        }
    }
}

/// The type that a result holds.
pub open spec fn resolved_type(r: ParamView) -> Option<Seq<char>> {
    match r {
        ParamView::Resolved(s) => Some(s),
        _ => None,
    }
}

impl CstParamResult {
    /// The type that the result holds.
    pub fn into_option(self) -> (r: Option<String>)
        ensures
            r.deep_view() == resolved_type(self.deep_view()),
    {
        match self {
            CstParamResult::Resolved(s) => Some(s),
            CstParamResult::TryFallback => None,
            CstParamResult::AuthoritativeNone => None,
        }
    }
}

/// What `this` means in a lambda.
#[derive(Debug)]
pub enum ThisLambdaCtx {
    /// A receiver of this type.
    Resolved(String),
    /// A receiver whose type is not known.
    Receiver,
    /// What it means outside the lambda.
    NotReceiver,
}

#[verifier::ext_equal]
pub enum CtxView {
    Resolved(Seq<char>),
    Receiver,
    NotReceiver,
}

impl DeepView for ThisLambdaCtx {
    type V = CtxView;

    open spec fn deep_view(&self) -> CtxView {
        match self {
            ThisLambdaCtx::Resolved(s) => CtxView::Resolved(s@),
            ThisLambdaCtx::Receiver => CtxView::Receiver,
            ThisLambdaCtx::NotReceiver => CtxView::NotReceiver,
        }
    }
}

/// What `this` means at a cursor.
#[derive(Debug, PartialEq, Eq)]
pub enum ThisContext {
    /// A lambda's receiver of this type.
    Resolved(String),
    /// A lambda's receiver whose type is not known; it is not the enclosing class.
    InsideReceiver,
    /// No lambda's receiver; it may be the enclosing class.
    NotFound,
}

#[verifier::ext_equal]
pub enum ThisView {
    Resolved(Seq<char>),
    InsideReceiver,
    NotFound,
}

impl DeepView for ThisContext {
    type V = ThisView;

    open spec fn deep_view(&self) -> ThisView {
        match self {
            ThisContext::Resolved(s) => ThisView::Resolved(s@),
            ThisContext::InsideReceiver => ThisView::InsideReceiver,
            ThisContext::NotFound => ThisView::NotFound,
        }
    }
}

// ---------------------------------------------------------------------------
// Receivers, by the text before the lambda
// ---------------------------------------------------------------------------

/// The named type of a value whose type is found by an expression, else by a variable.
pub open spec fn named_base(
    f: Facts,
    expr: Seq<char>,
    var: Seq<char>,
    uri: Seq<char>,
    position: Option<Position>,
) -> Option<Seq<char>> {
    match receiver::either(
        receiver::expr_type(f, expr, uri, position),
        receiver::var_at(f, var, uri, position),
    ) {
        Some(raw) => receiver::upper_dotted(raw),
        None => None,
    }
}

fn base_of_value<D: InferDeps>(
    expr: &str,
    var: &str,
    deps: &D,
    uri: &str,
    position: Option<Position>,
) -> (r: Option<String>)
    requires
        deps.ready(),
    ensures
        r.deep_view() == named_base(deps.facts(), expr@, var@, uri@, position),
{
    let mut raw = receiver::resolve_expr_type_raw(expr, deps, uri, position);
    if raw.is_none() {
        raw = receiver::variable_type_lookup(deps, var, uri, position);
    }
    match raw {
        Some(raw) => receiver::uppercase_dotted_type_prefix(raw.as_str()),
        None => None,
    }
}

/// The receiver of a value of this type or name; a name that names a type is its own type.
pub open spec fn receiver_ctx(base: Option<Seq<char>>, name: Seq<char>) -> CtxView {
    match base {
        Some(b) => CtxView::Resolved(b),
        None => if text::upper_start(name) {
            CtxView::Resolved(name)
        } else {
            CtxView::Receiver
        },
    }
}

fn ctx_of(base: Option<String>, name: &str) -> (r: ThisLambdaCtx)
    ensures
        r.deep_view() == receiver_ctx(base.deep_view(), name@),
{
    match base {
        Some(b) => ThisLambdaCtx::Resolved(b),
        None => if text::starts_with_uppercase(name) {
            ThisLambdaCtx::Resolved(name.to_owned())
        } else {
            ThisLambdaCtx::Receiver
        },
    }
}

/// What `this` means in the lambda that follows the text.
///
/// In `receiver.method { }` it is what the method's lambda has for its receiver; for `run` and
/// `apply` it is what the method is called on. In `with(receiver) { }` it is the argument. In
/// the lambda of another plain call it is what the function's lambda has for its receiver.
pub open spec fn this_in_lambda(
    f: Facts,
    before_brace: Seq<char>,
    uri: Seq<char>,
    position: Option<Position>,
) -> CtxView {
    let t = text::trimmed_end(before_brace);
    let callee = receiver::callee_of(t);
    match brackets::top_dot(callee) {
        Some(dot) => {
            let expr = text::trimmed_end(callee.take(dot));
            let var = text::last_ident_of(expr);
            let method = text::ident_of(text::trimmed_start(callee.skip(dot + 1)));
            if var.len() == 0 || method.len() == 0 {
                CtxView::NotReceiver
            } else {
                match receiver::trailing_receiver(f, method, uri) {
                    Some(this_type) => CtxView::Resolved(this_type),
                    None => if lambda_types::receiver_this(method) {
                        receiver_ctx(named_base(f, expr, var, uri, position), var)
                    } else {
                        CtxView::NotReceiver
                    },
                }
            }
        },
        None => {
            let name = text::last_ident_of(callee);
            if name == "with"@ {
                match sig::first_arg(t) {
                    Some(arg) => receiver_ctx(
                        named_base(f, arg, arg, uri, position),
                        text::ident_of(arg),
                    ),
                    None => CtxView::Receiver,
                }
            } else if name.len() > 0 {
                match receiver::trailing_receiver(f, name, uri) {
                    Some(this_type) => CtxView::Resolved(this_type),
                    None => CtxView::NotReceiver,
                }
            } else {
                CtxView::NotReceiver
            }
        },
    }
}

/// What `this` means in the lambda that follows the text.
pub fn classify_this_lambda_context<D: InferDeps>(
    before_brace: &str,
    deps: &D,
    uri: &str,
    position: Option<Position>,
) -> (r: ThisLambdaCtx)
    requires
        deps.ready(),
    ensures
        r.deep_view() == this_in_lambda(deps.facts(), before_brace@, uri@, position),
{
    let t = text::trim_end(before_brace);
    let callee_owned = receiver::normalized_lambda_callee(t);
    let callee = callee_owned.as_str();
    if let Some(dot) = brackets::find_top_dot(callee) {
        let n: usize = callee.unicode_len();
        let expr = text::trim_end(text::take(callee, dot));
        let var = text::last_ident_in(expr);
        let method = text::ident_prefix(text::trim_start(text::skip(callee, dot + 1)));
        if var.is_empty() || method.is_empty() {
            return ThisLambdaCtx::NotReceiver;
        }
        if let Some(this_type) = receiver::fun_trailing_lambda_this_type(method, deps, uri) {
            return ThisLambdaCtx::Resolved(this_type);
        }
        if lambda_types::is_receiver_this_fn(method) {
            return ctx_of(base_of_value(expr, var, deps, uri, position), var);
        }
        return ThisLambdaCtx::NotReceiver;
    }
    let name = text::last_ident_in(callee);
    if text::same(name, "with") {
        match sig::extract_first_arg(t) {
            Some(arg) => ctx_of(
                base_of_value(arg, arg, deps, uri, position),
                text::ident_prefix(arg),
            ),
            None => ThisLambdaCtx::Receiver,
        }
    } else if name.is_empty() {
        ThisLambdaCtx::NotReceiver
    } else {
        match receiver::fun_trailing_lambda_this_type(name, deps, uri) {
            Some(this_type) => ThisLambdaCtx::Resolved(this_type),
            None => ThisLambdaCtx::NotReceiver,
        }
    }
}

// ---------------------------------------------------------------------------
// Types of expressions
// ---------------------------------------------------------------------------

/// The type of an expression: of a name that of the variable, else the name itself where it
/// names a type; of a call what the function returns, else the called name where it names a
/// type, else the type that a scope function is called on; of a member access the type of the
/// member.
pub open spec fn node_type(f: Facts, d: DocView, n: int, uri: Seq<char>) -> Option<Seq<char>>
    decreases d.nodes.len() - n, 1int,
{
    if !d.has(n) {
        None
    } else if d.kind(n) == "simple_identifier"@ {
        let name = d.node_text(n);
        receiver::either((f.var_type)(name, uri), receiver::upper_name(name))
    } else if d.kind(n) == "call_expression"@ {
        match d.first_child(n) {
            Some(c) => if !(n < c < d.nodes.len()) {
                None
            } else if d.kind(c) == "simple_identifier"@ {
                let name = d.node_text(c);
                receiver::either((f.fun_return)(name), receiver::upper_name(name))
            } else if d.kind(c) == "call_expression"@ {
                node_type(f, d, c, uri)
            } else {
                match callee_chain(f, d, c, uri) {
                    Some(p) => receiver::either(
                        type_subst::member_type(f, p.0, p.1, uri),
                        if lambda_types::scope_function(p.1) {
                            Some(p.0)
                        } else {
                            None
                        },
                    ),
                    None => None,
                }
            },
            None => None,
        }
    } else {
        match callee_chain(f, d, n, uri) {
            Some(p) => type_subst::member_type(f, p.0, p.1, uri),
            None => None,
        }
    }
}

/// The type of what a member is taken of, and the member.
pub open spec fn callee_chain(f: Facts, d: DocView, n: int, uri: Seq<char>) -> Option<
    (Seq<char>, Seq<char>),
>
    decreases d.nodes.len() - n, 0int,
{
    if !d.has(n) || d.kind(n) != "navigation_expression"@ {
        None
    } else {
        match (d.first_named(n), d.nav_member(n)) {
            (Some(r), Some(member)) => if n < r < d.nodes.len() {
                match node_type(f, d, r, uri) {
                    Some(t) => Some((t, member)),
                    None => None,
                }
            } else {
                None
            },
            _ => None,
        }
    }
}

/// The type of an expression.
pub fn resolve_root_node_type<D: InferDeps>(n: usize, doc: &LiveDoc, deps: &D, uri: &str) -> (r:
    Option<String>)
    requires
        doc.wf(),
        n < doc.nodes@.len(),
        deps.ready(),
    ensures
        r.deep_view() == node_type(deps.facts(), doc.deep_view(), n as int, uri@),
    decreases doc.nodes@.len() - n, 1int,
{
    if doc.kind_is(n, "simple_identifier") {
        let name = doc.text_of(n);
        let known = deps.find_var_type(name, uri);
        if known.is_some() {
            return known;
        }
        return receiver::uppercase_name(name);
    }
    if doc.kind_is(n, "call_expression") {
        let c: usize = match doc.child0(n) {
            Some(c) => c,
            None => {
                return None;
            },
        };
        if doc.kind_is(c, "simple_identifier") {
            let name = doc.text_of(c);
            let known = deps.find_fun_return_type(name);
            if known.is_some() {
                return known;
            }
            return receiver::uppercase_name(name);
        }
        if doc.kind_is(c, "call_expression") {
            return resolve_root_node_type(c, doc, deps, uri);
        }
        return match resolve_callee_chain(c, doc, deps, uri) {
            Some(p) => {
                let known = type_subst::resolve_member_type_on(
                    p.0.as_str(),
                    p.1.as_str(),
                    deps,
                    uri,
                );
                if known.is_some() {
                    known
                } else if lambda_types::is_scope_function(p.1.as_str()) {
                    Some(p.0)
                } else {
                    None
                }
            },
            None => None,
        };
    }
    match resolve_callee_chain(n, doc, deps, uri) {
        Some(p) => type_subst::resolve_member_type_on(p.0.as_str(), p.1.as_str(), deps, uri),
        None => None,
    }
}

/// The type of what a member is taken of, and the member.
pub fn resolve_callee_chain<D: InferDeps>(n: usize, doc: &LiveDoc, deps: &D, uri: &str) -> (r:
    Option<(String, String)>)
    requires
        doc.wf(),
        n < doc.nodes@.len(),
        deps.ready(),
    ensures
        r.deep_view() == callee_chain(deps.facts(), doc.deep_view(), n as int, uri@),
    decreases doc.nodes@.len() - n, 0int,
{
    if !doc.kind_is(n, "navigation_expression") {
        return None;
    }
    match (doc.first_named_child(n), doc.navigation_member(n)) {
        (Some(inner), Some(member)) => match resolve_root_node_type(inner, doc, deps, uri) {
            Some(t) => Some((t, member.to_owned())),
            None => None,
        },
        _ => None,
    }
}

/// The type of what a call is called on.
pub open spec fn call_receiver(f: Facts, d: DocView, call: int, uri: Seq<char>) -> Option<
    Seq<char>,
> {
    match d.first_child(call) {
        Some(c) => match callee_chain(f, d, c, uri) {
            Some(p) => Some(p.0),
            None => None,
        },
        None => None,
    }
}

/// The type of what a call is called on.
pub fn resolve_receiver_type<D: InferDeps>(call: usize, doc: &LiveDoc, deps: &D, uri: &str) -> (r:
    Option<String>)
    requires
        doc.wf(),
        call < doc.nodes@.len(),
        deps.ready(),
    ensures
        r.deep_view() == call_receiver(deps.facts(), doc.deep_view(), call as int, uri@),
{
    match doc.child0(call) {
        Some(c) => match resolve_callee_chain(c, doc, deps, uri) {
            Some(p) => Some(p.0),
            None => None,
        },
        None => None,
    }
}

/// The type of what a lambda's call hands it when nothing is known of the called function: the
/// element of the collection it is called on, else the type it is called on.
pub open spec fn forwarded(f: Facts, d: DocView, lambda: int, uri: Seq<char>) -> Option<Seq<char>> {
    match d.enclosing(lambda, "call_expression"@) {
        Some(call) => match call_receiver(f, d, call, uri) {
            Some(t) => match receiver::either(
                type_subst::element_type(t),
                receiver::upper_dotted(t),
            ) {
                Some(e) => if type_subst::generic_param(e) {
                    None
                } else {
                    Some(e)
                },
                None => None,
            },
            None => None,
        },
        None => None,
    }
}

/// The type of what a lambda's call hands it when nothing is known of the called function.
pub fn cst_forward_resolve_receiver_type<D: InferDeps>(
    lambda: usize,
    doc: &LiveDoc,
    deps: &D,
    uri: &str,
) -> (r: Option<String>)
    requires
        doc.wf(),
        lambda < doc.nodes@.len(),
        deps.ready(),
    ensures
        r.deep_view() == forwarded(deps.facts(), doc.deep_view(), lambda as int, uri@),
{
    let call: usize = match doc.enclosing_of_kind(lambda, "call_expression") {
        Some(call) => call,
        None => {
            return None;
        },
    };
    let t = match resolve_receiver_type(call, doc, deps, uri) {
        Some(t) => t,
        None => {
            return None;
        },
    };
    let mut found = type_subst::extract_collection_element_type(t.as_str());
    if found.is_none() {
        found = receiver::uppercase_dotted_type_prefix(t.as_str());
    }
    match found {
        Some(e) => if type_subst::is_generic_param(e.as_str()) {
            None
        } else {
            Some(e)
        },
        None => None,
    }
}

// ---------------------------------------------------------------------------
// Signatures of calls
// ---------------------------------------------------------------------------

/// The type of the variable that qualifies a call, as it is visible where the call's receiver
/// begins.
pub open spec fn qualifier_type(f: Facts, d: DocView, call: int, uri: Seq<char>) -> Option<
    Seq<char>,
> {
    match (d.call_qualifier(call), d.first_child(call)) {
        (Some(q), Some(c)) => match d.first_named(c) {
            Some(r) => receiver::either(
                (f.var_type_at)(q, uri, d.position(r)),
                (f.var_type)(q, uri),
            ),
            None => None,
        },
        _ => None,
    }
}

/// The parameter list of the function that a call calls, with its receiver's type taken into
/// account.
pub open spec fn params_of_call(f: Facts, d: DocView, call: int, uri: Seq<char>) -> Option<
    Seq<char>,
> {
    match d.call_name(call) {
        Some(name) => receiver::call_params(f, name, qualifier_type(f, d, call, uri), uri),
        None => None,
    }
}

fn type_of_qualifier<D: InferDeps>(call: usize, doc: &LiveDoc, deps: &D, uri: &str) -> (r: Option<
    String,
>)
    requires
        doc.wf(),
        call < doc.nodes@.len(),
        deps.ready(),
    ensures
        r.deep_view() == qualifier_type(deps.facts(), doc.deep_view(), call as int, uri@),
{
    match (doc.call_qualifier_name(call), doc.child0(call)) {
        (Some(q), Some(c)) => match doc.first_named_child(c) {
            Some(inner) => {
                let found = deps.find_var_type_at(q, uri, doc.position_from_node(inner));
                if found.is_some() {
                    found
                } else {
                    deps.find_var_type(q, uri)
                }
            },
            None => None,
        },
        _ => None,
    }
}

/// The parameter list of the function that a call calls, with its receiver's type taken into
/// account.
pub fn receiver_aware_params<D: InferDeps>(call: usize, doc: &LiveDoc, deps: &D, uri: &str) -> (r:
    Option<String>)
    requires
        doc.wf(),
        call < doc.nodes@.len(),
        deps.ready(),
    ensures
        r.deep_view() == params_of_call(deps.facts(), doc.deep_view(), call as int, uri@),
{
    match doc.call_fn_name(call) {
        Some(name) => match type_of_qualifier(call, doc, deps, uri) {
            Some(t) => receiver::resolve_call_params(name, Some(t.as_str()), deps, uri),
            None => receiver::resolve_call_params(name, None, deps, uri),
        },
        None => None,
    }
}

/// Whether a node tells what its lambda is given to: an argument, the part of a call after its
/// name, or another lambda.
pub open spec fn holds_lambda(d: DocView, n: int) -> bool {
    d.kind(n) == "value_argument"@ || d.kind(n) == "call_suffix"@ || d.kind(n)
        == "lambda_literal"@
}

/// The nearest node above that tells what a lambda is given to.
pub open spec fn holder(d: DocView, n: int) -> Option<int>
    decreases n,
{
    if !d.has(n) {
        None
    } else {
        match d.nodes[n].parent {
            Some(p) => if !(0 <= p < n) {
                None
            } else if holds_lambda(d, p) {
                Some(p)
            } else {
                holder(d, p)
            },
            None => None,
        }
    }
}

fn find_holder(n: usize, doc: &LiveDoc) -> (r: Option<usize>)
    requires
        doc.wf(),
        n < doc.nodes@.len(),
    ensures
        match r {
            Some(h) => holder(doc.deep_view(), n as int) == Some(h as int) && h < n && holds_lambda(
                doc.deep_view(),
                h as int,
            ),
            None => holder(doc.deep_view(), n as int) is None,
        },
{
    let ghost d = doc.deep_view();
    let mut cur: usize = n;
    loop
        invariant
            doc.wf(),
            d == doc.deep_view(),
            cur <= n < doc.nodes@.len(),
            holder(d, n as int) == holder(d, cur as int),
        decreases cur,
    {
        match doc.parent(cur) {
            Some(p) => {
                if doc.kind_is(p, "value_argument") || doc.kind_is(p, "call_suffix") || doc.kind_is(
                    p,
                    "lambda_literal",
                ) {
                    return Some(p);
                }
                cur = p;
            },
            None => {
                return None;
            },
        }
    }
}

/// The call that a lambda is given to, and the type of the parameter that it is given for.
pub open spec fn call_and_param(f: Facts, d: DocView, lambda: int, uri: Seq<char>) -> Option<
    (int, Seq<char>),
> {
    match holder(d, lambda) {
        Some(h) => if d.kind(h) == "value_argument"@ {
            match d.enclosing(h, "call_expression"@) {
                Some(call) => match params_of_call(f, d, call, uri) {
                    Some(params) => {
                        let t = match d.arg_label(h) {
                            Some(label) => sig::named_type(params, label),
                            None => sig::nth_type(params, d.arg_place(h) as int),
                        };
                        match t {
                            Some(t) => Some((call, t)),
                            None => None,
                        }
                    },
                    None => None,
                },
                None => None,
            }
        } else if d.kind(h) == "call_suffix"@ {
            match d.enclosing(lambda, "call_expression"@) {
                Some(call) => match params_of_call(f, d, call, uri) {
                    Some(params) => match sig::last_type(params) {
                        Some(t) => Some((call, t)),
                        None => None,
                    },
                    None => None,
                },
                None => None,
            }
        } else {
            None
        },
        None => None,
    }
}

/// The call that a lambda is given to, and the type of the parameter that it is given for.
pub fn find_enclosing_call_and_param<D: InferDeps>(
    lambda: usize,
    doc: &LiveDoc,
    deps: &D,
    uri: &str,
) -> (r: Option<(usize, String)>)
    requires
        doc.wf(),
        lambda < doc.nodes@.len(),
        deps.ready(),
    ensures
        match r {
            Some(p) => call_and_param(deps.facts(), doc.deep_view(), lambda as int, uri@) == Some(
                (p.0 as int, p.1@),
            ) && p.0 < doc.nodes@.len(),
            None => call_and_param(deps.facts(), doc.deep_view(), lambda as int, uri@) is None,
        },
{
    let h: usize = match find_holder(lambda, doc) {
        Some(h) => h,
        None => {
            return None;
        },
    };
    if doc.kind_is(h, "value_argument") {
        let call: usize = match doc.enclosing_of_kind(h, "call_expression") {
            Some(call) => call,
            None => {
                return None;
            },
        };
        let params = match receiver_aware_params(call, doc, deps, uri) {
            Some(params) => params,
            None => {
                return None;
            },
        };
        let t = match doc.named_arg_label(h) {
            Some(label) => sig::find_named_param_type_in_sig(params.as_str(), label),
            None => sig::nth_fun_param_type_str(params.as_str(), doc.value_arg_position(h)),
        };
        match t {
            Some(t) => Some((call, t)),
            None => None,
        }
    } else if doc.kind_is(h, "call_suffix") {
        let call: usize = match doc.enclosing_of_kind(lambda, "call_expression") {
            Some(call) => call,
            None => {
                return None;
            },
        };
        match receiver_aware_params(call, doc, deps, uri) {
            Some(params) => match sig::last_fun_param_type_str(params.as_str()) {
                Some(t) => Some((call, t)),
                None => None,
            },
            None => None,
        }
    } else {
        None
    }
}

/// The type of the parameter that a lambda is given for.
pub fn cst_lambda_call_param_type<D: InferDeps>(
    lambda: usize,
    doc: &LiveDoc,
    deps: &D,
    uri: &str,
) -> (r: Option<String>)
    requires
        doc.wf(),
        lambda < doc.nodes@.len(),
        deps.ready(),
    ensures
        r.deep_view() == match call_and_param(
            deps.facts(),
            doc.deep_view(),
            lambda as int,
            uri@,
        ) {
            Some(p) => Some(p.1),
            None => None,
        },
{
    match find_enclosing_call_and_param(lambda, doc, deps, uri) {
        Some(p) => Some(p.1),
        None => None,
    }
}

// ---------------------------------------------------------------------------
// Lambda parameters
// ---------------------------------------------------------------------------

/// How a name came to be taken for a type parameter.
#[derive(Clone, Copy, Debug, PartialEq, Eq, Structural)]
pub enum GenericParamSource {
    /// The called function declares it.
    DeclaredInCallable,
    /// It looks like one.
    ShapeHeuristic,
}

/// Whether a name is a type or a type parameter.
#[derive(Clone, Copy, Debug, PartialEq, Eq, Structural)]
pub enum ExtractedTypeKind {
    Concrete,
    GenericParam(GenericParamSource),
}

/// Whether a name that a function's signature gives is a type or a type parameter: by what the
/// function declares where it is known, else by the look of the name.
pub open spec fn kind_of_type(name: Seq<char>, callable: Option<CallableView>) -> ExtractedTypeKind {
    match callable {
        Some(c) => if c.type_params.contains(name) {
            ExtractedTypeKind::GenericParam(GenericParamSource::DeclaredInCallable)
        } else {
            ExtractedTypeKind::Concrete
        },
        None => if type_subst::generic_param(name) {
            ExtractedTypeKind::GenericParam(GenericParamSource::ShapeHeuristic)
        } else {
            ExtractedTypeKind::Concrete
        },
    }
}

/// Whether a name that a function's signature gives is a type or a type parameter.
pub fn classify_extracted_type(extracted: &str, callable: &Option<CallableInfo>) -> (r:
    ExtractedTypeKind)
    ensures
        r == kind_of_type(extracted@, callable.deep_view()),
{
    match callable {
        Some(c) => if type_subst::is_declared_type_param(extracted, &c.type_params) {
            ExtractedTypeKind::GenericParam(GenericParamSource::DeclaredInCallable)
        } else {
            ExtractedTypeKind::Concrete
        },
        None => if type_subst::is_generic_param(extracted) {
            ExtractedTypeKind::GenericParam(GenericParamSource::ShapeHeuristic)
        } else {
            ExtractedTypeKind::Concrete
        },
    }
}

/// What stands for a type parameter where the function is called on a value of the receiver's
/// type. Where nothing can be put in, a declared parameter with a telling name stands for
/// itself.
pub open spec fn generic_value(
    name: Seq<char>,
    source: GenericParamSource,
    info: CallableView,
    receiver_type: Seq<char>,
) -> Option<Seq<char>> {
    let own = if source == GenericParamSource::DeclaredInCallable && !type_subst::generic_param(
        name,
    ) {
        Some(name)
    } else {
        None
    };
    let subst = type_subst::ext_subst(
        info.extension_receiver_type,
        receiver_type,
        info.type_params,
    );
    if info.extension_receiver_type.len() == 0 || subst.len() == 0 {
        own
    } else {
        match type_subst::value_of(subst, name) {
            Some(v) => if v == name {
                None
            } else {
                Some(v)
            },
            None => None,
        }
    }
}

/// What stands for a type parameter where the function is called on a value of the receiver's
/// type.
pub fn substitute_generic(
    extracted: &str,
    source: GenericParamSource,
    info: &CallableInfo,
    receiver_type: &str,
) -> (r: Option<String>)
    ensures
        r.deep_view() == generic_value(extracted@, source, info.deep_view(), receiver_type@),
{
    let own = source == GenericParamSource::DeclaredInCallable && !type_subst::is_generic_param(
        extracted,
    );
    let subst = type_subst::build_ext_fn_type_subst(
        info.extension_receiver_type.as_str(),
        receiver_type,
        &info.type_params,
    );
    assert(subst.deep_view().len() == subst@.len());
    if info.extension_receiver_type.as_str().is_empty() || subst.len() == 0 {
        if own {
            Some(extracted.to_owned())
        } else {
            None
        }
    } else {
        match type_subst::subst_value(&subst, extracted) {
            Some(v) => if text::same(v, extracted) {
                None
            } else {
                Some(v.to_owned())
            },
            None => None,
        }
    }
}

/// What was found of a lambda's parameter.
pub struct LambdaParamResolution {
    pub extracted_type: String,
    pub kind: ExtractedTypeKind,
    pub callable: Option<CallableInfo>,
    pub receiver_type: Option<String>,
}

#[verifier::ext_equal]
pub struct ResolutionView {
    pub extracted_type: Seq<char>,
    pub kind: ExtractedTypeKind,
    pub callable: Option<CallableView>,
    pub receiver_type: Option<Seq<char>>,
}

impl DeepView for LambdaParamResolution {
    type V = ResolutionView;

    open spec fn deep_view(&self) -> ResolutionView {
        ResolutionView {
            extracted_type: self.extracted_type@,
            kind: self.kind,
            callable: self.callable.deep_view(),
            receiver_type: self.receiver_type.deep_view(),
        }
    }
}

/// What the signature of a lambda's call says of the parameter at `place`.
pub open spec fn extracted(f: Facts, d: DocView, lambda: int, place: int, uri: Seq<char>) -> Option<
    ResolutionView,
> {
    match call_and_param(f, d, lambda, uri) {
        Some(p) => match (lambda_types::nth_input(p.1, place), d.call_name(p.0)) {
            (Some(t), Some(name)) => Some(
                ResolutionView {
                    extracted_type: t,
                    kind: kind_of_type(t, (f.callable)(name, uri)),
                    callable: (f.callable)(name, uri),
                    receiver_type: call_receiver(f, d, p.0, uri),
                },
            ),
            _ => None,
        },
        None => None,
    }
}

/// What the signature of a lambda's call says of the parameter at `param_pos`.
pub fn locate_and_extract<D: InferDeps>(
    lambda: usize,
    doc: &LiveDoc,
    deps: &D,
    uri: &str,
    param_pos: usize,
) -> (r: Option<LambdaParamResolution>)
    requires
        doc.wf(),
        lambda < doc.nodes@.len(),
        deps.ready(),
    ensures
        r.deep_view() == extracted(
            deps.facts(),
            doc.deep_view(),
            lambda as int,
            param_pos as int,
            uri@,
        ),
{
    let p = match find_enclosing_call_and_param(lambda, doc, deps, uri) {
        Some(p) => p,
        None => {
            return None;
        },
    };
    match (
        lambda_types::lambda_type_nth_input(p.1.as_str(), param_pos),
        doc.call_fn_name(p.0),
    ) {
        (Some(t), Some(name)) => {
            let callable = deps.find_fun_callable_info(name, uri);
            let kind = classify_extracted_type(t.as_str(), &callable);
            let receiver_type = resolve_receiver_type(p.0, doc, deps, uri);
            Some(LambdaParamResolution { extracted_type: t, kind, callable, receiver_type })
        },
        _ => None,
    }
}

/// The type that what was found amounts to.
pub open spec fn finalized(r: ResolutionView) -> Option<Seq<char>> {
    match r.kind {
        ExtractedTypeKind::Concrete => Some(r.extracted_type),
        ExtractedTypeKind::GenericParam(source) => match (r.receiver_type, r.callable) {
            (Some(t), Some(info)) => generic_value(r.extracted_type, source, info, t),
            _ => None,
        },
    }
}

/// The type that what was found amounts to.
pub fn finalize_resolution(resolution: LambdaParamResolution) -> (r: Option<String>)
    ensures
        r.deep_view() == finalized(resolution.deep_view()),
{
    match resolution.kind {
        ExtractedTypeKind::Concrete => Some(resolution.extracted_type),
        ExtractedTypeKind::GenericParam(source) => match (
            &resolution.receiver_type,
            &resolution.callable,
        ) {
            (Some(t), Some(info)) => substitute_generic(
                resolution.extracted_type.as_str(),
                source,
                info,
                t.as_str(),
            ),
            _ => None,
        },
    }
}

/// The type of a lambda's parameter, by the signature of its call.
pub open spec fn by_signature(
    f: Facts,
    d: DocView,
    lambda: int,
    place: int,
    uri: Seq<char>,
) -> Option<Seq<char>> {
    match extracted(f, d, lambda, place, uri) {
        Some(r) => finalized(r),
        None => None,
    }
}

fn resolve_by_signature<D: InferDeps>(
    lambda: usize,
    doc: &LiveDoc,
    deps: &D,
    uri: &str,
    place: usize,
) -> (r: Option<String>)
    requires
        doc.wf(),
        lambda < doc.nodes@.len(),
        deps.ready(),
    ensures
        r.deep_view() == by_signature(
            deps.facts(),
            doc.deep_view(),
            lambda as int,
            place as int,
            uri@,
        ),
{
    match locate_and_extract(lambda, doc, deps, uri, place) {
        Some(found) => finalize_resolution(found),
        None => None,
    }
}

/// What a call reads up to its arguments.
pub open spec fn callee_text(d: DocView, call: int) -> Seq<char> {
    match d.first_child(call) {
        Some(c) => d.node_text(c),
        None => Seq::empty(),
    }
}

/// What a call reads up to its arguments.
pub fn cst_before_open_text(call: usize, doc: &LiveDoc) -> (r: String)
    requires
        doc.wf(),
        call < doc.nodes@.len(),
    ensures
        r@ == callee_text(doc.deep_view(), call as int),
{
    match doc.child0(call) {
        Some(c) => doc.text_of(c).to_owned(),
        None => String::new(),
    }
}

/// A found type, or the advice to try the text.
pub open spec fn or_fallback(t: Option<Seq<char>>) -> ParamView {
    match t {
        Some(t) => ParamView::Resolved(t),
        None => ParamView::TryFallback,
    }
}

fn resolved_or_fallback(t: Option<String>) -> (r: CstParamResult)
    ensures
        r.deep_view() == or_fallback(t.deep_view()),
{
    match t {
        Some(t) => CstParamResult::Resolved(t),
        None => CstParamResult::TryFallback,
    }
}

/// The type that a lambda's parameter has by its call: what the signature says, where that is a
/// type or can be made one; without a signature, for the last parameter alone, what the call is
/// called on.
pub open spec fn by_call(f: Facts, d: DocView, lambda: int, place: int, uri: Seq<char>) -> ParamView {
    match call_and_param(f, d, lambda, uri) {
        Some(p) => match lambda_types::nth_input(p.1, place) {
            Some(t) => if type_subst::generic_param(t) {
                or_fallback(forwarded(f, d, lambda, uri))
            } else {
                let put_in = match d.enclosing(lambda, "call_expression"@) {
                    Some(call) => match d.call_name(call) {
                        Some(name) => type_subst::call_site_type(
                            f,
                            t,
                            name,
                            callee_text(d, call),
                            uri,
                        ),
                        None => None,
                    },
                    None => None,
                };
                ParamView::Resolved(
                    match put_in {
                        Some(v) => v,
                        None => t,
                    },
                )
            },
            None => ParamView::TryFallback,
        },
        None => if place + 1 >= d.lambda_params(lambda).len() {
            or_fallback(forwarded(f, d, lambda, uri))
        } else {
            ParamView::AuthoritativeNone
        },
    }
}

/// The type that a lambda's parameter has by its call.
pub fn cst_lambda_param_type_via_call<D: InferDeps>(
    doc: &LiveDoc,
    lambda: usize,
    deps: &D,
    uri: &str,
    param_pos: usize,
) -> (r: CstParamResult)
    requires
        doc.wf(),
        lambda < doc.nodes@.len(),
        deps.ready(),
    ensures
        r.deep_view() == by_call(
            deps.facts(),
            doc.deep_view(),
            lambda as int,
            param_pos as int,
            uri@,
        ),
{
    match cst_lambda_call_param_type(lambda, doc, deps, uri) {
        Some(param_type) => {
            let t = match lambda_types::lambda_type_nth_input(param_type.as_str(), param_pos) {
                Some(t) => t,
                None => {
                    return CstParamResult::TryFallback;
                },
            };
            if type_subst::is_generic_param(t.as_str()) {
                return resolved_or_fallback(
                    cst_forward_resolve_receiver_type(lambda, doc, deps, uri),
                );
            }
            if let Some(call) = doc.enclosing_of_kind(lambda, "call_expression") {
                if let Some(name) = doc.call_fn_name(call) {
                    let before = cst_before_open_text(call, doc);
                    if let Some(v) = type_subst::try_substitute_ext_fn_type_param(
                        t.as_str(),
                        name,
                        before.as_str(),
                        deps,
                        uri,
                    ) {
                        return CstParamResult::Resolved(v);
                    }
                }
            }
            CstParamResult::Resolved(t)
        },
        None => {
            let names = doc.lambda_param_names(lambda);
            assert(names.deep_view().len() == names@.len());
            let count: usize = names.len();
            if count == 0 || param_pos >= count - 1 {
                resolved_or_fallback(cst_forward_resolve_receiver_type(lambda, doc, deps, uri))
            } else {
                CstParamResult::AuthoritativeNone
            }
        },
    }
}

/// The type of a lambda's parameter of a name, from the nearest lambda round a node that
/// declares it.
pub open spec fn named_param(f: Facts, d: DocView, n: int, name: Seq<char>, uri: Seq<char>) -> ParamView
    decreases n,
{
    match d.enclosing(n, "lambda_literal"@) {
        Some(l) => match d.lambda_place(l, name) {
            Some(place) => match by_signature(f, d, l, place, uri) {
                Some(t) => ParamView::Resolved(t),
                None => by_call(f, d, l, place, uri),
            },
            None => match d.nodes[l].parent {
                Some(p) => if 0 <= p < n {
                    named_param(f, d, p, name, uri)
                } else {
                    ParamView::TryFallback
                },
                None => ParamView::TryFallback,
            },
        },
        None => ParamView::TryFallback,
    }
}

/// The type of a lambda's parameter of a name, from the nearest lambda round the cursor's node
/// that declares it.
pub fn cst_named_lambda_param_type<D: InferDeps>(
    node: usize,
    param_name: &str,
    doc: &LiveDoc,
    deps: &D,
    uri: &str,
) -> (r: CstParamResult)
    requires
        doc.wf(),
        node < doc.nodes@.len(),
        deps.ready(),
    ensures
        r.deep_view() == named_param(
            deps.facts(),
            doc.deep_view(),
            node as int,
            param_name@,
            uri@,
        ),
{
    let ghost f = deps.facts();
    let ghost d = doc.deep_view();
    let mut cur: usize = node;
    loop
        invariant
            doc.wf(),
            deps.ready(),
            f == deps.facts(),
            d == doc.deep_view(),
            cur <= node < doc.nodes@.len(),
            named_param(f, d, node as int, param_name@, uri@) == named_param(
                f,
                d,
                cur as int,
                param_name@,
                uri@,
            ),
        decreases cur,
    {
        let l: usize = match doc.enclosing_of_kind(cur, "lambda_literal") {
            Some(l) => l,
            None => {
                return CstParamResult::TryFallback;
            },
        };
        if let Some(place) = doc.lambda_param_position(l, param_name) {
            if let Some(t) = resolve_by_signature(l, doc, deps, uri, place) {
                return CstParamResult::Resolved(t);
            }
            return cst_lambda_param_type_via_call(doc, l, deps, uri, place);
        }
        match doc.parent(l) {
            Some(p) => {
                cur = p;
            },
            None => {
                return CstParamResult::TryFallback;
            },
        }
    }
}

// ---------------------------------------------------------------------------
// Receivers
// ---------------------------------------------------------------------------

/// What `this` means in the lambda of a call of `with`: the argument.
pub open spec fn with_ctx(
    f: Facts,
    d: DocView,
    call: int,
    uri: Seq<char>,
    position: Option<Position>,
) -> Option<CtxView> {
    match d.first_arg(call) {
        Some(e) => {
            let by_node = match node_type(f, d, e, uri) {
                Some(raw) => receiver::upper_dotted(raw),
                None => None,
            };
            let arg = d.node_text(e);
            Some(
                receiver_ctx(
                    receiver::either(by_node, named_base(f, arg, arg, uri, position)),
                    text::ident_of(arg),
                ),
            )
        },
        None => None,
    }
}

/// What `this` means in the lambda of a call of `with`.
pub fn cst_with_receiver_ctx<D: InferDeps>(
    call: usize,
    doc: &LiveDoc,
    deps: &D,
    uri: &str,
    position: Option<Position>,
) -> (r: Option<ThisLambdaCtx>)
    requires
        doc.wf(),
        call < doc.nodes@.len(),
        deps.ready(),
    ensures
        r.deep_view() == with_ctx(deps.facts(), doc.deep_view(), call as int, uri@, position),
{
    let e: usize = match doc.first_value_argument_expression(call) {
        Some(e) => e,
        None => {
            return None;
        },
    };
    let mut base: Option<String> = None;
    if let Some(raw) = resolve_root_node_type(e, doc, deps, uri) {
        base = receiver::uppercase_dotted_type_prefix(raw.as_str());
    }
    let arg = doc.text_of(e);
    if base.is_none() {
        base = base_of_value(arg, arg, deps, uri, position);
    }
    Some(ctx_of(base, text::ident_prefix(arg)))
}

/// The name that a lambda's call calls. A call with both arguments and a trailing lambda has
/// its name in a call of its own.
pub open spec fn lambda_call_name(d: DocView, call: int) -> Option<Seq<char>> {
    match d.call_name(call) {
        Some(name) => Some(name),
        None => match d.first_child(call) {
            Some(c) => if d.kind(c) == "call_expression"@ {
                d.call_name(c)
            } else {
                None
            },
            None => None,
        },
    }
}

fn name_of_lambda_call<'a>(call: usize, doc: &'a LiveDoc) -> (r: Option<&'a str>)
    requires
        doc.wf(),
        call < doc.nodes@.len(),
    ensures
        r.deep_view() == lambda_call_name(doc.deep_view(), call as int),
{
    let own = doc.call_fn_name(call);
    if own.is_some() {
        return own;
    }
    match doc.child0(call) {
        Some(c) => if doc.kind_is(c, "call_expression") {
            doc.call_fn_name(c)
        } else {
            None
        },
        None => None,
    }
}

/// The last segment of a type's name.
pub open spec fn short_base(t: Seq<char>) -> Seq<char> {
    text::last_segment_of(
        text::without_suffix_of(
            text::dotted_ident_of(text::without_suffix_of(t, text::only('?'))),
            text::only('.'),
        ),
    )
}

/// The receiver's type of a lambda given as a named argument, by the parameter that it names.
pub open spec fn label_receiver(
    f: Facts,
    d: DocView,
    lambda: int,
    call: int,
    uri: Seq<char>,
) -> Option<Seq<char>> {
    match d.nodes[lambda].parent {
        Some(p) => if d.kind(p) == "value_argument"@ {
            match (d.arg_label(p), params_of_call(f, d, call, uri)) {
                (Some(label), Some(params)) => match sig::named_type(params, label) {
                    Some(t) => lambda_types::receiver_type(t),
                    None => None,
                },
                _ => None,
            }
        } else {
            None
        },
        None => None,
    }
}

fn receiver_by_label<D: InferDeps>(
    lambda: usize,
    call: usize,
    doc: &LiveDoc,
    deps: &D,
    uri: &str,
) -> (r: Option<String>)
    requires
        doc.wf(),
        lambda < doc.nodes@.len(),
        call < doc.nodes@.len(),
        deps.ready(),
    ensures
        r.deep_view() == label_receiver(
            deps.facts(),
            doc.deep_view(),
            lambda as int,
            call as int,
            uri@,
        ),
{
    match doc.parent(lambda) {
        Some(p) => if doc.kind_is(p, "value_argument") {
            match (doc.named_arg_label(p), receiver_aware_params(call, doc, deps, uri)) {
                (Some(label), Some(params)) => match sig::find_named_param_type_in_sig(
                    params.as_str(),
                    label,
                ) {
                    Some(t) => lambda_types::lambda_type_receiver(t.as_str()),
                    None => None,
                },
                _ => None,
            }
        } else {
            None
        },
        None => None,
    }
}

/// What `this` means in a lambda, by the function that it is given to, else by the text before
/// it.
pub open spec fn by_function(
    f: Facts,
    d: DocView,
    lambda: int,
    name: Option<Seq<char>>,
    uri: Seq<char>,
) -> CtxView {
    let known = match name {
        Some(n) => receiver::trailing_receiver(f, n, uri),
        None => None,
    };
    match known {
        Some(t) => CtxView::Resolved(t),
        None => this_in_lambda(
            f,
            text::trimmed_end(d.before_node(lambda)),
            uri,
            Some(d.position(lambda)),
        ),
    }
}

/// What `this` means in a lambda, by the tree round it: for `with` the argument; for `run` and
/// `apply` what they are called on; for a named argument what its parameter says; else what
/// the function says that the lambda is given to.
pub open spec fn this_of_lambda(f: Facts, d: DocView, lambda: int, uri: Seq<char>) -> CtxView {
    match d.enclosing(lambda, "call_expression"@) {
        Some(call) => {
            let name = lambda_call_name(d, call);
            if name == Some("with"@) {
                match with_ctx(f, d, call, uri, Some(d.position(lambda))) {
                    Some(ctx) => ctx,
                    None => CtxView::NotReceiver,
                }
            } else {
                let called_on = match name {
                    Some(n) => if lambda_types::receiver_this(n) {
                        call_receiver(f, d, call, uri)
                    } else {
                        None
                    },
                    None => None,
                };
                if called_on is Some && short_base(called_on.unwrap()).len() > 0 {
                    CtxView::Resolved(short_base(called_on.unwrap()))
                } else {
                    match label_receiver(f, d, lambda, call, uri) {
                        Some(t) => CtxView::Resolved(t),
                        None => by_function(f, d, lambda, name, uri),
                    }
                }
            }
        },
        None => by_function(f, d, lambda, None, uri),
    }
}

fn this_by_function<D: InferDeps>(
    lambda: usize,
    name: Option<&str>,
    doc: &LiveDoc,
    deps: &D,
    uri: &str,
) -> (r: ThisLambdaCtx)
    requires
        doc.wf(),
        lambda < doc.nodes@.len(),
        deps.ready(),
    ensures
        r.deep_view() == by_function(
            deps.facts(),
            doc.deep_view(),
            lambda as int,
            name.deep_view(),
            uri@,
        ),
{
    if let Some(n) = name {
        if let Some(t) = receiver::fun_trailing_lambda_this_type(n, deps, uri) {
            return ThisLambdaCtx::Resolved(t);
        }
    }
    let before = doc.lambda_before_brace_context(lambda).0;
    classify_this_lambda_context(before.as_str(), deps, uri, Some(doc.position_from_node(lambda)))
}

/// What `this` means in a lambda, by the tree round it.
pub fn lambda_this_ctx<D: InferDeps>(lambda: usize, doc: &LiveDoc, deps: &D, uri: &str) -> (r:
    ThisLambdaCtx)
    requires
        doc.wf(),
        lambda < doc.nodes@.len(),
        deps.ready(),
    ensures
        r.deep_view() == this_of_lambda(deps.facts(), doc.deep_view(), lambda as int, uri@),
{
    let call: usize = match doc.enclosing_of_kind(lambda, "call_expression") {
        Some(call) => call,
        None => {
            return this_by_function(lambda, None, doc, deps, uri);
        },
    };
    let name = name_of_lambda_call(call, doc);
    if let Some(n) = name {
        if text::same(n, "with") {
            return match cst_with_receiver_ctx(
                call,
                doc,
                deps,
                uri,
                Some(doc.position_from_node(lambda)),
            ) {
                Some(ctx) => ctx,
                None => ThisLambdaCtx::NotReceiver,
            };
        }
        if lambda_types::is_receiver_this_fn(n) {
            if let Some(t) = resolve_receiver_type(call, doc, deps, uri) {
                let plain = text::trim_end_class(t.as_str(), CharClass::Only('?'));
                let dotted = text::trim_end_class(
                    text::dotted_ident_prefix(plain),
                    CharClass::Only('.'),
                );
                let base = text::last_segment(dotted);
                if !base.is_empty() {
                    return ThisLambdaCtx::Resolved(base.to_owned());
                }
            }
        }
    }
    if let Some(t) = receiver_by_label(lambda, call, doc, deps, uri) {
        return ThisLambdaCtx::Resolved(t);
    }
    this_by_function(lambda, name, doc, deps, uri)
}

/// What `this` means at a node: what the nearest lambda round it says that has a receiver.
pub open spec fn this_at(f: Facts, d: DocView, n: int, uri: Seq<char>) -> ThisView
    decreases n,
{
    if !d.has(n) {
        ThisView::NotFound
    } else {
        let here = if d.kind(n) == "lambda_literal"@ {
            this_of_lambda(f, d, n, uri)
        } else {
            CtxView::NotReceiver
        };
        match here {
            CtxView::Resolved(t) => ThisView::Resolved(t),
            CtxView::Receiver => ThisView::InsideReceiver,
            CtxView::NotReceiver => match d.nodes[n].parent {
                Some(p) => if 0 <= p < n {
                    this_at(f, d, p, uri)
                } else {
                    ThisView::NotFound
                },
                None => ThisView::NotFound,
            },
        }
    }
}

/// What `this` means at the cursor's node.
pub fn cst_this_context<D: InferDeps>(node: usize, doc: &LiveDoc, deps: &D, uri: &str) -> (r:
    ThisContext)
    requires
        doc.wf(),
        node < doc.nodes@.len(),
        deps.ready(),
    ensures
        r.deep_view() == this_at(deps.facts(), doc.deep_view(), node as int, uri@),
{
    let ghost f = deps.facts();
    let ghost d = doc.deep_view();
    let mut cur: usize = node;
    loop
        invariant
            doc.wf(),
            deps.ready(),
            f == deps.facts(),
            d == doc.deep_view(),
            cur <= node < doc.nodes@.len(),
            this_at(f, d, node as int, uri@) == this_at(f, d, cur as int, uri@),
        decreases cur,
    {
        if doc.kind_is(cur, "lambda_literal") {
            match lambda_this_ctx(cur, doc, deps, uri) {
                ThisLambdaCtx::Resolved(t) => {
                    return ThisContext::Resolved(t);
                },
                ThisLambdaCtx::Receiver => {
                    return ThisContext::InsideReceiver;
                },
                ThisLambdaCtx::NotReceiver => {},
            }
        }
        match doc.parent(cur) {
            Some(p) => {
                cur = p;
            },
            None => {
                return ThisContext::NotFound;
            },
        }
    }
}

// ---------------------------------------------------------------------------
// `it` and `this`
// ---------------------------------------------------------------------------

/// Which implicit name of a lambda is asked for.
#[derive(Clone, Copy, Debug, PartialEq, Eq, Structural)]
pub enum LambdaParamKind {
    /// The implicit parameter `it`.
    It,
    /// The receiver `this`.
    This,
}

/// Whether there is a line of a number, and a text is no longer than it.
pub open spec fn fits_line(before: Seq<char>, lines: Seq<Seq<char>>, row: int) -> bool {
    0 <= row < lines.len() && before.len() <= lines[row].len()
}

/// What `this` means in a lambda without named parameters: for `with` the argument, else what
/// the text before the lambda says.
pub open spec fn this_simple(f: Facts, d: DocView, lambda: int, uri: Seq<char>) -> CtxView {
    let by_with = match d.enclosing(lambda, "call_expression"@) {
        Some(call) => if d.call_name(call) == Some("with"@) {
            with_ctx(f, d, call, uri, Some(d.position(lambda)))
        } else {
            None
        },
        None => None,
    };
    match by_with {
        Some(ctx) => ctx,
        None => this_in_lambda(
            f,
            text::trimmed_end(d.before_node(lambda)),
            uri,
            Some(d.position(lambda)),
        ),
    }
}

fn simple_this<D: InferDeps>(lambda: usize, before: &str, doc: &LiveDoc, deps: &D, uri: &str) -> (r:
    ThisLambdaCtx)
    requires
        doc.wf(),
        lambda < doc.nodes@.len(),
        deps.ready(),
        before@ == text::trimmed_end(doc.deep_view().before_node(lambda as int)),
    ensures
        r.deep_view() == this_simple(deps.facts(), doc.deep_view(), lambda as int, uri@),
{
    let position = Some(doc.position_from_node(lambda));
    if let Some(call) = doc.enclosing_of_kind(lambda, "call_expression") {
        if let Some(name) = doc.call_fn_name(call) {
            if text::same(name, "with") {
                if let Some(ctx) = cst_with_receiver_ctx(call, doc, deps, uri, position) {
                    return ctx;
                }
            }
        }
    }
    classify_this_lambda_context(before, deps, uri, position)
}

/// The type of `it` in a lambda without named parameters, by the text before the lambda, the
/// named argument that it is, or its call. A lambda that does not stand in the lines is taken for
/// no named argument.
pub open spec fn it_by_text(
    f: Facts,
    d: DocView,
    lambda: int,
    lines: Seq<Seq<char>>,
    uri: Seq<char>,
) -> Option<Seq<char>> {
    let before = text::trimmed_end(d.before_node(lambda));
    receiver::either(
        receiver::context_input(f, before, uri, Some(d.position(lambda))),
        receiver::either(
            if fits_line(before, lines, d.nodes[lambda].row as int) {
                receiver::named_argument_input(
                    f,
                    before,
                    0,
                    lines,
                    d.nodes[lambda].row as int,
                    uri,
                )
            } else {
                None
            },
            resolved_type(by_call(f, d, lambda, 0, uri)),
        ),
    )
}

fn find_it_by_text<D: InferDeps>(
    lambda: usize,
    before: &str,
    ln: usize,
    lines: &Vec<String>,
    doc: &LiveDoc,
    deps: &D,
    uri: &str,
) -> (r: Option<String>)
    requires
        doc.wf(),
        lambda < doc.nodes@.len(),
        deps.ready(),
        before@ == text::trimmed_end(doc.deep_view().before_node(lambda as int)),
        ln == doc.deep_view().nodes[lambda as int].row,
    ensures
        r.deep_view() == it_by_text(
            deps.facts(),
            doc.deep_view(),
            lambda as int,
            lines.deep_view(),
            uri@,
        ),
{
    let found = receiver::lambda_receiver_type_from_context_at(
        before,
        deps,
        uri,
        Some(doc.position_from_node(lambda)),
    );
    if found.is_some() {
        return found;
    }
    if ln < lines.len() {
        assert(lines.deep_view()[ln as int] == lines@[ln as int]@);
        if before.unicode_len() <= lines[ln].as_str().unicode_len() {
            let named =
                receiver::lambda_receiver_type_named_arg_ml(before, 0, lines, ln, deps, uri);
            if named.is_some() {
                return named;
            }
        }
    }
    cst_lambda_param_type_via_call(doc, lambda, deps, uri, 0).into_option()
}

/// The type of `it` or `this` at a node: what the nearest lambda round it says that names no
/// parameters and can say it. A type parameter that stands for nothing known is passed over.
pub open spec fn implicit_at(
    f: Facts,
    d: DocView,
    n: int,
    lines: Seq<Seq<char>>,
    kind: LambdaParamKind,
    uri: Seq<char>,
) -> Option<Seq<char>>
    decreases n,
{
    if !d.has(n) {
        None
    } else {
        let above = match d.nodes[n].parent {
            Some(p) => if 0 <= p < n {
                implicit_at(f, d, p, lines, kind, uri)
            } else {
                None
            },
            None => None,
        };
        if d.kind(n) != "lambda_literal"@ || d.lambda_named(n) {
            above
        } else if kind == LambdaParamKind::This {
            match this_simple(f, d, n, uri) {
                CtxView::Resolved(t) => Some(t),
                CtxView::Receiver => None,
                CtxView::NotReceiver => above,
            }
        } else if by_signature(f, d, n, 0, uri) is Some {
            by_signature(f, d, n, 0, uri)
        } else {
            match it_by_text(f, d, n, lines, uri) {
                Some(t) => if type_subst::generic_param(t) {
                    receiver::either(forwarded(f, d, n, uri), above)
                } else {
                    Some(t)
                },
                None => above,
            }
        }
    }
}

/// The type of `it` or `this` at the cursor's node.
pub fn cst_it_or_this_type<D: InferDeps>(
    node: usize,
    doc: &LiveDoc,
    lines: &Vec<String>,
    kind: LambdaParamKind,
    deps: &D,
    uri: &str,
) -> (r: Option<String>)
    requires
        doc.wf(),
        node < doc.nodes@.len(),
        deps.ready(),
    ensures
        r.deep_view() == implicit_at(
            deps.facts(),
            doc.deep_view(),
            node as int,
            lines.deep_view(),
            kind,
            uri@,
        ),
{
    let ghost f = deps.facts();
    let ghost d = doc.deep_view();
    let ghost all = lines.deep_view();
    let mut cur: usize = node;
    loop
        invariant
            doc.wf(),
            deps.ready(),
            f == deps.facts(),
            d == doc.deep_view(),
            all == lines.deep_view(),
            cur <= node < doc.nodes@.len(),
            implicit_at(f, d, node as int, all, kind, uri@) == implicit_at(
                f,
                d,
                cur as int,
                all,
                kind,
                uri@,
            ),
        decreases cur,
    {
        if doc.kind_is(cur, "lambda_literal") && !doc.has_lambda_named_params(cur) {
            let ctx = doc.lambda_before_brace_context(cur);
            let before = ctx.0.as_str();
            if kind == LambdaParamKind::This {
                match simple_this(cur, before, doc, deps, uri) {
                    ThisLambdaCtx::Resolved(t) => {
                        return Some(t);
                    },
                    ThisLambdaCtx::Receiver => {
                        return None;
                    },
                    ThisLambdaCtx::NotReceiver => {},
                }
            } else {
                let found = resolve_by_signature(cur, doc, deps, uri, 0);
                if found.is_some() {
                    return found;
                }
                if let Some(t) = find_it_by_text(cur, before, ctx.1, lines, doc, deps, uri) {
                    if !type_subst::is_generic_param(t.as_str()) {
                        return Some(t);
                    }
                    let concrete = cst_forward_resolve_receiver_type(cur, doc, deps, uri);
                    if concrete.is_some() {
                        return concrete;
                    }
                }
            }
        }
        match doc.parent(cur) {
            Some(p) => {
                cur = p;
            },
            None => {
                return None;
            },
        }
    }
}

} // verus!
