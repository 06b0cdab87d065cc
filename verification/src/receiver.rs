//! The type that a lambda's parameter has, by the text before the lambda's brace.
use vstd::prelude::*;
use vstd::string::*;

use crate::brackets;
use crate::deps::{Facts, InferDeps};
use crate::lambda_types;
use crate::lists;
use crate::scope;
use crate::sig;
use crate::text;
use crate::text::CharClass;
use crate::type_subst;
use crate::types::Position;

verus! {

/// The first of two answers that is one.
pub open spec fn either<T>(a: Option<T>, b: Option<T>) -> Option<T> {
    match a {
        Some(v) => Some(v),
        None => b,
    }
}

// ---------------------------------------------------------------------------
// Names of types
// ---------------------------------------------------------------------------

/// A name that begins with an uppercase letter.
pub open spec fn upper_name(name: Seq<char>) -> Option<Seq<char>> {
    if text::upper_start(name) {
        Some(name)
    } else {
        None
    }
}

/// A name that begins with an uppercase letter.
pub fn uppercase_name(name: &str) -> (r: Option<String>)
    ensures
        r.deep_view() == upper_name(name@),
{
    if text::starts_with_uppercase(name) {
        Some(name.to_owned())
    } else {
        None
    }
}

/// The identifier that a text begins with, where it names a type.
pub open spec fn upper_ident(raw: Seq<char>) -> Option<Seq<char>> {
    let base = text::ident_of(raw);
    if type_subst::generic_param(base) {
        None
    } else {
        upper_name(base)
    }
}

/// The identifier that a text begins with, where it names a type.
pub fn uppercase_ident_prefix(raw: &str) -> (r: Option<String>)
    ensures
        r.deep_view() == upper_ident(raw@),
{
    let base = text::ident_prefix(raw);
    if type_subst::is_generic_param(base) {
        None
    } else {
        uppercase_name(base)
    }
}

/// The dotted name that a type begins with, where its first segment names a type.
pub open spec fn upper_dotted(raw: Seq<char>) -> Option<Seq<char>> {
    let base = text::without_suffix_of(text::dotted_ident_of(raw), text::only('.'));
    if type_subst::generic_param(base) {
        None
    } else if text::upper_start(text::parts(base, '.')[0]) {
        Some(base)
    } else {
        None
    }
}

/// The dotted name that a type begins with, where its first segment names a type.
pub fn uppercase_dotted_type_prefix(raw: &str) -> (r: Option<String>)
    ensures
        r.deep_view() == upper_dotted(raw@),
{
    let base = text::trim_end_class(text::dotted_ident_prefix(raw), CharClass::Only('.'));
    if type_subst::is_generic_param(base) {
        return None;
    }
    let segments = text::split(base, '.');
    assert(text::parts(base@, '.')[0] == segments@[0]@);
    if text::starts_with_uppercase(segments[0]) {
        Some(base.to_owned())
    } else {
        None
    }
}

// ---------------------------------------------------------------------------
// Calls
// ---------------------------------------------------------------------------

/// The call before a brace: without its arguments, and with plain dots in place of safe ones.
pub open spec fn callee_of(before_brace: Seq<char>) -> Seq<char> {
    text::trimmed(text::replaced(sig::without_args(before_brace), "?."@, "."@))
}

/// The call before a brace: without its arguments, and with plain dots in place of safe ones.
pub fn normalized_lambda_callee(before_brace: &str) -> (r: String)
    ensures
        r@ == callee_of(before_brace@),
{
    proof {
        reveal_strlit("?.");
    }
    let plain = text::replace(sig::strip_trailing_call_args(before_brace), "?.", ".");
    text::trim(plain.as_str()).to_owned()
}

/// The parameter list of a call: that of the method of the receiver's type, else that of the
/// function of the name.
pub open spec fn call_params(
    f: Facts,
    fn_name: Seq<char>,
    receiver_type: Option<Seq<char>>,
    uri: Seq<char>,
) -> Option<Seq<char>> {
    match receiver_type {
        Some(raw) => {
            let class = text::dotted_ident_of(raw);
            if class.len() > 0 {
                either((f.method_params)(class, fn_name), (f.fun_params)(fn_name, uri))
            } else {
                (f.fun_params)(fn_name, uri)
            }
        },
        None => (f.fun_params)(fn_name, uri),
    }
}

/// The parameter list of a call: that of the method of the receiver's type, else that of the
/// function of the name.
pub fn resolve_call_params<D: InferDeps>(
    fn_name: &str,
    receiver_type: Option<&str>,
    deps: &D,
    uri: &str,
) -> (r: Option<String>)
    requires
        deps.ready(),
    ensures
        r.deep_view() == call_params(deps.facts(), fn_name@, receiver_type.deep_view(), uri@),
{
    if let Some(raw) = receiver_type {
        let class = text::dotted_ident_prefix(raw);
        if !class.is_empty() {
            let params = deps.find_method_params_text(class, fn_name);
            if params.is_some() {
                return params;
            }
        }
    }
    deps.find_fun_params_text(fn_name, uri)
}

/// The type of the first input of a function's trailing lambda.
pub open spec fn trailing_input(f: Facts, fn_name: Seq<char>, uri: Seq<char>) -> Option<Seq<char>> {
    match (f.fun_params)(fn_name, uri) {
        Some(params) => match sig::last_type(params) {
            Some(t) => lambda_types::nth_input(t, 0),
            None => None,
        },
        None => None,
    }
}

/// The type of the first input of a function's trailing lambda.
pub fn fun_trailing_lambda_it_type<D: InferDeps>(fn_name: &str, deps: &D, uri: &str) -> (r: Option<
    String,
>)
    requires
        deps.ready(),
    ensures
        r.deep_view() == trailing_input(deps.facts(), fn_name@, uri@),
{
    match deps.find_fun_params_text(fn_name, uri) {
        Some(params) => match sig::last_fun_param_type_str(params.as_str()) {
            Some(t) => lambda_types::lambda_type_first_input(t.as_str()),
            None => None,
        },
        None => None,
    }
}

/// The receiver's type of a function's trailing lambda.
pub open spec fn trailing_receiver(f: Facts, fn_name: Seq<char>, uri: Seq<char>) -> Option<
    Seq<char>,
> {
    match (f.fun_params)(fn_name, uri) {
        Some(params) => match sig::last_type(params) {
            Some(t) => lambda_types::receiver_type(t),
            None => None,
        },
        None => None,
    }
}

/// The receiver's type of a function's trailing lambda.
pub fn fun_trailing_lambda_this_type<D: InferDeps>(fn_name: &str, deps: &D, uri: &str) -> (r:
    Option<String>)
    requires
        deps.ready(),
    ensures
        r.deep_view() == trailing_receiver(deps.facts(), fn_name@, uri@),
{
    match deps.find_fun_params_text(fn_name, uri) {
        Some(params) => match sig::last_fun_param_type_str(params.as_str()) {
            Some(t) => lambda_types::lambda_type_receiver(t.as_str()),
            None => None,
        },
        None => None,
    }
}

// ---------------------------------------------------------------------------
// Expressions
// ---------------------------------------------------------------------------

/// The type of a variable: as it is visible at the position, else as the file knows it.
pub open spec fn var_at(
    f: Facts,
    name: Seq<char>,
    uri: Seq<char>,
    position: Option<Position>,
) -> Option<Seq<char>> {
    match position {
        Some(p) => either((f.var_type_at)(name, uri, p), (f.var_type)(name, uri)),
        None => (f.var_type)(name, uri),
    }
}

/// The type of a variable: as it is visible at the position, else as the file knows it.
pub fn variable_type_lookup<D: InferDeps>(
    deps: &D,
    name: &str,
    uri: &str,
    position: Option<Position>,
) -> (r: Option<String>)
    requires
        deps.ready(),
    ensures
        r.deep_view() == var_at(deps.facts(), name@, uri@, position),
{
    if let Some(p) = position {
        let found = deps.find_var_type_at(name, uri, p);
        if found.is_some() {
            return found;
        }
    }
    deps.find_var_type(name, uri)
}

/// The type of a variable, or of a field of a variable with the type arguments of the variable's
/// type put in.
pub open spec fn expr_type(
    f: Facts,
    expr: Seq<char>,
    uri: Seq<char>,
    position: Option<Position>,
) -> Option<Seq<char>> {
    if !expr.contains('.') {
        var_at(f, expr, uri, position)
    } else {
        match brackets::top_dot(expr) {
            Some(dot) => {
                let outer = text::last_ident_of(text::trimmed_end(expr.take(dot)));
                let field = text::ident_of(text::trimmed_start(expr.skip(dot + 1)));
                if outer.len() == 0 || field.len() == 0 {
                    None
                } else {
                    match var_at(f, outer, uri, position) {
                        Some(t) => {
                            let class = type_subst::class_base(t);
                            match (f.field_type)(class, field, uri) {
                                Some(raw) => Some(
                                    type_subst::substituted(raw, type_subst::arg_subst(f, class, t)),
                                ),
                                None => None,
                            }
                        },
                        None => None,
                    }
                }
            },
            None => None,
        }
    }
}

/// The type of a variable, or of a field of a variable with the type arguments of the variable's
/// type put in.
pub fn resolve_expr_type_raw<D: InferDeps>(
    expr: &str,
    deps: &D,
    uri: &str,
    position: Option<Position>,
) -> (r: Option<String>)
    requires
        deps.ready(),
    ensures
        r.deep_view() == expr_type(deps.facts(), expr@, uri@, position),
{
    if !text::contains_char(expr, '.') {
        return variable_type_lookup(deps, expr, uri, position);
    }
    let dot: usize = match brackets::find_top_dot(expr) {
        Some(dot) => dot,
        None => {
            return None;
        },
    };
    let n: usize = expr.unicode_len();
    let outer = text::last_ident_in(text::trim_end(text::take(expr, dot)));
    let field = text::ident_prefix(text::trim_start(text::skip(expr, dot + 1)));
    if outer.is_empty() || field.is_empty() {
        return None;
    }
    match variable_type_lookup(deps, outer, uri, position) {
        Some(t) => {
            let class = text::last_segment(text::dotted_ident_prefix(t.as_str()));
            match deps.find_field_type_from(class, field, uri) {
                Some(raw) => {
                    let subst = type_subst::build_type_arg_subst(deps, class, t.as_str());
                    Some(type_subst::apply_type_subst(raw.as_str(), &subst))
                },
                None => None,
            }
        },
        None => None,
    }
}

// ---------------------------------------------------------------------------
// Lambdas called on a receiver
// ---------------------------------------------------------------------------

/// The type of the first input of the trailing lambda of a method called on a type.
pub open spec fn method_input(
    f: Facts,
    raw_type: Seq<char>,
    method: Seq<char>,
    uri: Seq<char>,
) -> Option<Seq<char>> {
    if method.len() == 0 {
        None
    } else {
        match call_params(f, method, Some(raw_type), uri) {
            Some(params) => match sig::last_type(params) {
                Some(t) => lambda_types::nth_input(t, 0),
                None => None,
            },
            None => None,
        }
    }
}

/// The type of the first input of the trailing lambda of a method called on a type.
pub fn method_lambda_input_type_aware<D: InferDeps>(
    raw_type: &str,
    method: &str,
    deps: &D,
    uri: &str,
) -> (r: Option<String>)
    requires
        deps.ready(),
    ensures
        r.deep_view() == method_input(deps.facts(), raw_type@, method@, uri@),
{
    if method.is_empty() {
        return None;
    }
    match resolve_call_params(method, Some(raw_type), deps, uri) {
        Some(params) => match sig::last_fun_param_type_str(params.as_str()) {
            Some(t) => lambda_types::lambda_type_first_input(t.as_str()),
            None => None,
        },
        None => None,
    }
}

/// Whether a type has one type argument.
pub open spec fn one_type_arg(t: Seq<char>) -> bool {
    match type_subst::args_inner(t) {
        Some(inner) => brackets::split_top(inner).len() == 1,
        None => false,
    }
}

/// The input that a method's signature gives its lambda, with a type parameter replaced by what
/// stands for it: the receiver's type for a scope function, the only type argument of the
/// receiver's type for another.
pub open spec fn settled_input(
    f: Facts,
    raw_type: Seq<char>,
    method: Seq<char>,
    uri: Seq<char>,
) -> Option<Seq<char>> {
    let input = method_input(f, raw_type, method, uri);
    match input {
        Some(t) => if !type_subst::generic_param(t) {
            input
        } else if lambda_types::scope_function(method) {
            either(upper_dotted(raw_type), input)
        } else if one_type_arg(raw_type) {
            either(type_subst::first_type_arg(raw_type), input)
        } else {
            input
        },
        None => None,
    }
}

/// The type of the parameter of a lambda that a method called on a type takes: the element of
/// a collection, else what the method's signature says, else the type itself.
pub open spec fn receiver_input(
    f: Facts,
    raw_type: Seq<char>,
    method: Seq<char>,
    uri: Seq<char>,
) -> Option<Seq<char>> {
    either(
        type_subst::element_type(raw_type),
        either(settled_input(f, raw_type, method, uri), upper_dotted(raw_type)),
    )
}

/// The type of the parameter of a lambda that a method called on a type takes.
pub fn inferred_receiver_lambda_type<D: InferDeps>(
    raw_type: &str,
    method: &str,
    deps: &D,
    uri: &str,
) -> (r: Option<String>)
    requires
        deps.ready(),
    ensures
        r.deep_view() == receiver_input(deps.facts(), raw_type@, method@, uri@),
{
    let element = type_subst::extract_collection_element_type(raw_type);
    if element.is_some() {
        return element;
    }
    match method_lambda_input_type_aware(raw_type, method, deps, uri) {
        Some(t) => {
            if type_subst::is_generic_param(t.as_str()) {
                if lambda_types::is_scope_function(method) {
                    let own = uppercase_dotted_type_prefix(raw_type);
                    if own.is_some() {
                        return own;
                    }
                } else if let Some(inner) = type_subst::type_args_inner(raw_type) {
                    let args = brackets::split_params_at_depth_zero(inner);
                    assert(brackets::split_top(inner@).len() == args.deep_view().len());
                    if args.len() == 1 {
                        let arg = type_subst::first_type_arg_raw(raw_type);
                        if arg.is_some() {
                            return arg;
                        }
                    }
                }
            }
            Some(t)
        },
        None => uppercase_dotted_type_prefix(raw_type),
    }
}

/// By the type of the variable that the method is called on.
pub open spec fn by_variable(
    f: Facts,
    var: Seq<char>,
    method: Seq<char>,
    uri: Seq<char>,
    position: Option<Position>,
) -> Option<Seq<char>> {
    match var_at(f, var, uri, position) {
        Some(raw) => receiver_input(f, raw, method, uri),
        None => None,
    }
}

/// By the type of the variable that the method is called on.
pub fn direct_receiver_lambda_type<D: InferDeps>(
    var: &str,
    method: &str,
    deps: &D,
    uri: &str,
    position: Option<Position>,
) -> (r: Option<String>)
    requires
        deps.ready(),
    ensures
        r.deep_view() == by_variable(deps.facts(), var@, method@, uri@, position),
{
    match variable_type_lookup(deps, var, uri, position) {
        Some(raw) => inferred_receiver_lambda_type(raw.as_str(), method, deps, uri),
        None => None,
    }
}

/// The variable and the field that an expression ends with.
pub open spec fn outer_field(expr: Seq<char>) -> Option<(Seq<char>, Seq<char>)> {
    match text::rindex_of(expr, '.') {
        Some(dot) => {
            let outer = text::last_ident_of(expr.take(dot));
            let field = expr.skip(dot + 1);
            if outer.len() == 0 || field.len() == 0 {
                None
            } else {
                Some((outer, field))
            }
        },
        None => None,
    }
}

/// The variable and the field that an expression ends with.
pub fn receiver_outer_field<'a>(receiver_expr: &'a str) -> (r: Option<(&'a str, &'a str)>)
    ensures
        r.deep_view() == outer_field(receiver_expr@),
{
    match text::rfind_char(receiver_expr, '.') {
        Some(dot) => {
            let n: usize = receiver_expr.unicode_len();
            let outer = text::last_ident_in(text::take(receiver_expr, dot));
            let field = text::skip(receiver_expr, dot + 1);
            if outer.is_empty() || field.is_empty() {
                None
            } else {
                Some((outer, field))
            }
        },
        None => None,
    }
}

/// By the type of the field that the method is called on.
pub open spec fn by_field(
    f: Facts,
    expr: Seq<char>,
    method: Seq<char>,
    uri: Seq<char>,
    position: Option<Position>,
) -> Option<Seq<char>> {
    match outer_field(expr) {
        Some(p) => match var_at(f, p.0, uri, position) {
            Some(t) => {
                let class = type_subst::class_base(t);
                if class.len() == 0 {
                    None
                } else {
                    match (f.field_type)(class, p.1, uri) {
                        Some(raw) => receiver_input(f, raw, method, uri),
                        None => None,
                    }
                }
            },
            None => None,
        },
        None => None,
    }
}

/// By the type of the field that the method is called on.
pub fn nested_receiver_lambda_type<D: InferDeps>(
    receiver_expr: &str,
    method: &str,
    deps: &D,
    uri: &str,
    position: Option<Position>,
) -> (r: Option<String>)
    requires
        deps.ready(),
    ensures
        r.deep_view() == by_field(deps.facts(), receiver_expr@, method@, uri@, position),
{
    let p = match receiver_outer_field(receiver_expr) {
        Some(p) => p,
        None => {
            return None;
        },
    };
    match variable_type_lookup(deps, p.0, uri, position) {
        Some(t) => {
            let class = text::last_segment(text::dotted_ident_prefix(t.as_str()));
            if class.is_empty() {
                return None;
            }
            match deps.find_field_type_from(class, p.1, uri) {
                Some(raw) => inferred_receiver_lambda_type(raw.as_str(), method, deps, uri),
                None => None,
            }
        },
        None => None,
    }
}

/// By what the function of the receiver's name returns.
pub open spec fn by_return(f: Facts, name: Seq<char>, method: Seq<char>, uri: Seq<char>) -> Option<
    Seq<char>,
> {
    match (f.fun_return)(name) {
        Some(raw) => receiver_input(f, raw, method, uri),
        None => None,
    }
}

/// By what the function of the receiver's name returns.
pub fn method_chain_lambda_type<D: InferDeps>(
    receiver_var: &str,
    method: &str,
    deps: &D,
    uri: &str,
) -> (r: Option<String>)
    requires
        deps.ready(),
    ensures
        r.deep_view() == by_return(deps.facts(), receiver_var@, method@, uri@),
{
    match deps.find_fun_return_type(receiver_var) {
        Some(raw) => inferred_receiver_lambda_type(raw.as_str(), method, deps, uri),
        None => None,
    }
}

/// What a method called on a value of a type yields: what the method is known to return, with
/// the type's arguments put in; else, or where that stays a type parameter, the first type
/// argument that names a type.
pub open spec fn yielded(f: Facts, raw: Seq<char>, method: Seq<char>) -> Option<Seq<char>> {
    let class = type_subst::class_base(raw);
    match (f.method_return)(class, method) {
        Some(ret) => {
            let applied = type_subst::substituted(ret, type_subst::arg_subst(f, class, raw));
            let base = text::without_suffix_of(
                text::dotted_ident_of(text::without_suffix_of(applied, text::only('?'))),
                text::only('.'),
            );
            if base.len() == 0 || type_subst::generic_param(base) {
                type_subst::first_concrete_arg(raw)
            } else {
                Some(base)
            }
        },
        None => type_subst::first_concrete_arg(raw),
    }
}

fn type_yielded<D: InferDeps>(raw: &str, method: &str, deps: &D) -> (r: Option<String>)
    requires
        deps.ready(),
    ensures
        r.deep_view() == yielded(deps.facts(), raw@, method@),
{
    let class = text::last_segment(text::dotted_ident_prefix(raw));
    match deps.find_method_return_type_for_type(class, method) {
        Some(ret) => {
            let subst = type_subst::build_type_arg_subst(deps, class, raw);
            let applied = type_subst::apply_type_subst(ret.as_str(), &subst);
            let plain = text::trim_end_class(applied.as_str(), CharClass::Only('?'));
            let base = text::trim_end_class(text::dotted_ident_prefix(plain), CharClass::Only('.'));
            if base.is_empty() || type_subst::is_generic_param(base) {
                type_subst::first_concrete_type_arg_str(raw)
            } else {
                Some(base.to_owned())
            }
        },
        None => type_subst::first_concrete_type_arg_str(raw),
    }
}

/// By what the method call yields that the method is called on.
pub open spec fn by_chain(
    f: Facts,
    expr: Seq<char>,
    method: Seq<char>,
    uri: Seq<char>,
    position: Option<Position>,
) -> Option<Seq<char>> {
    let call = sig::without_args(expr);
    match brackets::top_dot(call) {
        Some(dot) => {
            let inner = text::trimmed(call.take(dot));
            let last = text::ident_of(text::trimmed(call.skip(dot + 1)));
            if inner.len() == 0 || last.len() == 0 {
                None
            } else {
                match expr_type(f, inner, uri, position) {
                    Some(raw) => if type_subst::class_base(raw).len() == 0 {
                        None
                    } else {
                        match yielded(f, raw, last) {
                            Some(t) => if text::upper_start(t) && !type_subst::generic_param(t) {
                                Some(t)
                            } else {
                                receiver_input(f, t, method, uri)
                            },
                            None => None,
                        }
                    },
                    None => None,
                }
            }
        },
        None => None,
    }
}

/// By what the method call yields that the method is called on, as in
/// `wrapper.getOrNull()?.also { p -> }`.
pub fn chain_with_type_subst<D: InferDeps>(
    receiver_expr: &str,
    method: &str,
    deps: &D,
    uri: &str,
    position: Option<Position>,
) -> (r: Option<String>)
    requires
        deps.ready(),
    ensures
        r.deep_view() == by_chain(deps.facts(), receiver_expr@, method@, uri@, position),
{
    let call = sig::strip_trailing_call_args(receiver_expr);
    let dot: usize = match brackets::find_top_dot(call) {
        Some(dot) => dot,
        None => {
            return None;
        },
    };
    let n: usize = call.unicode_len();
    let inner = text::trim(text::take(call, dot));
    let last = text::ident_prefix(text::trim(text::skip(call, dot + 1)));
    if inner.is_empty() || last.is_empty() {
        return None;
    }
    let raw = match resolve_expr_type_raw(inner, deps, uri, position) {
        Some(raw) => raw,
        None => {
            return None;
        },
    };
    if text::last_segment(text::dotted_ident_prefix(raw.as_str())).is_empty() {
        return None;
    }
    match type_yielded(raw.as_str(), last, deps) {
        Some(t) => {
            if text::starts_with_uppercase(t.as_str()) && !type_subst::is_generic_param(
                t.as_str(),
            ) {
                Some(t)
            } else {
                inferred_receiver_lambda_type(t.as_str(), method, deps, uri)
            }
        },
        None => None,
    }
}

/// By the variable, the field, the method call or the function that the method is called on,
/// whichever answers first.
pub open spec fn by_receiver(
    f: Facts,
    var: Seq<char>,
    expr: Seq<char>,
    method: Seq<char>,
    uri: Seq<char>,
    position: Option<Position>,
) -> Option<Seq<char>> {
    either(
        by_variable(f, var, method, uri, position),
        either(
            by_field(f, expr, method, uri, position),
            either(by_chain(f, expr, method, uri, position), by_return(f, var, method, uri)),
        ),
    )
}

/// By the variable, the field, the method call or the function that the method is called on,
/// whichever answers first.
pub fn receiver_var_lambda_type<D: InferDeps>(
    receiver_var: &str,
    receiver_expr: &str,
    method: &str,
    deps: &D,
    uri: &str,
    position: Option<Position>,
) -> (r: Option<String>)
    requires
        deps.ready(),
    ensures
        r.deep_view() == by_receiver(
            deps.facts(),
            receiver_var@,
            receiver_expr@,
            method@,
            uri@,
            position,
        ),
{
    let direct = direct_receiver_lambda_type(receiver_var, method, deps, uri, position);
    if direct.is_some() {
        return direct;
    }
    let nested = nested_receiver_lambda_type(receiver_expr, method, deps, uri, position);
    if nested.is_some() {
        return nested;
    }
    let chain = chain_with_type_subst(receiver_expr, method, deps, uri, position);
    if chain.is_some() {
        return chain;
    }
    method_chain_lambda_type(receiver_var, method, deps, uri)
}

/// The type of the parameter of a lambda given to `receiver.method`: by the receiver, else the
/// receiver's own name where that names a type.
pub open spec fn dot_call_input(
    f: Facts,
    callee: Seq<char>,
    uri: Seq<char>,
    position: Option<Position>,
) -> Option<Seq<char>> {
    match brackets::top_dot(callee) {
        Some(dot) => {
            let expr = text::trimmed_end(callee.take(dot));
            let var = text::last_ident_of(sig::without_args(expr));
            let method = text::ident_of(text::trimmed_start(callee.skip(dot + 1)));
            if var.len() == 0 {
                None
            } else {
                either(by_receiver(f, var, expr, method, uri, position), upper_name(var))
            }
        },
        None => None,
    }
}

/// The type of the parameter of a lambda given to `receiver.method`.
pub fn receiver_dot_lambda_type<D: InferDeps>(
    callee: &str,
    deps: &D,
    uri: &str,
    position: Option<Position>,
) -> (r: Option<String>)
    requires
        deps.ready(),
    ensures
        r.deep_view() == dot_call_input(deps.facts(), callee@, uri@, position),
{
    let dot: usize = match brackets::find_top_dot(callee) {
        Some(dot) => dot,
        None => {
            return None;
        },
    };
    let n: usize = callee.unicode_len();
    let expr = text::trim_end(text::take(callee, dot));
    let var = text::last_ident_in(sig::strip_trailing_call_args(expr));
    let method = text::ident_prefix(text::trim_start(text::skip(callee, dot + 1)));
    if var.is_empty() {
        return None;
    }
    let found = receiver_var_lambda_type(var, expr, method, deps, uri, position);
    if found.is_some() {
        return found;
    }
    uppercase_name(var)
}

// ---------------------------------------------------------------------------
// Lambdas of plain calls
// ---------------------------------------------------------------------------

/// The type of what `with` is given: that of the expression, else of the variable, else the
/// name itself where it names a type.
pub open spec fn with_input(f: Facts, before_brace: Seq<char>, uri: Seq<char>) -> Option<Seq<char>> {
    match sig::first_arg(before_brace) {
        Some(arg) => either(
            match expr_type(f, arg, uri, None) {
                Some(raw) => upper_dotted(raw),
                None => None,
            },
            either(
                match (f.var_type)(arg, uri) {
                    Some(raw) => upper_dotted(raw),
                    None => None,
                },
                upper_ident(arg),
            ),
        ),
        None => None,
    }
}

/// The type of what `with` is given.
pub fn with_receiver_lambda_type<D: InferDeps>(
    trailing_fn: &str,
    before_brace: &str,
    deps: &D,
    uri: &str,
) -> (r: Option<String>)
    requires
        deps.ready(),
    ensures
        r.deep_view() == if trailing_fn@ == "with"@ {
            with_input(deps.facts(), before_brace@, uri@)
        } else {
            None
        },
{
    if !text::same(trailing_fn, "with") {
        return None;
    }
    let arg = match sig::extract_first_arg(before_brace) {
        Some(arg) => arg,
        None => {
            return None;
        },
    };
    if let Some(raw) = resolve_expr_type_raw(arg, deps, uri, None) {
        let found = uppercase_dotted_type_prefix(raw.as_str());
        if found.is_some() {
            return found;
        }
    }
    if let Some(raw) = deps.find_var_type(arg, uri) {
        let found = uppercase_dotted_type_prefix(raw.as_str());
        if found.is_some() {
            return found;
        }
    }
    uppercase_ident_prefix(arg)
}

/// The type of the parameter of a lambda that follows a plain call.
pub open spec fn plain_call_input(
    f: Facts,
    before_brace: Seq<char>,
    callee: Seq<char>,
    uri: Seq<char>,
) -> Option<Seq<char>> {
    let name = text::last_ident_of(callee);
    if name.len() == 0 {
        None
    } else {
        either(
            if name == "with"@ {
                with_input(f, before_brace, uri)
            } else {
                None
            },
            trailing_input(f, name, uri),
        )
    }
}

/// The type of the parameter of a lambda that follows a plain call.
pub fn plain_trailing_lambda_type<D: InferDeps>(
    before_brace: &str,
    callee: &str,
    deps: &D,
    uri: &str,
) -> (r: Option<String>)
    requires
        deps.ready(),
    ensures
        r.deep_view() == plain_call_input(deps.facts(), before_brace@, callee@, uri@),
{
    let name = text::last_ident_in(callee);
    if name.is_empty() {
        return None;
    }
    let found = with_receiver_lambda_type(name, before_brace, deps, uri);
    if found.is_some() {
        return found;
    }
    fun_trailing_lambda_it_type(name, deps, uri)
}

/// The parameter list of a function called on a variable, by the variable's type.
pub open spec fn params_on_receiver(
    f: Facts,
    before_open: Seq<char>,
    fn_name: Seq<char>,
    uri: Seq<char>,
) -> Option<Seq<char>> {
    match text::rindex_of(before_open, '.') {
        Some(dot) => {
            let var = text::last_ident_of(text::trimmed_end(before_open.take(dot)));
            if var.len() == 0 {
                None
            } else {
                call_params(f, fn_name, (f.var_type)(var, uri), uri)
            }
        },
        None => None,
    }
}

/// The parameter list of a function called on a variable, by the variable's type.
pub fn receiver_aware_params_from_text<D: InferDeps>(
    before_open: &str,
    fn_name: &str,
    deps: &D,
    uri: &str,
) -> (r: Option<String>)
    requires
        deps.ready(),
    ensures
        r.deep_view() == params_on_receiver(deps.facts(), before_open@, fn_name@, uri@),
{
    match text::rfind_char(before_open, '.') {
        Some(dot) => {
            let var = text::last_ident_in(text::trim_end(text::take(before_open, dot)));
            if var.is_empty() {
                return None;
            }
            match deps.find_var_type(var, uri) {
                Some(t) => resolve_call_params(fn_name, Some(t.as_str()), deps, uri),
                None => resolve_call_params(fn_name, None, deps, uri),
            }
        },
        None => None,
    }
}

/// The type of the parameter of a lambda that is itself an argument: by the type of the
/// parameter at its place, with a type parameter replaced by what the call's receiver puts in.
pub open spec fn argument_input(f: Facts, before_brace: Seq<char>, uri: Seq<char>) -> Option<
    Seq<char>,
> {
    match brackets::open_before(before_brace, before_brace.len() as int, 0, 0) {
        Some(p) => {
            let before_open = text::trimmed_end(before_brace.take(p.0));
            let name = text::last_ident_of(before_open);
            if name.len() == 0 {
                None
            } else {
                match either(
                    params_on_receiver(f, before_open, name, uri),
                    (f.fun_params)(name, uri),
                ) {
                    Some(params) => match sig::nth_type(params, p.1 as int) {
                        Some(t) => match lambda_types::nth_input(t, 0) {
                            Some(input) => either(
                                type_subst::call_site_type(f, input, name, before_open, uri),
                                Some(input),
                            ),
                            None => None,
                        },
                        None => None,
                    },
                    None => None,
                }
            }
        },
        None => None,
    }
}

/// The type of the parameter of a lambda that is itself an argument, as in
/// `fn(a, b, { param -> ... })`.
pub fn inline_lambda_param_type<D: InferDeps>(before_brace: &str, deps: &D, uri: &str) -> (r:
    Option<String>)
    requires
        deps.ready(),
    ensures
        r.deep_view() == argument_input(deps.facts(), before_brace@, uri@),
{
    let n: usize = before_brace.unicode_len();
    let p = match brackets::unclosed_paren(before_brace, n) {
        Some(p) => p,
        None => {
            return None;
        },
    };
    let before_open = text::trim_end(text::take(before_brace, p.0));
    let name = text::last_ident_in(before_open);
    if name.is_empty() {
        return None;
    }
    let mut found = receiver_aware_params_from_text(before_open, name, deps, uri);
    if found.is_none() {
        found = deps.find_fun_params_text(name, uri);
    }
    let params = match found {
        Some(params) => params,
        None => {
            return None;
        },
    };
    let t = match sig::nth_fun_param_type_str(params.as_str(), p.1) {
        Some(t) => t,
        None => {
            return None;
        },
    };
    let input = match lambda_types::lambda_type_first_input(t.as_str()) {
        Some(input) => input,
        None => {
            return None;
        },
    };
    let concrete = type_subst::try_substitute_ext_fn_type_param(
        input.as_str(),
        name,
        before_open,
        deps,
        uri,
    );
    if concrete.is_some() {
        return concrete;
    }
    Some(input)
}

// ---------------------------------------------------------------------------
// Any lambda
// ---------------------------------------------------------------------------

/// The type of the parameter of the lambda that follows the text. A lambda inside an open
/// argument list is first taken for an argument; else, and where that says nothing, for the
/// lambda of a method call, of a plain call, or for an argument.
pub open spec fn context_input(
    f: Facts,
    before_brace: Seq<char>,
    uri: Seq<char>,
    position: Option<Position>,
) -> Option<Seq<char>> {
    let t = text::trimmed_end(before_brace);
    let callee = callee_of(t);
    let inside = brackets::occurrences(t, '(') > brackets::occurrences(t, ')');
    let rest = either(
        dot_call_input(f, callee, uri, position),
        either(plain_call_input(f, t, callee, uri), argument_input(f, t, uri)),
    );
    if inside {
        either(argument_input(f, t, uri), rest)
    } else {
        rest
    }
}

/// The type of the parameter of the lambda that follows the text, with variables looked up as
/// they are visible at a position.
pub fn lambda_receiver_type_from_context_at<D: InferDeps>(
    before_brace: &str,
    deps: &D,
    uri: &str,
    position: Option<Position>,
) -> (r: Option<String>)
    requires
        deps.ready(),
    ensures
        r.deep_view() == context_input(deps.facts(), before_brace@, uri@, position),
{
    let t = text::trim_end(before_brace);
    if brackets::has_unclosed_paren(t) {
        let found = inline_lambda_param_type(t, deps, uri);
        if found.is_some() {
            return found;
        }
    }
    let callee = normalized_lambda_callee(t);
    let by_dot = receiver_dot_lambda_type(callee.as_str(), deps, uri, position);
    if by_dot.is_some() {
        return by_dot;
    }
    let plain = plain_trailing_lambda_type(t, callee.as_str(), deps, uri);
    if plain.is_some() {
        return plain;
    }
    inline_lambda_param_type(t, deps, uri)
}

/// The type of the parameter of the lambda that follows the text.
pub fn lambda_receiver_type_from_context<D: InferDeps>(
    before_brace: &str,
    deps: &D,
    uri: &str,
) -> (r: Option<String>)
    requires
        deps.ready(),
    ensures
        r.deep_view() == context_input(deps.facts(), before_brace@, uri@, None),
{
    lambda_receiver_type_from_context_at(before_brace, deps, uri, None)
}

// ---------------------------------------------------------------------------
// Named arguments
// ---------------------------------------------------------------------------

/// Whether a parameter list gives the parameter a type.
pub open spec fn types_param(name: Seq<char>) -> spec_fn(Seq<char>) -> bool {
    |params: Seq<char>| sig::named_type(params, name) is Some
}

/// The type of the parameter that an argument names, by the call's name. Of a qualified call
/// the file that declares the qualifier is searched first.
pub open spec fn argument_type(
    f: Facts,
    callee: Seq<char>,
    arg: Seq<char>,
    uri: Seq<char>,
) -> Option<Seq<char>> {
    let name = text::last_segment_of(callee);
    let in_file = match text::rindex_of(callee, '.') {
        Some(dot) => match (f.symbol_file)(callee.take(dot), uri) {
            Some(file) => match lists::find_where(
                (f.params_in_file)(name, file),
                types_param(arg),
            ) {
                Some(params) => sig::named_type(params, arg),
                None => None,
            },
            None => None,
        },
        None => None,
    };
    either(
        in_file,
        match (f.fun_params)(name, uri) {
            Some(params) => sig::named_type(params, arg),
            None => None,
        },
    )
}

fn type_in_file<D: InferDeps>(name: &str, file: &str, arg: &str, deps: &D) -> (r: Option<String>)
    requires
        deps.ready(),
    ensures
        r.deep_view() == match lists::find_where(
            (deps.facts().params_in_file)(name@, file@),
            types_param(arg@),
        ) {
            Some(params) => sig::named_type(params, arg@),
            None => None,
        },
{
    let lists_found = deps.collect_all_fun_params_texts(name, file);
    let ghost all = lists_found.deep_view();
    let ghost p = types_param(arg@);
    let mut i: usize = 0;
    while i < lists_found.len()
        invariant
            i <= lists_found@.len(),
            all == lists_found.deep_view(),
            all == (deps.facts().params_in_file)(name@, file@),
            p == types_param(arg@),
            forall|k: int| 0 <= k < i ==> !p(#[trigger] all[k]),
        decreases lists_found@.len() - i,
    {
        assert(all[i as int] == lists_found@[i as int]@);
        let found = sig::find_named_param_type_in_sig(lists_found[i].as_str(), arg);
        if found.is_some() {
            proof {
                lists::lemma_first(all, p, i as int);
            }
            return found;
        }
        i += 1;
    }
    proof {
        lists::lemma_no_first(all, p);
    }
    None
}

fn type_of_argument<D: InferDeps>(callee: &str, arg: &str, deps: &D, uri: &str) -> (r: Option<
    String,
>)
    requires
        deps.ready(),
    ensures
        r.deep_view() == argument_type(deps.facts(), callee@, arg@, uri@),
{
    let name = text::last_segment(callee);
    if let Some(dot) = text::rfind_char(callee, '.') {
        if let Some(file) = deps.find_symbol_file(text::take(callee, dot), uri) {
            let found = type_in_file(name, file.as_str(), arg, deps);
            if found.is_some() {
                return found;
            }
        }
    }
    match deps.find_fun_params_text(name, uri) {
        Some(params) => sig::find_named_param_type_in_sig(params.as_str(), arg),
        None => None,
    }
}

/// The type of the input at `place` of a lambda that is given as a named argument, where the
/// call may begin on an earlier line.
pub open spec fn named_argument_input(
    f: Facts,
    before_brace: Seq<char>,
    place: int,
    lines: Seq<Seq<char>>,
    line_no: int,
    uri: Seq<char>,
) -> Option<Seq<char>> {
    match sig::arg_name(before_brace) {
        Some(arg) => match scope::call_name(lines, line_no, before_brace.len() as int) {
            Some(callee) => match argument_type(f, callee, arg, uri) {
                Some(t) => lambda_types::nth_input(t, place),
                None => None,
            },
            None => None,
        },
        None => None,
    }
}

/// The type of the input at `lambda_param_pos` of a lambda that is given as a named argument,
/// where the call may begin on an earlier line.
pub fn lambda_receiver_type_named_arg_ml<D: InferDeps>(
    before_brace: &str,
    lambda_param_pos: usize,
    lines: &Vec<String>,
    line_no: usize,
    deps: &D,
    uri: &str,
) -> (r: Option<String>)
    requires
        deps.ready(),
        line_no < lines@.len(),
        before_brace@.len() <= lines@[line_no as int]@.len(),
    ensures
        r.deep_view() == named_argument_input(
            deps.facts(),
            before_brace@,
            lambda_param_pos as int,
            lines.deep_view(),
            line_no as int,
            uri@,
        ),
{
    let arg = match sig::extract_named_arg_name(before_brace) {
        Some(arg) => arg,
        None => {
            return None;
        },
    };
    let n: usize = before_brace.unicode_len();
    let callee = match scope::find_enclosing_call_name(lines, line_no, n) {
        Some(callee) => callee,
        None => {
            return None;
        },
    };
    match type_of_argument(callee.as_str(), arg, deps, uri) {
        Some(t) => lambda_types::lambda_type_nth_input(t.as_str(), lambda_param_pos),
        None => None,
    }
}

/// The qualifier of the call round a named argument, where no file is known to declare it: it
/// is worth being looked for.
pub fn unknown_outer_of_named_arg<D: InferDeps>(
    before_brace: &str,
    lines: &Vec<String>,
    line_no: usize,
    deps: &D,
    uri: &str,
) -> (r: Option<String>)
    requires
        deps.ready(),
        line_no < lines@.len(),
        before_brace@.len() <= lines@[line_no as int]@.len(),
    ensures
        r.deep_view() == match (
            sig::arg_name(before_brace@),
            scope::call_name(lines.deep_view(), line_no as int, before_brace@.len() as int),
        ) {
            (Some(arg), Some(callee)) => match text::rindex_of(callee, '.') {
                Some(dot) => if (deps.facts().symbol_file)(callee.take(dot), uri@) is None {
                    Some(callee.take(dot))
                } else {
                    None
                },
                None => None,
            },
            _ => None,
        },
{
    if sig::extract_named_arg_name(before_brace).is_none() {
        return None;
    }
    let n: usize = before_brace.unicode_len();
    let callee = match scope::find_enclosing_call_name(lines, line_no, n) {
        Some(callee) => callee,
        None => {
            return None;
        },
    };
    match text::rfind_char(callee.as_str(), '.') {
        Some(dot) => {
            let outer = text::take(callee.as_str(), dot);
            if deps.find_symbol_file(outer, uri).is_none() {
                Some(outer.to_owned())
            } else {
                None
            }
        },
        None => None,
    }
}

} // verus!
