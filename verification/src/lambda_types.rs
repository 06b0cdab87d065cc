//! Function types, as parameters that take lambdas have them.
use vstd::prelude::*;
use vstd::string::*;

use crate::brackets;
use crate::sig;
use crate::text;
use crate::text::CharClass;

verus! {

/// Whether a function passes its receiver to its lambda as `this`.
pub open spec fn receiver_this(name: Seq<char>) -> bool {
    name == "run"@ || name == "apply"@
}

/// Whether a function passes its receiver to its lambda as `this`.
pub fn is_receiver_this_fn(name: &str) -> (r: bool)
    ensures
        r == receiver_this(name@),
{
    text::same(name, "run") || text::same(name, "apply")
}

/// Whether a function hands its receiver itself to its lambda.
pub open spec fn scope_function(name: Seq<char>) -> bool {
    name == "let"@ || name == "also"@ || name == "run"@ || name == "apply"@ || name == "with"@
        || name == "takeIf"@ || name == "takeUnless"@
}

/// Whether a function hands its receiver itself to its lambda.
pub fn is_scope_function(name: &str) -> (r: bool)
    ensures
        r == scope_function(name@),
{
    text::same(name, "let") || text::same(name, "also") || text::same(name, "run") || text::same(
        name,
        "apply",
    ) || text::same(name, "with") || text::same(name, "takeIf") || text::same(name, "takeUnless")
}

/// A function type: the receiver's type, if it has one, and the list of its inputs.
#[verifier::ext_equal]
pub struct FunTypeView {
    pub receiver: Seq<char>,
    pub inputs: Seq<char>,
}

/// A type without the `suspend` before it.
pub open spec fn not_suspended(t: Seq<char>) -> Seq<char> {
    match text::prefix_stripped(text::trimmed(t), "suspend "@) {
        Some(rest) => text::trimmed(rest),
        None => text::trimmed(t),
    }
}

/// A type in parentheses, nullable or not, without these and its question mark.
pub open spec fn not_enclosed(t: Seq<char>) -> Seq<char> {
    match brackets::close_after(t, 1, 0) {
        Some(j) => if t[0] == '(' && (j == t.len() - 1 || j == t.len() - 2 && t.last() == '?') {
            t.subrange(1, j)
        } else {
            t
        },
        None => t,
    }
}

/// What a type says as a function type: the parentheses that its first arrow follows hold the
/// inputs, and what ends in a dot before them is the receiver.
pub open spec fn fun_type(t: Seq<char>) -> Option<FunTypeView> {
    let u = not_suspended(not_enclosed(not_suspended(t)));
    match text::index_of(u, '(') {
        Some(i) => match brackets::close_after(u, i + 1, 0) {
            Some(j) => {
                let before = text::trimmed(u.take(i));
                if !text::starts_with(text::trimmed_start(u.skip(j + 1)), "->"@) {
                    None
                } else if before.len() == 0 {
                    Some(FunTypeView { receiver: Seq::empty(), inputs: u.subrange(i + 1, j) })
                } else if before.last() == '.' {
                    Some(
                        FunTypeView {
                            receiver: text::trimmed(before.drop_last()),
                            inputs: u.subrange(i + 1, j),
                        },
                    )
                } else {
                    None
                }
            },
            None => None,
        },
        None => None,
    }
}

fn without_suspend<'a>(t: &'a str) -> (r: &'a str)
    ensures
        r@ == not_suspended(t@),
{
    let u = text::trim(t);
    match text::strip_prefix(u, "suspend ") {
        Some(rest) => text::trim(rest),
        None => u,
    }
}

fn without_parens<'a>(t: &'a str) -> (r: &'a str)
    ensures
        r@ == not_enclosed(t@),
{
    let n: usize = t.unicode_len();
    if n == 0 {
        return t;
    }
    match brackets::closing_paren(t, 1) {
        Some(j) => if t.get_char(0) == '(' && (j == n - 1 || j == n - 2 && t.get_char(n - 1)
            == '?') {
            text::slice(t, 1, j)
        } else {
            t
        },
        None => t,
    }
}

/// The receiver's type and the inputs of a function type.
fn parse_fun_type<'a>(t: &'a str) -> (r: Option<(&'a str, &'a str)>)
    ensures
        match r {
            Some(p) => fun_type(t@) == Some(FunTypeView { receiver: p.0@, inputs: p.1@ }),
            None => fun_type(t@) is None,
        },
{
    let u = without_suspend(without_parens(without_suspend(t)));
    let n: usize = u.unicode_len();
    let i: usize = match text::find_char(u, '(') {
        Some(i) => i,
        None => {
            return None;
        },
    };
    let j: usize = match brackets::closing_paren(u, i + 1) {
        Some(j) => j,
        None => {
            return None;
        },
    };
    if !text::has_prefix(text::trim_start(text::skip(u, j + 1)), "->") {
        return None;
    }
    let before = text::trim(text::take(u, i));
    let inputs = text::slice(u, i + 1, j);
    let b: usize = before.unicode_len();
    if b == 0 {
        assert(before@ =~= Seq::empty());
        Some((before, inputs))
    } else if before.get_char(b - 1) == '.' {
        let head = text::take(before, b - 1);
        assert(head@ =~= before@.drop_last());
        Some((text::trim(head), inputs))
    } else {
        None
    }
}

/// The name of a type: the dotted name that it begins with.
pub open spec fn type_base(t: Seq<char>) -> Option<Seq<char>> {
    let base = text::without_suffix_of(text::dotted_ident_of(text::trimmed(t)), text::only('.'));
    if base.len() > 0 {
        Some(base)
    } else {
        None
    }
}

pub(crate) fn base_of_type(t: &str) -> (r: Option<String>)
    ensures
        r.deep_view() == type_base(t@),
{
    let base = text::trim_end_class(
        text::dotted_ident_prefix(text::trim(t)),
        CharClass::Only('.'),
    );
    if base.is_empty() {
        None
    } else {
        Some(base.to_owned())
    }
}

/// The type of an input, without the name that it may bear.
pub open spec fn input_type(input: Seq<char>) -> Seq<char> {
    match sig::param_type(input) {
        Some(t) => t,
        None => input,
    }
}

/// The name of the type of a function type's input at `n`.
pub open spec fn nth_input(t: Seq<char>, n: int) -> Option<Seq<char>> {
    match fun_type(t) {
        Some(f) => {
            let inputs = sig::params_in(f.inputs);
            if 0 <= n < inputs.len() {
                type_base(input_type(inputs[n]))
            } else {
                None
            }
        },
        None => None,
    }
}

/// The name of the type of a function type's input at `n`.
pub fn lambda_type_nth_input(t: &str, n: usize) -> (r: Option<String>)
    ensures
        r.deep_view() == nth_input(t@, n as int),
{
    match parse_fun_type(t) {
        Some(p) => {
            let inputs = sig::params_of(p.1);
            let ghost all = inputs.deep_view();
            if n < inputs.len() {
                let input = inputs[n];
                assert(all[n as int] == input@);
                match sig::type_of_param(input) {
                    Some(typed) => base_of_type(typed.as_str()),
                    None => base_of_type(input),
                }
            } else {
                None
            }
        },
        None => None,
    }
}

/// The name of the type of a function type's first input.
pub fn lambda_type_first_input(t: &str) -> (r: Option<String>)
    ensures
        r.deep_view() == nth_input(t@, 0),
{
    lambda_type_nth_input(t, 0)
}

/// The name of the receiver's type of a function type.
pub open spec fn receiver_type(t: Seq<char>) -> Option<Seq<char>> {
    match fun_type(t) {
        Some(f) => type_base(f.receiver),
        None => None,
    }
}

/// The name of the receiver's type of a function type.
pub fn lambda_type_receiver(t: &str) -> (r: Option<String>)
    ensures
        r.deep_view() == receiver_type(t@),
{
    match parse_fun_type(t) {
        Some(p) => base_of_type(p.0),
        None => None,
    }
}

} // verus!
