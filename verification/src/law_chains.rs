//! What the parameter of a lambda is whose method is called on a field or on what a call returns.
use vstd::prelude::*;
use vstd::string::*;

use crate::brackets;
use crate::deps::Facts;
use crate::law_calls;
use crate::law_hovers;
use crate::law_inputs;
use crate::law_lambdas;
use crate::law_lambdas::FunParam;
use crate::law_members;
use crate::law_receivers;
use crate::law_sigs;
use crate::law_texts;
use crate::law_types;
use crate::receiver;
use crate::sig;
use crate::text;
use crate::type_subst;
use crate::types::Position;
use crate::unicode;

verus! {

/// What a method called on a value of a type hands its lambda: the element of a collection; what
/// the last parameter of the method says, where it is known; else the value itself.
pub proof fn law_input_by_the_type(
    f: Facts,
    method: Seq<char>,
    class: Seq<char>,
    items: Seq<Seq<char>>,
    after: Seq<char>,
    a: Seq<char>,
    element: Seq<char>,
    b: Seq<char>,
    t: Seq<char>,
    rest: Seq<char>,
    params: Seq<Seq<char>>,
    p: FunParam,
    inputs: Seq<Seq<char>>,
    input: Seq<char>,
    uri: Seq<char>,
)
    requires
        law_texts::is_name(method),
    ensures
        law_members::is_applied(class, items, after) && law_calls::is_collection(class) && items[0]
            == a + element + b && law_texts::blank(a) && law_texts::is_name(element) && (b.len() > 0
            ==> !text::id_char(b[0]) && b[0] != '.') ==> receiver::receiver_input(
            f,
            law_members::applied(class, items, after),
            method,
            uri,
        ) == Some(element),
        law_calls::is_single(t, class, rest) && unicode::uppercase(class[0])
            && !law_inputs::looks_generic(class) && (f.method_params)(class, method) is None && (
        f.fun_params)(method, uri) is None ==> receiver::receiver_input(f, t, method, uri) == Some(
            class,
        ),
        law_calls::is_single(t, class, rest) && ((f.method_params)(class, method) == Some(
            law_sigs::listed(params),
        ) || ((f.method_params)(class, method) is None && (f.fun_params)(method, uri) == Some(
            law_sigs::listed(params),
        ))) && params.len() > 0 && law_sigs::all_items(params) && (forall|i: int|
            0 <= i < params.len() ==> law_sigs::has_ink(#[trigger] params[i])) && params.last()
            == law_lambdas::param_text(p) && law_lambdas::is_fun_param(p) && law_inputs::input_is(
            p,
            inputs,
            0,
            input,
        ) && !law_inputs::looks_generic(input) ==> receiver::receiver_input(f, t, method, uri)
            == Some(input),
{
    law_texts::lemma_name_is_tight(method);
    if law_members::is_applied(class, items, after) && law_calls::is_collection(class) && items[0]
        == a + element + b && law_texts::blank(a) && law_texts::is_name(element) && (b.len() > 0
        ==> !text::id_char(b[0]) && b[0] != '.') {
        law_calls::law_element_of_a_collection(class, items, a, element, b, after);
    }
    if law_calls::is_single(t, class, rest) {
        law_calls::lemma_single(t, class, rest);
        if unicode::uppercase(class[0]) && !law_inputs::looks_generic(class) {
            law_receivers::lemma_class_name(class, rest);
        }
        if params.len() > 0 && law_sigs::all_items(params) && (forall|i: int|
            0 <= i < params.len() ==> law_sigs::has_ink(#[trigger] params[i])) && params.last()
            == law_lambdas::param_text(p) && law_lambdas::is_fun_param(p) && law_inputs::input_is(
            p,
            inputs,
            0,
            input,
        ) {
            law_lambdas::lemma_fun_param(p);
            law_sigs::law_lists_are_parted(params);
            law_inputs::lemma_input(p, inputs, 0, input);
        }
    }
}

/// Whether a variable has no type where the lambda stands.
pub open spec fn is_untyped(
    f: Facts,
    name: Seq<char>,
    uri: Seq<char>,
    position: Option<Position>,
) -> bool {
    &&& (f.var_type)(name, uri) is None
    &&& position matches Some(p) ==> (f.var_type_at)(name, uri, p) is None
}

/// In the lambda of a method that is called on a field of a variable the parameter goes by the type
/// that the variable's class gives the field.
#[verifier::rlimit(60)]
pub proof fn law_lambda_on_a_field(
    f: Facts,
    indent: Seq<char>,
    lead: Seq<char>,
    variable: Seq<char>,
    field: Seq<char>,
    method: Seq<char>,
    args: Seq<char>,
    space: Seq<char>,
    class: Seq<char>,
    rest: Seq<char>,
    raw: Seq<char>,
    uri: Seq<char>,
    position: Option<Position>,
)
    requires
        law_texts::blank(indent),
        law_calls::is_lead(lead),
        law_texts::is_name(variable),
        law_texts::is_name(field),
        law_texts::is_name(method),
        law_calls::is_args(args),
        law_texts::blank(space),
        is_untyped(f, field, uri, position),
        law_calls::is_typed(f, variable, class + rest, uri, position),
        law_texts::is_name(class),
        rest.len() > 0 ==> !text::id_char(rest[0]) && rest[0] != '.',
        (f.field_type)(class, field, uri) == Some(raw),
        receiver::receiver_input(f, raw, method, uri) is Some,
    ensures
        receiver::context_input(
            f,
            law_calls::line_of(
                indent,
                law_calls::on(lead + variable + seq!['.'], field, method),
                args,
                space,
            ),
            uri,
            position,
        ) == receiver::receiver_input(f, raw, method, uri),
{
    let front = lead + variable + seq!['.'];
    lemma_lead(lead, variable);
    let expr = front + field;
    law_texts::lemma_name_is_tight(field);
    law_texts::lemma_name_is_tight(variable);
    law_texts::lemma_name_is_tight(class);
    assert(receiver::by_variable(f, field, method, uri, position) is None);
    let head = lead + variable;
    assert(expr =~= head + seq!['.'] + field);
    law_texts::law_character_is_found(head, '.', field);
    assert(expr.take(head.len() as int) =~= head);
    assert(expr.skip(head.len() as int + 1) =~= field);
    law_texts::law_names_at_the_ends(variable, lead);
    law_texts::law_names_at_the_ends(class, rest);
    law_texts::law_last_segment(Seq::empty(), class);
    assert(receiver::outer_field(expr) == Some((variable, field)));
    assert(receiver::by_field(f, expr, method, uri, position) == receiver::receiver_input(
        f,
        raw,
        method,
        uri,
    ));
    lemma_context(f, indent, front, field, method, args, space, uri, position);
}

proof fn lemma_lead(lead: Seq<char>, variable: Seq<char>)
    requires
        law_calls::is_lead(lead),
        law_texts::is_name(variable),
    ensures
        law_calls::is_lead(lead + variable + seq!['.']),
{
    let front = lead + variable + seq!['.'];
    law_texts::lemma_name_is_tight(variable);
    assert forall|i: int| 0 <= i < front.len() implies #[trigger] front[i] != '(' && front[i] != '['
        && front[i] != '{' && front[i] != ')' && front[i] != ']' && front[i] != '}' && front[i]
        != '?' by {
        if i < lead.len() {
            assert(front[i] == lead[i]);
        } else if i < lead.len() + variable.len() {
            assert(front[i] == variable[i - lead.len()]);
            assert(text::id_char(variable[i - lead.len()]));
        }
    }
    assert(front.last() == '.');
    if lead.len() > 0 {
        assert(front[0] == lead[0]);
    } else {
        assert(front[0] == variable[0]);
    }
}

/// What the text says goes by the receiver, where that says something.
#[verifier::rlimit(60)]
proof fn lemma_context(
    f: Facts,
    indent: Seq<char>,
    lead: Seq<char>,
    variable: Seq<char>,
    method: Seq<char>,
    args: Seq<char>,
    space: Seq<char>,
    uri: Seq<char>,
    position: Option<Position>,
)
    requires
        law_texts::blank(indent),
        law_calls::is_lead(lead),
        law_texts::is_name(variable),
        law_texts::is_name(method),
        law_calls::is_args(args),
        law_texts::blank(space),
        receiver::by_receiver(f, variable, lead + variable, method, uri, position) is Some,
    ensures
        receiver::context_input(
            f,
            law_calls::line_of(indent, law_calls::on(lead, variable, method), args, space),
            uri,
            position,
        ) == receiver::by_receiver(f, variable, lead + variable, method, uri, position),
{
    let call = law_calls::on(lead, variable, method);
    law_calls::lemma_on(lead, variable, method);
    law_calls::lemma_callee(indent, call, args, space);
    law_texts::lemma_name_is_tight(variable);
    let head = indent + call;
    assert forall|i: int| 0 <= i < head.len() implies #[trigger] head[i] != '(' && head[i]
        != ')' by {
        if i < indent.len() {
            assert(unicode::whitespace(indent[i]));
        } else {
            assert(head[i] == call[i - indent.len()]);
            law_calls::lemma_on_plain(lead, variable, method, i - indent.len());
        }
    }
    law_calls::lemma_not_inside(head, args);
    assert(receiver::dot_call_input(f, call, uri, position) == receiver::by_receiver(
        f,
        variable,
        lead + variable,
        method,
        uri,
        position,
    ));
}

/// Whether a text may stand between the parentheses of a call: it holds no brackets, no dot and no
/// question mark.
pub open spec fn is_inner(inner: Seq<char>) -> bool {
    forall|i: int|
        0 <= i < inner.len() ==> #[trigger] inner[i] != '(' && inner[i] != '[' && inner[i] != '{'
            && inner[i] != ')' && inner[i] != ']' && inner[i] != '}' && inner[i] != '.' && inner[i]
            != '?'
}

/// A call of a method on what a function returns.
pub open spec fn on_call(
    lead: Seq<char>,
    name: Seq<char>,
    inner: Seq<char>,
    method: Seq<char>,
) -> Seq<char> {
    lead + name + seq!['('] + inner + seq![')'] + seq!['.'] + method
}

proof fn lemma_level_depth(s: Seq<char>, from: int, n: int, d: nat)
    requires
        0 <= from <= n <= s.len(),
        brackets::depth(s, false, from) == d,
        forall|i: int|
            from <= i < n ==> #[trigger] s[i] != '(' && s[i] != '[' && s[i] != '{' && s[i] != ')'
                && s[i] != ']' && s[i] != '}',
    ensures
        brackets::depth(s, false, n) == d,
    decreases n - from,
{
    if from < n {
        lemma_level_depth(s, from, n - 1, d);
        assert(s[n - 1] != '(');
    }
}

/// The pieces of a method call on what a function returns are found.
#[verifier::rlimit(60)]
proof fn lemma_on_call(lead: Seq<char>, name: Seq<char>, inner: Seq<char>, method: Seq<char>)
    requires
        law_calls::is_lead(lead),
        law_texts::is_name(name),
        is_inner(inner),
        law_texts::is_name(method),
    ensures
        ({
            let s = on_call(lead, name, inner, method);
            let n = s.len() - method.len() - 1;
            &&& brackets::top_dot(s) == Some(n)
            &&& s.take(n) == lead + name + seq!['('] + inner + seq![')']
            &&& text::ident_of(text::trimmed_start(s.skip(n + 1))) == method
            &&& law_texts::lacks(s, '?')
            &&& !unicode::whitespace(s[0])
            &&& text::id_char(s.last())
            &&& !unicode::whitespace(s.last())
        }),
{
    let s = on_call(lead, name, inner, method);
    let head = lead + name;
    let a = head.len() as int;
    let c = a + 1 + inner.len();
    let n = c + 1;
    law_texts::lemma_name_is_tight(name);
    law_texts::lemma_name_is_tight(method);
    assert(n == s.len() - method.len() - 1);
    assert forall|i: int| 0 <= i < a implies #[trigger] s[i] != '(' && s[i] != '[' && s[i] != '{'
        && s[i] != ')' && s[i] != ']' && s[i] != '}' && s[i] != '?' by {
        if i < lead.len() {
            assert(s[i] == lead[i]);
        } else {
            assert(s[i] == name[i - lead.len()]);
            assert(text::id_char(name[i - lead.len()]));
        }
    }
    assert(s[a] == '(');
    assert(s[c] == ')');
    assert(s[n] == '.');
    assert forall|i: int| a + 1 <= i < c implies #[trigger] s[i] != '(' && s[i] != '[' && s[i] != '{'
        && s[i] != ')' && s[i] != ']' && s[i] != '}' && s[i] != '?' by {
        assert(s[i] == inner[i - a - 1]);
    }
    law_calls::lemma_no_depth(s, a, a);
    assert(brackets::depth(s, false, a + 1) == 1);
    lemma_level_depth(s, a + 1, c, 1);
    assert(brackets::depth(s, false, n) == 0);
    assert forall|i: int| n + 1 <= i < s.len() implies #[trigger] s[i] != '.' && s[i] != '?' by {
        assert(s[i] == method[i - n - 1]);
        assert(text::id_char(method[i - n - 1]));
    }
    law_calls::lemma_no_dot(s, n + 1, s.len() as int);
    assert(s.take(n) =~= head + seq!['('] + inner + seq![')']);
    assert(s.skip(n + 1) =~= method);
    law_texts::lemma_start_blank(Seq::empty(), method);
    assert(Seq::<char>::empty() + method =~= method);
    law_texts::law_names_at_the_ends(method, Seq::empty());
    assert(method + Seq::<char>::empty() =~= method);
    assert(s.last() == method[method.len() - 1]);
    assert(text::id_char(method[method.len() - 1]));
    if lead.len() > 0 {
        assert(s[0] == lead[0]);
    } else {
        assert(s[0] == name[0]);
    }
}

/// Of what a function returns only its name is known.
#[verifier::rlimit(60)]
proof fn lemma_returned(
    f: Facts,
    lead: Seq<char>,
    name: Seq<char>,
    inner: Seq<char>,
    method: Seq<char>,
    uri: Seq<char>,
    position: Option<Position>,
)
    requires
        law_calls::is_lead(lead),
        law_texts::lacks(lead, '.'),
        law_texts::is_name(name),
        is_inner(inner),
        is_untyped(f, name, uri, position),
    ensures
        ({
            let expr = lead + name + seq!['('] + inner + seq![')'];
            &&& text::trimmed_end(expr) == expr
            &&& text::last_ident_of(sig::without_args(expr)) == name
            &&& name.len() > 0
            &&& receiver::by_receiver(f, name, expr, method, uri, position) == receiver::by_return(
                f,
                name,
                method,
                uri,
            )
        }),
{
    let head = lead + name;
    let expr = head + seq!['('] + inner + seq![')'];
    let a = head.len() as int;
    law_calls::lemma_plain(lead, name);
    assert(expr.last() == ')');
    law_texts::lemma_end_blank(expr, Seq::empty());
    assert(expr + Seq::<char>::empty() =~= expr);
    assert(expr[a] == '(');
    assert forall|j: int| a < j < expr.len() - 1 implies #[trigger] expr[j] != '(' && expr[j]
        != ')' by {
        assert(expr[j] == inner[j - a - 1]);
    }
    let k = law_calls::lemma_open(expr, a, expr.len() - 1, 0);
    assert(expr.take(a) =~= head);
    assert(sig::without_args(expr) == head);
    law_texts::lemma_name_is_tight(name);
    assert forall|j: int| 0 <= j < expr.len() implies #[trigger] expr[j] != '.' by {
        if j < lead.len() {
            assert(expr[j] == lead[j]);
        } else if j < a {
            assert(expr[j] == name[j - lead.len()]);
        } else if a < j < expr.len() - 1 {
            assert(expr[j] == inner[j - a - 1]);
        }
    }
    law_texts::law_character_is_found(expr, '.', Seq::empty());
    assert(receiver::outer_field(expr) is None);
    assert(receiver::by_variable(f, name, method, uri, position) is None);
    assert(receiver::by_chain(f, expr, method, uri, position) is None);
}

proof fn lemma_balanced(head: Seq<char>, inner: Seq<char>, tail: Seq<char>, args: Seq<char>)
    requires
        law_texts::lacks(head, '('),
        law_texts::lacks(head, ')'),
        law_texts::lacks(inner, '('),
        law_texts::lacks(inner, ')'),
        law_texts::lacks(tail, '('),
        law_texts::lacks(tail, ')'),
        law_calls::is_args(args),
    ensures
        ({
            let s = head + (seq!['('] + inner + seq![')']) + (tail + args);
            brackets::occurrences(s, '(') == brackets::occurrences(s, ')')
        }),
{
    let mid = seq!['('] + inner + seq![')'];
    let s = head + mid + (tail + args);
    assert(law_calls::is_args(mid));
    law_calls::lemma_not_inside(head, mid);
    law_calls::lemma_not_inside(tail, args);
    law_hovers::lemma_count(s, '(');
    law_hovers::lemma_count(s, ')');
    law_hovers::lemma_count(head + mid, '(');
    law_hovers::lemma_count(head + mid, ')');
    law_hovers::lemma_count(tail + args, '(');
    law_hovers::lemma_count(tail + args, ')');
    law_calls::lemma_count_add(head + mid, tail + args, '(');
    law_calls::lemma_count_add(head + mid, tail + args, ')');
}

/// In the lambda of a method that is called on what a function returns the parameter goes by the
/// returned type.
#[verifier::rlimit(60)]
pub proof fn law_lambda_on_a_call(
    f: Facts,
    indent: Seq<char>,
    lead: Seq<char>,
    name: Seq<char>,
    inner: Seq<char>,
    method: Seq<char>,
    args: Seq<char>,
    space: Seq<char>,
    raw: Seq<char>,
    uri: Seq<char>,
    position: Option<Position>,
)
    requires
        law_texts::blank(indent),
        law_calls::is_lead(lead),
        law_texts::lacks(lead, '.'),
        law_texts::is_name(name),
        is_inner(inner),
        law_texts::is_name(method),
        law_calls::is_args(args),
        law_texts::blank(space),
        is_untyped(f, name, uri, position),
        (f.fun_return)(name) == Some(raw),
        receiver::receiver_input(f, raw, method, uri) is Some,
    ensures
        receiver::context_input(
            f,
            law_calls::line_of(indent, on_call(lead, name, inner, method), args, space),
            uri,
            position,
        ) == receiver::receiver_input(f, raw, method, uri),
{
    let call = on_call(lead, name, inner, method);
    lemma_on_call(lead, name, inner, method);
    lemma_returned(f, lead, name, inner, method, uri, position);
    law_calls::lemma_callee(indent, call, args, space);
    let head = indent + (lead + name);
    let tail = seq!['.'] + method;
    law_calls::lemma_plain(lead, name);
    law_texts::lemma_name_is_tight(method);
    assert forall|i: int| 0 <= i < head.len() implies #[trigger] head[i] != '(' && head[i]
        != ')' by {
        if i < indent.len() {
            assert(unicode::whitespace(indent[i]));
        } else {
            assert(head[i] == (lead + name)[i - indent.len()]);
        }
    }
    assert forall|i: int| 0 <= i < tail.len() implies #[trigger] tail[i] != '(' && tail[i]
        != ')' by {
        if i > 0 {
            assert(tail[i] == method[i - 1]);
        }
    }
    lemma_balanced(head, inner, tail, args);
    assert(indent + call + args =~= head + (seq!['('] + inner + seq![')']) + (tail + args));
    assert(receiver::dot_call_input(f, call, uri, position) == receiver::receiver_input(
        f,
        raw,
        method,
        uri,
    ));
}

/// Whether a function hands its lambda what it is called on.
pub open spec fn hands_on(name: Seq<char>) -> bool {
    ||| name == "let"@ || name == "also"@ || name == "run"@ || name == "apply"@
    ||| name == "with"@ || name == "takeIf"@ || name == "takeUnless"@
}

/// Where the signature of a method gives its lambda a type parameter, a scope function hands on
/// what it is called on, and another method the only argument of the type that it is called on.
#[verifier::rlimit(60)]
pub proof fn law_generic_input(
    f: Facts,
    method: Seq<char>,
    class: Seq<char>,
    item: Seq<char>,
    after: Seq<char>,
    params: Seq<Seq<char>>,
    p: FunParam,
    inputs: Seq<Seq<char>>,
    input: Seq<char>,
    a: Seq<char>,
    t: Seq<char>,
    b: Seq<char>,
    uri: Seq<char>,
)
    requires
        law_texts::is_name(method),
        law_members::is_applied(class, seq![item], after),
        !law_calls::is_collection(class),
        item == a + t + b,
        law_texts::blank(a),
        law_texts::blank(b),
        t.len() > 0,
        law_texts::tight(t),
        unicode::uppercase(class[0]),
        !law_inputs::looks_generic(class),
        (f.method_params)(class, method) == Some(law_sigs::listed(params)),
        params.len() > 0,
        law_sigs::all_items(params),
        forall|i: int| 0 <= i < params.len() ==> law_sigs::has_ink(#[trigger] params[i]),
        params.last() == law_lambdas::param_text(p),
        law_lambdas::is_fun_param(p),
        law_inputs::input_is(p, inputs, 0, input),
        law_inputs::looks_generic(input),
    ensures
        receiver::receiver_input(f, law_members::applied(class, seq![item], after), method, uri)
            == Some(
            if hands_on(method) {
                class
            } else {
                t
            },
        ),
{
    let items = seq![item];
    let whole = law_members::applied(class, items, after);
    let rest = seq!['<'] + law_sigs::listed(items) + seq!['>'] + after;
    assert(whole =~= class + rest);
    assert(law_calls::is_single(whole, class, rest));
    law_calls::lemma_single(whole, class, rest);
    law_receivers::lemma_class_name(class, rest);
    law_texts::lemma_name_is_tight(method);
    law_members::lemma_applied(class, items, after);
    law_lambdas::lemma_fun_param(p);
    law_sigs::law_lists_are_parted(params);
    law_inputs::lemma_input(p, inputs, 0, input);
    law_members::law_type_parameters_by_their_look(input);
    assert(receiver::method_input(f, whole, method, uri) == Some(input));
    law_texts::law_trimming(a, t, b);
    assert(type_subst::type_args(whole)[0] == text::trimmed(items[0]));
    lemma_one_argument(class, item, after);
}

proof fn lemma_one_argument(class: Seq<char>, item: Seq<char>, after: Seq<char>)
    requires
        law_members::is_applied(class, seq![item], after),
    ensures
        receiver::one_type_arg(law_members::applied(class, seq![item], after)),
{
    let items = seq![item];
    let inner = law_sigs::listed(items);
    let whole = law_members::applied(class, items, after);
    law_texts::lemma_name_is_tight(class);
    assert forall|i: int| 0 <= i < class.len() implies #[trigger] class[i] != '<' by {
        assert(text::id_char(class[i]));
    }
    assert(whole =~= class + seq!['<'] + (inner + seq!['>'] + after));
    law_texts::law_character_is_found(class, '<', inner + seq!['>'] + after);
    let head = class + seq!['<'] + inner;
    assert(whole =~= head + seq!['>'] + after);
    law_texts::law_character_is_found(head, '>', after);
    assert(whole.subrange(class.len() as int + 1, head.len() as int) =~= inner);
    law_sigs::lemma_listed(items);
}

/// What a method call on a variable yields is the type that the method is known to return.
#[verifier::rlimit(60)]
proof fn lemma_yielded(
    f: Facts,
    class: Seq<char>,
    rest: Seq<char>,
    method: Seq<char>,
    t: Seq<char>,
)
    requires
        law_texts::is_name(class),
        rest.len() > 0 ==> !text::id_char(rest[0]) && rest[0] != '.',
        (f.method_return)(class, method) == Some(t),
        law_texts::is_name(t),
        !law_inputs::looks_generic(t),
        forall|j: int|
            0 <= j < (f.class_params)(class).len() ==> #[trigger] (f.class_params)(class)[j] != t,
    ensures
        type_subst::class_base(class + rest) == class,
        class.len() > 0,
        receiver::yielded(f, class + rest, method) == Some(t),
{
    let raw = class + rest;
    law_texts::lemma_name_is_tight(class);
    law_texts::lemma_name_is_tight(t);
    law_texts::law_names_at_the_ends(class, rest);
    law_texts::law_last_segment(Seq::empty(), class);
    let subst = type_subst::arg_subst(f, class, raw);
    assert forall|j: int| 0 <= j < subst.len() implies (#[trigger] subst[j]).0 != t by {
        assert(subst[j].0 == (f.class_params)(class)[j]);
    }
    law_types::law_substitution_of_names(t, t, subst);
    assert(text::id_char(t[t.len() - 1]));
    text::lemma_rspan_unique(t, text::only('?'), 0);
    assert(t.take(t.len() as int) =~= t);
    law_texts::law_names_at_the_ends(t, Seq::empty());
    assert(t + Seq::<char>::empty() =~= t);
    text::lemma_rspan_unique(t, text::only('.'), 0);
    law_members::law_type_parameters_by_their_look(t);
}

#[verifier::rlimit(60)]
proof fn lemma_chained(
    f: Facts,
    variable: Seq<char>,
    name: Seq<char>,
    inner: Seq<char>,
    method: Seq<char>,
    class: Seq<char>,
    rest: Seq<char>,
    t: Seq<char>,
    uri: Seq<char>,
    position: Option<Position>,
)
    requires
        law_texts::is_name(variable),
        law_texts::is_name(name),
        is_inner(inner),
        is_untyped(f, name, uri, position),
        law_calls::is_typed(f, variable, class + rest, uri, position),
        law_texts::is_name(class),
        rest.len() > 0 ==> !text::id_char(rest[0]) && rest[0] != '.',
        (f.field_type)(class, name + seq!['('] + inner + seq![')'], uri) is None,
        (f.method_return)(class, name) == Some(t),
        law_texts::is_name(t),
        unicode::uppercase(t[0]),
        !law_inputs::looks_generic(t),
        forall|j: int|
            0 <= j < (f.class_params)(class).len() ==> #[trigger] (f.class_params)(class)[j] != t,
    ensures
        ({
            let expr = variable + seq!['.'] + name + seq!['('] + inner + seq![')'];
            &&& text::trimmed_end(expr) == expr
            &&& text::last_ident_of(sig::without_args(expr)) == name
            &&& name.len() > 0
            &&& receiver::by_receiver(f, name, expr, method, uri, position) == Some(t)
        }),
{
    let none = Seq::<char>::empty();
    let head = variable + seq!['.'] + name;
    let expr = head + seq!['('] + inner + seq![')'];
    let a = head.len() as int;
    let field = name + seq!['('] + inner + seq![')'];
    law_texts::lemma_name_is_tight(variable);
    law_texts::lemma_name_is_tight(name);
    law_calls::lemma_on(none, variable, name);
    assert(law_calls::on(none, variable, name) =~= head);
    assert(none + variable =~= variable);
    assert(expr.last() == ')');
    law_texts::lemma_end_blank(expr, none);
    assert(expr + none =~= expr);
    assert(expr[a] == '(');
    assert forall|j: int| a < j < expr.len() - 1 implies #[trigger] expr[j] != '(' && expr[j]
        != ')' by {
        assert(expr[j] == inner[j - a - 1]);
    }
    let k = law_calls::lemma_open(expr, a, expr.len() - 1, 0);
    assert(expr.take(a) =~= head);
    assert(sig::without_args(expr) == head);
    let front = variable + seq!['.'];
    assert(head =~= front + name);
    law_texts::law_names_at_the_ends(name, front);
    assert(expr =~= variable + seq!['.'] + field);
    assert forall|j: int| 0 <= j < field.len() implies #[trigger] field[j] != '.' by {
        if j < name.len() {
            assert(field[j] == name[j]);
        } else if name.len() < j < field.len() - 1 {
            assert(field[j] == inner[j - name.len() - 1]);
        }
    }
    law_texts::law_character_is_found(variable, '.', field);
    let v = variable.len() as int;
    assert(expr.take(v) =~= variable);
    assert(expr.skip(v + 1) =~= field);
    law_texts::law_names_at_the_ends(variable, none);
    assert(none + variable =~= variable);
    lemma_yielded(f, class, rest, name, t);
    assert(receiver::by_variable(f, name, method, uri, position) is None);
    assert(receiver::outer_field(expr) == Some((variable, field)));
    assert(receiver::by_field(f, expr, method, uri, position) is None);
    assert(head.take(v) =~= variable);
    assert(head.skip(v + 1) =~= name);
    law_texts::lemma_tight(variable);
    law_texts::lemma_tight(name);
    law_texts::law_names_at_the_ends(name, none);
    assert(name + none =~= name);
    assert(!variable.contains('.')) by {
        if variable.contains('.') {
            let i = choose|i: int| 0 <= i < variable.len() && variable[i] == '.';
            assert(variable[i] != '.');
        }
    }
    assert(receiver::expr_type(f, variable, uri, position) == Some(class + rest));
    law_members::law_type_parameters_by_their_look(t);
    assert(receiver::by_chain(f, expr, method, uri, position) == Some(t));
}

/// In the lambda of a method that is called on what a method of a variable returns the parameter is
/// of the returned class.
#[verifier::rlimit(60)]
pub proof fn law_lambda_on_a_chain(
    f: Facts,
    indent: Seq<char>,
    variable: Seq<char>,
    name: Seq<char>,
    inner: Seq<char>,
    method: Seq<char>,
    args: Seq<char>,
    space: Seq<char>,
    class: Seq<char>,
    rest: Seq<char>,
    t: Seq<char>,
    uri: Seq<char>,
    position: Option<Position>,
)
    requires
        law_texts::blank(indent),
        law_texts::is_name(variable),
        law_texts::is_name(name),
        is_inner(inner),
        law_texts::is_name(method),
        law_calls::is_args(args),
        law_texts::blank(space),
        is_untyped(f, name, uri, position),
        law_calls::is_typed(f, variable, class + rest, uri, position),
        law_texts::is_name(class),
        rest.len() > 0 ==> !text::id_char(rest[0]) && rest[0] != '.',
        (f.field_type)(class, name + seq!['('] + inner + seq![')'], uri) is None,
        (f.method_return)(class, name) == Some(t),
        law_texts::is_name(t),
        unicode::uppercase(t[0]),
        !law_inputs::looks_generic(t),
        forall|j: int|
            0 <= j < (f.class_params)(class).len() ==> #[trigger] (f.class_params)(class)[j] != t,
    ensures
        receiver::context_input(
            f,
            law_calls::line_of(
                indent,
                on_call(variable + seq!['.'], name, inner, method),
                args,
                space,
            ),
            uri,
            position,
        ) == Some(t),
{
    let lead = variable + seq!['.'];
    let none = Seq::<char>::empty();
    lemma_lead(none, variable);
    assert(none + variable + seq!['.'] =~= lead);
    let call = on_call(lead, name, inner, method);
    lemma_on_call(lead, name, inner, method);
    lemma_chained(f, variable, name, inner, method, class, rest, t, uri, position);
    law_calls::lemma_callee(indent, call, args, space);
    let head = indent + (lead + name);
    let tail = seq!['.'] + method;
    law_texts::lemma_name_is_tight(method);
    law_texts::lemma_name_is_tight(name);
    assert forall|i: int| 0 <= i < head.len() implies #[trigger] head[i] != '(' && head[i]
        != ')' by {
        if i < indent.len() {
            assert(unicode::whitespace(indent[i]));
        } else if i < indent.len() + lead.len() {
            assert(head[i] == lead[i - indent.len()]);
        } else {
            assert(head[i] == name[i - indent.len() - lead.len()]);
        }
    }
    assert forall|i: int| 0 <= i < tail.len() implies #[trigger] tail[i] != '(' && tail[i]
        != ')' by {
        if i > 0 {
            assert(tail[i] == method[i - 1]);
        }
    }
    lemma_balanced(head, inner, tail, args);
    assert(indent + call + args =~= head + (seq!['('] + inner + seq![')']) + (tail + args));
    assert(receiver::dot_call_input(f, call, uri, position) == Some(t));
}

} // verus!
