//! What the text before a lambda's brace says of its parameter and of its receiver.
use vstd::prelude::*;
use vstd::string::*;

use crate::brackets;
use crate::cst_lambda;
use crate::cst_lambda::CtxView;
use crate::deps::Facts;
use crate::lambda_types;
use crate::law_hovers;
use crate::law_inputs;
use crate::law_lambdas;
use crate::law_lambdas::FunParam;
use crate::law_receivers;
use crate::law_sigs;
use crate::law_texts;
use crate::law_types;
use crate::receiver;
use crate::sig;
use crate::text;
use crate::type_subst;
use crate::types::Position;
use crate::unicode;

verus! {

// ---------------------------------------------------------------------------
// Calls
// ---------------------------------------------------------------------------

/// Whether a text may stand before a call on its line: it holds no brackets and no question mark,
/// and no name runs from it into the call.
pub open spec fn is_lead(lead: Seq<char>) -> bool {
    &&& forall|i: int|
        0 <= i < lead.len() ==> #[trigger] lead[i] != '(' && lead[i] != '[' && lead[i] != '{' && lead[i]
            != ')' && lead[i] != ']' && lead[i] != '}' && lead[i] != '?'
    &&& lead.len() > 0 ==> !text::id_char(lead.last()) && !unicode::whitespace(lead[0])
}

/// Whether a text is an argument list without lists in it, or nothing.
pub open spec fn is_args(args: Seq<char>) -> bool {
    args.len() == 0 || exists|inner: Seq<char>|
        law_texts::lacks(inner, '(') && law_texts::lacks(inner, ')') && args == #[trigger] (seq!['('] + inner + seq![')'])
}

/// A call as it is written before a brace: `indent`, what stands before it, the call, its
/// arguments and white space.
pub open spec fn line_of(
    indent: Seq<char>,
    call: Seq<char>,
    args: Seq<char>,
    space: Seq<char>,
) -> Seq<char> {
    indent + call + args + space
}

/// A call of a method on a variable.
pub open spec fn on(lead: Seq<char>, variable: Seq<char>, method: Seq<char>) -> Seq<char> {
    lead + variable + seq!['.'] + method
}

pub(crate) proof fn lemma_open(s: Seq<char>, i: int, n: int, k: nat) -> (commas: nat)
    requires
        0 <= i < n <= s.len(),
        s[i] == '(',
        forall|j: int| i < j < n ==> #[trigger] s[j] != '(' && s[j] != ')',
    ensures
        brackets::open_before(s, n, 0, k) == Some((i, commas)),
    decreases n,
{
    if i == n - 1 {
        k
    } else {
        assert(s[n - 1] != '(' && s[n - 1] != ')');
        if s[n - 1] == ',' {
            lemma_open(s, i, n - 1, k + 1)
        } else {
            lemma_open(s, i, n - 1, k)
        }
    }
}

/// The call before a brace is what stands before its arguments.
#[verifier::rlimit(60)]
pub(crate) proof fn lemma_callee(
    indent: Seq<char>,
    call: Seq<char>,
    args: Seq<char>,
    space: Seq<char>,
)
    requires
        law_texts::blank(indent),
        call.len() > 0,
        !unicode::whitespace(call[0]),
        text::id_char(call.last()),
        !unicode::whitespace(call.last()),
        law_texts::lacks(call, '?'),
        is_args(args),
        law_texts::blank(space),
    ensures
        text::trimmed_end(line_of(indent, call, args, space)) == indent + call + args,
        receiver::callee_of(indent + call + args) == call,
{
    let t = indent + call + args;
    let head = indent + call;
    assert(line_of(indent, call, args, space) =~= t + space);
    if args.len() > 0 {
        let inner = choose|inner: Seq<char>|
            law_texts::lacks(inner, '(') && law_texts::lacks(inner, ')') && args == #[trigger] (seq!['('] + inner
                + seq![')']);
        assert(args.last() == ')');
        assert(t.last() == ')');
        law_texts::lemma_end_blank(t, space);
        law_texts::lemma_end_blank(t, Seq::empty());
        assert(t + Seq::<char>::empty() =~= t);
        let i = head.len() as int;
        assert(t[i] == '(');
        assert forall|j: int| i < j < t.len() - 1 implies #[trigger] t[j] != '(' && t[j]
            != ')' by {
            assert(t[j] == inner[j - i - 1]);
        }
        let n = lemma_open(t, i, t.len() - 1, 0);
        assert(t.take(i) =~= head);
        assert(sig::without_args(t) == head);
    } else {
        assert(t =~= head);
        assert(head.last() == call.last());
        law_texts::lemma_end_blank(t, space);
        law_texts::lemma_end_blank(t, Seq::empty());
        assert(t + Seq::<char>::empty() =~= t);
        assert(t.last() != ')');
        assert(sig::without_args(t) == head);
    }
    reveal_strlit("?.");
    law_texts::law_text_is_found_first(head, "?."@);
    assert forall|j: int| !#[trigger] law_texts::occurs(head, "?."@, j) by {
        if law_texts::occurs(head, "?."@, j) {
            assert(head.subrange(j, j + 2)[0] == head[j]);
            assert("?."@[0] == '?');
            if j < indent.len() {
                assert(unicode::whitespace(indent[j]));
            } else {
                assert(head[j] == call[j - indent.len()]);
            }
        }
    }
    assert(text::find_text(head, "?."@) is None);
    law_texts::law_trimming(indent, call, Seq::empty());
    assert(indent + call + Seq::<char>::empty() =~= head);
}

pub(crate) proof fn lemma_no_depth(s: Seq<char>, n: int, m: int)
    requires
        0 <= n <= m <= s.len(),
        forall|i: int|
            0 <= i < m ==> #[trigger] s[i] != '(' && s[i] != '[' && s[i] != '{' && s[i] != ')' && s[i]
                != ']' && s[i] != '}',
    ensures
        brackets::depth(s, false, n) == 0,
    decreases n,
{
    if n > 0 {
        lemma_no_depth(s, n - 1, m);
        assert(s[n - 1] != '(');
    }
}

pub(crate) proof fn lemma_no_dot(s: Seq<char>, from: int, n: int)
    requires
        0 <= from <= n <= s.len(),
        forall|i: int| from <= i < n ==> #[trigger] s[i] != '.',
    ensures
        brackets::last_dot(s, n) == brackets::last_dot(s, from),
    decreases n,
{
    if from < n {
        assert(s[n - 1] != '.');
        lemma_no_dot(s, from, n - 1);
    }
}

/// The pieces of a method call are found.
#[verifier::rlimit(60)]
pub(crate) proof fn lemma_on(lead: Seq<char>, variable: Seq<char>, method: Seq<char>)
    requires
        is_lead(lead),
        law_texts::is_name(variable),
        law_texts::is_name(method),
    ensures
        brackets::top_dot(on(lead, variable, method)) == Some((lead + variable).len() as int),
        text::trimmed_end(on(lead, variable, method).take((lead + variable).len() as int)) == lead
            + variable,
        sig::without_args(lead + variable) == lead + variable,
        text::last_ident_of(lead + variable) == variable,
        text::ident_of(
            text::trimmed_start(
                on(lead, variable, method).skip((lead + variable).len() as int + 1),
            ),
        ) == method,
        law_texts::lacks(on(lead, variable, method), '?'),
        !unicode::whitespace(on(lead, variable, method)[0]),
        text::id_char(on(lead, variable, method).last()),
        !unicode::whitespace(on(lead, variable, method).last()),
{
    let s = on(lead, variable, method);
    let head = lead + variable;
    let n = head.len() as int;
    law_texts::lemma_name_is_tight(variable);
    law_texts::lemma_name_is_tight(method);
    assert forall|i: int| 0 <= i < n implies #[trigger] s[i] != '(' && s[i] != '[' && s[i] != '{'
        && s[i] != ')' && s[i] != ']' && s[i] != '}' && s[i] != '?' by {
        if i < lead.len() {
            assert(s[i] == lead[i]);
        } else {
            assert(s[i] == variable[i - lead.len()]);
            assert(text::id_char(variable[i - lead.len()]));
        }
    }
    assert(s[n] == '.');
    lemma_no_depth(s, n, n);
    assert forall|i: int| n + 1 <= i < s.len() implies #[trigger] s[i] != '.' && s[i] != '?' by {
        assert(s[i] == method[i - n - 1]);
        assert(text::id_char(method[i - n - 1]));
    }
    lemma_no_dot(s, n + 1, s.len() as int);
    assert(s.take(n) =~= head);
    assert(head.last() == variable.last());
    law_texts::lemma_end_blank(head, Seq::empty());
    assert(head + Seq::<char>::empty() =~= head);
    assert(text::id_char(variable.last()));
    assert(head.last() != ')');
    law_texts::law_names_at_the_ends(variable, lead);
    assert(s.skip(n + 1) =~= method);
    law_texts::lemma_start_blank(Seq::empty(), method);
    assert(Seq::<char>::empty() + method =~= method);
    law_texts::law_names_at_the_ends(method, Seq::empty());
    assert(method + Seq::<char>::empty() =~= method);
    assert(s.last() == method.last());
    assert(text::id_char(method[method.len() - 1]));
    if lead.len() > 0 {
        assert(s[0] == lead[0]);
    } else {
        assert(s[0] == variable[0]);
    }
}

pub(crate) proof fn lemma_count_add(a: Seq<char>, b: Seq<char>, k: char)
    ensures
        law_hovers::count(a + b, k) == law_hovers::count(a, k) + law_hovers::count(b, k),
    decreases b.len(),
{
    if b.len() > 0 {
        assert((a + b).drop_last() =~= a + b.drop_last());
        lemma_count_add(a, b.drop_last(), k);
    } else {
        assert(a + b =~= a);
    }
}

pub(crate) proof fn lemma_count_none(s: Seq<char>, k: char)
    requires
        law_texts::lacks(s, k),
    ensures
        law_hovers::count(s, k) == 0,
    decreases s.len(),
{
    if s.len() > 0 {
        assert(s[s.len() - 1] != k);
        assert forall|i: int| 0 <= i < s.drop_last().len() implies #[trigger] s.drop_last()[i]
            != k by {
            assert(s[i] != k);
        }
        lemma_count_none(s.drop_last(), k);
    }
}

/// As many parentheses are opened as are closed.
pub(crate) proof fn lemma_not_inside(head: Seq<char>, args: Seq<char>)
    requires
        law_texts::lacks(head, '('),
        law_texts::lacks(head, ')'),
        is_args(args),
    ensures
        brackets::occurrences(head + args, '(') == brackets::occurrences(head + args, ')'),
{
    law_hovers::lemma_count(head + args, '(');
    law_hovers::lemma_count(head + args, ')');
    lemma_count_add(head, args, '(');
    lemma_count_add(head, args, ')');
    lemma_count_none(head, '(');
    lemma_count_none(head, ')');
    if args.len() > 0 {
        let inner = choose|inner: Seq<char>|
            law_texts::lacks(inner, '(') && law_texts::lacks(inner, ')') && args == #[trigger] (seq!['('] + inner
                + seq![')']);
        lemma_count_none(inner, '(');
        lemma_count_none(inner, ')');
        let open = seq!['('];
        let close = seq![')'];
        lemma_count_add(open + inner, close, '(');
        lemma_count_add(open + inner, close, ')');
        lemma_count_add(open, inner, '(');
        lemma_count_add(open, inner, ')');
        assert(open.drop_last() =~= Seq::empty());
        assert(close.drop_last() =~= Seq::empty());
        reveal_with_fuel(law_hovers::count, 2);
        assert(law_hovers::count(open, '(') == 1 && law_hovers::count(open, ')') == 0);
        assert(law_hovers::count(close, '(') == 0 && law_hovers::count(close, ')') == 1);
    }
}

#[verifier::rlimit(60)]
proof fn lemma_context_on(
    f: Facts,
    indent: Seq<char>,
    lead: Seq<char>,
    variable: Seq<char>,
    method: Seq<char>,
    args: Seq<char>,
    space: Seq<char>,
    uri: Seq<char>,
    position: Option<Position>,
)
    requires
        law_texts::blank(indent),
        is_lead(lead),
        law_texts::is_name(variable),
        law_texts::is_name(method),
        is_args(args),
        law_texts::blank(space),
        receiver::by_variable(f, variable, method, uri, position) is Some,
    ensures
        receiver::context_input(
            f,
            line_of(indent, on(lead, variable, method), args, space),
            uri,
            position,
        ) == receiver::by_variable(f, variable, method, uri, position),
{
    let call = on(lead, variable, method);
    lemma_on(lead, variable, method);
    lemma_callee(indent, call, args, space);
    let head = indent + call;
    assert forall|i: int| 0 <= i < head.len() implies #[trigger] head[i] != '(' && head[i]
        != ')' by {
        if i < indent.len() {
            assert(unicode::whitespace(indent[i]));
        } else {
            assert(head[i] == call[i - indent.len()]);
            lemma_on_plain(lead, variable, method, i - indent.len());
        }
    }
    lemma_not_inside(head, args);
    assert(receiver::dot_call_input(f, call, uri, position) == receiver::by_variable(
        f,
        variable,
        method,
        uri,
        position,
    ));
}

pub(crate) proof fn lemma_on_plain(lead: Seq<char>, variable: Seq<char>, method: Seq<char>, i: int)
    requires
        is_lead(lead),
        law_texts::is_name(variable),
        law_texts::is_name(method),
        0 <= i < on(lead, variable, method).len(),
    ensures
        on(lead, variable, method)[i] != '(',
        on(lead, variable, method)[i] != ')',
{
    let s = on(lead, variable, method);
    let n = (lead + variable).len() as int;
    if i < lead.len() {
        assert(s[i] == lead[i]);
    } else if i < n {
        assert(s[i] == variable[i - lead.len()]);
        assert(text::id_char(variable[i - lead.len()]));
    } else if i > n {
        assert(s[i] == method[i - n - 1]);
        assert(text::id_char(method[i - n - 1]));
    }
}

// ---------------------------------------------------------------------------
// The parameter
// ---------------------------------------------------------------------------

/// The names of the collections whose elements are handed to a lambda.
pub open spec fn is_collection(s: Seq<char>) -> bool {
    ||| s == "List"@ || s == "MutableList"@ || s == "ArrayList"@
    ||| s == "Set"@ || s == "MutableSet"@ || s == "HashSet"@ || s == "LinkedHashSet"@
    ||| s == "Collection"@ || s == "MutableCollection"@ || s == "Iterable"@ || s == "Sequence"@
    ||| s == "Array"@
    ||| s == "Flow"@ || s == "StateFlow"@ || s == "MutableStateFlow"@
    ||| s == "SharedFlow"@ || s == "MutableSharedFlow"@
    ||| s == "ImmutableList"@ || s == "PersistentList"@ || s == "ImmutableSet"@
    ||| s == "PersistentSet"@ || s == "ImmutableCollection"@
}

/// The elements of a collection are of the type that its first argument begins with.
pub proof fn law_element_of_a_collection(
    class: Seq<char>,
    items: Seq<Seq<char>>,
    a: Seq<char>,
    element: Seq<char>,
    b: Seq<char>,
    after: Seq<char>,
)
    requires
        law_texts::is_name(class),
        is_collection(class),
        law_texts::lacks(after, '>'),
        items.len() > 0,
        law_sigs::all_items(items),
        forall|i: int| 0 <= i < items.len() ==> law_sigs::has_ink(#[trigger] items[i]),
        items[0] == a + element + b,
        law_texts::blank(a),
        law_texts::is_name(element),
        b.len() > 0 ==> !text::id_char(b[0]) && b[0] != '.',
    ensures
        type_subst::element_type(class + seq!['<'] + law_sigs::listed(items) + seq!['>'] + after) == Some(
            element,
        ),
{
    law_texts::lemma_name_is_tight(class);
    law_texts::lemma_name_is_tight(element);
    let t = class + seq!['<'] + law_sigs::listed(items) + seq!['>'] + after;
    let rest = seq!['<'] + law_sigs::listed(items) + seq!['>'] + after;
    assert(t =~= class + rest);
    law_texts::law_names_at_the_ends(class, rest);
    law_texts::law_last_segment(Seq::empty(), class);
    assert forall|i: int| 0 <= i < class.len() implies #[trigger] class[i] != '<' by {
        assert(text::id_char(class[i]));
    }
    law_types::law_type_arguments(class, items, after);
    let arg = text::trimmed(items[0]);
    assert(type_subst::type_args(t)[0] == arg);
    lemma_trimmed_base(a, element, b);
}

proof fn lemma_trimmed_base(a: Seq<char>, name: Seq<char>, b: Seq<char>)
    requires
        law_texts::blank(a),
        law_texts::is_name(name),
        b.len() > 0 ==> !text::id_char(b[0]) && b[0] != '.',
    ensures
        lambda_types::type_base(text::trimmed(a + name + b)) == Some(name),
{
    law_sigs::lemma_trim_twice(a + name + b, text::trimmed(a + name + b));
    law_sigs::lemma_base(a, name, b);
}

/// Whether a variable has a type where the lambda stands.
pub open spec fn is_typed(
    f: Facts,
    name: Seq<char>,
    t: Seq<char>,
    uri: Seq<char>,
    position: Option<Position>,
) -> bool {
    match position {
        Some(p) => (f.var_type_at)(name, uri, p) == Some(t) || ((f.var_type_at)(name, uri, p) is None
            && (f.var_type)(name, uri) == Some(t)),
        None => (f.var_type)(name, uri) == Some(t),
    }
}

/// In the lambda of a method that is called on a collection the parameter is an element of it.
pub proof fn law_lambda_on_a_collection(
    f: Facts,
    indent: Seq<char>,
    lead: Seq<char>,
    variable: Seq<char>,
    method: Seq<char>,
    args: Seq<char>,
    space: Seq<char>,
    class: Seq<char>,
    items: Seq<Seq<char>>,
    a: Seq<char>,
    element: Seq<char>,
    b: Seq<char>,
    after: Seq<char>,
    uri: Seq<char>,
    position: Option<Position>,
)
    requires
        law_texts::blank(indent),
        is_lead(lead),
        law_texts::is_name(variable),
        law_texts::is_name(method),
        is_args(args),
        law_texts::blank(space),
        is_typed(
            f,
            variable,
            class + seq!['<'] + law_sigs::listed(items) + seq!['>'] + after,
            uri,
            position,
        ),
        law_texts::is_name(class),
        is_collection(class),
        law_texts::lacks(after, '>'),
        items.len() > 0,
        law_sigs::all_items(items),
        forall|i: int| 0 <= i < items.len() ==> law_sigs::has_ink(#[trigger] items[i]),
        items[0] == a + element + b,
        law_texts::blank(a),
        law_texts::is_name(element),
        b.len() > 0 ==> !text::id_char(b[0]) && b[0] != '.',
    ensures
        receiver::context_input(
            f,
            line_of(indent, on(lead, variable, method), args, space),
            uri,
            position,
        ) == Some(element),
{
    law_element_of_a_collection(class, items, a, element, b, after);
    lemma_context_on(f, indent, lead, variable, method, args, space, uri, position);
}

/// Whether a type is that of a class that is no collection.
pub open spec fn is_single(t: Seq<char>, class: Seq<char>, rest: Seq<char>) -> bool {
    &&& t == class + rest
    &&& law_texts::is_name(class)
    &&& !is_collection(class)
    &&& rest.len() > 0 ==> !text::id_char(rest[0]) && rest[0] != '.'
}

pub(crate) proof fn lemma_single(t: Seq<char>, class: Seq<char>, rest: Seq<char>)
    requires
        is_single(t, class, rest),
    ensures
        type_subst::element_type(t) is None,
        text::dotted_ident_of(t) == class,
        class.len() > 0,
{
    law_texts::lemma_name_is_tight(class);
    law_texts::law_names_at_the_ends(class, rest);
    law_texts::law_last_segment(Seq::empty(), class);
}

/// In the lambda of a method of which nothing is known the parameter is what the method is called
/// on.
pub proof fn law_lambda_of_an_unknown_method(
    f: Facts,
    indent: Seq<char>,
    lead: Seq<char>,
    variable: Seq<char>,
    method: Seq<char>,
    args: Seq<char>,
    space: Seq<char>,
    t: Seq<char>,
    class: Seq<char>,
    rest: Seq<char>,
    uri: Seq<char>,
    position: Option<Position>,
)
    requires
        law_texts::blank(indent),
        is_lead(lead),
        law_texts::is_name(variable),
        law_texts::is_name(method),
        is_args(args),
        law_texts::blank(space),
        is_typed(f, variable, t, uri, position),
        is_single(t, class, rest),
        unicode::uppercase(class[0]),
        !law_inputs::looks_generic(class),
        (f.method_params)(class, method) is None,
        (f.fun_params)(method, uri) is None,
    ensures
        receiver::context_input(
            f,
            line_of(indent, on(lead, variable, method), args, space),
            uri,
            position,
        ) == Some(class),
{
    lemma_single(t, class, rest);
    law_receivers::lemma_class_name(class, rest);
    law_texts::lemma_name_is_tight(method);
    lemma_context_on(f, indent, lead, variable, method, args, space, uri, position);
}

/// In the lambda of a method the parameter is the first input of the function type that the last
/// parameter of the method has: of the method of the class, else of the function of the name.
#[verifier::rlimit(60)]
pub proof fn law_lambda_of_a_method(
    f: Facts,
    indent: Seq<char>,
    lead: Seq<char>,
    variable: Seq<char>,
    method: Seq<char>,
    args: Seq<char>,
    space: Seq<char>,
    t: Seq<char>,
    class: Seq<char>,
    rest: Seq<char>,
    params: Seq<Seq<char>>,
    p: FunParam,
    items: Seq<Seq<char>>,
    input: Seq<char>,
    uri: Seq<char>,
    position: Option<Position>,
)
    requires
        law_texts::blank(indent),
        is_lead(lead),
        law_texts::is_name(variable),
        law_texts::is_name(method),
        is_args(args),
        law_texts::blank(space),
        is_typed(f, variable, t, uri, position),
        is_single(t, class, rest),
        (f.method_params)(class, method) == Some(law_sigs::listed(params)) || ((f.method_params)(
            class,
            method,
        ) is None && (f.fun_params)(method, uri) == Some(law_sigs::listed(params))),
        params.len() > 0,
        law_sigs::all_items(params),
        forall|i: int| 0 <= i < params.len() ==> law_sigs::has_ink(#[trigger] params[i]),
        params.last() == law_lambdas::param_text(p),
        law_lambdas::is_fun_param(p),
        law_inputs::input_is(p, items, 0, input),
        !law_inputs::looks_generic(input),
    ensures
        receiver::context_input(
            f,
            line_of(indent, on(lead, variable, method), args, space),
            uri,
            position,
        ) == Some(input),
{
    lemma_single(t, class, rest);
    law_texts::lemma_name_is_tight(method);
    law_lambdas::lemma_fun_param(p);
    law_sigs::law_lists_are_parted(params);
    law_inputs::lemma_input(p, items, 0, input);
    assert(receiver::method_input(f, t, method, uri) == Some(input));
    lemma_context_on(f, indent, lead, variable, method, args, space, uri, position);
}

// ---------------------------------------------------------------------------
// Plain calls
// ---------------------------------------------------------------------------

pub(crate) proof fn lemma_plain(lead: Seq<char>, name: Seq<char>)
    requires
        is_lead(lead),
        law_texts::lacks(lead, '.'),
        law_texts::is_name(name),
    ensures
        brackets::top_dot(lead + name) is None,
        text::last_ident_of(lead + name) == name,
        name.len() > 0,
        law_texts::lacks(lead + name, '?'),
        law_texts::lacks(lead + name, '('),
        law_texts::lacks(lead + name, ')'),
        !unicode::whitespace((lead + name)[0]),
        text::id_char((lead + name).last()),
        !unicode::whitespace((lead + name).last()),
{
    let s = lead + name;
    law_texts::lemma_name_is_tight(name);
    assert forall|i: int| 0 <= i < s.len() implies #[trigger] s[i] != '.' && s[i] != '?' && s[i]
        != '(' && s[i] != ')' by {
        if i < lead.len() {
            assert(s[i] == lead[i]);
        } else {
            assert(s[i] == name[i - lead.len()]);
            assert(text::id_char(name[i - lead.len()]));
        }
    }
    lemma_no_dot(s, 0, s.len() as int);
    law_texts::law_names_at_the_ends(name, lead);
    assert(s.last() == name[name.len() - 1]);
    assert(text::id_char(name[name.len() - 1]));
    if lead.len() > 0 {
        assert(s[0] == lead[0]);
    } else {
        assert(s[0] == name[0]);
    }
}

/// Whether the parameters of a function are known, and the last takes a function.
pub open spec fn takes_function(
    f: Facts,
    name: Seq<char>,
    params: Seq<Seq<char>>,
    p: FunParam,
    uri: Seq<char>,
) -> bool {
    &&& (f.fun_params)(name, uri) == Some(law_sigs::listed(params))
    &&& params.len() > 0
    &&& law_sigs::all_items(params)
    &&& forall|i: int| 0 <= i < params.len() ==> law_sigs::has_ink(#[trigger] params[i])
    &&& params.last() == law_lambdas::param_text(p)
    &&& law_lambdas::is_fun_param(p)
}

/// In the lambda of a plain call the parameter is the first input of the function type that the
/// last parameter of the function has.
pub proof fn law_lambda_of_a_plain_call(
    f: Facts,
    indent: Seq<char>,
    lead: Seq<char>,
    name: Seq<char>,
    args: Seq<char>,
    space: Seq<char>,
    params: Seq<Seq<char>>,
    p: FunParam,
    items: Seq<Seq<char>>,
    input: Seq<char>,
    uri: Seq<char>,
    position: Option<Position>,
)
    requires
        law_texts::blank(indent),
        is_lead(lead),
        law_texts::lacks(lead, '.'),
        law_texts::is_name(name),
        name != "with"@,
        is_args(args),
        law_texts::blank(space),
        takes_function(f, name, params, p, uri),
        law_inputs::input_is(p, items, 0, input),
    ensures
        receiver::context_input(
            f,
            line_of(indent, lead + name, args, space),
            uri,
            position,
        ) == Some(input),
{
    let call = lead + name;
    lemma_plain(lead, name);
    lemma_callee(indent, call, args, space);
    law_lambdas::lemma_fun_param(p);
    law_sigs::law_lists_are_parted(params);
    law_inputs::lemma_input(p, items, 0, input);
    let head = indent + call;
    assert forall|i: int| 0 <= i < head.len() implies #[trigger] head[i] != '(' && head[i]
        != ')' by {
        if i < indent.len() {
            assert(unicode::whitespace(indent[i]));
        } else {
            assert(head[i] == call[i - indent.len()]);
        }
    }
    lemma_not_inside(head, args);
}

// ---------------------------------------------------------------------------
// The receiver
// ---------------------------------------------------------------------------

/// In the lambda of a call `this` is the receiver that the last parameter of the function says,
/// called on something or not.
#[verifier::rlimit(60)]
pub proof fn law_this_by_the_text(
    f: Facts,
    indent: Seq<char>,
    lead: Seq<char>,
    variable: Seq<char>,
    name: Seq<char>,
    args: Seq<char>,
    space: Seq<char>,
    params: Seq<Seq<char>>,
    p: FunParam,
    uri: Seq<char>,
    position: Option<Position>,
)
    requires
        law_texts::blank(indent),
        is_lead(lead),
        law_texts::lacks(lead, '.'),
        law_texts::is_name(variable),
        law_texts::is_name(name),
        name != "with"@,
        is_args(args),
        law_texts::blank(space),
        takes_function(f, name, params, p, uri),
        p.receiver.len() > 0,
    ensures
        cst_lambda::this_in_lambda(f, line_of(indent, lead + name, args, space), uri, position)
            == CtxView::Resolved(p.receiver),
        cst_lambda::this_in_lambda(
            f,
            line_of(indent, on(lead, variable, name), args, space),
            uri,
            position,
        ) == CtxView::Resolved(p.receiver),
{
    lemma_plain(lead, name);
    lemma_callee(indent, lead + name, args, space);
    lemma_on(lead, variable, name);
    law_texts::lemma_name_is_tight(variable);
    law_texts::lemma_name_is_tight(name);
    lemma_callee(indent, on(lead, variable, name), args, space);
    law_lambdas::lemma_fun_param(p);
    law_sigs::law_lists_are_parted(params);
    law_sigs::law_receiver_of_a_function_type(p.receiver, p.inputs, p.mid, p.result);
}

/// In the lambda of `run` or `apply`, of which the index knows no signature, `this` is the class of
/// the variable that they are called on.
#[verifier::rlimit(60)]
pub proof fn law_this_of_a_scope_function(
    f: Facts,
    indent: Seq<char>,
    lead: Seq<char>,
    variable: Seq<char>,
    name: Seq<char>,
    args: Seq<char>,
    space: Seq<char>,
    class: Seq<char>,
    rest: Seq<char>,
    uri: Seq<char>,
    position: Option<Position>,
)
    requires
        law_texts::blank(indent),
        lead.len() == 0,
        law_texts::is_name(variable),
        name == "run"@ || name == "apply"@,
        is_args(args),
        law_texts::blank(space),
        (f.fun_params)(name, uri) is None,
        is_typed(f, variable, class + rest, uri, position),
        law_texts::is_name(class),
        unicode::uppercase(class[0]),
        !law_inputs::looks_generic(class),
        rest.len() > 0 ==> !text::id_char(rest[0]) && rest[0] != '.',
    ensures
        cst_lambda::this_in_lambda(
            f,
            line_of(indent, on(lead, variable, name), args, space),
            uri,
            position,
        ) == CtxView::Resolved(class),
{
    reveal_strlit("run");
    reveal_strlit("apply");
    assert(law_texts::is_name(name)) by {
        assert forall|i: int| 0 <= i < name.len() implies text::id_char(#[trigger] name[i])
            && !unicode::whitespace(name[i]) by {
            if name == "run"@ {
                assert(name[i] == "run"@[i]);
            } else {
                assert(name[i] == "apply"@[i]);
            }
        }
    }
    lemma_on(lead, variable, name);
    law_texts::lemma_name_is_tight(variable);
    law_texts::lemma_name_is_tight(name);
    lemma_callee(indent, on(lead, variable, name), args, space);
    law_receivers::lemma_class_name(class, rest);
    assert(lead + variable =~= variable);
    assert(!variable.contains('.')) by {
        if variable.contains('.') {
            let i = choose|i: int| 0 <= i < variable.len() && variable[i] == '.';
            assert(variable[i] != '.');
        }
    }
    assert(receiver::expr_type(f, variable, uri, position) == Some(class + rest));
}

/// In the lambda of `run` or `apply`, of which the index knows no signature, called on a variable
/// of an unknown type, `this` is a receiver of an unknown type; called on a name that begins with a
/// capital it is that name.
#[verifier::rlimit(60)]
pub proof fn law_this_of_an_unknown_receiver(
    f: Facts,
    indent: Seq<char>,
    variable: Seq<char>,
    name: Seq<char>,
    args: Seq<char>,
    space: Seq<char>,
    uri: Seq<char>,
    position: Option<Position>,
)
    requires
        law_texts::blank(indent),
        law_texts::is_name(variable),
        name == "run"@ || name == "apply"@,
        is_args(args),
        law_texts::blank(space),
        (f.fun_params)(name, uri) is None,
        (f.var_type)(variable, uri) is None,
        position matches Some(p) ==> (f.var_type_at)(variable, uri, p) is None,
    ensures
        cst_lambda::this_in_lambda(
            f,
            line_of(indent, on(Seq::empty(), variable, name), args, space),
            uri,
            position,
        ) == (if unicode::uppercase(variable[0]) {
            CtxView::Resolved(variable)
        } else {
            CtxView::Receiver
        }),
{
    let lead = Seq::<char>::empty();
    reveal_strlit("run");
    reveal_strlit("apply");
    assert(law_texts::is_name(name)) by {
        assert forall|i: int| 0 <= i < name.len() implies text::id_char(#[trigger] name[i])
            && !unicode::whitespace(name[i]) by {
            if name == "run"@ {
                assert(name[i] == "run"@[i]);
            } else {
                assert(name[i] == "apply"@[i]);
            }
        }
    }
    lemma_on(lead, variable, name);
    law_texts::lemma_name_is_tight(variable);
    law_texts::lemma_name_is_tight(name);
    lemma_callee(indent, on(lead, variable, name), args, space);
    assert(lead + variable =~= variable);
    assert(!variable.contains('.')) by {
        if variable.contains('.') {
            let i = choose|i: int| 0 <= i < variable.len() && variable[i] == '.';
            assert(variable[i] != '.');
        }
    }
    assert(receiver::expr_type(f, variable, uri, position) is None);
}

} // verus!
