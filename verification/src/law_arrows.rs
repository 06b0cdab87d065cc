//! What the text says of named lambda parameters and of lambdas that are arguments.
use vstd::prelude::*;
use vstd::string::*;

use crate::brackets;
use crate::deps::Facts;
use crate::it_this;
use crate::lambda_params;
use crate::law_calls;
use crate::law_cursors;
use crate::law_hovers;
use crate::law_inputs;
use crate::law_lambdas;
use crate::law_lambdas::FunParam;
use crate::law_sigs;
use crate::law_texts;
use crate::law_words;
use crate::lists;
use crate::receiver;
use crate::scan;
use crate::scan::Brackets;
use crate::scope;
use crate::sig;
use crate::text;
use crate::types::{CursorPos, LocationView, Position, Range};
use crate::unicode;

verus! {

// ---------------------------------------------------------------------------
// Declarations
// ---------------------------------------------------------------------------

/// A parameter of a lambda as it is written: white space, its name, and perhaps more.
pub open spec fn declares(part: Seq<char>, name: Seq<char>) -> bool {
    law_texts::is_name(name) && exists|a: Seq<char>, b: Seq<char>|
        law_texts::blank(a) && (b.len() > 0 ==> !text::id_char(b[0])) && part == #[trigger] (a + name + b)
}

#[verifier::rlimit(60)]
pub(crate) proof fn lemma_declares(part: Seq<char>, name: Seq<char>)
    requires
        declares(part, name),
    ensures
        text::ident_of(text::trimmed(part)) == name,
{
    let (a, b) = choose|a: Seq<char>, b: Seq<char>|
        law_texts::blank(a) && (b.len() > 0 ==> !text::id_char(b[0])) && part == #[trigger] (a + name + b);
    law_texts::lemma_name_is_tight(name);
    let core = name + b;
    assert(part =~= a + core);
    law_texts::lemma_start_blank(a, core);
    let p = text::space_class();
    text::lemma_rspan(core, p);
    let cut = text::rspan(core, p);
    if core.len() - cut < name.len() {
        assert(p(core[name.len() - 1]));
        assert(core[name.len() - 1] == name.last());
    }
    let t = text::trimmed(part);
    let rest = t.skip(name.len() as int);
    assert(t =~= name + rest);
    if rest.len() > 0 {
        assert(rest[0] == b[0]);
    }
    law_texts::law_names_at_the_ends(name, rest);
}

/// A lambda that declares parameters, as it is written on a line.
pub open spec fn lambda_line(
    head: Seq<char>,
    parts: Seq<Seq<char>>,
    tail: Seq<char>,
) -> Seq<char> {
    head + seq!['{'] + law_texts::joined(parts, ',') + "->"@ + tail
}

/// Whether parts are the parameters of a lambda, whose names are given, and no arrow stands
/// before theirs.
pub open spec fn is_lambda_line(
    head: Seq<char>,
    parts: Seq<Seq<char>>,
    names: Seq<Seq<char>>,
) -> bool {
    &&& parts.len() == names.len() > 0
    &&& forall|i: int|
        0 <= i < parts.len() ==> law_texts::lacks(#[trigger] parts[i], ',') && declares(parts[i], names[i])
    &&& law_texts::lacks(law_texts::joined(parts, ','), '{')
    &&& law_texts::lacks(law_texts::joined(parts, ','), '-')
    &&& forall|j: int| 0 <= j < head.len() - 1 ==> !(#[trigger] head[j] == '-' && head[j + 1] == '>')
}

/// A lambda's parameter is found where its lambda opens, at its place among the parameters.
#[verifier::rlimit(60)]
pub proof fn law_parameter_on_a_line(
    head: Seq<char>,
    parts: Seq<Seq<char>>,
    names: Seq<Seq<char>>,
    tail: Seq<char>,
    k: int,
)
    requires
        is_lambda_line(head, parts, names),
        0 <= k < names.len(),
        forall|i: int| 0 <= i < k ==> #[trigger] names[i] != names[k],
    ensures
        lambda_params::declaration(lambda_line(head, parts, tail), names[k]) == Some(
            (head.len() as int, k),
        ),
{
    let line = lambda_line(head, parts, tail);
    let inner = law_texts::joined(parts, ',');
    let param = names[k];
    let n = head.len() as int;
    let p = n + 1 + inner.len();
    reveal_strlit("->");
    assert(line[p] == '-');
    assert(line[p + 1] == '>');
    assert(line.subrange(p, p + 2) =~= "->"@);
    assert forall|j: int| 0 <= j < p implies !#[trigger] law_texts::occurs(line, "->"@, j) by {
        if law_texts::occurs(line, "->"@, j) {
            let two = line.subrange(j, j + 2);
            assert(two[0] == '-' && two[1] == '>');
            assert(line[j] == '-' && line[j + 1] == '>');
            if j < n - 1 {
                assert(head[j] == '-' && head[j + 1] == '>');
            } else if j == n - 1 {
                assert(line[j + 1] == '{');
            } else if j > n {
                assert(line[j] == inner[j - n - 1]);
            }
        }
    }
    law_texts::lemma_found_at(line, "->"@, p);
    assert(line.skip(0) =~= line);
    let before = line.take(p);
    assert(before =~= head + seq!['{'] + inner);
    law_texts::law_character_is_found(head, '{', inner);
    assert(text::rindex_of(before, '{') == Some(n));
    assert(line.subrange(n + 1, p) =~= inner);
    let all = lambda_params::arrows(line);
    assert(all[0] == (n, inner));
    assert forall|i: int| 0 <= i < parts.len() implies law_texts::lacks(#[trigger] parts[i], ',') by {}
    law_texts::law_parts_are_parted(parts, ',');
    let q = lambda_params::names_it(param);
    assert forall|i: int| 0 <= i < k implies !q(#[trigger] parts[i]) by {
        lemma_declares(parts[i], names[i]);
        assert(names[i] != param);
    }
    lemma_declares(parts[k], names[k]);
    assert(q(parts[k]));
    lists::lemma_first(parts, q, k);
    assert(lambda_params::param_place(inner, param) == Some(k));
    let w = lambda_params::declares(param);
    assert(w(all[0]));
    lists::lemma_first(all, w, 0);
}

/// On a line without an arrow no lambda declares a parameter.
pub proof fn law_no_parameter_on_a_line(line: Seq<char>, name: Seq<char>)
    requires
        forall|j: int| 0 <= j < line.len() - 1 ==> !(#[trigger] line[j] == '-' && line[j + 1] == '>'),
    ensures
        lambda_params::declaration(line, name) is None,
{
    reveal_strlit("->");
    law_texts::law_text_is_found_first(line, "->"@);
    assert forall|j: int| !#[trigger] law_texts::occurs(line, "->"@, j) by {
        if law_texts::occurs(line, "->"@, j) {
            let two = line.subrange(j, j + 2);
            assert(two[0] == '-' && two[1] == '>');
            assert(line[j] == '-' && line[j + 1] == '>');
        }
    }
    assert(line.skip(0) =~= line);
    let all = lambda_params::arrows(line);
    assert(all =~= Seq::empty());
    lists::lemma_no_first(all, lambda_params::declares(name));
}

proof fn lemma_named_from(
    f: Facts,
    lines: Seq<Seq<char>>,
    name: Seq<char>,
    uri: Seq<char>,
    position: Position,
    at: int,
    ln: int,
    low: int,
    d: (int, int),
    t: Seq<char>,
)
    requires
        0 <= low <= at <= ln < lines.len(),
        lambda_params::declaration(lines[at], name) == Some(d),
        receiver::context_input(f, lines[at].take(d.0), uri, Some(position)) == Some(t),
        !law_inputs::looks_generic(t),
        forall|i: int|
            at < i <= ln ==> lambda_params::declaration(#[trigger] lines[i], name) is None,
    ensures
        it_this::named_from(f, lines, name, uri, position, ln, low) == Some(t),
    decreases ln - at,
{
    assert(scan::line_at(lines, ln) == lines[ln]);
    if at < ln {
        assert(lambda_params::declaration(lines[ln], name) is None);
        lemma_named_from(f, lines, name, uri, position, at, ln - 1, low, d, t);
    }
}

/// Without a syntax tree a named parameter has the type that the text before its lambda says: that
/// of the nearest line, from the cursor's upwards, on which a lambda declares it.
pub proof fn law_named_parameter_by_the_text(
    f: Facts,
    lines: Seq<Seq<char>>,
    pos: CursorPos,
    at: int,
    head: Seq<char>,
    parts: Seq<Seq<char>>,
    names: Seq<Seq<char>>,
    tail: Seq<char>,
    k: int,
    t: Seq<char>,
    uri: Seq<char>,
)
    requires
        pos.line < lines.len(),
        0 <= at <= pos.line <= at + 40,
        lines[at] == lambda_line(head, parts, tail),
        is_lambda_line(head, parts, names),
        0 <= k < names.len(),
        forall|i: int| 0 <= i < k ==> #[trigger] names[i] != names[k],
        forall|i: int, j: int|
            at < i <= pos.line && 0 <= j < lines[i].len() - 1 ==> !(#[trigger] lines[i][j] == '-'
                && lines[i][j + 1] == '>'),
        forall|p: Position| #[trigger] receiver::context_input(f, head, uri, Some(p)) == Some(t),
        !law_inputs::looks_generic(t),
    ensures
        it_this::named_type_in(f, lines, names[k], pos, None, uri) == Some(t),
{
    law_parameter_on_a_line(head, parts, names, tail, k);
    assert forall|i: int| at < i <= pos.line implies lambda_params::declaration(
        #[trigger] lines[i],
        names[k],
    ) is None by {
        assert forall|j: int| 0 <= j < lines[i].len() - 1 implies !(#[trigger] lines[i][j] == '-'
            && lines[i][j + 1] == '>') by {}
        law_no_parameter_on_a_line(lines[i], names[k]);
    }
    assert(lines[at].take(head.len() as int) =~= head);
    let p = it_this::position_of(pos);
    assert(receiver::context_input(f, head, uri, Some(p)) == Some(t));
    lemma_named_from(
        f,
        lines,
        names[k],
        uri,
        p,
        at,
        pos.line as int,
        scan::walk_start(pos.line as int, 40),
        (head.len() as int, k),
        t,
    );
}

// ---------------------------------------------------------------------------
// Labelled arguments
// ---------------------------------------------------------------------------

/// What stands before the brace of a lambda that is a labelled argument: white space or a comma,
/// the label and an equals sign.
pub open spec fn labelled(
    before: Seq<char>,
    label: Seq<char>,
    gap: Seq<char>,
    space: Seq<char>,
) -> Seq<char> {
    before + label + gap + seq!['='] + space
}

/// Whether the pieces make a labelled argument.
pub open spec fn is_labelled(
    before: Seq<char>,
    label: Seq<char>,
    gap: Seq<char>,
    space: Seq<char>,
) -> bool {
    &&& law_texts::is_name(label)
    &&& unicode::lowercase(label[0])
    &&& law_texts::blank(gap)
    &&& law_texts::blank(space)
    &&& before.len() > 0 ==> !text::id_char(before.last())
    &&& law_texts::blank(before) || exists|a: Seq<char>, b: Seq<char>|
        law_texts::blank(a) && law_texts::blank(b) && before == #[trigger] (a + seq![','] + b)
}

/// The label of an argument is read, on a line of its own or behind a comma.
#[verifier::rlimit(60)]
pub proof fn law_label_is_read(
    before: Seq<char>,
    label: Seq<char>,
    gap: Seq<char>,
    space: Seq<char>,
)
    requires
        is_labelled(before, label, gap, space),
    ensures
        sig::arg_name(labelled(before, label, gap, space)) == Some(label),
{
    law_texts::lemma_name_is_tight(label);
    let t = before + label + gap + seq!['='];
    assert(labelled(before, label, gap, space) =~= t + space);
    assert(t.last() == '=');
    law_texts::lemma_end_blank(t, space);
    let head = before + label;
    assert(t.drop_last() =~= head + gap);
    assert(head.last() == label.last());
    law_texts::lemma_end_blank(head, gap);
    reveal_strlit(",");
    if law_texts::blank(before) {
        law_texts::law_trimming(before, Seq::empty(), Seq::empty());
        assert(before + Seq::<char>::empty() + Seq::<char>::empty() =~= before);
        assert(text::trimmed(before).len() == 0);
    } else {
        let (a, b) = choose|a: Seq<char>, b: Seq<char>|
            law_texts::blank(a) && law_texts::blank(b) && before == #[trigger] (a + seq![','] + b);
        law_texts::law_trimming(a, seq![','], b);
        assert(text::trimmed(before) == seq![',']);
        assert(","@ =~= seq![',']);
    }
    law_texts::law_names_at_the_ends(label, before);
    assert(head.take(head.len() - label.len()) =~= before);
}

/// In a lambda that is a labelled argument of a call, which may begin on an earlier line, the
/// parameters have the inputs of the function type of the parameter that the label names.
#[verifier::rlimit(60)]
pub proof fn law_inputs_of_a_labelled_argument(
    f: Facts,
    lines: Seq<Seq<char>>,
    line_no: int,
    before: Seq<char>,
    gap: Seq<char>,
    space: Seq<char>,
    r: int,
    c: int,
    a: int,
    b: int,
    name: Seq<char>,
    params: Seq<Seq<char>>,
    j: int,
    p: FunParam,
    items: Seq<Seq<char>>,
    n: int,
    t: Seq<char>,
    uri: Seq<char>,
)
    requires
        is_labelled(before, p.name, gap, space),
        0 <= line_no < lines.len(),
        law_cursors::is_open(
            lines,
            Brackets::Calls,
            r,
            c,
            line_no,
            labelled(before, p.name, gap, space).len() as int,
        ),
        line_no <= r + 20,
        law_words::is_chain(lines[r], a, b, c),
        lines[r].subrange(b, c) == name,
        law_texts::is_name(name),
        (f.fun_params)(name, uri) == Some(law_sigs::listed(params)),
        law_sigs::all_items(params),
        forall|i: int| 0 <= i < params.len() ==> law_sigs::has_ink(#[trigger] params[i]),
        0 <= j < params.len(),
        params[j] == law_lambdas::param_text(p),
        forall|i: int| 0 <= i < j ==> sig::param_name(#[trigger] params[i]) != Some(p.name),
        law_lambdas::is_fun_param(p),
        law_inputs::input_is(p, items, n, t),
    ensures
        receiver::named_argument_input(
            f,
            labelled(before, p.name, gap, space),
            n,
            lines,
            line_no,
            uri,
        ) == Some(t),
{
    let text_before = labelled(before, p.name, gap, space);
    let m = text_before.len() as int;
    law_label_is_read(before, p.name, gap, space);
    law_cursors::law_nearest_open_bracket(lines, Brackets::Calls, r, c, line_no, m, scan::walk_start(line_no, 20));
    law_texts::lemma_name_is_tight(name);
    assert(lines[r][c - 1] == name.last());
    lemma_call_name(lines, r, c, a, b);
    assert(scope::call_name(lines, line_no, m) == Some(name));
    law_lambdas::lemma_fun_param(p);
    law_sigs::law_parameter_is_found_by_name(params, p.name, j);
    law_inputs::lemma_input(p, items, n, t);
    law_texts::law_last_segment(Seq::empty(), name);
    law_texts::law_character_is_found(name, '.', Seq::empty());
}

proof fn lemma_call_name(lines: Seq<Seq<char>>, r: int, c: int, a: int, b: int)
    requires
        0 <= r < lines.len(),
        law_words::is_chain(lines[r], a, b, c),
        b < c,
        lines[r][c - 1] != '.',
    ensures
        scope::without_dots(
            text::suffix_of(scan::line_at(lines, r).take(c), text::dotted_class()),
        ) == lines[r].subrange(b, c),
{
    let head = scan::line_at(lines, r).take(c);
    let q = text::dotted_class();
    assert forall|i: int| a <= i < c implies q(#[trigger] head[i]) by {
        if i < b {
            assert(lines[r][i] == '.');
        } else {
            assert(law_words::link(lines[r][i]));
        }
    }
    if a > 0 {
        assert(head[a - 1] == lines[r][a - 1]);
    }
    text::lemma_rspan_unique(head, q, c - a);
    let run = head.skip(a);
    assert(text::suffix_of(head, q) == run);
    let dot = text::only('.');
    assert forall|i: int| 0 <= i < b - a implies dot(#[trigger] run[i]) by {
        assert(lines[r][i + a] == '.');
    }
    assert(run[b - a] == lines[r][b]);
    text::lemma_span_unique(run, dot, b - a);
    let name = run.skip(b - a);
    assert(name =~= lines[r].subrange(b, c));
    assert(name.last() == lines[r][c - 1]);
    text::lemma_rspan_unique(name, dot, 0);
    assert(name.take(name.len() as int) =~= name);
}

// ---------------------------------------------------------------------------
// Arguments by place
// ---------------------------------------------------------------------------

proof fn lemma_open_commas(s: Seq<char>, i: int, n: int, k: nat)
    requires
        0 <= i < n <= s.len(),
        s[i] == '(',
        forall|j: int| i < j < n ==> #[trigger] s[j] != '(' && s[j] != ')',
    ensures
        brackets::open_before(s, n, 0, k) == Some(
            (i, (k + law_hovers::count(s.subrange(i + 1, n), ',')) as nat),
        ),
    decreases n,
{
    let inner = s.subrange(i + 1, n);
    lemma_count_bounds(inner, ',');
    if i < n - 1 {
        assert(s[n - 1] != '(' && s[n - 1] != ')');
        assert(inner.drop_last() =~= s.subrange(i + 1, n - 1));
        assert(inner.last() == s[n - 1]);
        lemma_count_bounds(inner.drop_last(), ',');
        if s[n - 1] == ',' {
            lemma_open_commas(s, i, n - 1, k + 1);
        } else {
            lemma_open_commas(s, i, n - 1, k);
        }
    } else {
        assert(inner =~= Seq::empty());
        assert(law_hovers::count(inner, ',') == 0);
    }
}

proof fn lemma_count_bounds(s: Seq<char>, k: char)
    ensures
        law_hovers::count(s, k) >= 0,
    decreases s.len(),
{
    if s.len() > 0 {
        lemma_count_bounds(s.drop_last(), k);
    }
}

/// In a lambda that opens in the argument list of a plain call the parameter is the first input of
/// the function type that the parameter has at whose place the lambda stands: there are as many
/// parameters before it as commas.
#[verifier::rlimit(60)]
pub proof fn law_input_of_an_argument_by_place(
    f: Facts,
    indent: Seq<char>,
    lead: Seq<char>,
    name: Seq<char>,
    inner: Seq<char>,
    space: Seq<char>,
    params: Seq<Seq<char>>,
    p: FunParam,
    items: Seq<Seq<char>>,
    t: Seq<char>,
    uri: Seq<char>,
    position: Option<Position>,
)
    requires
        law_texts::blank(indent),
        indent.len() > 0 ==> !text::id_char(indent.last()),
        law_calls::is_lead(lead),
        law_texts::lacks(lead, '.'),
        law_texts::is_name(name),
        law_texts::lacks(inner, '('),
        law_texts::lacks(inner, ')'),
        inner.len() > 0 ==> !unicode::whitespace(inner.last()),
        law_texts::blank(space),
        (f.fun_params)(name, uri) == Some(law_sigs::listed(params)),
        (f.callable)(name, uri) is None,
        law_sigs::all_items(params),
        forall|i: int| 0 <= i < params.len() ==> law_sigs::has_ink(#[trigger] params[i]),
        law_hovers::count(inner, ',') < params.len(),
        params[law_hovers::count(inner, ',')] == law_lambdas::param_text(p),
        law_lambdas::is_fun_param(p),
        law_inputs::input_is(p, items, 0, t),
    ensures
        receiver::context_input(
            f,
            indent + lead + name + seq!['('] + inner + space,
            uri,
            position,
        ) == Some(t),
{
    let head = indent + lead + name;
    let whole = head + seq!['('] + inner;
    lemma_before_list(indent, lead, name);
    lemma_list_is_open(head, inner, space);
    lemma_count_bounds(inner, ',');
    law_lambdas::lemma_fun_param(p);
    law_sigs::law_lists_are_parted(params);
    let n = law_hovers::count(inner, ',');
    assert(sig::nth_type(law_sigs::listed(params), n) == sig::param_type(params[n]));
    law_inputs::lemma_input(p, items, 0, t);
    assert(receiver::argument_input(f, whole, uri) == Some(t));
    lemma_more_open(head, inner);
    assert(indent + lead + name + seq!['('] + inner + space =~= whole + space);
}

/// What stands before an argument list ends in the name of the call and holds no dot.
proof fn lemma_before_list(indent: Seq<char>, lead: Seq<char>, name: Seq<char>)
    requires
        law_texts::blank(indent),
        indent.len() > 0 ==> !text::id_char(indent.last()),
        law_calls::is_lead(lead),
        law_texts::lacks(lead, '.'),
        law_texts::is_name(name),
    ensures
        text::trimmed_end(indent + lead + name) == indent + lead + name,
        text::last_ident_of(indent + lead + name) == name,
        name.len() > 0,
        text::rindex_of(indent + lead + name, '.') is None,
        law_texts::lacks(indent + lead + name, '('),
        law_texts::lacks(indent + lead + name, ')'),
{
    let head = indent + lead + name;
    let front = indent + lead;
    law_texts::lemma_name_is_tight(name);
    assert(head.last() == name.last());
    law_texts::lemma_end_blank(head, Seq::empty());
    assert(head + Seq::<char>::empty() =~= head);
    assert(head =~= front + name);
    if front.len() > 0 {
        if lead.len() > 0 {
            assert(front.last() == lead.last());
        } else {
            assert(front.last() == indent.last());
        }
    }
    law_texts::law_names_at_the_ends(name, front);
    assert forall|j: int| 0 <= j < head.len() implies #[trigger] head[j] != '.' && head[j] != '('
        && head[j] != ')' by {
        if j < indent.len() {
            assert(head[j] == indent[j]);
            assert(unicode::whitespace(indent[j]));
        } else if j < front.len() {
            assert(head[j] == lead[j - indent.len()]);
        } else {
            assert(head[j] == name[j - front.len()]);
            assert(text::id_char(name[j - front.len()]));
        }
    }
    law_texts::law_character_is_found(head, '.', Seq::empty());
}

/// The list that opens behind a text is the nearest that is open, and its commas are counted.
proof fn lemma_list_is_open(head: Seq<char>, inner: Seq<char>, space: Seq<char>)
    requires
        law_texts::lacks(inner, '('),
        law_texts::lacks(inner, ')'),
        inner.len() > 0 ==> !unicode::whitespace(inner.last()),
        law_texts::blank(space),
    ensures
        text::trimmed_end(head + seq!['('] + inner + space) == head + seq!['('] + inner,
        brackets::open_before(
            head + seq!['('] + inner,
            (head + seq!['('] + inner).len() as int,
            0,
            0,
        ) == Some((head.len() as int, law_hovers::count(inner, ',') as nat)),
        (head + seq!['('] + inner).take(head.len() as int) == head,
{
    let whole = head + seq!['('] + inner;
    if inner.len() > 0 {
        assert(whole.last() == inner.last());
    } else {
        assert(whole.last() == '(');
    }
    law_texts::lemma_end_blank(whole, space);
    let i = head.len() as int;
    assert(whole[i] == '(');
    assert forall|j: int| i < j < whole.len() implies #[trigger] whole[j] != '(' && whole[j]
        != ')' by {
        assert(whole[j] == inner[j - i - 1]);
    }
    lemma_open_commas(whole, i, whole.len() as int, 0);
    assert(whole.subrange(i + 1, whole.len() as int) =~= inner);
    assert(whole.take(i) =~= head);
}

proof fn lemma_more_open(head: Seq<char>, inner: Seq<char>)
    requires
        law_texts::lacks(head, '('),
        law_texts::lacks(head, ')'),
        law_texts::lacks(inner, '('),
        law_texts::lacks(inner, ')'),
    ensures
        brackets::occurrences(head + seq!['('] + inner, '(') > brackets::occurrences(
            head + seq!['('] + inner,
            ')',
        ),
{
    let open = seq!['('];
    let whole = head + open + inner;
    law_hovers::lemma_count(whole, '(');
    law_hovers::lemma_count(whole, ')');
    law_calls::lemma_count_add(head + open, inner, '(');
    law_calls::lemma_count_add(head + open, inner, ')');
    law_calls::lemma_count_add(head, open, '(');
    law_calls::lemma_count_add(head, open, ')');
    law_calls::lemma_count_none(head, '(');
    law_calls::lemma_count_none(head, ')');
    law_calls::lemma_count_none(inner, '(');
    law_calls::lemma_count_none(inner, ')');
    reveal_with_fuel(law_hovers::count, 2);
    assert(open.drop_last() =~= Seq::empty());
    assert(law_hovers::count(open, '(') == 1 && law_hovers::count(open, ')') == 0);
}

proof fn lemma_decl_from(
    lines: Seq<Seq<char>>,
    uri: Seq<char>,
    name: Seq<char>,
    at: int,
    ln: int,
    low: int,
    d: (int, int),
)
    requires
        0 <= low <= at <= ln < lines.len(),
        lambda_params::declaration(lines[at], name) == Some(d),
        forall|i: int|
            at < i <= ln ==> lambda_params::declaration(#[trigger] lines[i], name) is None,
    ensures
        scope::decl_from(lines, uri, name, ln, low) == Some(
            (LocationView {
                uri,
                range: Range {
                    start: Position { line: at as u32, character: d.0 as u32 },
                    end: Position { line: at as u32, character: (d.0 + 1) as u32 },
                },
            }),
        ),
    decreases ln - at,
{
    assert(scan::line_at(lines, ln) == lines[ln]);
    if at < ln {
        assert(lambda_params::declaration(lines[ln], name) is None);
        lemma_decl_from(lines, uri, name, at, ln - 1, low, d);
    }
}

/// A lambda's parameter leads to the brace of the lambda that declares it: that on the nearest line
/// from the cursor's upwards.
pub proof fn law_parameter_leads_to_its_lambda(
    lines: Seq<Seq<char>>,
    uri: Seq<char>,
    ln: int,
    low: int,
    at: int,
    head: Seq<char>,
    parts: Seq<Seq<char>>,
    names: Seq<Seq<char>>,
    tail: Seq<char>,
    k: int,
)
    requires
        0 <= low <= at <= ln < lines.len(),
        lines[at] == lambda_line(head, parts, tail),
        is_lambda_line(head, parts, names),
        0 <= k < names.len(),
        forall|i: int| 0 <= i < k ==> #[trigger] names[i] != names[k],
        forall|i: int, j: int|
            at < i <= ln && 0 <= j < lines[i].len() - 1 ==> !(#[trigger] lines[i][j] == '-'
                && lines[i][j + 1] == '>'),
    ensures
        scope::decl_from(lines, uri, names[k], ln, low) == Some(
            (LocationView {
                uri,
                range: Range {
                    start: Position { line: at as u32, character: head.len() as u32 },
                    end: Position { line: at as u32, character: (head.len() + 1) as u32 },
                },
            }),
        ),
{
    law_parameter_on_a_line(head, parts, names, tail, k);
    assert forall|i: int| at < i <= ln implies lambda_params::declaration(
        #[trigger] lines[i],
        names[k],
    ) is None by {
        assert forall|j: int| 0 <= j < lines[i].len() - 1 implies !(#[trigger] lines[i][j] == '-'
            && lines[i][j + 1] == '>') by {}
        law_no_parameter_on_a_line(lines[i], names[k]);
    }
    lemma_decl_from(lines, uri, names[k], at, ln, low, (head.len() as int, k));
}

/// A name that begins with no capital and holds no dot is a lambda's parameter where a lambda on
/// the line declares it, or where it is among those in scope.
pub proof fn law_names_of_lambda_parameters(
    head: Seq<char>,
    parts: Seq<Seq<char>>,
    names: Seq<Seq<char>>,
    tail: Seq<char>,
    k: int,
    line: Seq<char>,
    known: Seq<Seq<char>>,
)
    requires
        is_lambda_line(head, parts, names),
        0 <= k < names.len(),
        forall|i: int| 0 <= i < k ==> #[trigger] names[i] != names[k],
        !unicode::uppercase(names[k][0]),
    ensures
        it_this::names_lambda_param(names[k], lambda_line(head, parts, tail), known),
        known.contains(names[k]) ==> it_this::names_lambda_param(names[k], line, known),
        !known.contains(names[k]) && (forall|j: int|
            0 <= j < line.len() - 1 ==> !(#[trigger] line[j] == '-' && line[j + 1] == '>'))
            ==> !it_this::names_lambda_param(names[k], line, known),
{
    law_parameter_on_a_line(head, parts, names, tail, k);
    let name = names[k];
    assert(declares(parts[k], names[k]));
    law_texts::lemma_name_is_tight(name);
    assert(!name.contains('.')) by {
        if name.contains('.') {
            let i = choose|i: int| 0 <= i < name.len() && name[i] == '.';
            assert(name[i] != '.');
        }
    }
    if forall|j: int| 0 <= j < line.len() - 1 ==> !(#[trigger] line[j] == '-' && line[j + 1] == '>') {
        law_no_parameter_on_a_line(line, name);
    }
}

} // verus!
