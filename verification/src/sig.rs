//! Signatures: parameter lists, and calls of functions that have them.
use vstd::prelude::*;
use vstd::string::*;

use crate::brackets;
use crate::lists;
use crate::text;

verus! {

// ---------------------------------------------------------------------------
// Parameter lists
// ---------------------------------------------------------------------------

/// Whether a part of a list holds more than whitespace.
pub open spec fn not_blank() -> spec_fn(Seq<char>) -> bool {
    |p: Seq<char>| text::trimmed(p).len() > 0
}

/// The parameters of a list.
pub open spec fn params_in(params: Seq<char>) -> Seq<Seq<char>> {
    brackets::split_top(params).filter(not_blank())
}

/// The parameters of a list.
pub fn params_of<'a>(params: &'a str) -> (r: Vec<&'a str>)
    ensures
        r.deep_view() == params_in(params@),
{
    let parts = brackets::split_params_at_depth_zero(params);
    let ghost all = parts.deep_view();
    let ghost p = not_blank();
    let mut out: Vec<&'a str> = Vec::new();
    let mut i: usize = 0;
    proof {
        reveal(Seq::filter);
        assert(out.deep_view() =~= all.take(0).filter(p));
    }
    while i < parts.len()
        invariant
            i <= parts@.len(),
            all == parts.deep_view(),
            p == not_blank(),
            out.deep_view() == all.take(i as int).filter(p),
        decreases parts@.len() - i,
    {
        let part = parts[i];
        let ghost before = out.deep_view();
        proof {
            assert(all[i as int] == part@);
            assert(all.take(i as int).push(part@) =~= all.take(i + 1));
            all.take(i as int).lemma_filter_push(part@, p);
        }
        if !text::trim(part).is_empty() {
            out.push(part);
            assert(out.deep_view() =~= before.push(part@));
        }
        i += 1;
    }
    assert(all.take(all.len() as int) =~= all);
    out
}

/// What stands before the first `k` of `s`; all of `s` where there is none.
pub open spec fn upto(s: Seq<char>, k: char) -> Seq<char> {
    text::prefix_of(s, text::all_but(k))
}

/// The type of a parameter: what stands between its colon and its default value.
pub open spec fn param_type(param: Seq<char>) -> Option<Seq<char>> {
    match text::index_of(param, ':') {
        Some(i) => {
            let t = text::trimmed(upto(param.skip(i + 1), '='));
            if t.len() > 0 {
                Some(t)
            } else {
                None
            }
        },
        None => None,
    }
}

/// The name of a parameter: the identifier before its colon.
pub open spec fn param_name(param: Seq<char>) -> Option<Seq<char>> {
    match text::index_of(param, ':') {
        Some(i) => Some(text::last_ident_of(text::trimmed_end(param.take(i)))),
        None => None,
    }
}

/// The type of a parameter: what stands between its colon and its default value.
pub fn type_of_param(param: &str) -> (r: Option<String>)
    ensures
        r.deep_view() == param_type(param@),
{
    match text::find_char(param, ':') {
        Some(i) => {
            let n: usize = param.unicode_len();
            assert(i < n);
            let rest = text::skip(param, i + 1);
            let t = text::trim(text::prefix_class(rest, text::CharClass::AllBut('=')));
            if t.is_empty() {
                None
            } else {
                Some(t.to_owned())
            }
        },
        None => None,
    }
}

/// The type of the parameter at `n`; that of the last one where the list is shorter.
pub open spec fn nth_type(params: Seq<char>, n: int) -> Option<Seq<char>> {
    let p = params_in(params);
    if p.len() == 0 {
        None
    } else if n < p.len() {
        param_type(p[n])
    } else {
        param_type(p.last())
    }
}

/// The type of the parameter at `n`; that of the last one where the list is shorter.
pub fn nth_fun_param_type_str(params: &str, n: usize) -> (r: Option<String>)
    ensures
        r.deep_view() == nth_type(params@, n as int),
{
    let p = params_of(params);
    let ghost all = p.deep_view();
    let len: usize = p.len();
    if len == 0 {
        return None;
    }
    let at: usize = if n < len {
        n
    } else {
        len - 1
    };
    assert(all[at as int] == p@[at as int]@);
    type_of_param(p[at])
}

/// The type of the last parameter.
pub open spec fn last_type(params: Seq<char>) -> Option<Seq<char>> {
    let p = params_in(params);
    if p.len() == 0 {
        None
    } else {
        param_type(p.last())
    }
}

/// The type of the last parameter.
pub fn last_fun_param_type_str(params: &str) -> (r: Option<String>)
    ensures
        r.deep_view() == last_type(params@),
{
    let p = params_of(params);
    let ghost all = p.deep_view();
    let len: usize = p.len();
    if len == 0 {
        return None;
    }
    assert(all[len - 1] == p@[len - 1]@);
    type_of_param(p[len - 1])
}

/// Whether a parameter bears the name.
pub open spec fn param_named(name: Seq<char>) -> spec_fn(Seq<char>) -> bool {
    |p: Seq<char>| param_name(p) == Some(name)
}

/// The type of the parameter of a name.
pub open spec fn named_type(params: Seq<char>, name: Seq<char>) -> Option<Seq<char>> {
    match lists::find_where(params_in(params), param_named(name)) {
        Some(p) => param_type(p),
        None => None,
    }
}

fn has_name(param: &str, name: &str) -> (r: bool)
    ensures
        r == param_named(name@)(param@),
{
    match text::find_char(param, ':') {
        Some(i) => text::same(text::last_ident_in(text::trim_end(text::take(param, i))), name),
        None => false,
    }
}

/// The type of the parameter of a name.
pub fn find_named_param_type_in_sig(sig: &str, name: &str) -> (r: Option<String>)
    ensures
        r.deep_view() == named_type(sig@, name@),
{
    let params = params_of(sig);
    let ghost all = params.deep_view();
    let ghost p = param_named(name@);
    let mut i: usize = 0;
    while i < params.len()
        invariant
            i <= params@.len(),
            all == params.deep_view(),
            all == params_in(sig@),
            p == param_named(name@),
            forall|k: int| 0 <= k < i ==> !p(#[trigger] all[k]),
        decreases params@.len() - i,
    {
        assert(all[i as int] == params@[i as int]@);
        if has_name(params[i], name) {
            proof {
                lists::lemma_first(all, p, i as int);
            }
            return type_of_param(params[i]);
        }
        i += 1;
    }
    proof {
        lists::lemma_no_first(all, p);
    }
    None
}

// ---------------------------------------------------------------------------
// Calls
// ---------------------------------------------------------------------------

/// Where the argument list that ends `s` begins.
pub open spec fn args_open(s: Seq<char>) -> Option<int> {
    let t = text::trimmed_end(s);
    if t.len() > 0 && t.last() == ')' {
        match brackets::open_before(t, t.len() - 1, 0, 0) {
            Some(p) => Some(p.0),
            None => None,
        }
    } else {
        None
    }
}

/// A call without the argument list that ends it.
pub open spec fn without_args(s: Seq<char>) -> Seq<char> {
    match args_open(s) {
        Some(i) => s.take(i),
        None => s,
    }
}

fn args_open_at(s: &str) -> (r: Option<usize>)
    ensures
        match r {
            Some(i) => args_open(s@) == Some(i as int) && i < s@.len() && i
                < text::trimmed_end(s@).len(),
            None => args_open(s@) is None,
        },
{
    let t = text::trim_end(s);
    let n: usize = t.unicode_len();
    proof {
        text::lemma_rspan(s@, text::space_class());
    }
    if n == 0 || t.get_char(n - 1) != ')' {
        return None;
    }
    match brackets::unclosed_paren(t, n - 1) {
        Some(p) => Some(p.0),
        None => None,
    }
}

/// A call without the argument list that ends it.
pub fn strip_trailing_call_args<'a>(s: &'a str) -> (r: &'a str)
    ensures
        r@ == without_args(s@),
{
    match args_open_at(s) {
        Some(i) => text::take(s, i),
        None => s,
    }
}

/// The first argument of the call that ends `s`.
pub open spec fn first_arg(s: Seq<char>) -> Option<Seq<char>> {
    match args_open(s) {
        Some(i) => {
            let args = text::trimmed_end(s);
            let list = params_in(args.subrange(i + 1, args.len() - 1));
            if list.len() > 0 {
                Some(text::trimmed(list[0]))
            } else {
                None
            }
        },
        None => None,
    }
}

/// The first argument of the call that ends `s`.
pub fn extract_first_arg<'a>(s: &'a str) -> (r: Option<&'a str>)
    ensures
        r.deep_view() == first_arg(s@),
{
    match args_open_at(s) {
        Some(i) => {
            let t = text::trim_end(s);
            let n: usize = t.unicode_len();
            proof {
                lemma_args_open(s@);
            }
            let list = params_of(text::slice(t, i + 1, n - 1));
            let ghost all = list.deep_view();
            if list.len() == 0 {
                None
            } else {
                assert(all[0] == list@[0]@);
                Some(text::trim(list[0]))
            }
        },
        None => None,
    }
}

/// The argument list begins before the parenthesis that ends it.
proof fn lemma_args_open(s: Seq<char>)
    ensures
        match args_open(s) {
            Some(i) => 0 <= i < text::trimmed_end(s).len() - 1,
            None => true,
        },
{
    let t = text::trimmed_end(s);
    if t.len() > 0 {
        lemma_open_before(t, t.len() - 1, 0, 0);
    }
}

proof fn lemma_open_before(s: Seq<char>, n: int, d: nat, k: nat)
    ensures
        match brackets::open_before(s, n, d, k) {
            Some(p) => 0 <= p.0 < n,
            None => true,
        },
    decreases n,
{
    if n > 0 {
        if s[n - 1] == ')' {
            lemma_open_before(s, n - 1, d + 1, k);
        } else if s[n - 1] == '(' {
            if d > 0 {
                lemma_open_before(s, n - 1, (d - 1) as nat, k);
            }
        } else if s[n - 1] == ',' && d == 0 {
            lemma_open_before(s, n - 1, d, k + 1);
        } else {
            lemma_open_before(s, n - 1, d, k);
        }
    }
}

/// The name of the argument that a text ending in `name =` begins; the name begins with a
/// lowercase letter, and nothing but whitespace or one comma stands before it.
pub open spec fn arg_name(s: Seq<char>) -> Option<Seq<char>> {
    let t = text::trimmed_end(s);
    if t.len() == 0 || t.last() != '=' {
        None
    } else {
        let head = text::trimmed_end(t.drop_last());
        let name = text::last_ident_of(head);
        let before = text::trimmed(head.take(head.len() - name.len()));
        if text::lower_start(name) && (before.len() == 0 || before == ","@) {
            Some(name)
        } else {
            None
        }
    }
}

/// The name of the argument that a text ending in `name =` begins.
pub fn extract_named_arg_name<'a>(s: &'a str) -> (r: Option<&'a str>)
    ensures
        r.deep_view() == arg_name(s@),
{
    let t = text::trim_end(s);
    let n: usize = t.unicode_len();
    if n == 0 || t.get_char(n - 1) != '=' {
        return None;
    }
    let whole = text::take(t, n - 1);
    assert(whole@ =~= t@.drop_last());
    let head = text::trim_end(whole);
    let name = text::last_ident_in(head);
    proof {
        text::lemma_rspan(head@, text::ident_class());
    }
    let h: usize = head.unicode_len();
    let w: usize = name.unicode_len();
    let before = text::trim(text::take(head, h - w));
    if text::starts_with_lowercase(name) && (before.is_empty() || text::same(before, ",")) {
        Some(name)
    } else {
        None
    }
}

/// Whether a lambda that begins with `after_brace` names its parameters: the name before its
/// first arrow is neither missing, nor `it`, nor `_`.
pub open spec fn names_params(after_brace: Seq<char>) -> bool {
    match text::find_text(after_brace, "->"@) {
        Some(i) => {
            let name = text::ident_of(text::trimmed(upto(after_brace.take(i), ',')));
            name.len() > 0 && name != "it"@ && name != "_"@
        },
        None => false,
    }
}

/// Whether a lambda that begins with `after_brace` names its parameters.
pub fn has_named_params_not_it(after_brace: &str) -> (r: bool)
    ensures
        r == names_params(after_brace@),
{
    match text::find(after_brace, "->") {
        Some(i) => {
            let head = text::take(after_brace, i);
            let name = text::ident_prefix(
                text::trim(text::prefix_class(head, text::CharClass::AllBut(','))),
            );
            !name.is_empty() && !text::same(name, "it") && !text::same(name, "_")
        },
        None => false,
    }
}

// ---------------------------------------------------------------------------
// Declarations
// ---------------------------------------------------------------------------

/// The parameter list of a declaration: what stands in its first parentheses.
pub open spec fn declared_params(detail: Seq<char>) -> Option<Seq<char>> {
    match text::index_of(detail, '(') {
        Some(i) => match brackets::close_after(detail, i + 1, 0) {
            Some(j) => Some(detail.subrange(i + 1, j)),
            None => None,
        },
        None => None,
    }
}

/// The parameter list of a declaration; empty for one that takes no parameters.
pub fn extract_params_from_detail(detail: &str) -> (r: Option<String>)
    ensures
        r.deep_view() == declared_params(detail@),
{
    match text::find_char(detail, '(') {
        Some(i) => {
            let n: usize = detail.unicode_len();
            assert(i < n);
            match brackets::closing_paren(detail, i + 1) {
                Some(j) => Some(text::slice(detail, i + 1, j).to_owned()),
                None => None,
            }
        },
        None => None,
    }
}

/// How many lines a signature may take.
pub const SIGNATURE_LINES: usize = 15;

/// Whether a signature that begins with `head` is complete: its parentheses are closed and the
/// next line does not begin with a colon.
pub open spec fn complete(head: Seq<char>, next: Option<Seq<char>>) -> bool {
    brackets::occurrences(head, '(') <= brackets::occurrences(head, ')') && match next {
        Some(line) => !text::starts_with(text::trimmed_start(line), ":"@),
        None => true,
    }
}

/// The signature begun by `head`, with up to `left` of the lines from `at` on; it ends where
/// the body's brace opens.
pub open spec fn gathered(lines: Seq<Seq<char>>, at: int, left: nat, head: Seq<char>) -> Seq<char>
    decreases left,
{
    if left == 0 || at < 0 || at >= lines.len() {
        head
    } else {
        let line = lines[at];
        let sep = if head.len() == 0 {
            Seq::empty()
        } else {
            seq!['\n']
        };
        match text::index_of(line, '{') {
            Some(i) => head + sep + line.take(i),
            None => {
                let now = head + sep + line;
                let next = if at + 1 < lines.len() {
                    Some(lines[at + 1])
                } else {
                    None
                };
                if complete(now, next) {
                    now
                } else {
                    gathered(lines, at + 1, (left - 1) as nat, now)
                }
            },
        }
    }
}

/// The signature that begins on a line, without the body's brace.
pub open spec fn signature(lines: Seq<Seq<char>>, start: int) -> Seq<char> {
    text::trimmed_end(gathered(lines, start, SIGNATURE_LINES as nat, Seq::empty()))
}

/// The signature that begins on a line, without the body's brace.
pub fn collect_signature(lines: &Vec<String>, start: usize) -> (r: String)
    ensures
        r@ == signature(lines.deep_view(), start as int),
{
    let ghost all = lines.deep_view();
    let mut head = String::new();
    let mut at: usize = start;
    let mut left: usize = SIGNATURE_LINES;
    while left > 0 && at < lines.len()
        invariant_except_break
            all == lines.deep_view(),
            gathered(all, start as int, SIGNATURE_LINES as nat, Seq::empty()) == gathered(
                all,
                at as int,
                left as nat,
                head@,
            ),
        ensures
            head@ == gathered(all, start as int, SIGNATURE_LINES as nat, Seq::empty()),
        decreases left,
    {
        let line = lines[at].as_str();
        let ghost before = head@;
        proof {
            assert(all[at as int] == line@);
            assert(before + Seq::<char>::empty() =~= before);
        }
        if !head.as_str().is_empty() {
            head.push('\n');
            assert(head@ =~= before + seq!['\n']);
        }
        match text::find_char(line, '{') {
            Some(i) => {
                head.append(text::take(line, i));
                break ;
            },
            None => {
                head.append(line);
                let n: usize = lines.len();
                let more = at + 1 < n && text::has_prefix(
                    text::trim_start(lines[at + 1].as_str()),
                    ":",
                );
                proof {
                    if at + 1 < n {
                        assert(all[at + 1] == lines@[at + 1]@);
                    }
                }
                if !brackets::has_unclosed_paren(head.as_str()) && !more {
                    break ;
                }
            },
        }
        at += 1;
        left -= 1;
    }
    text::trim_end(head.as_str()).to_owned()
}

/// Whether a line holds an annotation.
pub open spec fn annotation_line() -> spec_fn(Seq<char>) -> bool {
    |line: Seq<char>| text::starts_with(text::trimmed_start(line), "@"@)
}

/// The first line from `start` on that holds no annotation.
pub open spec fn past_annotations(lines: Seq<Seq<char>>, start: int) -> int
    decreases lines.len() - start,
{
    if 0 <= start < lines.len() && annotation_line()(lines[start]) {
        past_annotations(lines, start + 1)
    } else {
        start
    }
}

/// The parameter list of the declaration that begins on a line, past its annotations.
pub open spec fn params_at(lines: Seq<Seq<char>>, start: int) -> Option<Seq<char>> {
    declared_params(signature(lines, past_annotations(lines, start)))
}

/// The parameter list of the declaration that begins on a line, past its annotations.
pub fn collect_params_from_line(lines: &Vec<String>, start: usize) -> (r: Option<String>)
    ensures
        r.deep_view() == params_at(lines.deep_view(), start as int),
{
    let ghost all = lines.deep_view();
    let mut at: usize = start;
    while at < lines.len() && text::has_prefix(text::trim_start(lines[at].as_str()), "@")
        invariant
            start <= at,
            all == lines.deep_view(),
            past_annotations(all, start as int) == past_annotations(all, at as int),
        ensures
            at < lines@.len() ==> !annotation_line()(all[at as int]),
        decreases lines@.len() - at,
    {
        assert(all[at as int] == lines@[at as int]@);
        at += 1;
    }
    proof {
        if at < lines@.len() {
            assert(all[at as int] == lines@[at as int]@);
        }
    }
    let sig = collect_signature(lines, at);
    extract_params_from_detail(sig.as_str())
}

} // verus!
