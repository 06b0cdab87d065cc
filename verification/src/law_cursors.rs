//! What the text round a cursor says of the word, the call and the lambda that it stands in.
use vstd::prelude::*;
use vstd::string::*;

use crate::columns;
use crate::cst_lambda;
use crate::cst_lambda::{CtxView, LambdaParamKind, ThisView};
use crate::deps::Facts;
use crate::it_this;
use crate::law_inputs;
use crate::law_texts;
use crate::law_words;
use crate::receiver;
use crate::scan;
use crate::scan::Brackets;
use crate::scope;
use crate::sig;
use crate::text;
use crate::types::{CursorPos, Position};
use crate::unicode;

verus! {

// ---------------------------------------------------------------------------
// Open brackets
// ---------------------------------------------------------------------------

/// What a character adds to the number of open brackets: of braces, or of the brackets of calls.
pub open spec fn weight(kind: Brackets, c: char) -> int {
    match kind {
        Brackets::Braces => if c == '{' {
            1
        } else if c == '}' {
            -1
        } else {
            0
        },
        Brackets::Calls => if c == '(' || c == '[' {
            1
        } else if c == ')' || c == ']' {
            -1
        } else {
            0
        },
    }
}

/// How many more brackets are opened than closed from character `j` of line `x` to character `i`
/// of line `n`.
pub open spec fn excess(lines: Seq<Seq<char>>, kind: Brackets, x: int, j: int, n: int, i: int) -> int
    decreases n - x, lines[x].len() - j,
{
    if x >= n && j >= i {
        0
    } else if 0 <= j < lines[x].len() {
        weight(kind, lines[x][j]) + excess(lines, kind, x, j + 1, n, i)
    } else if x < n {
        excess(lines, kind, x + 1, 0, n, i)
    } else {
        0
    }
}

/// Whether a place, a line and a character, comes before another or is it.
pub open spec fn no_later(x: int, j: int, n: int, i: int) -> bool {
    x < n || x == n && j <= i
}

/// Whether the bracket at character `c` of line `r` is the nearest that is open before character
/// `i` of line `n`: behind it no more brackets are opened than closed, from wherever one counts.
pub open spec fn is_open(
    lines: Seq<Seq<char>>,
    kind: Brackets,
    r: int,
    c: int,
    n: int,
    i: int,
) -> bool {
    &&& 0 <= r <= n < lines.len()
    &&& 0 <= c < lines[r].len()
    &&& 0 <= i <= lines[n].len()
    &&& no_later(r, c + 1, n, i)
    &&& weight(kind, lines[r][c]) == 1
    &&& excess(lines, kind, r, c + 1, n, i) == 0
    &&& forall|x: int, j: int|
        0 <= x < lines.len() && 0 <= j <= lines[x].len() && no_later(r, c + 1, x, j) && no_later(
            x,
            j,
            n,
            i,
        ) ==> #[trigger] excess(lines, kind, x, j, n, i) <= 0
}

#[verifier::rlimit(60)]
proof fn lemma_walk(
    lines: Seq<Seq<char>>,
    kind: Brackets,
    r: int,
    c: int,
    n: int,
    i: int,
    x: int,
    j: int,
    low: int,
)
    requires
        is_open(lines, kind, r, c, n, i),
        0 <= x < lines.len(),
        0 <= j <= lines[x].len(),
        no_later(r, c + 1, x, j),
        no_later(x, j, n, i),
        low <= r,
    ensures
        excess(lines, kind, x, j, n, i) <= 0,
        scan::open_back(lines, kind, x, j, (-excess(lines, kind, x, j, n, i)) as nat, low) == Some(
            (r, c),
        ),
    decreases x, j,
{
    let here = excess(lines, kind, x, j, n, i);
    assert(here <= 0);
    if x == r && j == c + 1 {
        assert(scan::line_at(lines, x)[j - 1] == lines[r][c]);
    } else if j > 0 {
        let before = excess(lines, kind, x, j - 1, n, i);
        assert(before == weight(kind, lines[x][j - 1]) + here);
        assert(scan::line_at(lines, x)[j - 1] == lines[x][j - 1]);
        lemma_walk(lines, kind, r, c, n, i, x, j - 1, low);
    } else {
        let m = lines[x - 1].len() as int;
        assert(excess(lines, kind, x - 1, m, n, i) == here);
        assert(scan::line_at(lines, x - 1).len() == m);
        lemma_walk(lines, kind, r, c, n, i, x - 1, m, low);
    }
}

/// A walk back from a place finds the nearest bracket that is open there, unless that lies above
/// the last line that it may look at.
pub proof fn law_nearest_open_bracket(
    lines: Seq<Seq<char>>,
    kind: Brackets,
    r: int,
    c: int,
    n: int,
    i: int,
    low: int,
)
    requires
        is_open(lines, kind, r, c, n, i),
        low <= r,
    ensures
        scan::open_back(lines, kind, n, i, 0, low) == Some((r, c)),
{
    lemma_walk(lines, kind, r, c, n, i, n, i, low);
}

// ---------------------------------------------------------------------------
// Names of arguments
// ---------------------------------------------------------------------------

proof fn lemma_last_type(names: Seq<Seq<char>>, k: int, n: int)
    requires
        0 <= k < n <= names.len(),
        names[k].len() > 0,
        unicode::uppercase(names[k][0]),
        forall|j: int|
            k < j < names.len() ==> (#[trigger] names[j]).len() == 0 || !unicode::uppercase(
                names[j][0],
            ),
    ensures
        scope::last_type_segment(names, n) == Some(names[k]),
    decreases n,
{
    if k < n - 1 {
        assert(!text::upper_start(names[n - 1]));
        lemma_last_type(names, k, n - 1);
    }
}

/// A name before a single `=` in the arguments of a call is the name of a parameter: it is
/// qualified by the last name of the call that names a type.
#[verifier::rlimit(60)]
pub proof fn law_argument_is_qualified_by_the_call(
    lines: Seq<Seq<char>>,
    p: Position,
    s: int,
    e: int,
    k: int,
    r: int,
    c: int,
    a: int,
    b: int,
    names: Seq<Seq<char>>,
    t: int,
)
    requires
        p.line < lines.len(),
        law_words::is_word(lines[p.line as int], s, e),
        law_words::touches(lines[p.line as int], p.character as int, s, e),
        s < 2 || lines[p.line as int][s - 1] != '.',
        law_words::next_ink(lines[p.line as int], e, k),
        law_words::one_equals(lines[p.line as int], k),
        is_open(lines, Brackets::Calls, r, c, p.line as int, s),
        p.line <= r + 20,
        law_words::is_chain(lines[r], a, b, c),
        b < c,
        lines[r][c - 1] != '.',
        names.len() > 0,
        forall|i: int| 0 <= i < names.len() ==> law_texts::lacks(#[trigger] names[i], '.'),
        lines[r].subrange(b, c) == law_texts::joined(names, '.'),
        0 <= t < names.len(),
        names[t].len() > 0,
        unicode::uppercase(names[t][0]),
        forall|j: int|
            t < j < names.len() ==> (#[trigger] names[j]).len() == 0 || !unicode::uppercase(
                names[j][0],
            ),
    ensures
        scope::word_and_qualifier(lines, p) == Some(
            (lines[p.line as int].subrange(s, e), Some(names[t])),
        ),
{
    let n = p.line as int;
    let line = lines[n];
    law_words::lemma_touched(line, p.character as int, s, e);
    law_words::lemma_assigns(line, e, k);
    law_nearest_open_bracket(lines, Brackets::Calls, r, c, n, s, scan::walk_start(n, 20));
    let head = scan::line_at(lines, r).take(c);
    let q = text::dotted_class();
    assert forall|i: int| a <= i < c implies q(#[trigger] head[i]) by {
        if i < b {
            assert(lines[r][i] == '.');
        } else {
            assert(law_words::link(lines[r][i]));
        }
    }
    if a > 0 {
        assert(head[a - 1] == lines[r][a - 1]);
    }
    text::lemma_rspan_unique(head, q, c - a);
    let run = head.skip(a);
    assert(text::suffix_of(head, q) == run);
    let dot = text::only('.');
    assert forall|i: int| 0 <= i < b - a implies dot(#[trigger] run[i]) by {
        assert(lines[r][i + a] == '.');
    }
    assert(run[b - a] == lines[r][b]);
    text::lemma_span_unique(run, dot, b - a);
    let name = run.skip(b - a);
    assert(name =~= lines[r].subrange(b, c));
    assert(name.last() == lines[r][c - 1]);
    text::lemma_rspan_unique(name, dot, 0);
    assert(name.take(name.len() as int) =~= name);
    law_texts::law_parts_are_parted(names, '.');
    lemma_last_type(names, t, names.len() as int);
}

// ---------------------------------------------------------------------------
// Lambdas
// ---------------------------------------------------------------------------

/// Whether a cursor stands before character `i` of its line.
pub open spec fn stands_before(lines: Seq<Seq<char>>, pos: CursorPos, i: int) -> bool {
    &&& pos.line < lines.len()
    &&& 0 <= i <= lines[pos.line as int].len()
    &&& columns::utf16_len(lines[pos.line as int].take(i)) == pos.utf16_col
}

/// Whether what stands before a brace gives `this` a meaning, wherever the cursor is.
pub open spec fn means(f: Facts, before: Seq<char>, uri: Seq<char>, meaning: CtxView) -> bool {
    &&& before.len() == 0 || before.last() != '$'
    &&& forall|p: Position| #[trigger]
        cst_lambda::this_in_lambda(f, before, uri, Some(p)) == meaning
}

proof fn lemma_no_template(before: Seq<char>)
    requires
        before.len() == 0 || before.last() != '$',
    ensures
        !it_this::in_template(before),
{
    reveal_strlit("$");
    if text::ends_with(before, "$"@) {
        assert(before.skip(before.len() - 1)[0] == before.last());
        assert("$"@[0] == '$');
    }
}

/// Without a syntax tree `this` is what the text before the nearest open brace says.
pub proof fn law_this_at_an_open_brace(
    f: Facts,
    lines: Seq<Seq<char>>,
    pos: CursorPos,
    i: int,
    r: int,
    c: int,
    t: Seq<char>,
    uri: Seq<char>,
)
    requires
        stands_before(lines, pos, i),
        is_open(lines, Brackets::Braces, r, c, pos.line as int, i),
        pos.line <= r + 15,
        means(f, lines[r].take(c), uri, CtxView::Resolved(t)),
    ensures
        it_this::this_context(f, lines, pos, None, uri) == ThisView::Resolved(t),
{
    let n = pos.line as int;
    law_words::lemma_column(lines[n], i, pos.utf16_col as int);
    law_nearest_open_bracket(lines, Brackets::Braces, r, c, n, i, scan::walk_start(n, 15));
    lemma_no_template(lines[r].take(c));
    assert(scan::line_at(lines, r) == lines[r]);
    assert(cst_lambda::this_in_lambda(
        f,
        lines[r].take(c),
        uri,
        Some(it_this::position_of(pos)),
    ) == CtxView::Resolved(t));
}

/// A block or lambda without a receiver is passed over: `this` is then what the text before the
/// next open brace says.
pub proof fn law_this_passes_over_blocks(
    f: Facts,
    lines: Seq<Seq<char>>,
    pos: CursorPos,
    i: int,
    r: int,
    c: int,
    r2: int,
    c2: int,
    t: Seq<char>,
    uri: Seq<char>,
)
    requires
        stands_before(lines, pos, i),
        is_open(lines, Brackets::Braces, r, c, pos.line as int, i),
        is_open(lines, Brackets::Braces, r2, c2, r, c),
        pos.line <= r2 + 15,
        means(f, lines[r].take(c), uri, CtxView::NotReceiver),
        means(f, lines[r2].take(c2), uri, CtxView::Resolved(t)),
    ensures
        it_this::this_context(f, lines, pos, None, uri) == ThisView::Resolved(t),
{
    let n = pos.line as int;
    let low = scan::walk_start(n, 15);
    law_words::lemma_column(lines[n], i, pos.utf16_col as int);
    law_nearest_open_bracket(lines, Brackets::Braces, r, c, n, i, low);
    law_nearest_open_bracket(lines, Brackets::Braces, r2, c2, r, c, low);
    lemma_no_template(lines[r].take(c));
    lemma_no_template(lines[r2].take(c2));
    assert(scan::line_at(lines, r) == lines[r]);
    assert(scan::line_at(lines, r2) == lines[r2]);
    let at = Some(it_this::position_of(pos));
    assert(cst_lambda::this_in_lambda(f, lines[r].take(c), uri, at) == CtxView::NotReceiver);
    assert(cst_lambda::this_in_lambda(f, lines[r2].take(c2), uri, at) == CtxView::Resolved(t));
    assert(it_this::this_from(f, lines, pos, uri, r, c) == ThisView::Resolved(t));
}

/// Without a syntax tree `it` is what the text before the nearest open brace says, where the
/// lambda names no parameters.
#[verifier::rlimit(60)]
pub proof fn law_it_at_an_open_brace(
    f: Facts,
    lines: Seq<Seq<char>>,
    pos: CursorPos,
    i: int,
    r: int,
    c: int,
    t: Seq<char>,
    uri: Seq<char>,
)
    requires
        stands_before(lines, pos, i),
        is_open(lines, Brackets::Braces, r, c, pos.line as int, i),
        pos.line <= r + 15,
        c == 0 || lines[r][c - 1] != '$',
        forall|j: int| !#[trigger] law_texts::occurs(lines[r], "->"@, j),
        forall|p: Position| #[trigger]
            receiver::context_input(f, lines[r].take(c), uri, Some(p)) == Some(t),
        !law_inputs::looks_generic(t),
    ensures
        it_this::implicit_type(f, lines, pos, None, LambdaParamKind::It, uri) == Some(t),
{
    let n = pos.line as int;
    law_words::lemma_column(lines[n], i, pos.utf16_col as int);
    law_nearest_open_bracket(lines, Brackets::Braces, r, c, n, i, scan::walk_start(n, 15));
    let before = lines[r].take(c);
    if c > 0 {
        assert(before.last() == lines[r][c - 1]);
    }
    lemma_no_template(before);
    assert(scan::line_at(lines, r) == lines[r]);
    let line = scope::before_cursor(lines, r, n, pos.utf16_col as int);
    let after = it_this::after_brace(lines, pos, r, c);
    reveal_strlit("->");
    law_texts::law_text_is_found_first(after, "->"@);
    assert forall|j: int| !#[trigger] law_texts::occurs(after, "->"@, j) by {
        if law_texts::occurs(after, "->"@, j) {
            let tail = line.skip(c + 1);
            let skipped = text::span(tail, text::space_class());
            text::lemma_span(tail, text::space_class());
            let at = c + 1 + skipped + j;
            assert(after =~= tail.skip(skipped));
            assert(after.subrange(j, j + 2) =~= lines[r].subrange(at, at + 2));
            assert(law_texts::occurs(lines[r], "->"@, at));
        }
    }
    assert(!sig::names_params(after));
    let p = Position { line: r as u32, character: pos.utf16_col as u32 };
    assert(receiver::context_input(f, before, uri, Some(p)) == Some(t));
}

} // verus!
