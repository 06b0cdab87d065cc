//! What is true of the word at a cursor and of what qualifies it.
use vstd::prelude::*;
use vstd::string::*;

use crate::columns;
use crate::scope;
use crate::text;
use crate::types::Position;
use crate::unicode;

verus! {

/// Whether a character belongs to a dotted name.
pub open spec fn link(c: char) -> bool {
    text::id_char(c) || c == '.'
}

/// Whether the characters from `s` to `e` of a line are a word: identifier characters with none
/// beside them. An underscore alone is no word.
pub open spec fn is_word(line: Seq<char>, s: int, e: int) -> bool {
    &&& 0 <= s < e <= line.len()
    &&& forall|i: int| s <= i < e ==> text::id_char(#[trigger] line[i])
    &&& s > 0 ==> !text::id_char(line[s - 1])
    &&& e < line.len() ==> !text::id_char(line[e])
    &&& !(e == s + 1 && line[s] == '_')
}

/// Whether a column lies in or at an end of the characters from `s` to `e` of a line.
pub open spec fn touches(line: Seq<char>, col: int, s: int, e: int) -> bool {
    columns::utf16_len(line.take(s)) <= col <= columns::utf16_len(line.take(e))
}

/// Whether the characters from `b` to `e` of a line are a dotted name that could not begin
/// earlier: before it stand dots at most, from `a` on, and before those no character of such a
/// name.
pub open spec fn is_chain(line: Seq<char>, a: int, b: int, e: int) -> bool {
    &&& 0 <= a <= b <= e <= line.len()
    &&& forall|i: int| a <= i < b ==> #[trigger] line[i] == '.'
    &&& forall|i: int| b <= i < e ==> link(#[trigger] line[i])
    &&& b < e ==> line[b] != '.'
    &&& a > 0 ==> !link(line[a - 1])
}

/// Whether the first character from `e` on that is no white space is at `k`; `k` is the end of the
/// line where there is none.
pub open spec fn next_ink(line: Seq<char>, e: int, k: int) -> bool {
    &&& e <= k <= line.len()
    &&& forall|i: int| e <= i < k ==> unicode::whitespace(#[trigger] line[i])
    &&& k < line.len() ==> !unicode::whitespace(line[k])
}

/// Whether what stands at `k` of a line is one `=`.
pub open spec fn one_equals(line: Seq<char>, k: int) -> bool {
    k < line.len() && line[k] == '=' && !(k + 1 < line.len() && line[k + 1] == '=')
}

proof fn lemma_utf16_take(line: Seq<char>, a: int, b: int)
    requires
        0 <= a <= b <= line.len(),
    ensures
        columns::utf16_len(line.take(a)) + (b - a) <= columns::utf16_len(line.take(b)),
    decreases b - a,
{
    if a < b {
        lemma_utf16_take(line, a, b - 1);
        assert(line.take(b) =~= line.take(b - 1).push(line[b - 1]));
        columns::lemma_utf16_len_push(line.take(b - 1), line[b - 1]);
    }
}

pub(crate) proof fn lemma_touched(line: Seq<char>, col: int, s: int, e: int)
    requires
        is_word(line, s, e),
        touches(line, col, s, e),
    ensures
        scope::word_span(line, col) == Some((s, e)),
{
    let p = text::ident_class();
    let at = columns::column_index(line, col);
    columns::lemma_column_index(line, col);
    if at < s {
        lemma_utf16_take(line, at, s);
    }
    if at > e {
        assert(columns::utf16_len(line.take(e)) < col);
    }
    assert(s <= at <= e);
    let t = if at < e {
        at
    } else {
        at - 1
    };
    assert(text::id_char(line[t]));
    assert(scope::touched(line, at) == Some(t));
    let before = line.take(t);
    assert forall|i: int| before.len() - (t - s) <= i < before.len() implies p(
        #[trigger] before[i],
    ) by {
        assert(text::id_char(line[i]));
    }
    text::lemma_rspan_unique(before, p, t - s);
    let after = line.skip(t);
    assert forall|i: int| 0 <= i < e - t implies p(#[trigger] after[i]) by {
        assert(text::id_char(line[t + i]));
    }
    text::lemma_span_unique(after, p, e - t);
    let word = line.subrange(s, e);
    reveal_strlit("_");
    if word == "_"@ {
        assert(word.len() == 1);
        assert(word[0] == '_');
    }
}

proof fn lemma_chain(line: Seq<char>, start: int, a: int, b: int)
    requires
        start >= 2,
        start <= line.len(),
        is_chain(line, a, b, start - 1),
    ensures
        text::without_prefix_of(
            text::suffix_of(line.take(start - 1), text::dotted_class()),
            text::only('.'),
        ) == line.subrange(b, start - 1),
{
    let p = text::dotted_class();
    let head = line.take(start - 1);
    assert forall|i: int| head.len() - (start - 1 - a) <= i < head.len() implies p(
        #[trigger] head[i],
    ) by {
        if i < b {
            assert(line[i] == '.');
        } else {
            assert(link(line[i]));
        }
    }
    if a > 0 {
        assert(!link(line[a - 1]));
    }
    text::lemma_rspan_unique(head, p, start - 1 - a);
    let chain = text::suffix_of(head, p);
    assert(chain =~= line.subrange(a, start - 1));
    let q = text::only('.');
    assert forall|i: int| 0 <= i < b - a implies q(#[trigger] chain[i]) by {
        assert(line[a + i] == '.');
    }
    text::lemma_span_unique(chain, q, b - a);
    assert(chain.skip(b - a) =~= line.subrange(b, start - 1));
}

/// Where a cursor touches a word, that word is found, whole. Behind a dot it is qualified by all of
/// the dotted name before the dot, however many names that has; by nothing where there is no name.
pub proof fn law_qualifier_is_the_whole_chain(
    lines: Seq<Seq<char>>,
    p: Position,
    s: int,
    e: int,
    a: int,
    b: int,
)
    requires
        p.line < lines.len(),
        is_word(lines[p.line as int], s, e),
        touches(lines[p.line as int], p.character as int, s, e),
        s >= 2,
        lines[p.line as int][s - 1] == '.',
        is_chain(lines[p.line as int], a, b, s - 1),
    ensures
        ({
            let line = lines[p.line as int];
            let named = b < s - 1 && !(b + 1 == s - 1 && line[b] == '_');
            scope::word_and_qualifier(lines, p) == Some(
                (
                    line.subrange(s, e),
                    if named {
                        Some(line.subrange(b, s - 1))
                    } else {
                        None
                    },
                ),
            )
        }),
{
    let line = lines[p.line as int];
    lemma_touched(line, p.character as int, s, e);
    lemma_chain(line, s, a, b);
    let q = line.subrange(b, s - 1);
    reveal_strlit("_");
    if q == "_"@ {
        assert(q.len() == 1);
        assert(q[0] == '_');
    }
    if b + 1 == s - 1 && line[b] == '_' {
        assert(q =~= "_"@);
    }
}

/// There is always a dotted name before a dot that could not begin earlier, be it an empty one.
pub proof fn law_every_dot_has_a_chain(line: Seq<char>, e: int)
    requires
        0 <= e <= line.len(),
    ensures
        exists|a: int, b: int| is_chain(line, a, b, e),
{
    let p = text::dotted_class();
    let head = line.take(e);
    text::lemma_rspan(head, p);
    let a = e - text::rspan(head, p);
    let chain = line.subrange(a, e);
    let q = text::only('.');
    text::lemma_span(chain, q);
    let b = a + text::span(chain, q);
    assert forall|i: int| a <= i < b implies #[trigger] line[i] == '.' by {
        assert(q(chain[i - a]));
    }
    assert forall|i: int| b <= i < e implies link(#[trigger] line[i]) by {
        assert(p(head[i]));
    }
    if b < e {
        assert(!q(chain[b - a]));
        assert(chain[b - a] == line[b]);
    }
    if a > 0 {
        assert(!p(head[a - 1]));
        assert(head[a - 1] == line[a - 1]);
    }
    assert(is_chain(line, a, b, e));
}

/// A word that stands behind no dot, and before no single `=`, is qualified by nothing.
pub proof fn law_plain_words_are_not_qualified(
    lines: Seq<Seq<char>>,
    p: Position,
    s: int,
    e: int,
    k: int,
)
    requires
        p.line < lines.len(),
        is_word(lines[p.line as int], s, e),
        touches(lines[p.line as int], p.character as int, s, e),
        s < 2 || lines[p.line as int][s - 1] != '.',
        next_ink(lines[p.line as int], e, k),
        !one_equals(lines[p.line as int], k),
    ensures
        scope::word_and_qualifier(lines, p) == Some(
            (lines[p.line as int].subrange(s, e), None::<Seq<char>>),
        ),
{
    let line = lines[p.line as int];
    lemma_touched(line, p.character as int, s, e);
    lemma_assigns(line, e, k);
}

pub(crate) proof fn lemma_assigns(line: Seq<char>, e: int, k: int)
    requires
        0 <= e <= line.len(),
        next_ink(line, e, k),
    ensures
        scope::assigns(line.skip(e)) == one_equals(line, k),
{
    let after = line.skip(e);
    let c = text::space_class();
    assert forall|i: int| 0 <= i < k - e implies c(#[trigger] after[i]) by {
        assert(unicode::whitespace(line[e + i]));
    }
    if k < line.len() {
        assert(after[k - e] == line[k]);
    }
    text::lemma_span_unique(after, c, k - e);
    let t = text::trimmed_start(after);
    assert(t =~= line.skip(k));
    reveal_strlit("=");
    reveal_strlit("==");
    if t.len() >= 1 {
        assert(t[0] == line[k]);
        assert(t.take(1)[0] == t[0]);
        if t[0] == '=' {
            assert(t.take(1) =~= "="@);
        }
    }
    if t.len() >= 2 {
        assert(t.take(2)[0] == t[0]);
        assert(t.take(2)[1] == t[1]);
        assert(t[1] == line[k + 1]);
        if t[0] == '=' && t[1] == '=' {
            assert(t.take(2) =~= "=="@);
        }
    }
}

/// Where no identifier character stands beside a cursor there is no word.
pub proof fn law_no_word_beside_the_cursor(lines: Seq<Seq<char>>, p: Position, i: int)
    requires
        p.line < lines.len(),
        0 <= i <= lines[p.line as int].len(),
        columns::utf16_len(lines[p.line as int].take(i)) == p.character,
        i < lines[p.line as int].len() ==> !text::id_char(lines[p.line as int][i]),
        i > 0 ==> !text::id_char(lines[p.line as int][i - 1]),
    ensures
        scope::word_and_qualifier(lines, p) is None,
{
    lemma_column(lines[p.line as int], i, p.character as int);
}

pub(crate) proof fn lemma_column(line: Seq<char>, i: int, col: int)
    requires
        0 <= i <= line.len(),
        columns::utf16_len(line.take(i)) == col,
    ensures
        columns::column_index(line, col) == i,
{
    let at = columns::column_index(line, col);
    columns::lemma_column_index(line, col);
    if at < i {
        lemma_utf16_take(line, at, i);
    }
    if at > i {
        assert(columns::utf16_len(line.take(i)) < col);
    }
}

/// The word at a cursor stands from the column of its first character to the column behind its
/// last.
pub proof fn law_range_of_the_word(lines: Seq<Seq<char>>, p: Position, s: int, e: int)
    requires
        scope::columns_fit(lines),
        p.line < lines.len(),
        is_word(lines[p.line as int], s, e),
        touches(lines[p.line as int], p.character as int, s, e),
    ensures
        scope::word_and_range(lines, p) matches Some(w) && {
            let line = lines[p.line as int];
            &&& w.0 == line.subrange(s, e)
            &&& w.1.start.line == p.line
            &&& w.1.end.line == p.line
            &&& w.1.start.character == columns::utf16_len(line.take(s))
            &&& w.1.end.character == columns::utf16_len(line.take(e))
        },
{
    let line = lines[p.line as int];
    lemma_touched(line, p.character as int, s, e);
    lemma_utf16_take(line, s, e);
    lemma_utf16_take(line, e, line.len() as int);
    assert(line.take(line.len() as int) =~= line);
    assert(columns::utf16_len(lines[p.line as int]) < u32::MAX);
    lemma_utf16_add(line, s, e);
}

proof fn lemma_utf16_add(line: Seq<char>, s: int, e: int)
    requires
        0 <= s <= e <= line.len(),
    ensures
        columns::utf16_len(line.take(e)) == columns::utf16_len(line.take(s)) + columns::utf16_len(
            line.subrange(s, e),
        ),
    decreases e - s,
{
    if s < e {
        lemma_utf16_add(line, s, e - 1);
        assert(line.take(e) =~= line.take(e - 1).push(line[e - 1]));
        columns::lemma_utf16_len_push(line.take(e - 1), line[e - 1]);
        assert(line.subrange(s, e) =~= line.subrange(s, e - 1).push(line[e - 1]));
        columns::lemma_utf16_len_push(line.subrange(s, e - 1), line[e - 1]);
    } else {
        assert(line.subrange(s, e) =~= Seq::empty());
        reveal_with_fuel(columns::utf16_len, 1);
    }
}

} // verus!
