//! Where positions lead in the text and in the tree of a document, and what is found there.
use vstd::prelude::*;
use vstd::string::*;

use crate::columns;
use crate::cst::DocView;
use crate::cst_scope;
use crate::it_this::CstCursorView;
use crate::law_scopes;
use crate::law_texts;
use crate::law_words;
use crate::lists;
use crate::live;
use crate::queries;
use crate::text;
use crate::types::Position;

verus! {

// ---------------------------------------------------------------------------
// Offsets
// ---------------------------------------------------------------------------

/// Lines with line breaks between them.
pub open spec fn document(lines: Seq<Seq<char>>) -> Seq<char>
    decreases lines.len(),
{
    if lines.len() == 0 {
        Seq::empty()
    } else if lines.len() == 1 {
        lines[0]
    } else {
        lines[0] + seq!['\n'] + document(lines.skip(1))
    }
}

/// Where a line begins: behind all lines before it and their breaks.
pub open spec fn begins(lines: Seq<Seq<char>>, row: int) -> int
    decreases row,
{
    if row <= 0 {
        0
    } else {
        begins(lines, row - 1) + lines[row - 1].len() + 1
    }
}

/// Whether texts are lines: they hold no line break, and none ends in a carriage return.
pub open spec fn are_lines(lines: Seq<Seq<char>>) -> bool {
    forall|i: int|
        0 <= i < lines.len() ==> law_texts::lacks(#[trigger] lines[i], '\n') && (lines[i].len() > 0
            ==> lines[i].last() != '\r')
}

proof fn lemma_rest(lines: Seq<Seq<char>>)
    requires
        are_lines(lines),
        lines.len() > 1,
    ensures
        are_lines(lines.skip(1)),
        text::index_of(document(lines), '\n') == Some(lines[0].len() as int),
        text::span(document(lines), text::all_but('\n')) == lines[0].len(),
        document(lines).take(lines[0].len() as int) == lines[0],
        document(lines).skip(lines[0].len() as int + 1) == document(lines.skip(1)),
{
    let rest = lines.skip(1);
    assert forall|i: int| 0 <= i < rest.len() implies law_texts::lacks(#[trigger] rest[i], '\n') && (
    rest[i].len() > 0 ==> rest[i].last() != '\r') by {
        assert(rest[i] == lines[i + 1]);
    }
    let s = document(lines);
    let first = lines[0];
    assert(law_texts::lacks(lines[0], '\n'));
    law_texts::law_character_is_found(first, '\n', document(rest));
    let p = text::all_but('\n');
    assert forall|i: int| 0 <= i < first.len() implies p(#[trigger] s[i]) by {
        assert(s[i] == first[i]);
        assert(first[i] != '\n');
    }
    assert(s[first.len() as int] == '\n');
    text::lemma_span_unique(s, p, first.len() as int);
    assert(s.take(first.len() as int) =~= first);
    assert(s.skip(first.len() as int + 1) =~= document(rest));
}

proof fn lemma_begins(lines: Seq<Seq<char>>, row: int)
    requires
        lines.len() > 1,
        0 < row < lines.len(),
    ensures
        begins(lines, row) == lines[0].len() + 1 + begins(lines.skip(1), row - 1),
    decreases row,
{
    if row > 1 {
        lemma_begins(lines, row - 1);
        assert(lines.skip(1)[row - 2] == lines[row - 1]);
    } else {
        assert(begins(lines, 0) == 0);
    }
}

proof fn lemma_row_start(lines: Seq<Seq<char>>, row: nat)
    requires
        are_lines(lines),
        row < lines.len(),
    ensures
        live::row_start(document(lines), row) == Some(begins(lines, row as int)),
    decreases row,
{
    if row > 0 {
        lemma_rest(lines);
        lemma_begins(lines, row as int);
        lemma_row_start(lines.skip(1), (row - 1) as nat);
    }
}

pub(crate) proof fn lemma_lines(lines: Seq<Seq<char>>)
    requires
        are_lines(lines),
        lines.len() > 0,
    ensures
        text::lines_of(document(lines)) == (if lines.last().len() == 0 {
            lines.drop_last()
        } else {
            lines
        }),
    decreases lines.len(),
{
    let s = document(lines);
    if lines.len() == 1 {
        assert(law_texts::lacks(lines[0], '\n'));
        let p = text::all_but('\n');
        assert forall|i: int| 0 <= i < s.len() implies p(#[trigger] s[i]) by {
            assert(lines[0][i] != '\n');
        }
        text::lemma_span_unique(s, p, s.len() as int);
        if s.len() == 0 {
            assert(text::lines_of(s) =~= lines.drop_last());
        } else {
            assert(text::lines_of(s) =~= lines);
        }
    } else {
        lemma_rest(lines);
        let rest = lines.skip(1);
        lemma_lines(rest);
        assert(rest.last() == lines.last());
        let first = lines[0];
        assert(text::without_return(first) == first) by {
            assert(law_texts::lacks(lines[0], '\n'));
        }
        if lines.last().len() == 0 {
            assert(seq![first] + rest.drop_last() =~= lines.drop_last());
        } else {
            assert(seq![first] + rest =~= lines);
        }
    }
}

/// A position leads to the character that stands at its column of its line.
pub proof fn law_position_leads_to_its_character(
    lines: Seq<Seq<char>>,
    row: nat,
    i: int,
    col: int,
)
    requires
        are_lines(lines),
        row < lines.len(),
        0 <= i <= lines[row as int].len(),
        columns::utf16_len(lines[row as int].take(i)) == col,
    ensures
        live::offset_at(document(lines), row, col) == begins(lines, row as int) + i,
{
    let s = document(lines);
    lemma_row_start(lines, row);
    lemma_lines(lines);
    law_words::lemma_column(lines[row as int], i, col);
    if lines.last().len() == 0 && row == lines.len() - 1 {
        assert(lines[row as int] =~= Seq::empty());
        assert(live::line_of(s, row as int) =~= lines[row as int]);
    } else {
        assert(live::line_of(s, row as int) == lines[row as int]);
    }
}

// ---------------------------------------------------------------------------
// Nodes
// ---------------------------------------------------------------------------

/// Whether a way leads down from the root to the smallest node that holds a character: each next
/// node is the first child that ends behind the character, and holds it; below the last no such
/// child does.
pub open spec fn leads_to(d: DocView, way: Seq<int>, at: Seq<int>, place: int) -> bool {
    &&& law_scopes::descends(d, way, at)
    &&& forall|i: int|
        0 < i < way.len() ==> d.nodes[#[trigger] way[i]].start <= place < d.nodes[way[i]].end
    &&& forall|i: int, k: int|
        0 <= i < at.len() && 0 <= k < at[i] ==> d.nodes[#[trigger] d.nodes[way[i]].children[k]].end
            <= place
    &&& forall|k: int|
        0 <= k < d.nodes[way.last()].children.len()
            ==> d.nodes[#[trigger] d.nodes[way.last()].children[k]].end <= place || (exists|j: int|
            0 <= j <= k && d.nodes[#[trigger] d.nodes[way.last()].children[j]].start > place
                && d.nodes[d.nodes[way.last()].children[j]].end > place && forall|h: int|
                0 <= h < j ==> d.nodes[#[trigger] d.nodes[way.last()].children[h]].end <= place)
}

#[verifier::rlimit(60)]
proof fn lemma_leads(d: DocView, way: Seq<int>, at: Seq<int>, place: int)
    requires
        d.wf(),
        leads_to(d, way, at, place),
    ensures
        live::smallest_below(d, way[0], place) == way.last(),
    decreases way.len(),
{
    let n = way[0];
    let kids = d.nodes[n].children;
    let p = live::ends_after(d, place);
    assert(d.node_ok(n));
    if way.len() > 1 {
        let rest = way.skip(1);
        let places = at.skip(1);
        let k = at[0];
        assert(d.nodes[way[0]].children[at[0]] == way[1]);
        assert(kids[k] == way[1]);
        assert(d.nodes[way[1]].start <= place < d.nodes[way[1]].end);
        assert forall|j: int| 0 <= j < k implies !p(#[trigger] kids[j]) by {
            assert(d.nodes[d.nodes[way[0]].children[j]].end <= place);
        }
        lists::lemma_first(kids, p, k);
        assert forall|i: int| 0 <= i < rest.len() implies 0 <= #[trigger] rest[i]
            < d.nodes.len() by {
            assert(rest[i] == way[i + 1]);
        }
        assert forall|i: int| 0 <= i < places.len() implies 0 <= #[trigger] places[i]
            < d.nodes[rest[i]].children.len() && d.nodes[rest[i]].children[places[i]]
            == rest[i + 1] by {
            assert(places[i] == at[i + 1]);
            assert(rest[i] == way[i + 1]);
            assert(rest[i + 1] == way[i + 2]);
        }
        assert forall|i: int| 0 < i < rest.len() implies d.nodes[#[trigger] rest[i]].start
            <= place < d.nodes[rest[i]].end by {
            assert(rest[i] == way[i + 1]);
        }
        assert forall|i: int, k: int|
            0 <= i < places.len() && 0 <= k
                < places[i] implies d.nodes[#[trigger] d.nodes[rest[i]].children[k]].end
            <= place by {
            assert(rest[i] == way[i + 1]);
            assert(places[i] == at[i + 1]);
            assert(d.nodes[d.nodes[way[i + 1]].children[k]].end <= place);
        }
        assert(rest.last() == way.last());
        lemma_leads(d, rest, places, place);
        assert(rest[0] == way[1]);
    } else {
        assert(way.last() == n);
        lists::lemma_first_is(kids, p);
        if let Some(k) = lists::first_where(kids, p) {
            assert(p(kids[k]));
            assert(!(d.nodes[d.nodes[way.last()].children[k]].end <= place));
            let j = choose|j: int|
                0 <= j <= k && d.nodes[#[trigger] d.nodes[way.last()].children[j]].start > place
                    && d.nodes[d.nodes[way.last()].children[j]].end > place && forall|h: int|
                    0 <= h < j ==> d.nodes[#[trigger] d.nodes[way.last()].children[h]].end <= place;
            if j < k {
                assert(!p(kids[j]));
            }
        }
    }
}

/// A position in a tree leads to the smallest node that holds the character there.
pub proof fn law_cursor_is_the_smallest_node(
    d: DocView,
    way: Seq<int>,
    at: Seq<int>,
    lines: Seq<Seq<char>>,
    row: nat,
    i: int,
    col: int,
)
    requires
        d.wf(),
        d.text == document(lines),
        are_lines(lines),
        row < lines.len(),
        0 <= i <= lines[row as int].len(),
        columns::utf16_len(lines[row as int].take(i)) == col,
        leads_to(d, way, at, begins(lines, row as int) + i),
        way[0] == 0,
    ensures
        queries::cursor_in(Some(d), row, col) == Some(
            (CstCursorView { doc: d, node: way.last() }),
        ),
{
    law_position_leads_to_its_character(lines, row, i, col);
    lemma_leads(d, way, at, begins(lines, row as int) + i);
}

/// What a position asks of a tree, the type of a variable or whether a name is hidden there, is
/// answered for the smallest node that holds the character, as far as that character.
pub proof fn law_queries_go_by_the_smallest_node(
    d: DocView,
    way: Seq<int>,
    at: Seq<int>,
    lines: Seq<Seq<char>>,
    position: Position,
    i: int,
    name: Seq<char>,
)
    requires
        d.wf(),
        d.text == document(lines),
        are_lines(lines),
        position.line < lines.len(),
        0 <= i <= lines[position.line as int].len(),
        columns::utf16_len(lines[position.line as int].take(i)) == position.character,
        leads_to(d, way, at, begins(lines, position.line as int) + i),
        way[0] == 0,
    ensures
        queries::variable_type_by_tree(Some(d), name, position) == cst_scope::variable_type(
            d,
            way.last(),
            name,
            begins(lines, position.line as int) + i,
        ),
        queries::shadowed_at(Some(d), position.line as nat, position.character as int, name)
            == cst_scope::shadowed(d, way.last(), name),
        queries::variable_type_by_tree(None, name, position) is None,
        !queries::shadowed_at(None, position.line as nat, position.character as int, name),
{
    let row = position.line as nat;
    let col = position.character as int;
    law_cursor_is_the_smallest_node(d, way, at, lines, row, i, col);
    law_position_leads_to_its_character(lines, row, i, col);
}

} // verus!
