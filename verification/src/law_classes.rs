//! Which class and which lambda parameters a place lies in, and what a name means there.
use vstd::prelude::*;
use vstd::string::*;

use crate::cst::DocView;
use crate::cst_lambda::{LambdaParamKind, ThisView};
use crate::cst_scope;
use crate::deps::Facts;
use crate::enrich;
use crate::index::IndexView;
use crate::it_this;
use crate::it_this::CstCursorView;
use crate::law_trees;
use crate::lists;
use crate::scope;
use crate::types::{CursorPos, FileView};
use crate::unicode;

verus! {

// ---------------------------------------------------------------------------
// Classes
// ---------------------------------------------------------------------------

/// Whether a node declares a type whose body begins above a row.
pub open spec fn holds_row(d: DocView, n: int, row: int) -> bool {
    &&& d.nodes[n].kind == "class_declaration"@ || d.nodes[n].kind == "interface_declaration"@
        || d.nodes[n].kind == "object_declaration"@ || d.nodes[n].kind == "companion_object"@
    &&& d.nodes[n].row < row
    &&& exists|i: int|
        0 <= i < d.nodes[n].children.len() && d.nodes[#[trigger] d.nodes[n].children[i]].kind
            == "class_body"@ && d.nodes[d.nodes[n].children[i]].row < row
}

/// Whether a type declaration bears a name: as a type, or as an identifier where it has no name of
/// a type.
pub open spec fn is_named(d: DocView, n: int, name: Seq<char>) -> bool {
    ||| exists|c: int| #[trigger] law_trees::first_of(d, n, "type_identifier"@, c) && law_trees::reads(d, c, name)
    ||| law_trees::none_of(d, n, "type_identifier"@) && law_trees::bears(d, n, name)
}

proof fn lemma_type_round(d: DocView, n: int, row: int, name: Seq<char>)
    ensures
        holds_row(d, n, row) && is_named(d, n, name) ==> cst_scope::type_round(d, n, row) == Some(
            name,
        ),
        !holds_row(d, n, row) ==> cst_scope::type_round(d, n, row) is None,
{
    let kids = d.nodes[n].children;
    if holds_row(d, n, row) {
        let i = choose|i: int|
            0 <= i < d.nodes[n].children.len() && d.nodes[#[trigger] d.nodes[n].children[i]].kind
                == "class_body"@ && d.nodes[d.nodes[n].children[i]].row < row;
        assert(d.kind(kids[i]) == "class_body"@);
        assert(cst_scope::body_above(d, kids, row));
        if is_named(d, n, name) {
            if law_trees::none_of(d, n, "type_identifier"@) && law_trees::bears(d, n, name) {
                law_trees::lemma_none_of(d, n, "type_identifier"@);
                law_trees::lemma_bears(d, n, name);
            } else {
                let c = choose|c: int| #[trigger]
                    law_trees::first_of(d, n, "type_identifier"@, c) && law_trees::reads(d, c, name);
                law_trees::lemma_first_of(d, n, "type_identifier"@, c);
            }
        }
    } else if cst_scope::body_above(d, kids, row) {
        let i = choose|i: int|
            0 <= i < kids.len() && d.kind(#[trigger] kids[i]) == "class_body"@
                && d.nodes[kids[i]].row < row;
        assert(d.nodes[d.nodes[n].children[i]].kind == "class_body"@);
    }
}

proof fn lemma_type_above(d: DocView, up: Seq<int>, row: int, name: Seq<char>)
    requires
        d.wf(),
        law_trees::climbs(d, up),
        holds_row(d, up.last(), row),
        is_named(d, up.last(), name),
        forall|i: int| 0 <= i < up.len() - 1 ==> !holds_row(d, #[trigger] up[i], row),
    ensures
        cst_scope::type_above(d, up[0], row) == Some(name),
    decreases up.len(),
{
    lemma_type_round(d, up[0], row, name);
    assert(d.node_ok(up[0]));
    if up.len() > 1 {
        assert(!holds_row(d, up[0], row));
        law_trees::lemma_shorter(d, up);
        let rest = up.skip(1);
        assert(rest.last() == up.last());
        assert forall|i: int| 0 <= i < rest.len() - 1 implies !holds_row(
            d,
            #[trigger] rest[i],
            row,
        ) by {
            assert(rest[i] == up[i + 1]);
        }
        lemma_type_above(d, rest, row, name);
    }
}

proof fn lemma_no_type_above(d: DocView, up: Seq<int>, row: int)
    requires
        d.wf(),
        law_trees::climbs(d, up),
        d.nodes[up.last()].parent is None,
        forall|i: int| 0 <= i < up.len() ==> !holds_row(d, #[trigger] up[i], row),
    ensures
        cst_scope::type_above(d, up[0], row) is None,
    decreases up.len(),
{
    lemma_type_round(d, up[0], row, Seq::empty());
    assert(d.node_ok(up[0]));
    assert(!holds_row(d, up[0], row));
    if up.len() > 1 {
        law_trees::lemma_shorter(d, up);
        let rest = up.skip(1);
        assert(rest.last() == up.last());
        assert forall|i: int| 0 <= i < rest.len() implies !holds_row(
            d,
            #[trigger] rest[i],
            row,
        ) by {
            assert(rest[i] == up[i + 1]);
        }
        lemma_no_type_above(d, rest, row);
    }
}

/// The class that encloses a row is the nearest type round the node there whose body begins above
/// the row; where the tree knows none, the text that was indexed says it.
pub proof fn law_enclosing_class(
    v: IndexView,
    uri: Seq<char>,
    d: DocView,
    up: Seq<int>,
    row: int,
    name: Seq<char>,
)
    requires
        d.wf(),
        law_trees::climbs(d, up),
    ensures
        holds_row(d, up.last(), row) && is_named(d, up.last(), name) && (forall|i: int|
            0 <= i < up.len() - 1 ==> !holds_row(d, #[trigger] up[i], row))
            ==> cst_scope::enclosing_class(
            v,
            uri,
            row,
            Some((CstCursorView { doc: d, node: up[0] })),
        ) == Some(name),
        d.nodes[up.last()].parent is None && (forall|i: int|
            0 <= i < up.len() ==> !holds_row(d, #[trigger] up[i], row))
            ==> cst_scope::enclosing_class(
            v,
            uri,
            row,
            Some((CstCursorView { doc: d, node: up[0] })),
        ) == (if v.files.dom().contains(uri) {
            scope::enclosing_type(v.files[uri].lines, row)
        } else {
            None
        }),
{
    if holds_row(d, up.last(), row) && is_named(d, up.last(), name) && (forall|i: int|
        0 <= i < up.len() - 1 ==> !holds_row(d, #[trigger] up[i], row)) {
        lemma_type_above(d, up, row, name);
    }
    if d.nodes[up.last()].parent is None && (forall|i: int|
        0 <= i < up.len() ==> !holds_row(d, #[trigger] up[i], row)) {
        lemma_no_type_above(d, up, row);
    }
}

// ---------------------------------------------------------------------------
// Parameters of lambdas
// ---------------------------------------------------------------------------

/// Whether a name is one that a lambda gives its parameter: it begins with a small letter, and is
/// not `it`.
pub open spec fn is_own(name: Seq<char>) -> bool {
    name.len() > 0 && unicode::lowercase(name[0]) && name != "it"@ && name != "_"@
}

/// Whether a lambda declares a parameter of a name.
pub open spec fn declares_param(d: DocView, lambda: int, name: Seq<char>) -> bool {
    d.nodes[lambda].kind == "lambda_literal"@ && d.lambda_params(lambda).contains(name)
}

#[verifier::rlimit(60)]
proof fn lemma_collected(found: Seq<Seq<char>>, names: Seq<Seq<char>>, name: Seq<char>)
    ensures
        cst_scope::collected(found, names).contains(name) == (found.contains(name) || (
        names.contains(name) && is_own(name))),
        found.no_duplicates() ==> cst_scope::collected(found, names).no_duplicates(),
    decreases names.len(),
{
    if names.len() > 0 {
        let fewer = names.drop_last();
        let last = names.last();
        lemma_collected(found, fewer, name);
        let before = cst_scope::collected(found, fewer);
        let now = cst_scope::collected(found, names);
        if names.contains(name) && name != last {
            let i = choose|i: int| 0 <= i < names.len() && names[i] == name;
            assert(fewer[i] == name);
        }
        if fewer.contains(name) {
            let i = choose|i: int| 0 <= i < fewer.len() && fewer[i] == name;
            assert(names[i] == name);
        }
        assert(names[names.len() - 1] == last);
        if scope::lambda_name(last) && !before.contains(last) {
            assert(now == before.push(last));
            if name == last {
                assert(now[now.len() - 1] == name);
            }
            if before.contains(name) {
                let i = choose|i: int| 0 <= i < before.len() && before[i] == name;
                assert(now[i] == name);
            }
            if now.contains(name) && name != last {
                let i = choose|i: int| 0 <= i < now.len() && now[i] == name;
                assert(before[i] == name);
            }
            if before.no_duplicates() {
                assert forall|i: int, j: int| 0 <= i < j < now.len() implies now[i] != now[j] by {
                    if j == now.len() - 1 {
                        assert(before[i] != last);
                    }
                }
            }
        }
    }
}

#[verifier::rlimit(60)]
proof fn lemma_params_above(d: DocView, up: Seq<int>, found: Seq<Seq<char>>, name: Seq<char>)
    requires
        d.wf(),
        law_trees::climbs(d, up),
        d.nodes[up.last()].parent is None,
    ensures
        cst_scope::params_above(d, up[0], found).contains(name) == (found.contains(name) || (is_own(
            name,
        ) && exists|i: int| 0 <= i < up.len() && declares_param(d, #[trigger] up[i], name))),
        found.no_duplicates() ==> cst_scope::params_above(d, up[0], found).no_duplicates(),
    decreases up.len(),
{
    let n = up[0];
    assert(d.node_ok(n));
    let here = if d.kind(n) == "lambda_literal"@ {
        cst_scope::collected(found, d.lambda_params(n))
    } else {
        found
    };
    lemma_collected(found, d.lambda_params(n), name);
    if up.len() > 1 {
        law_trees::lemma_shorter(d, up);
        let rest = up.skip(1);
        assert(rest.last() == up.last());
        lemma_params_above(d, rest, here, name);
        if exists|i: int| 0 <= i < up.len() && declares_param(d, #[trigger] up[i], name) {
            let i = choose|i: int| 0 <= i < up.len() && declares_param(d, #[trigger] up[i], name);
            if i > 0 {
                assert(rest[i - 1] == up[i]);
            }
        }
        if exists|i: int| 0 <= i < rest.len() && declares_param(d, #[trigger] rest[i], name) {
            let i = choose|i: int|
                0 <= i < rest.len() && declares_param(d, #[trigger] rest[i], name);
            assert(up[i + 1] == rest[i]);
        }
        if declares_param(d, n, name) {
            assert(declares_param(d, up[0], name));
        }
    } else {
        if declares_param(d, n, name) {
            assert(declares_param(d, up[0], name));
        }
    }
}

/// The parameters in scope at a node are all those of a name of their own that lambdas round it
/// declare, each once.
pub proof fn law_lambda_parameters_in_scope(d: DocView, up: Seq<int>, name: Seq<char>)
    requires
        d.wf(),
        law_trees::climbs(d, up),
        d.nodes[up.last()].parent is None,
    ensures
        cst_scope::params_above(d, up[0], Seq::empty()).contains(name) == (is_own(name) && exists|
            i: int,
        |
            0 <= i < up.len() && declares_param(d, #[trigger] up[i], name)),
        cst_scope::params_above(d, up[0], Seq::empty()).no_duplicates(),
{
    let none = Seq::<Seq<char>>::empty();
    assert(none.no_duplicates());
    lemma_params_above(d, up, none, name);
    assert(!none.contains(name));
}

// ---------------------------------------------------------------------------
// Names
// ---------------------------------------------------------------------------

/// `this` is what the lambda round the cursor says; where none does, what its place as an argument
/// says, and last of all the enclosing class. `it` is what the lambda says, else the place as an
/// argument; another name is a lambda's parameter or nothing.
pub proof fn law_meaning_of_names(
    f: Facts,
    name: Seq<char>,
    lines: Seq<Seq<char>>,
    pos: CursorPos,
    has_doc: bool,
    cursor: Option<CstCursorView>,
    argument: Option<Seq<char>>,
    class: Option<Seq<char>>,
    uri: Seq<char>,
    t: Seq<char>,
)
    ensures
        it_this::this_context(f, lines, pos, cursor, uri) == ThisView::Resolved(t)
            ==> cst_scope::inferred_type(
            f,
            "this"@,
            lines,
            pos,
            has_doc,
            cursor,
            argument,
            class,
            uri,
        ) == Some(t),
        it_this::this_context(f, lines, pos, cursor, uri) == ThisView::NotFound
            ==> cst_scope::inferred_type(
            f,
            "this"@,
            lines,
            pos,
            has_doc,
            cursor,
            argument,
            class,
            uri,
        ) == (if argument is Some {
            argument
        } else {
            class
        }),
        cst_scope::inferred_type(
            f,
            "it"@,
            lines,
            pos,
            has_doc,
            cursor,
            argument,
            class,
            uri,
        ) == (match it_this::implicit_type(f, lines, pos, cursor, LambdaParamKind::It, uri) {
            Some(i) => Some(i),
            None => argument,
        }),
        name != "this"@ && name != "it"@ && !has_doc ==> cst_scope::inferred_type(
            f,
            name,
            lines,
            pos,
            has_doc,
            cursor,
            argument,
            class,
            uri,
        ) is None,
        name != "this"@ && name != "it"@ && has_doc ==> cst_scope::inferred_type(
            f,
            name,
            lines,
            pos,
            has_doc,
            cursor,
            argument,
            class,
            uri,
        ) == it_this::named_type_in(f, lines, name, pos, cursor, uri),
{
    reveal_strlit("this");
    reveal_strlit("it");
    assert("this"@.len() != "it"@.len());
}

// ---------------------------------------------------------------------------
// Symbols at a position
// ---------------------------------------------------------------------------

/// The symbol at a position is the first whose name holds the column; else the first whose name
/// begins on the line; else none.
#[verifier::rlimit(60)]
pub proof fn law_symbol_at_a_position(f: FileView, line: u32, col: u32, k: int)
    ensures
        0 <= k < f.symbols.len() && f.symbols[k].selection_range.start.line == line
            && f.symbols[k].selection_range.start.character <= col
            < f.symbols[k].selection_range.end.character && (forall|j: int|
            0 <= j < k ==> !((#[trigger] f.symbols[j]).selection_range.start.line == line
                && f.symbols[j].selection_range.start.character <= col
                < f.symbols[j].selection_range.end.character)) ==> enrich::symbol_at(f, line, col)
            == Some(f.symbols[k]),
        0 <= k < f.symbols.len() && f.symbols[k].selection_range.start.line == line && (forall|
            j: int,
        |
            0 <= j < k ==> (#[trigger] f.symbols[j]).selection_range.start.line != line) && (forall|
            j: int,
        |
            0 <= j < f.symbols.len() ==> !((
            #[trigger] f.symbols[j]).selection_range.start.line == line
                && f.symbols[j].selection_range.start.character <= col
                < f.symbols[j].selection_range.end.character)) ==> enrich::symbol_at(f, line, col)
            == Some(f.symbols[k]),
        (forall|j: int|
            0 <= j < f.symbols.len() ==> (#[trigger] f.symbols[j]).selection_range.start.line
                != line) ==> enrich::symbol_at(f, line, col) is None,
{
    let all = f.symbols;
    let p = enrich::name_at(line, col);
    let q = enrich::name_on(line);
    lists::lemma_first_is(all, p);
    lists::lemma_first_is(all, q);
    if 0 <= k < all.len() && p(all[k]) && (forall|j: int| 0 <= j < k ==> !((
    #[trigger] f.symbols[j]).selection_range.start.line == line
        && f.symbols[j].selection_range.start.character <= col
        < f.symbols[j].selection_range.end.character)) {
        assert forall|j: int| 0 <= j < k implies !p(#[trigger] all[j]) by {
            assert(f.symbols[j] == all[j]);
        }
        lists::lemma_first(all, p, k);
    }
    if 0 <= k < all.len() && q(all[k]) && (forall|j: int|
        0 <= j < k ==> (#[trigger] f.symbols[j]).selection_range.start.line != line) {
        assert forall|j: int| 0 <= j < k implies !q(#[trigger] all[j]) by {
            assert(f.symbols[j] == all[j]);
        }
        lists::lemma_first(all, q, k);
    }
    match lists::first_where(all, p) {
        Some(i) => {
            assert(p(all[i]));
            assert(f.symbols[i] == all[i]);
        },
        None => {},
    }
    match lists::first_where(all, q) {
        Some(i) => {
            assert(q(all[i]));
            assert(f.symbols[i] == all[i]);
        },
        None => {},
    }
}

} // verus!
