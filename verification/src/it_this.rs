//! The types of `it`, of `this` and of named lambda parameters at a cursor.
use vstd::prelude::*;
use vstd::string::*;

use crate::columns;
use crate::cst::{DocView, LiveDoc};
use crate::cst_lambda;
use crate::cst_lambda::{
    CstParamResult, CtxView, LambdaParamKind, ParamView, ThisContext, ThisLambdaCtx, ThisView,
};
use crate::deps::{Facts, InferDeps};
use crate::lambda_params;
use crate::receiver;
use crate::scan;
use crate::scan::Brackets;
use crate::scope;
use crate::sig;
use crate::text;
use crate::type_subst;
use crate::types::{CursorPos, Position};

verus! {

/// How many lines above the cursor are searched for the lambda that names a parameter.
pub const LAMBDA_PARAM_SCAN_BACK_LINES: usize = 40;

/// The same, while a line is being written.
pub const LAMBDA_PARAM_SCAN_BACK: usize = 20;

/// How many lines above the cursor are searched for the lambda round it.
pub const IT_SCAN_BACK_LINES: usize = 15;

/// A type, unless it is a type parameter.
pub open spec fn concrete(t: Option<Seq<char>>) -> Option<Seq<char>> {
    match t {
        Some(s) => if type_subst::generic_param(s) {
            None
        } else {
            t
        },
        None => None,
    }
}

/// A type, unless it is a type parameter, which means nothing without a receiver.
pub fn concrete_or_none(type_opt: Option<String>) -> (r: Option<String>)
    ensures
        r.deep_view() == concrete(type_opt.deep_view()),
{
    match type_opt {
        Some(t) => if type_subst::is_generic_param(t.as_str()) {
            None
        } else {
            Some(t)
        },
        None => None,
    }
}

/// A cursor in a syntax tree: the smallest node at the cursor.
pub struct CstCursor<'a> {
    pub doc: &'a LiveDoc,
    pub node: usize,
}

#[verifier::ext_equal]
pub struct CstCursorView {
    pub doc: DocView,
    pub node: int,
}

impl<'a> DeepView for CstCursor<'a> {
    type V = CstCursorView;

    open spec fn deep_view(&self) -> CstCursorView {
        CstCursorView { doc: self.doc.deep_view(), node: self.node as int }
    }
}

impl<'a> CstCursor<'a> {
    pub open spec fn wf(&self) -> bool {
        self.doc.wf() && self.node < self.doc.nodes@.len()
    }
}

/// A cursor's position.
pub open spec fn position_of(pos: CursorPos) -> Position {
    Position { line: pos.line as u32, character: pos.utf16_col as u32 }
}

fn cursor_position(line: usize, utf16_col: usize) -> (r: Position)
    ensures
        r == position_of(CursorPos { line, utf16_col }),
{
    Position { line: line as u32, character: utf16_col as u32 }
}

/// Where the walk back from a cursor begins on its line.
pub open spec fn cursor_char(lines: Seq<Seq<char>>, pos: CursorPos) -> int {
    columns::column_index(scan::line_at(lines, pos.line as int), pos.utf16_col as int)
}

fn char_of_cursor(lines: &Vec<String>, pos: CursorPos) -> (r: usize)
    ensures
        r == cursor_char(lines.deep_view(), pos),
        r <= scan::line_at(lines.deep_view(), pos.line as int).len(),
{
    columns::utf16_col_to_char(scan::line_or_empty(lines, pos.line), pos.utf16_col)
}

fn lines_back(line: usize, back: usize) -> (r: usize)
    requires
        back <= 1000,
    ensures
        r == scan::walk_start(line as int, back as int),
        r <= line <= r + 1000,
{
    if line > back {
        line - back
    } else {
        0
    }
}

// ---------------------------------------------------------------------------
// On one line
// ---------------------------------------------------------------------------

/// The type of `it` in the lambda that is open at the end of a line.
pub open spec fn it_on_line(f: Facts, before_cursor: Seq<char>, uri: Seq<char>) -> Option<
    Seq<char>,
> {
    match text::rindex_of(before_cursor, '{') {
        Some(i) => concrete(receiver::context_input(f, before_cursor.take(i), uri, None)),
        None => None,
    }
}

/// The type of `it` in the lambda that is open at the end of a line.
pub fn find_it_element_type<D: InferDeps>(before_cursor: &str, deps: &D, uri: &str) -> (r: Option<
    String,
>)
    requires
        deps.ready(),
    ensures
        r.deep_view() == it_on_line(deps.facts(), before_cursor@, uri@),
{
    match text::rfind_char(before_cursor, '{') {
        Some(i) => concrete_or_none(
            receiver::lambda_receiver_type_from_context(text::take(before_cursor, i), deps, uri),
        ),
        None => None,
    }
}

// ---------------------------------------------------------------------------
// `this`
// ---------------------------------------------------------------------------

/// Whether a brace after this text belongs to a template in a string.
pub open spec fn in_template(before_brace: Seq<char>) -> bool {
    text::ends_with(before_brace, "$"@)
}

/// What `this` means at a cursor, by the lambdas that are open before character `i` of line
/// `ln`.
pub open spec fn this_from(
    f: Facts,
    lines: Seq<Seq<char>>,
    pos: CursorPos,
    uri: Seq<char>,
    ln: int,
    i: int,
) -> ThisView
    decreases ln, i,
{
    match scan::open_back(
        lines,
        Brackets::Braces,
        ln,
        i,
        0,
        scan::walk_start(pos.line as int, IT_SCAN_BACK_LINES as int),
    ) {
        Some(p) => if !(0 <= p.0 < ln || (p.0 == ln && 0 <= p.1 < i)) {
            ThisView::NotFound
        } else {
            let before = scan::line_at(lines, p.0).take(p.1);
            let ctx = if in_template(before) {
                CtxView::NotReceiver
            } else {
                cst_lambda::this_in_lambda(f, before, uri, Some(position_of(pos)))
            };
            match ctx {
                CtxView::Resolved(t) => ThisView::Resolved(t),
                CtxView::Receiver => ThisView::InsideReceiver,
                CtxView::NotReceiver => this_from(f, lines, pos, uri, p.0, p.1),
            }
        },
        None => ThisView::NotFound,
    }
}

/// What `this` means at a cursor, by the text before it.
pub fn find_this_context_text<D: InferDeps>(
    lines: &Vec<String>,
    pos: CursorPos,
    deps: &D,
    uri: &str,
) -> (r: ThisContext)
    requires
        deps.ready(),
    ensures
        r.deep_view() == this_from(
            deps.facts(),
            lines.deep_view(),
            pos,
            uri@,
            pos.line as int,
            cursor_char(lines.deep_view(), pos),
        ),
{
    let ghost f = deps.facts();
    let ghost all = lines.deep_view();
    let low: usize = lines_back(pos.line, IT_SCAN_BACK_LINES);
    let mut ln: usize = pos.line;
    let mut i: usize = char_of_cursor(lines, pos);
    loop
        invariant
            deps.ready(),
            f == deps.facts(),
            all == lines.deep_view(),
            low == scan::walk_start(pos.line as int, IT_SCAN_BACK_LINES as int),
            low <= ln <= pos.line <= low + 1000,
            i <= scan::line_at(all, ln as int).len(),
            this_from(f, all, pos, uri@, pos.line as int, cursor_char(all, pos)) == this_from(
                f,
                all,
                pos,
                uri@,
                ln as int,
                i as int,
            ),
        decreases ln, i,
    {
        match scan::find_open(lines, Brackets::Braces, ln, i, low) {
            Some(p) => {
                let before = text::take(scan::line_or_empty(lines, p.0), p.1);
                if !text::has_suffix(before, "$") {
                    match cst_lambda::classify_this_lambda_context(
                        before,
                        deps,
                        uri,
                        Some(cursor_position(pos.line, pos.utf16_col)),
                    ) {
                        ThisLambdaCtx::Resolved(t) => {
                            return ThisContext::Resolved(t);
                        },
                        ThisLambdaCtx::Receiver => {
                            return ThisContext::InsideReceiver;
                        },
                        ThisLambdaCtx::NotReceiver => {},
                    }
                }
                ln = p.0;
                i = p.1;
            },
            None => {
                return ThisContext::NotFound;
            },
        }
    }
}

/// What `this` means at a cursor: by the syntax tree where there is one, else by the text.
pub open spec fn this_context(
    f: Facts,
    lines: Seq<Seq<char>>,
    pos: CursorPos,
    cursor: Option<CstCursorView>,
    uri: Seq<char>,
) -> ThisView {
    match cursor {
        Some(c) => cst_lambda::this_at(f, c.doc, c.node, uri),
        None => this_from(f, lines, pos, uri, pos.line as int, cursor_char(lines, pos)),
    }
}

/// What `this` means at a cursor: by the syntax tree where there is one, else by the text.
pub fn find_this_context_in_lines<D: InferDeps>(
    lines: &Vec<String>,
    pos: CursorPos,
    cursor: Option<&CstCursor>,
    deps: &D,
    uri: &str,
) -> (r: ThisContext)
    requires
        deps.ready(),
        cursor is Some ==> cursor.unwrap().wf(),
    ensures
        r.deep_view() == this_context(
            deps.facts(),
            lines.deep_view(),
            pos,
            cursor.deep_view(),
            uri@,
        ),
{
    match cursor {
        Some(c) => cst_lambda::cst_this_context(c.node, c.doc, deps, uri),
        None => find_this_context_text(lines, pos, deps, uri),
    }
}

/// The type of `this` at a cursor, where it is a lambda's receiver of a known type.
pub fn find_this_element_type_in_lines<D: InferDeps>(
    lines: &Vec<String>,
    pos: CursorPos,
    cursor: Option<&CstCursor>,
    deps: &D,
    uri: &str,
) -> (r: Option<String>)
    requires
        deps.ready(),
        cursor is Some ==> cursor.unwrap().wf(),
    ensures
        r.deep_view() == match this_context(
            deps.facts(),
            lines.deep_view(),
            pos,
            cursor.deep_view(),
            uri@,
        ) {
            ThisView::Resolved(t) => Some(t),
            _ => None,
        },
{
    match find_this_context_in_lines(lines, pos, cursor, deps, uri) {
        ThisContext::Resolved(t) => Some(t),
        ThisContext::InsideReceiver => None,
        ThisContext::NotFound => None,
    }
}

// ---------------------------------------------------------------------------
// `it`
// ---------------------------------------------------------------------------

/// What a lambda begins with, as far as the cursor.
pub open spec fn after_brace(lines: Seq<Seq<char>>, pos: CursorPos, ln: int, brace: int) -> Seq<
    char,
> {
    let line = scope::before_cursor(lines, ln, pos.line as int, pos.utf16_col as int);
    text::trimmed_start(line.skip(brace + 1))
}

/// The type of the implicit parameter of a lambda that opens at a place of the text.
pub open spec fn implicit_of(
    f: Facts,
    lines: Seq<Seq<char>>,
    pos: CursorPos,
    kind: LambdaParamKind,
    uri: Seq<char>,
    ln: int,
    brace: int,
) -> Option<Seq<char>> {
    let before = scan::line_at(lines, ln).take(brace);
    if kind == LambdaParamKind::This {
        match cst_lambda::this_in_lambda(f, before, uri, Some(position_of(pos))) {
            CtxView::Resolved(t) => Some(t),
            _ => None,
        }
    } else {
        concrete(
            receiver::either(
                receiver::context_input(
                    f,
                    before,
                    uri,
                    Some(Position { line: ln as u32, character: pos.utf16_col as u32 }),
                ),
                receiver::named_argument_input(f, before, 0, lines, ln, uri),
            ),
        )
    }
}

/// The type of `it` or `this` at a cursor, by the nearest lambda open before character `i` of
/// line `ln` that names no parameters.
pub open spec fn implicit_from(
    f: Facts,
    lines: Seq<Seq<char>>,
    pos: CursorPos,
    kind: LambdaParamKind,
    uri: Seq<char>,
    ln: int,
    i: int,
) -> Option<Seq<char>>
    decreases ln, i,
{
    match scan::open_back(
        lines,
        Brackets::Braces,
        ln,
        i,
        0,
        scan::walk_start(pos.line as int, IT_SCAN_BACK_LINES as int),
    ) {
        Some(p) => if !(0 <= p.0 < ln || (p.0 == ln && 0 <= p.1 < i)) {
            None
        } else if in_template(scan::line_at(lines, p.0).take(p.1)) || sig::names_params(
            after_brace(lines, pos, p.0, p.1),
        ) {
            implicit_from(f, lines, pos, kind, uri, p.0, p.1)
        } else {
            implicit_of(f, lines, pos, kind, uri, p.0, p.1)
        },
        None => None,
    }
}

fn implicit_type_of<D: InferDeps>(
    lines: &Vec<String>,
    pos: CursorPos,
    kind: LambdaParamKind,
    deps: &D,
    uri: &str,
    ln: usize,
    brace: usize,
) -> (r: Option<String>)
    requires
        deps.ready(),
        brace < scan::line_at(lines.deep_view(), ln as int).len(),
    ensures
        r.deep_view() == implicit_of(
            deps.facts(),
            lines.deep_view(),
            pos,
            kind,
            uri@,
            ln as int,
            brace as int,
        ),
{
    let before = text::take(scan::line_or_empty(lines, ln), brace);
    if kind == LambdaParamKind::This {
        return match cst_lambda::classify_this_lambda_context(
            before,
            deps,
            uri,
            Some(cursor_position(pos.line, pos.utf16_col)),
        ) {
            ThisLambdaCtx::Resolved(t) => Some(t),
            ThisLambdaCtx::Receiver => None,
            ThisLambdaCtx::NotReceiver => None,
        };
    }
    let found = receiver::lambda_receiver_type_from_context_at(
        before,
        deps,
        uri,
        Some(cursor_position(ln, pos.utf16_col)),
    );
    if found.is_some() {
        return concrete_or_none(found);
    }
    assert(lines.deep_view()[ln as int] == lines@[ln as int]@);
    concrete_or_none(
        receiver::lambda_receiver_type_named_arg_ml(before, 0, lines, ln, deps, uri),
    )
}

fn find_implicit_in_text<D: InferDeps>(
    lines: &Vec<String>,
    pos: CursorPos,
    kind: LambdaParamKind,
    deps: &D,
    uri: &str,
) -> (r: Option<String>)
    requires
        deps.ready(),
    ensures
        r.deep_view() == implicit_from(
            deps.facts(),
            lines.deep_view(),
            pos,
            kind,
            uri@,
            pos.line as int,
            cursor_char(lines.deep_view(), pos),
        ),
{
    let ghost f = deps.facts();
    let ghost all = lines.deep_view();
    let low: usize = lines_back(pos.line, IT_SCAN_BACK_LINES);
    let mut ln: usize = pos.line;
    let mut i: usize = char_of_cursor(lines, pos);
    loop
        invariant
            deps.ready(),
            f == deps.facts(),
            all == lines.deep_view(),
            low == scan::walk_start(pos.line as int, IT_SCAN_BACK_LINES as int),
            low <= ln <= pos.line <= low + 1000,
            i <= scan::line_at(all, ln as int).len(),
            ln == pos.line ==> i <= cursor_char(all, pos),
            implicit_from(f, all, pos, kind, uri@, pos.line as int, cursor_char(all, pos))
                == implicit_from(f, all, pos, kind, uri@, ln as int, i as int),
        decreases ln, i,
    {
        match scan::find_open(lines, Brackets::Braces, ln, i, low) {
            Some(p) => {
                let before = text::take(scan::line_or_empty(lines, p.0), p.1);
                let line = scope::line_before_cursor(lines, p.0, pos.line, pos.utf16_col);
                let n: usize = line.unicode_len();
                proof {
                    columns::lemma_column_index_bounds(
                        scan::line_at(all, pos.line as int),
                        pos.utf16_col as int,
                    );
                }
                let after = text::trim_start(text::skip(line, p.1 + 1));
                if !text::has_suffix(before, "$") && !sig::has_named_params_not_it(after) {
                    return implicit_type_of(lines, pos, kind, deps, uri, p.0, p.1);
                }
                ln = p.0;
                i = p.1;
            },
            None => {
                return None;
            },
        }
    }
}

/// The type of `it` or `this` at a cursor: by the syntax tree where there is one, else by the
/// text.
pub open spec fn implicit_type(
    f: Facts,
    lines: Seq<Seq<char>>,
    pos: CursorPos,
    cursor: Option<CstCursorView>,
    kind: LambdaParamKind,
    uri: Seq<char>,
) -> Option<Seq<char>> {
    match cursor {
        Some(c) => concrete(cst_lambda::implicit_at(f, c.doc, c.node, lines, kind, uri)),
        None => implicit_from(
            f,
            lines,
            pos,
            kind,
            uri,
            pos.line as int,
            cursor_char(lines, pos),
        ),
    }
}

/// The type of `it` or `this` at a cursor: by the syntax tree where there is one, else by the
/// text.
pub fn find_it_element_type_in_lines_impl<D: InferDeps>(
    lines: &Vec<String>,
    pos: CursorPos,
    cursor: Option<&CstCursor>,
    deps: &D,
    uri: &str,
    kind: LambdaParamKind,
) -> (r: Option<String>)
    requires
        deps.ready(),
        cursor is Some ==> cursor.unwrap().wf(),
    ensures
        r.deep_view() == implicit_type(
            deps.facts(),
            lines.deep_view(),
            pos,
            cursor.deep_view(),
            kind,
            uri@,
        ),
{
    match cursor {
        Some(c) => concrete_or_none(
            cst_lambda::cst_it_or_this_type(c.node, c.doc, lines, kind, deps, uri),
        ),
        None => find_implicit_in_text(lines, pos, kind, deps, uri),
    }
}

/// The type of `it` at a cursor.
pub fn find_it_element_type_in_lines<D: InferDeps>(
    lines: &Vec<String>,
    pos: CursorPos,
    cursor: Option<&CstCursor>,
    deps: &D,
    uri: &str,
) -> (r: Option<String>)
    requires
        deps.ready(),
        cursor is Some ==> cursor.unwrap().wf(),
    ensures
        r.deep_view() == implicit_type(
            deps.facts(),
            lines.deep_view(),
            pos,
            cursor.deep_view(),
            LambdaParamKind::It,
            uri@,
        ),
{
    find_it_element_type_in_lines_impl(lines, pos, cursor, deps, uri, LambdaParamKind::It)
}

// ---------------------------------------------------------------------------
// Named parameters
// ---------------------------------------------------------------------------

/// The type of the parameter at `place` of a lambda that follows `before` on line `ln`.
pub open spec fn declared_input(
    f: Facts,
    before: Seq<char>,
    place: int,
    lines: Seq<Seq<char>>,
    ln: int,
    uri: Seq<char>,
    position: Position,
) -> Option<Seq<char>> {
    receiver::either(
        receiver::context_input(f, before, uri, Some(position)),
        receiver::named_argument_input(f, before, place, lines, ln, uri),
    )
}

fn input_of_declaration<D: InferDeps>(
    before: &str,
    place: usize,
    lines: &Vec<String>,
    ln: usize,
    deps: &D,
    uri: &str,
    position: Position,
) -> (r: Option<String>)
    requires
        deps.ready(),
        ln < lines@.len(),
        before@.len() <= lines@[ln as int]@.len(),
    ensures
        r.deep_view() == declared_input(
            deps.facts(),
            before@,
            place as int,
            lines.deep_view(),
            ln as int,
            uri@,
            position,
        ),
{
    let found = receiver::lambda_receiver_type_from_context_at(before, deps, uri, Some(position));
    if found.is_some() {
        return found;
    }
    receiver::lambda_receiver_type_named_arg_ml(before, place, lines, ln, deps, uri)
}

/// The type of a named parameter, by the nearest line from `ln` up to `low` on which a lambda
/// declares it and its type can be told. A type parameter ends the search.
pub open spec fn named_from(
    f: Facts,
    lines: Seq<Seq<char>>,
    name: Seq<char>,
    uri: Seq<char>,
    position: Position,
    ln: int,
    low: int,
) -> Option<Seq<char>>
    decreases ln - low + 1,
{
    if ln < low {
        None
    } else {
        let line = scan::line_at(lines, ln);
        let found = match lambda_params::declaration(line, name) {
            Some(d) => declared_input(f, line.take(d.0), d.1, lines, ln, uri, position),
            None => None,
        };
        match found {
            Some(t) => concrete(Some(t)),
            None => named_from(f, lines, name, uri, position, ln - 1, low),
        }
    }
}

fn find_named_from<D: InferDeps>(
    lines: &Vec<String>,
    name: &str,
    deps: &D,
    uri: &str,
    position: Position,
    line: usize,
    low: usize,
) -> (r: Option<String>)
    requires
        deps.ready(),
        low <= line,
    ensures
        r.deep_view() == named_from(
            deps.facts(),
            lines.deep_view(),
            name@,
            uri@,
            position,
            line as int,
            low as int,
        ),
{
    let ghost f = deps.facts();
    let ghost all = lines.deep_view();
    let mut ln: usize = line;
    loop
        invariant
            deps.ready(),
            f == deps.facts(),
            all == lines.deep_view(),
            low <= ln <= line,
            named_from(f, all, name@, uri@, position, line as int, low as int) == named_from(
                f,
                all,
                name@,
                uri@,
                position,
                ln as int,
                low as int,
            ),
        decreases ln,
    {
        let text_line = scan::line_or_empty(lines, ln);
        if let Some(d) = lambda_params::declaration_on(text_line, name) {
            assert(lines.deep_view()[ln as int] == lines@[ln as int]@);
            let found = input_of_declaration(
                text::take(text_line, d.0),
                d.1,
                lines,
                ln,
                deps,
                uri,
                position,
            );
            if found.is_some() {
                return concrete_or_none(found);
            }
        }
        if ln == low {
            assert(named_from(f, all, name@, uri@, position, ln - 1, low as int) is None);
            return None;
        }
        ln -= 1;
    }
}

/// The type of a named parameter at a cursor: by the syntax tree where that says it, or says
/// that there is none; else by the text, from the cursor's line upwards.
pub open spec fn named_type_in(
    f: Facts,
    lines: Seq<Seq<char>>,
    name: Seq<char>,
    pos: CursorPos,
    cursor: Option<CstCursorView>,
    uri: Seq<char>,
) -> Option<Seq<char>> {
    let by_tree = match cursor {
        Some(c) => cst_lambda::named_param(f, c.doc, c.node, name, uri),
        None => ParamView::TryFallback,
    };
    match by_tree {
        ParamView::Resolved(t) => Some(t),
        ParamView::AuthoritativeNone => None,
        ParamView::TryFallback => named_from(
            f,
            lines,
            name,
            uri,
            position_of(pos),
            pos.line as int,
            scan::walk_start(pos.line as int, LAMBDA_PARAM_SCAN_BACK_LINES as int),
        ),
    }
}

/// The type of a named parameter at a cursor.
pub fn find_named_lambda_param_type_in_lines<D: InferDeps>(
    lines: &Vec<String>,
    param_name: &str,
    pos: CursorPos,
    cursor: Option<&CstCursor>,
    deps: &D,
    uri: &str,
) -> (r: Option<String>)
    requires
        deps.ready(),
        cursor is Some ==> cursor.unwrap().wf(),
    ensures
        r.deep_view() == named_type_in(
            deps.facts(),
            lines.deep_view(),
            param_name@,
            pos,
            cursor.deep_view(),
            uri@,
        ),
{
    if let Some(c) = cursor {
        match cst_lambda::cst_named_lambda_param_type(c.node, param_name, c.doc, deps, uri) {
            CstParamResult::Resolved(t) => {
                return Some(t);
            },
            CstParamResult::AuthoritativeNone => {
                return None;
            },
            CstParamResult::TryFallback => {},
        }
    }
    let low: usize = lines_back(pos.line, LAMBDA_PARAM_SCAN_BACK_LINES);
    find_named_from(
        lines,
        param_name,
        deps,
        uri,
        cursor_position(pos.line, pos.utf16_col),
        pos.line,
        low,
    )
}

/// The type of a named parameter whose lambda may begin on the line that is being written.
pub open spec fn named_on_line(
    f: Facts,
    before_cursor: Seq<char>,
    name: Seq<char>,
    lines: Option<Seq<Seq<char>>>,
    pos: CursorPos,
    uri: Seq<char>,
) -> Option<Seq<char>> {
    match lambda_params::declaration(before_cursor, name) {
        Some(d) => {
            let before = before_cursor.take(d.0);
            let by_text = receiver::context_input(f, before, uri, Some(position_of(pos)));
            concrete(
                match lines {
                    Some(l) => receiver::either(
                        by_text,
                        receiver::named_argument_input(f, before, d.1, l, pos.line as int, uri),
                    ),
                    None => by_text,
                },
            )
        },
        None => None,
    }
}

/// The type of a named parameter, by the nearest line below `ln` and from `low` on on which a
/// lambda declares it and its type is no type parameter.
pub open spec fn named_above(
    f: Facts,
    lines: Seq<Seq<char>>,
    name: Seq<char>,
    uri: Seq<char>,
    position: Position,
    ln: int,
    low: int,
) -> Option<Seq<char>>
    decreases ln - low,
{
    if ln <= low {
        None
    } else {
        let line = scan::line_at(lines, ln - 1);
        let found = match lambda_params::declaration(line, name) {
            Some(d) => concrete(
                declared_input(f, line.take(d.0), d.1, lines, ln - 1, uri, position),
            ),
            None => None,
        };
        receiver::either(found, named_above(f, lines, name, uri, position, ln - 1, low))
    }
}

/// The type of a named parameter while a line is being written: by the syntax tree, the line
/// itself, and the lines above it.
pub open spec fn named_while_writing(
    f: Facts,
    before_cursor: Seq<char>,
    name: Seq<char>,
    lines: Option<Seq<Seq<char>>>,
    pos: CursorPos,
    cursor: Option<CstCursorView>,
    uri: Seq<char>,
) -> Option<Seq<char>> {
    let by_tree = match cursor {
        Some(c) => cst_lambda::named_param(f, c.doc, c.node, name, uri),
        None => ParamView::TryFallback,
    };
    match by_tree {
        ParamView::Resolved(t) => Some(t),
        ParamView::AuthoritativeNone => None,
        ParamView::TryFallback => receiver::either(
            named_on_line(f, before_cursor, name, lines, pos, uri),
            match lines {
                Some(l) => named_above(
                    f,
                    l,
                    name,
                    uri,
                    position_of(pos),
                    pos.line as int,
                    scan::walk_start(pos.line as int, LAMBDA_PARAM_SCAN_BACK as int),
                ),
                None => None,
            },
        ),
    }
}

fn find_named_on_line<D: InferDeps>(
    before_cursor: &str,
    name: &str,
    lines: Option<&Vec<String>>,
    pos: CursorPos,
    deps: &D,
    uri: &str,
) -> (r: Option<String>)
    requires
        deps.ready(),
        lines is Some ==> pos.line < lines.unwrap()@.len() && before_cursor@.len()
            <= lines.unwrap()@[pos.line as int]@.len(),
    ensures
        r.deep_view() == named_on_line(
            deps.facts(),
            before_cursor@,
            name@,
            lines.deep_view(),
            pos,
            uri@,
        ),
{
    let d = match lambda_params::declaration_on(before_cursor, name) {
        Some(d) => d,
        None => {
            return None;
        },
    };
    let before = text::take(before_cursor, d.0);
    let position = cursor_position(pos.line, pos.utf16_col);
    match lines {
        Some(l) => concrete_or_none(
            input_of_declaration(before, d.1, l, pos.line, deps, uri, position),
        ),
        None => concrete_or_none(
            receiver::lambda_receiver_type_from_context_at(before, deps, uri, Some(position)),
        ),
    }
}

fn find_named_above<D: InferDeps>(
    lines: &Vec<String>,
    name: &str,
    deps: &D,
    uri: &str,
    position: Position,
    line: usize,
    low: usize,
) -> (r: Option<String>)
    requires
        deps.ready(),
    ensures
        r.deep_view() == named_above(
            deps.facts(),
            lines.deep_view(),
            name@,
            uri@,
            position,
            line as int,
            low as int,
        ),
{
    let ghost f = deps.facts();
    let ghost all = lines.deep_view();
    let mut ln: usize = line;
    while ln > low
        invariant
            deps.ready(),
            f == deps.facts(),
            all == lines.deep_view(),
            ln <= line,
            named_above(f, all, name@, uri@, position, line as int, low as int) == named_above(
                f,
                all,
                name@,
                uri@,
                position,
                ln as int,
                low as int,
            ),
        decreases ln,
    {
        ln -= 1;
        let text_line = scan::line_or_empty(lines, ln);
        if let Some(d) = lambda_params::declaration_on(text_line, name) {
            assert(lines.deep_view()[ln as int] == lines@[ln as int]@);
            let found = concrete_or_none(
                input_of_declaration(
                    text::take(text_line, d.0),
                    d.1,
                    lines,
                    ln,
                    deps,
                    uri,
                    position,
                ),
            );
            if found.is_some() {
                return found;
            }
        }
    }
    None
}

/// The type of a named parameter while a line is being written. `lines` are the lines of the
/// file, where they are known.
pub fn find_named_lambda_param_type<D: InferDeps>(
    before_cursor: &str,
    param_name: &str,
    lines: Option<&Vec<String>>,
    cursor: Option<&CstCursor>,
    deps: &D,
    uri: &str,
    pos: CursorPos,
) -> (r: Option<String>)
    requires
        deps.ready(),
        cursor is Some ==> cursor.unwrap().wf(),
        lines is Some ==> pos.line < lines.unwrap()@.len() && before_cursor@.len()
            <= lines.unwrap()@[pos.line as int]@.len(),
    ensures
        r.deep_view() == named_while_writing(
            deps.facts(),
            before_cursor@,
            param_name@,
            lines.deep_view(),
            pos,
            cursor.deep_view(),
            uri@,
        ),
{
    if let Some(c) = cursor {
        match cst_lambda::cst_named_lambda_param_type(c.node, param_name, c.doc, deps, uri) {
            CstParamResult::Resolved(t) => {
                return Some(t);
            },
            CstParamResult::AuthoritativeNone => {
                return None;
            },
            CstParamResult::TryFallback => {},
        }
    }
    let found = find_named_on_line(before_cursor, param_name, lines, pos, deps, uri);
    if found.is_some() {
        return found;
    }
    match lines {
        Some(l) => {
            let low: usize = lines_back(pos.line, LAMBDA_PARAM_SCAN_BACK);
            find_named_above(
                l,
                param_name,
                deps,
                uri,
                cursor_position(pos.line, pos.utf16_col),
                pos.line,
                low,
            )
        },
        None => None,
    }
}

// ---------------------------------------------------------------------------
// Lambdas with a receiver
// ---------------------------------------------------------------------------

/// Whether the nearest lambda open before character `i` of line `ln` that names no parameters
/// has a receiver, of a known type or not.
pub open spec fn receiver_from(
    f: Facts,
    lines: Seq<Seq<char>>,
    pos: CursorPos,
    uri: Seq<char>,
    ln: int,
    i: int,
) -> bool
    decreases ln, i,
{
    match scan::open_back(
        lines,
        Brackets::Braces,
        ln,
        i,
        0,
        scan::walk_start(pos.line as int, IT_SCAN_BACK_LINES as int),
    ) {
        Some(p) => if !(0 <= p.0 < ln || (p.0 == ln && 0 <= p.1 < i)) {
            false
        } else {
            let before = scan::line_at(lines, p.0).take(p.1);
            if in_template(before) || sig::names_params(after_brace(lines, pos, p.0, p.1)) {
                receiver_from(f, lines, pos, uri, p.0, p.1)
            } else {
                cst_lambda::this_in_lambda(f, before, uri, None) !is NotReceiver
            }
        },
        None => false,
    }
}

/// Whether some lambda from a node upwards that names no parameters has a receiver, by the text
/// before it.
pub open spec fn receiver_above(f: Facts, d: DocView, n: int, uri: Seq<char>) -> bool
    decreases n,
{
    if !d.has(n) {
        false
    } else {
        ||| d.kind(n) == "lambda_literal"@ && !d.lambda_named(n) && cst_lambda::this_in_lambda(
            f,
            text::trimmed_end(d.before_node(n)),
            uri,
            Some(d.position(n)),
        ) !is NotReceiver
        ||| match d.nodes[n].parent {
            Some(p) => 0 <= p < n && receiver_above(f, d, p, uri),
            None => false,
        }
    }
}

/// Whether a cursor stands in a lambda with a receiver, so that `this` is not the enclosing
/// class: by the syntax tree where there is one, else by the text.
pub open spec fn in_receiver_lambda(
    f: Facts,
    lines: Seq<Seq<char>>,
    pos: CursorPos,
    cursor: Option<CstCursorView>,
    uri: Seq<char>,
) -> bool {
    ||| match cursor {
        Some(c) => receiver_above(f, c.doc, c.node, uri),
        None => false,
    }
    ||| receiver_from(f, lines, pos, uri, pos.line as int, cursor_char(lines, pos))
}

fn has_receiver_above<D: InferDeps>(cursor: &CstCursor, deps: &D, uri: &str) -> (r: bool)
    requires
        deps.ready(),
        cursor.wf(),
    ensures
        r == receiver_above(
            deps.facts(),
            cursor.doc.deep_view(),
            cursor.node as int,
            uri@,
        ),
{
    let doc = cursor.doc;
    let ghost f = deps.facts();
    let ghost d = doc.deep_view();
    let mut cur: usize = cursor.node;
    loop
        invariant
            doc.wf(),
            deps.ready(),
            f == deps.facts(),
            d == doc.deep_view(),
            d == cursor.doc.deep_view(),
            cur < doc.nodes@.len(),
            receiver_above(f, d, cursor.node as int, uri@) == receiver_above(f, d, cur as int, uri@),
        decreases cur,
    {
        if doc.kind_is(cur, "lambda_literal") && !doc.has_lambda_named_params(cur) {
            let before = doc.lambda_before_brace_context(cur).0;
            match cst_lambda::classify_this_lambda_context(
                before.as_str(),
                deps,
                uri,
                Some(doc.position_from_node(cur)),
            ) {
                ThisLambdaCtx::NotReceiver => {},
                ThisLambdaCtx::Receiver => {
                    return true;
                },
                ThisLambdaCtx::Resolved(_) => {
                    return true;
                },
            }
        }
        match doc.parent(cur) {
            Some(p) => {
                cur = p;
            },
            None => {
                return false;
            },
        }
    }
}

/// Whether a cursor stands in a lambda with a receiver: by the syntax tree where there is one,
/// else by the text.
pub fn is_inside_receiver_lambda<D: InferDeps>(
    lines: &Vec<String>,
    pos: CursorPos,
    cursor: Option<&CstCursor>,
    deps: &D,
    uri: &str,
) -> (r: bool)
    requires
        deps.ready(),
        cursor is Some ==> cursor.unwrap().wf(),
    ensures
        r == in_receiver_lambda(deps.facts(), lines.deep_view(), pos, cursor.deep_view(), uri@),
{
    if let Some(c) = cursor {
        if has_receiver_above(c, deps, uri) {
            return true;
        }
    }
    let ghost f = deps.facts();
    let ghost all = lines.deep_view();
    let low: usize = lines_back(pos.line, IT_SCAN_BACK_LINES);
    let mut ln: usize = pos.line;
    let mut i: usize = char_of_cursor(lines, pos);
    loop
        invariant
            deps.ready(),
            f == deps.facts(),
            all == lines.deep_view(),
            low == scan::walk_start(pos.line as int, IT_SCAN_BACK_LINES as int),
            low <= ln <= pos.line <= low + 1000,
            i <= scan::line_at(all, ln as int).len(),
            ln == pos.line ==> i <= cursor_char(all, pos),
            in_receiver_lambda(f, all, pos, cursor.deep_view(), uri@) == receiver_from(
                f,
                all,
                pos,
                uri@,
                ln as int,
                i as int,
            ),
        decreases ln, i,
    {
        match scan::find_open(lines, Brackets::Braces, ln, i, low) {
            Some(p) => {
                let before = text::take(scan::line_or_empty(lines, p.0), p.1);
                let line = scope::line_before_cursor(lines, p.0, pos.line, pos.utf16_col);
                let n: usize = line.unicode_len();
                proof {
                    columns::lemma_column_index_bounds(
                        scan::line_at(all, pos.line as int),
                        pos.utf16_col as int,
                    );
                }
                let after = text::trim_start(text::skip(line, p.1 + 1));
                if !text::has_suffix(before, "$") && !sig::has_named_params_not_it(after) {
                    return match cst_lambda::classify_this_lambda_context(before, deps, uri, None) {
                        ThisLambdaCtx::NotReceiver => false,
                        ThisLambdaCtx::Receiver => true,
                        ThisLambdaCtx::Resolved(_) => true,
                    };
                }
                ln = p.0;
                i = p.1;
            },
            None => {
                return false;
            },
        }
    }
}

// ---------------------------------------------------------------------------
// Whether a name is a lambda parameter
// ---------------------------------------------------------------------------

/// Whether a name is a lambda's parameter: it names no type and is not qualified, and a lambda
/// on the line declares it or it is among the parameters in scope.
pub open spec fn names_lambda_param(
    name: Seq<char>,
    before_cursor: Seq<char>,
    params: Seq<Seq<char>>,
) -> bool {
    &&& !text::upper_start(name)
    &&& !name.contains('.')
    &&& lambda_params::declaration(before_cursor, name) is Some || params.contains(name)
}

/// Whether a name is a lambda's parameter, where `params` are those in scope.
pub fn is_lambda_param(recv: &str, before_cur: &str, params: &Vec<String>) -> (r: bool)
    ensures
        r == names_lambda_param(recv@, before_cur@, params.deep_view()),
{
    if text::starts_with_uppercase(recv) || text::contains_char(recv, '.') {
        return false;
    }
    if lambda_params::line_has_lambda_param(before_cur, recv) {
        return true;
    }
    type_subst::is_declared_type_param(recv, params)
}

/// No name that names a type, and no qualified name, is a lambda's parameter.
pub proof fn law_types_are_no_lambda_params(
    name: Seq<char>,
    before_cursor: Seq<char>,
    params: Seq<Seq<char>>,
)
    ensures
        text::upper_start(name) || name.contains('.') ==> !names_lambda_param(
            name,
            before_cursor,
            params,
        ),
{
}

/// The type of `it` at a cursor is never a type parameter.
pub proof fn law_it_is_no_type_parameter(
    f: Facts,
    lines: Seq<Seq<char>>,
    pos: CursorPos,
    cursor: Option<CstCursorView>,
    uri: Seq<char>,
)
    ensures
        match implicit_type(f, lines, pos, cursor, LambdaParamKind::It, uri) {
            Some(t) => !type_subst::generic_param(t),
            None => true,
        },
{
    match cursor {
        Some(c) => {},
        None => {
            lemma_it_from(f, lines, pos, uri, pos.line as int, cursor_char(lines, pos));
        },
    }
}

proof fn lemma_it_from(
    f: Facts,
    lines: Seq<Seq<char>>,
    pos: CursorPos,
    uri: Seq<char>,
    ln: int,
    i: int,
)
    ensures
        match implicit_from(f, lines, pos, LambdaParamKind::It, uri, ln, i) {
            Some(t) => !type_subst::generic_param(t),
            None => true,
        },
    decreases ln, i,
{
    match scan::open_back(
        lines,
        Brackets::Braces,
        ln,
        i,
        0,
        scan::walk_start(pos.line as int, IT_SCAN_BACK_LINES as int),
    ) {
        Some(p) => {
            if (0 <= p.0 < ln || (p.0 == ln && 0 <= p.1 < i)) && (in_template(
                scan::line_at(lines, p.0).take(p.1),
            ) || sig::names_params(after_brace(lines, pos, p.0, p.1))) {
                lemma_it_from(f, lines, pos, uri, p.0, p.1);
            }
        },
        None => {},
    }
}

/// The type of a named parameter that the text gives is never a type parameter.
pub proof fn law_named_param_is_no_type_parameter(
    f: Facts,
    lines: Seq<Seq<char>>,
    name: Seq<char>,
    pos: CursorPos,
    uri: Seq<char>,
)
    ensures
        match named_type_in(f, lines, name, pos, None, uri) {
            Some(t) => !type_subst::generic_param(t),
            None => true,
        },
{
    lemma_named_from(
        f,
        lines,
        name,
        uri,
        position_of(pos),
        pos.line as int,
        scan::walk_start(pos.line as int, LAMBDA_PARAM_SCAN_BACK_LINES as int),
    );
}

proof fn lemma_named_from(
    f: Facts,
    lines: Seq<Seq<char>>,
    name: Seq<char>,
    uri: Seq<char>,
    position: Position,
    ln: int,
    low: int,
)
    ensures
        match named_from(f, lines, name, uri, position, ln, low) {
            Some(t) => !type_subst::generic_param(t),
            None => true,
        },
    decreases ln - low + 1,
{
    if ln >= low {
        lemma_named_from(f, lines, name, uri, position, ln - 1, low);
    }
}

} // verus!
