//! What is in scope at a position of a file: by its syntax tree where it has one, else by its
//! text.
use vstd::prelude::*;
use vstd::string::*;

use crate::columns;
use crate::cst::{DocView, LiveDoc};
use crate::cst_scope;
use crate::deps::InferDeps;
use crate::index::{IndexView, Indexer};
use crate::it_this;
use crate::it_this::{CstCursor, CstCursorView};
use crate::live;
use crate::live::LiveTrees;
use crate::scope;
use crate::text;
use crate::types::{CursorPos, Position};

verus! {

/// The tree that is read for a document: that of the editor's text, else one that was parsed for
/// the request.
pub fn live_doc_for_scope_query<'a>(
    trees: &'a LiveTrees,
    request: &'a LiveTrees,
    uri: &str,
) -> (r: Option<&'a LiveDoc>)
    requires
        trees.wf(),
        request.wf(),
    ensures
        r.deep_view() == live::doc_for(trees.docs@, request.docs@, uri@),
        r matches Some(d) ==> d.wf(),
{
    match trees.live_doc(uri) {
        Some(d) => Some(d),
        None => request.live_doc(uri),
    }
}

/// A position in a tree, where there is one.
pub open spec fn cursor_in(doc: Option<DocView>, row: nat, utf16_col: int) -> Option<CstCursorView> {
    match doc {
        Some(d) => match live::node_at(d, row, utf16_col) {
            Some(n) => Some(CstCursorView { doc: d, node: n }),
            None => None,
        },
        None => None,
    }
}

/// The smallest node of a tree at a position.
pub fn cursor_node_at<'a>(doc: Option<&'a LiveDoc>, pos: CursorPos) -> (r: Option<CstCursor<'a>>)
    requires
        doc matches Some(d) ==> d.wf(),
    ensures
        r.deep_view() == cursor_in(doc.deep_view(), pos.line as nat, pos.utf16_col as int),
        r matches Some(c) ==> c.wf() && doc == Some(c.doc),
{
    match doc {
        Some(d) => match d.node_at_position(pos) {
            Some(n) => Some(CstCursor { doc: d, node: n }),
            None => None,
        },
        None => None,
    }
}

/// Whether a local declaration hides what a name at a position would mean without it.
pub open spec fn shadowed_at(
    doc: Option<DocView>,
    row: nat,
    utf16_col: int,
    name: Seq<char>,
) -> bool {
    match cursor_in(doc, row, utf16_col) {
        Some(c) => cst_scope::shadowed(c.doc, c.node, name),
        None => false,
    }
}

/// Whether a local declaration hides what a name at a position would mean without it; without a
/// tree nothing is known to.
pub fn name_shadowed_by_local_declaration_with_cache(
    doc: Option<&LiveDoc>,
    line: usize,
    utf16_column: usize,
    name: &str,
) -> (r: bool)
    requires
        doc matches Some(d) ==> d.wf(),
    ensures
        r == shadowed_at(doc.deep_view(), line as nat, utf16_column as int, name@),
{
    match cursor_node_at(doc, CursorPos { line, utf16_col: utf16_column }) {
        Some(c) => cst_scope::name_shadowed_by_local_declaration(&c, name),
        None => false,
    }
}

/// The type of a variable that is visible at a position.
pub open spec fn variable_type_by_tree(
    doc: Option<DocView>,
    name: Seq<char>,
    position: Position,
) -> Option<Seq<char>> {
    let row = position.line as nat;
    let col = position.character as int;
    match cursor_in(doc, row, col) {
        Some(c) => cst_scope::variable_type(
            c.doc,
            c.node,
            name,
            live::offset_at(c.doc.text, row, col),
        ),
        None => None,
    }
}

/// The type of a variable that is visible at a position; without a tree none is known.
pub fn variable_type_at_from_cst(doc: Option<&LiveDoc>, var_name: &str, position: Position) -> (r:
    Option<String>)
    requires
        doc matches Some(d) ==> d.wf(),
    ensures
        r.deep_view() == variable_type_by_tree(doc.deep_view(), var_name@, position),
{
    let line: usize = position.line as usize;
    let col: usize = position.character as usize;
    match cursor_node_at(doc, CursorPos { line, utf16_col: col }) {
        Some(c) => {
            let at: usize = live::offset_of(c.doc.text.as_str(), line, col);
            cst_scope::variable_type_at(&c, var_name, at)
        },
        None => None,
    }
}

/// Where the text of a line of an open document begins.
pub open spec fn probe_column(v: IndexView, uri: Seq<char>, row: int) -> int {
    if v.live_lines.dom().contains(uri) && row < v.live_lines[uri].len() {
        let line = v.live_lines[uri][row];
        columns::utf16_len(line.take(line.len() - text::trimmed_start(line).len())) as int
    } else {
        0
    }
}

/// The type that encloses a row of a file, by its tree, else by the text that was indexed.
pub open spec fn class_round(v: IndexView, uri: Seq<char>, row: nat, doc: Option<DocView>) -> Option<
    Seq<char>,
> {
    cst_scope::enclosing_class(
        v,
        uri,
        row as int,
        cursor_in(doc, row, probe_column(v, uri, row as int)),
    )
}

/// The parameters of the lambdas round a position, by the file's tree, else by its text.
pub open spec fn params_round(
    v: IndexView,
    uri: Seq<char>,
    row: nat,
    utf16_col: int,
    doc: Option<DocView>,
) -> Seq<Seq<char>> {
    match cursor_in(doc, row, utf16_col) {
        Some(c) => cst_scope::params_above(c.doc, c.node, Seq::empty()),
        None => scope::lambda_params_at(
            match scope::known_lines(v, uri) {
                Some(l) => l,
                None => Seq::empty(),
            },
            row as int,
            utf16_col,
        ),
    }
}

/// The type of a name that may be `it`, `this` or a lambda's parameter, in a file whose lines
/// are known.
pub open spec fn lambda_param_type<D: InferDeps>(
    v: IndexView,
    deps: &D,
    name: Seq<char>,
    uri: Seq<char>,
    position: Position,
    doc: Option<DocView>,
    call_arg_type: Option<Seq<char>>,
) -> Option<Seq<char>> {
    match scope::known_lines(v, uri) {
        Some(lines) => cst_scope::inferred_type(
            deps.facts(),
            name,
            lines,
            CursorPos { line: position.line as usize, utf16_col: position.character as usize },
            doc is Some,
            cursor_in(doc, position.line as nat, position.character as int),
            call_arg_type,
            class_round(v, uri, position.line as nat, doc),
            uri,
        ),
        None => None,
    }
}

impl Indexer {
    fn probe(&self, uri: &str, row: usize) -> (r: usize)
        requires
            self.wf(),
        ensures
            r == probe_column(self@, uri@, row as int),
    {
        match self.live_lines.get(uri) {
            Some(lines) => if row < lines.len() {
                let line = lines[row].as_str();
                assert(self@.live_lines[uri@][row as int] == line@);
                let n: usize = line.unicode_len();
                let rest: usize = text::trim_start(line).unicode_len();
                proof {
                    text::lemma_span(line@, text::space_class());
                }
                columns::utf16_count(text::take(line, n - rest))
            } else {
                0
            },
            None => 0,
        }
    }

    /// The type that encloses a row of a file, by its tree, else by the text that was indexed.
    pub fn enclosing_class_at_with_cache(&self, uri: &str, row: u32, doc: Option<&LiveDoc>) -> (r:
        Option<String>)
        requires
            self.wf(),
            doc matches Some(d) ==> d.wf(),
            self@.files.dom().contains(uri@) ==> scope::braces_from(
                self@.files[uri@].lines,
                0,
            ) <= i32::MAX,
        ensures
            r.deep_view() == class_round(self@, uri@, row as nat, doc.deep_view()),
    {
        let line: usize = row as usize;
        let col: usize = self.probe(uri, line);
        match cursor_node_at(doc, CursorPos { line, utf16_col: col }) {
            Some(c) => self.enclosing_class_at(uri, row, Some(&c)),
            None => self.enclosing_class_at(uri, row, None),
        }
    }

    /// The parameters of the lambdas round a position, by the file's tree, else by its text.
    pub fn lambda_params_at_col_with_cache(
        &self,
        uri: &str,
        cursor_line: usize,
        cursor_col: usize,
        doc: Option<&LiveDoc>,
    ) -> (r: Vec<String>)
        requires
            self.wf(),
            doc matches Some(d) ==> d.wf(),
        ensures
            r.deep_view() == params_round(
                self@,
                uri@,
                cursor_line as nat,
                cursor_col as int,
                doc.deep_view(),
            ),
    {
        match cursor_node_at(doc, CursorPos { line: cursor_line, utf16_col: cursor_col }) {
            Some(c) => self.lambda_params_at_col(uri, cursor_line, cursor_col, Some(&c)),
            None => self.lambda_params_at_col(uri, cursor_line, cursor_col, None),
        }
    }

    /// The parameters of the lambdas that are open at the end of a line.
    pub fn lambda_params_at(&self, uri: &str, cursor_line: usize, doc: Option<&LiveDoc>) -> (r: Vec<
        String,
    >)
        requires
            self.wf(),
            doc matches Some(d) ==> d.wf(),
        ensures
            r.deep_view() == params_round(
                self@,
                uri@,
                cursor_line as nat,
                usize::MAX as int,
                doc.deep_view(),
            ),
    {
        self.lambda_params_at_col_with_cache(uri, cursor_line, usize::MAX, doc)
    }

    /// Whether a name after `before_cur` is a lambda's parameter: one that the line declares, or
    /// one in scope.
    pub fn is_lambda_param_with_cache(
        &self,
        recv: &str,
        before_cur: &str,
        uri: &str,
        cursor_line: usize,
        doc: Option<&LiveDoc>,
    ) -> (r: bool)
        requires
            self.wf(),
            doc matches Some(d) ==> d.wf(),
        ensures
            r == it_this::names_lambda_param(
                recv@,
                before_cur@,
                params_round(
                    self@,
                    uri@,
                    cursor_line as nat,
                    columns::utf16_len(before_cur@) as int,
                    doc.deep_view(),
                ),
            ),
    {
        let col: usize = columns::utf16_count(before_cur);
        let params = self.lambda_params_at_col_with_cache(uri, cursor_line, col, doc);
        it_this::is_lambda_param(recv, before_cur, &params)
    }

    /// The type of a name that may be `it`, `this` or a lambda's parameter. `call_arg_type` is
    /// what the name's place as an argument says of it.
    pub fn infer_lambda_param_type_at_with_cache<D: InferDeps>(
        &self,
        name: &str,
        uri: &str,
        position: Position,
        doc: Option<&LiveDoc>,
        call_arg_type: Option<String>,
        deps: &D,
    ) -> (r: Option<String>)
        requires
            self.wf(),
            deps.ready(),
            doc matches Some(d) ==> d.wf(),
            self@.files.dom().contains(uri@) ==> scope::braces_from(
                self@.files[uri@].lines,
                0,
            ) <= i32::MAX,
        ensures
            r.deep_view() == lambda_param_type(
                self@,
                deps,
                name@,
                uri@,
                position,
                doc.deep_view(),
                call_arg_type.deep_view(),
            ),
    {
        let lines = match self.lines_for(uri) {
            Some(l) => l,
            None => {
                return None;
            },
        };
        let pos = CursorPos {
            line: position.line as usize,
            utf16_col: position.character as usize,
        };
        let class = self.enclosing_class_at_with_cache(uri, position.line, doc);
        match cursor_node_at(doc, pos) {
            Some(c) => cst_scope::infer_lambda_param_type_at(
                name,
                lines,
                pos,
                true,
                Some(&c),
                call_arg_type,
                class,
                deps,
                uri,
            ),
            None => cst_scope::infer_lambda_param_type_at(
                name,
                lines,
                pos,
                doc.is_some(),
                None,
                call_arg_type,
                class,
                deps,
                uri,
            ),
        }
    }
}

} // verus!
