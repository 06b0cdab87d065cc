//! Open documents: their syntax trees, and the node at a position.
use vstd::prelude::*;
use vstd::string::*;

use crate::columns;
use crate::cst::{CstNode, DocView, LiveDoc};
use crate::index::{IndexView, Indexer};
use crate::lists;
use crate::syntax;
use crate::table::Table;
use crate::text;
use crate::types::{CursorPos, Replicate};
use crate::urls;

verus! {

// ---------------------------------------------------------------------------
// The node at a position
// ---------------------------------------------------------------------------

/// Where a line begins.
pub open spec fn row_start(s: Seq<char>, row: nat) -> Option<int>
    decreases row,
{
    if row == 0 {
        Some(0)
    } else {
        match text::index_of(s, '\n') {
            Some(i) => match row_start(s.skip(i + 1), (row - 1) as nat) {
                Some(b) => Some(b + i + 1),
                None => None,
            },
            None => None,
        }
    }
}

/// A line of a text, empty where the text has fewer.
pub open spec fn line_of(s: Seq<char>, row: int) -> Seq<char> {
    let lines = text::lines_of(s);
    if 0 <= row < lines.len() {
        lines[row]
    } else {
        Seq::empty()
    }
}

/// The character at a position; the end of the text where it has fewer lines.
pub open spec fn offset_at(s: Seq<char>, row: nat, utf16_col: int) -> int {
    match row_start(s, row) {
        Some(b) => b + columns::column_index(line_of(s, row as int), utf16_col),
        None => s.len() as int,
    }
}

/// Whether a node ends after a character.
pub open spec fn ends_after(d: DocView, at: int) -> spec_fn(int) -> bool {
    |c: int| d.nodes[c].end > at
}

/// The smallest node below a node that a character lies in; the node itself where none of its
/// children holds it.
pub open spec fn smallest_below(d: DocView, n: int, at: int) -> int
    decreases d.nodes.len() - n,
{
    match lists::find_where(d.nodes[n].children, ends_after(d, at)) {
        Some(c) => if d.nodes[c].start <= at && n < c < d.nodes.len() {
            smallest_below(d, c, at)
        } else {
            n
        },
        None => n,
    }
}

/// The smallest node that a position lies in; the outermost one where none does.
pub open spec fn node_at(d: DocView, row: nat, utf16_col: int) -> Option<int> {
    if d.nodes.len() > 0 {
        Some(smallest_below(d, 0, offset_at(d.text, row, utf16_col)))
    } else {
        None
    }
}

fn start_of_row(s: &str, row: usize) -> (r: Option<usize>)
    ensures
        match r {
            Some(b) => row_start(s@, row as nat) == Some(b as int) && b <= s@.len(),
            None => row_start(s@, row as nat) is None,
        },
{
    let c = text::chars_of(s);
    let n: usize = c.len();
    let mut from: usize = 0;
    let mut left: usize = row;
    assert(s@.skip(0) =~= s@);
    while left > 0
        invariant
            c@ == s@,
            n == c@.len(),
            from <= n,
            row_start(s@, row as nat) == (match row_start(s@.skip(from as int), left as nat) {
                Some(b) => Some(b + from),
                None => None,
            }),
        decreases left,
    {
        match text::index_from(&c, from, '\n') {
            Some(i) => {
                assert(s@.skip(from as int).skip(i + 1) =~= s@.skip(from + i + 1));
                from = from + i + 1;
            },
            None => {
                return None;
            },
        }
        left = left - 1;
    }
    Some(from)
}

/// The character at a position.
pub fn offset_of(s: &str, row: usize, utf16_col: usize) -> (r: usize)
    ensures
        r == offset_at(s@, row as nat, utf16_col as int),
        r <= s@.len(),
{
    let n: usize = s.unicode_len();
    match start_of_row(s, row) {
        Some(b) => {
            let lines = text::lines(s);
            let ghost all = lines.deep_view();
            let line = if row < lines.len() {
                lines[row]
            } else {
                proof {
                    reveal_strlit("");
                    assert(""@ =~= Seq::<char>::empty());
                }
                ""
            };
            proof {
                if row < lines@.len() {
                    assert(all[row as int] == line@);
                    lemma_line_len(s@, row as int);
                }
            }
            let within: usize = columns::utf16_col_to_char(line, utf16_col);
            b + within
        },
        None => n,
    }
}

/// A line ends before its text does.
proof fn lemma_line_len(s: Seq<char>, row: int)
    requires
        0 <= row < text::lines_of(s).len(),
    ensures
        row_start(s, row as nat) is Some,
        row_start(s, row as nat)->0 + text::lines_of(s)[row].len() <= s.len(),
    decreases s.len(),
{
    let n = text::span(s, text::all_but('\n'));
    text::lemma_span(s, text::all_but('\n'));
    if s.len() > 0 && n < s.len() && row > 0 {
        lemma_line_len(s.skip(n + 1), row - 1);
        assert(text::lines_of(s)[row] == text::lines_of(s.skip(n + 1))[row - 1]);
        assert(text::index_of(s, '\n') == Some(n));
    }
}

fn child_ending_after(doc: &LiveDoc, n: usize, at: usize) -> (r: Option<usize>)
    requires
        doc.wf(),
        n < doc.nodes@.len(),
    ensures
        match r {
            Some(c) => lists::find_where(
                doc.deep_view().nodes[n as int].children,
                ends_after(doc.deep_view(), at as int),
            ) == Some(c as int) && n < c < doc.nodes@.len(),
            None => lists::find_where(
                doc.deep_view().nodes[n as int].children,
                ends_after(doc.deep_view(), at as int),
            ) is None,
        },
{
    let ghost d = doc.deep_view();
    let ghost all = d.nodes[n as int].children;
    let ghost p = ends_after(d, at as int);
    let list = &doc.nodes[n].children;
    assert(d.nodes[n as int] == doc.nodes@[n as int].deep_view());
    assert(d.node_ok(n as int));
    let mut i: usize = 0;
    while i < list.len()
        invariant
            doc.wf(),
            n < doc.nodes@.len(),
            d == doc.deep_view(),
            d.node_ok(n as int),
            all == d.nodes[n as int].children,
            all == list@.map_values(|c: usize| c as int),
            p == ends_after(d, at as int),
            i <= list@.len(),
            forall|k: int| 0 <= k < i ==> !p(#[trigger] all[k]),
        decreases list@.len() - i,
    {
        let c: usize = list[i];
        assert(all[i as int] == c as int);
        assert(d.nodes[c as int] == doc.nodes@[c as int].deep_view());
        if doc.nodes[c].end > at {
            proof {
                lists::lemma_first(all, p, i as int);
            }
            return Some(c);
        }
        i += 1;
    }
    proof {
        lists::lemma_no_first(all, p);
    }
    None
}

impl LiveDoc {
    /// The smallest node that a character lies in.
    pub fn smallest_node(&self, at: usize) -> (r: Option<usize>)
        requires
            self.wf(),
        ensures
            match r {
                Some(n) => n < self.nodes@.len() && smallest_below(self.deep_view(), 0, at as int)
                    == n,
                None => self.nodes@.len() == 0,
            },
    {
        if self.nodes.len() == 0 {
            return None;
        }
        let ghost d = self.deep_view();
        let mut n: usize = 0;
        loop
            invariant
                self.wf(),
                n < self.nodes@.len(),
                d == self.deep_view(),
                smallest_below(d, 0, at as int) == smallest_below(d, n as int, at as int),
            decreases self.nodes@.len() - n,
        {
            match child_ending_after(self, n, at) {
                Some(c) => {
                    assert(d.nodes[c as int] == self.nodes@[c as int].deep_view());
                    if self.nodes[c].start > at {
                        return Some(n);
                    }
                    n = c;
                },
                None => {
                    return Some(n);
                },
            }
        }
    }

    /// The smallest node that a position lies in.
    pub fn node_at_position(&self, pos: CursorPos) -> (r: Option<usize>)
        requires
            self.wf(),
        ensures
            match r {
                Some(n) => n < self.nodes@.len() && node_at(
                    self.deep_view(),
                    pos.line as nat,
                    pos.utf16_col as int,
                ) == Some(n as int),
                None => node_at(self.deep_view(), pos.line as nat, pos.utf16_col as int) is None,
            },
    {
        let at: usize = offset_of(self.text.as_str(), pos.line, pos.utf16_col);
        self.smallest_node(at)
    }
}

/// The character lies in the node that is found, unless that is the outermost one.
pub proof fn law_smallest_node_holds_the_character(d: DocView, n: int, at: int)
    requires
        d.wf(),
        d.has(n),
    ensures
        ({
            let s = smallest_below(d, n, at);
            &&& n <= s < d.nodes.len()
            &&& s == n || d.nodes[s].start <= at < d.nodes[s].end
        }),
    decreases d.nodes.len() - n,
{
    let p = ends_after(d, at);
    lists::lemma_first_is(d.nodes[n].children, p);
    assert(d.node_ok(n));
    if let Some(c) = lists::find_where(d.nodes[n].children, p) {
        if d.nodes[c].start <= at && n < c < d.nodes.len() {
            law_smallest_node_holds_the_character(d, c, at);
        }
    }
}

/// No child of the node that is found holds the character, where a node's children stand one
/// after the other.
pub proof fn law_smallest_node_is_smallest(d: DocView, n: int, at: int, k: int)
    requires
        d.wf(),
        d.has(n),
        forall|p: int, i: int, j: int|
            #![trigger d.nodes[p].children[i], d.nodes[p].children[j]]
            d.has(p) && 0 <= i < j < d.nodes[p].children.len()
                ==> d.nodes[d.nodes[p].children[i]].end <= d.nodes[d.nodes[p].children[j]].start,
        0 <= k < d.nodes[smallest_below(d, n, at)].children.len(),
    ensures
        ({
            let c = d.nodes[smallest_below(d, n, at)].children[k];
            !(d.nodes[c].start <= at < d.nodes[c].end)
        }),
    decreases d.nodes.len() - n,
{
    let kids = d.nodes[n].children;
    let p = ends_after(d, at);
    assert(d.node_ok(n));
    match lists::first_where(kids, p) {
        Some(i) => {
            lists::lemma_first_is(kids, p);
            let c = kids[i];
            if d.nodes[c].start <= at && n < c < d.nodes.len() {
                law_smallest_node_is_smallest(d, c, at, k);
            } else if k > i {
                assert(d.nodes[kids[i]].end <= d.nodes[kids[k]].start);
            } else if k < i {
                assert(!p(kids[k]));
            }
        },
        None => {
            lists::lemma_first_is(kids, p);
            assert(!p(kids[k]));
        },
    }
}

// ---------------------------------------------------------------------------
// Open documents
// ---------------------------------------------------------------------------

/// Every document of a table is in order.
pub open spec fn docs_wf(docs: Map<Seq<char>, DocView>) -> bool {
    forall|uri: Seq<char>| docs.dom().contains(uri) ==> (#[trigger] docs[uri]).wf()
}

/// The documents that were parsed, by URI.
pub struct LiveTrees {
    pub docs: Table<LiveDoc>,
}

/// The documents after a document was parsed, or could not be.
pub open spec fn with_doc(docs: Map<Seq<char>, DocView>, uri: Seq<char>, doc: Option<DocView>) -> Map<
    Seq<char>,
    DocView,
> {
    match doc {
        Some(d) => docs.insert(uri, d),
        None => docs.remove(uri),
    }
}

/// Whether a document is what a text at a path may be parsed to.
pub open spec fn doc_at(path: Seq<char>, content: &str, doc: Option<DocView>) -> bool {
    match syntax::language_of(path) {
        Some(lang) => syntax::may_parse_to(lang, content@, content.spec_bytes().len(), doc),
        None => doc is None,
    }
}

/// The document of a text at a path; none where the file is of a kind that is not parsed.
pub fn parse_at(path: &str, content: &str) -> (r: Option<LiveDoc>)
    ensures
        doc_at(path@, content, r.deep_view()),
        r matches Some(doc) ==> doc.deep_view().wf() && doc.text@ == content@,
{
    match syntax::lang_for_path(path) {
        Some(lang) => syntax::parse_live(content, lang),
        None => None,
    }
}

impl LiveTrees {
    /// The documents are in order.
    pub open spec fn wf(&self) -> bool {
        self.docs.wf() && docs_wf(self.docs@)
    }

    /// No documents.
    pub fn new() -> (r: LiveTrees)
        ensures
            r.wf(),
            r.docs@ == Map::<Seq<char>, DocView>::empty(),
    {
        LiveTrees { docs: Table::new() }
    }

    /// Keeps the document that was parsed of an open one. Where there is none, the old one is
    /// forgotten, so that an old tree is never read.
    pub fn keep_parsed(&mut self, uri: &str, parsed: Option<LiveDoc>)
        requires
            old(self).wf(),
            parsed matches Some(doc) ==> doc.wf(),
        ensures
            final(self).wf(),
            final(self).docs@ == with_doc(old(self).docs@, uri@, parsed.deep_view()),
    {
        match parsed {
            Some(doc) => {
                self.docs.insert(uri, doc);
            },
            None => {
                self.docs.remove(uri);
            },
        }
    }

    /// Parses an open document of a path. One that cannot be parsed is forgotten, so that an old
    /// tree is never read.
    pub fn store_live_tree_at(&mut self, uri: &str, path: &str, content: &str)
        requires
            old(self).wf(),
        ensures
            final(self).wf(),
            exists|doc: Option<DocView>| #[trigger]
                doc_at(path@, content, doc) && final(self).docs@ == with_doc(
                    old(self).docs@,
                    uri@,
                    doc,
                ),
    {
        let parsed = parse_at(path, content);
        let ghost doc = parsed.deep_view();
        self.keep_parsed(uri, parsed);
        assert(doc_at(path@, content, doc));
    }

    /// Parses an open document. One that cannot be parsed is forgotten, so that an old tree is
    /// never read.
    pub fn store_live_tree(&mut self, uri: &str, content: &str)
        requires
            old(self).wf(),
        ensures
            final(self).wf(),
            exists|doc: Option<DocView>| #[trigger]
                doc_of_text(urls::url_path(uri@), Some(content), doc) && final(self).docs@
                    == with_doc(old(self).docs@, uri@, doc),
    {
        let ghost before = self.docs@;
        match urls::path_in_url(uri) {
            Some(path) => {
                self.store_live_tree_at(uri, path.as_str(), content);
                proof {
                    let doc = choose|doc: Option<DocView>| #[trigger]
                        doc_at(path@, content, doc) && self.docs@ == with_doc(before, uri@, doc);
                    assert(doc_of_text(urls::url_path(uri@), Some(content), doc));
                }
            },
            None => {
                self.docs.remove(uri);
                assert(doc_of_text(urls::url_path(uri@), Some(content), None));
            },
        }
    }

    /// The document of a URI.
    pub fn live_doc(&self, uri: &str) -> (r: Option<&LiveDoc>)
        requires
            self.wf(),
        ensures
            match r {
                Some(d) => self.docs@.dom().contains(uri@) && d.deep_view() == self.docs@[uri@]
                    && d.wf(),
                None => !self.docs@.dom().contains(uri@),
            },
    {
        self.docs.get(uri)
    }

    /// Keeps a document that was parsed for a request.
    pub fn insert(&mut self, uri: &str, doc: LiveDoc)
        requires
            old(self).wf(),
            doc.wf(),
        ensures
            final(self).wf(),
            final(self).docs@ == old(self).docs@.insert(uri@, doc.deep_view()),
    {
        self.docs.insert(uri, doc);
    }

    /// Forgets a document, when it is closed.
    pub fn remove_live_tree(&mut self, uri: &str)
        requires
            old(self).wf(),
        ensures
            final(self).wf(),
            final(self).docs@ == old(self).docs@.remove(uri@),
    {
        self.docs.remove(uri);
    }
}

/// The text of a document that the index knows: that of the editor, else the one that was
/// indexed.
pub open spec fn known_text(v: IndexView, uri: Seq<char>) -> Option<Seq<char>> {
    if v.live_lines.dom().contains(uri) {
        Some(text::unlines(v.live_lines[uri]))
    } else if v.files.dom().contains(uri) {
        Some(text::unlines(v.files[uri].lines))
    } else {
        None
    }
}

impl Indexer {
    /// The text of a document that the index knows; none where it must be read.
    pub fn known_content(&self, uri: &str) -> (r: Option<String>)
        requires
            self.wf(),
        ensures
            r.deep_view() == known_text(self@, uri@),
    {
        match self.live_lines.get(uri) {
            Some(lines) => Some(text::join_lines(lines)),
            None => match self.files.get(uri) {
                Some(file) => Some(text::join_lines(&file.lines)),
                None => None,
            },
        }
    }

    /// Whether a document is open in the editor.
    pub fn is_open(&self, uri: &str) -> (r: bool)
        requires
            self.wf(),
        ensures
            r == self@.live_lines.dom().contains(uri@),
    {
        self.live_lines.contains_key(uri)
    }
}

/// The trees of open documents and of a request, after a document was asked for whose text is
/// `content`, where one is known: it is parsed unless it was before, kept for the request, and
/// for later ones too where it is open.
pub open spec fn after_asking(
    trees: Map<Seq<char>, DocView>,
    request: Map<Seq<char>, DocView>,
    uri: Seq<char>,
    doc: Option<DocView>,
    open: bool,
) -> (Map<Seq<char>, DocView>, Map<Seq<char>, DocView>) {
    if trees.dom().contains(uri) || request.dom().contains(uri) {
        (trees, request)
    } else {
        match doc {
            Some(d) => (
                if open {
                    trees.insert(uri, d)
                } else {
                    trees
                },
                request.insert(uri, d),
            ),
            None => (trees, request),
        }
    }
}

/// The tree that is read for a document.
pub open spec fn doc_for(
    trees: Map<Seq<char>, DocView>,
    request: Map<Seq<char>, DocView>,
    uri: Seq<char>,
) -> Option<DocView> {
    if trees.dom().contains(uri) {
        Some(trees[uri])
    } else if request.dom().contains(uri) {
        Some(request[uri])
    } else {
        None
    }
}

/// Whether a document is what an optional text at an optional path may be parsed to.
pub open spec fn doc_of_text(
    path: Option<Seq<char>>,
    content: Option<&str>,
    doc: Option<DocView>,
) -> bool {
    match (path, content) {
        (Some(p), Some(c)) => doc_at(p, c, doc),
        _ => doc is None,
    }
}

proof fn lemma_some_doc(path: Option<Seq<char>>, content: Option<&str>) -> (doc: Option<DocView>)
    ensures
        doc_of_text(path, content, doc),
{
    match (path, content) {
        (Some(p), Some(c)) => match syntax::language_of(p) {
            Some(lang) => syntax::lemma_may_parse(lang, c@, c.spec_bytes().len()),
            None => None,
        },
        _ => None,
    }
}

fn copy_node(n: &CstNode) -> (r: CstNode)
    ensures
        r.deep_view() == n.deep_view(),
{
    let mut children: Vec<usize> = Vec::new();
    let mut i: usize = 0;
    while i < n.children.len()
        invariant
            i <= n.children@.len(),
            children@ == n.children@.take(i as int),
        decreases n.children@.len() - i,
    {
        children.push(n.children[i]);
        assert(n.children@.take(i + 1) =~= n.children@.take(i as int).push(n.children@[i as int]));
        i += 1;
    }
    assert(n.children@.take(n.children@.len() as int) =~= n.children@);
    CstNode {
        kind: n.kind.clone(),
        start: n.start,
        end: n.end,
        row: n.row,
        named: n.named,
        parent: n.parent,
        children,
    }
}

impl Replicate for LiveDoc {
    fn replicate(&self) -> (r: Self) {
        let ghost all = self.nodes.deep_view();
        let mut nodes: Vec<CstNode> = Vec::new();
        let mut i: usize = 0;
        while i < self.nodes.len()
            invariant
                i <= self.nodes@.len(),
                all == self.nodes.deep_view(),
                nodes@.len() == i,
                forall|k: int| 0 <= k < i ==> (#[trigger] nodes@[k]).deep_view() == all[k],
            decreases self.nodes@.len() - i,
        {
            assert(all[i as int] == self.nodes@[i as int].deep_view());
            nodes.push(copy_node(&self.nodes[i]));
            i += 1;
        }
        assert(nodes.deep_view() =~= all);
        LiveDoc { text: self.text.clone(), nodes }
    }
}

/// Keeps the document that was parsed for a request, unless one is there already. One of an open
/// document is kept for later requests too.
pub fn keep_asked(
    trees: &mut LiveTrees,
    request: &mut LiveTrees,
    uri: &str,
    parsed: Option<LiveDoc>,
    open: bool,
)
    requires
        old(trees).wf(),
        old(request).wf(),
        parsed matches Some(doc) ==> doc.wf(),
    ensures
        final(trees).wf(),
        final(request).wf(),
        (final(trees).docs@, final(request).docs@) == after_asking(
            old(trees).docs@,
            old(request).docs@,
            uri@,
            parsed.deep_view(),
            open,
        ),
{
    if trees.docs.contains_key(uri) || request.docs.contains_key(uri) {
        return;
    }
    if let Some(doc) = parsed {
        if open {
            trees.insert(uri, doc.replicate());
        }
        request.insert(uri, doc);
    }
}

/// Makes the tree of a document of a path ready to be read in a request. `content` is the
/// document's text, where it is known or could be read.
pub fn live_doc_or_parse_at(
    trees: &mut LiveTrees,
    request: &mut LiveTrees,
    uri: &str,
    path: Option<&str>,
    content: Option<&str>,
    open: bool,
)
    requires
        old(trees).wf(),
        old(request).wf(),
    ensures
        final(trees).wf(),
        final(request).wf(),
        exists|doc: Option<DocView>| #[trigger]
            doc_of_text(path.deep_view(), content, doc) && (
                final(trees).docs@,
                final(request).docs@,
            ) == after_asking(old(trees).docs@, old(request).docs@, uri@, doc, open),
{
    if trees.docs.contains_key(uri) || request.docs.contains_key(uri) {
        proof {
            let doc = lemma_some_doc(path.deep_view(), content);
            assert(doc_of_text(path.deep_view(), content, doc));
        }
        return;
    }
    let parsed = match (path, content) {
        (Some(p), Some(c)) => parse_at(p, c),
        _ => None,
    };
    let ghost doc = parsed.deep_view();
    keep_asked(trees, request, uri, parsed, open);
    assert(doc_of_text(path.deep_view(), content, doc));
}

/// Makes the tree of a document ready to be read in a request. `content` is the document's text,
/// where it is known or could be read.
pub fn live_doc_or_parse_with_cache(
    trees: &mut LiveTrees,
    request: &mut LiveTrees,
    uri: &str,
    content: Option<&str>,
    open: bool,
)
    requires
        old(trees).wf(),
        old(request).wf(),
    ensures
        final(trees).wf(),
        final(request).wf(),
        exists|doc: Option<DocView>| #[trigger]
            doc_of_text(urls::url_path(uri@), content, doc) && (
                final(trees).docs@,
                final(request).docs@,
            ) == after_asking(old(trees).docs@, old(request).docs@, uri@, doc, open),
{
    match urls::path_in_url(uri) {
        Some(path) => {
            live_doc_or_parse_at(trees, request, uri, Some(path.as_str()), content, open);
        },
        None => {
            live_doc_or_parse_at(trees, request, uri, None, content, open);
        },
    }
}

/// Makes the tree of a document ready to be read; hands out the trees that were parsed for it
/// alone. One of an open document is kept.
pub fn live_doc_or_parse(
    trees: &mut LiveTrees,
    uri: &str,
    content: Option<&str>,
    open: bool,
) -> (r: LiveTrees)
    requires
        old(trees).wf(),
    ensures
        final(trees).wf(),
        r.wf(),
        exists|doc: Option<DocView>| #[trigger]
            doc_of_text(urls::url_path(uri@), content, doc) && (final(trees).docs@, r.docs@)
                == after_asking(old(trees).docs@, Map::empty(), uri@, doc, open),
{
    let mut request = LiveTrees::new();
    live_doc_or_parse_with_cache(trees, &mut request, uri, content, open);
    request
}

/// A document that can be parsed can be read once it was asked for, and asking again changes
/// nothing.
pub proof fn law_asked_documents_can_be_read(
    trees: Map<Seq<char>, DocView>,
    request: Map<Seq<char>, DocView>,
    uri: Seq<char>,
    doc: Option<DocView>,
    open: bool,
)
    requires
        doc is Some,
    ensures
        ({
            let (t, r) = after_asking(trees, request, uri, doc, open);
            &&& doc_for(t, r, uri) is Some
            &&& after_asking(t, r, uri, doc, open) == (t, r)
        }),
{
}

/// A document that is not open leaves no tree behind when the request is over.
pub proof fn law_closed_documents_leave_nothing(
    trees: Map<Seq<char>, DocView>,
    request: Map<Seq<char>, DocView>,
    uri: Seq<char>,
    doc: Option<DocView>,
)
    ensures
        after_asking(trees, request, uri, doc, false).0 == trees,
{
}

} // verus!
