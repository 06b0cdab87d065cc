//! Parsing open documents into syntax trees.
use tree_sitter::Parser;
use vstd::prelude::*;
use vstd::string::*;

use crate::brackets;
use crate::columns;
use crate::cst::{CstNode, DocView, LiveDoc, NodeView};
use crate::text;

verus! {

// ---------------------------------------------------------------------------
// What the parser gives
// ---------------------------------------------------------------------------

/// A node as the parser gives it. Offsets are counted in bytes.
#[derive(Debug, PartialEq, Eq)]
pub struct RawNode {
    pub kind: String,
    pub named: bool,
    /// How many nodes stand above it.
    pub depth: usize,
    pub start_byte: usize,
    pub end_byte: usize,
    pub row: usize,
}

#[verifier::ext_equal]
pub struct RawView {
    pub kind: Seq<char>,
    pub named: bool,
    pub depth: usize,
    pub start_byte: usize,
    pub end_byte: usize,
    pub row: usize,
}

impl DeepView for RawNode {
    type V = RawView;

    open spec fn deep_view(&self) -> RawView {
        RawView {
            kind: self.kind@,
            named: self.named,
            depth: self.depth,
            start_byte: self.start_byte,
            end_byte: self.end_byte,
            row: self.row,
        }
    }
}

/// The nodes of the syntax tree of a Kotlin text, each before its children; none where it cannot
/// be parsed.
pub uninterp spec fn kotlin_nodes(content: Seq<char>) -> Option<Seq<RawView>>;

/// The nodes of the syntax tree of a Java text.
pub uninterp spec fn java_nodes(content: Seq<char>) -> Option<Seq<RawView>>;

/// `Parser::parse` with the grammar `tree_sitter_kotlin::language`, and every node of the tree as
/// a `TreeCursor` comes by it. The parser counts bytes in 32 bits. The grammar's scanner keeps
/// the delimiters of the strings that are open on a stack of 1024, and aborts where one more is
/// pushed; a delimiter is pushed for a quote that no token before it holds, also while the parser
/// recovers from an error, so that as many quotes always fit. The scanner asks the C library
/// which characters are letters, digits and spaces. That is the same everywhere for ASCII, so
/// that the tree of such a text depends on the text alone; of the tree of another text nothing
/// is said, for it may change with the locale.
#[verifier::external_body]
pub(crate) fn parse_kotlin(content: &str) -> (r: Option<Vec<RawNode>>)
    requires
        content.spec_bytes().len() < 0x1_0000_0000,
        brackets::occurrences(content@, '"') <= 1024,
    ensures
        text::all_ascii(content@) ==> r.deep_view() == kotlin_nodes(content@),
{
    let mut parser = Parser::new();
    parser.set_language(&tree_sitter_kotlin::language()).ok()?;
    let tree = parser.parse(content, None)?;
    let mut cursor = tree.walk();
    Some((0..tree.root_node().descendant_count()).map(|i| {
        cursor.goto_descendant(i);
        let (n, depth) = (cursor.node(), cursor.depth() as usize);
        let (start_byte, end_byte, row) = (n.start_byte(), n.end_byte(), n.start_position().row);
        RawNode { kind: n.kind().to_owned(), named: n.is_named(), depth, start_byte, end_byte, row }
    }).collect())
}

/// `Parser::parse` with the grammar `tree_sitter_java::language`, and every node of the tree as a
/// `TreeCursor` comes by it: a function of the text alone, since no time limit is set and the
/// grammar has no scanner of its own.
#[verifier::external_body]
pub(crate) fn parse_java(content: &str) -> (r: Option<Vec<RawNode>>)
    requires
        content.spec_bytes().len() < 0x1_0000_0000,
    ensures
        r.deep_view() == java_nodes(content@),
{
    let mut parser = Parser::new();
    parser.set_language(&tree_sitter_java::language()).ok()?;
    let tree = parser.parse(content, None)?;
    let mut cursor = tree.walk();
    Some((0..tree.root_node().descendant_count()).map(|i| {
        cursor.goto_descendant(i);
        let (n, depth) = (cursor.node(), cursor.depth() as usize);
        let (start_byte, end_byte, row) = (n.start_byte(), n.end_byte(), n.start_position().row);
        RawNode { kind: n.kind().to_owned(), named: n.is_named(), depth, start_byte, end_byte, row }
    }).collect())
}

/// `Parser::parse` with the grammar `tree_sitter_swift_bundled::language`, and every node of the
/// tree as a `TreeCursor` comes by it. The grammar's scanner counts the signs that open a raw
/// string, does not set the count before it begins, and stores it with each token that it finds.
/// It, too, asks the C library which characters are letters, digits and spaces. The tree may
/// change with more than the text, so that nothing is said of it.
#[verifier::external_body]
pub(crate) fn parse_swift(content: &str) -> (r: Option<Vec<RawNode>>)
    requires
        content.spec_bytes().len() < 0x1_0000_0000,
{
    let mut parser = Parser::new();
    parser.set_language(&tree_sitter_swift_bundled::language()).ok()?;
    let tree = parser.parse(content, None)?;
    let mut cursor = tree.walk();
    Some((0..tree.root_node().descendant_count()).map(|i| {
        cursor.goto_descendant(i);
        let (n, depth) = (cursor.node(), cursor.depth() as usize);
        let (start_byte, end_byte, row) = (n.start_byte(), n.end_byte(), n.start_position().row);
        RawNode { kind: n.kind().to_owned(), named: n.is_named(), depth, start_byte, end_byte, row }
    }).collect())
}

// ---------------------------------------------------------------------------
// Bytes and characters
// ---------------------------------------------------------------------------

/// The character that begins at a byte; the end of the text counts. None where a character spans
/// the byte, or where the text is shorter.
pub open spec fn char_at_byte(s: Seq<char>, b: int) -> Option<int>
    decreases s.len(),
{
    if b == columns::byte_len(s) {
        Some(s.len() as int)
    } else if s.len() == 0 {
        None
    } else {
        char_at_byte(s.drop_last(), b)
    }
}

proof fn lemma_no_char_beyond(s: Seq<char>, b: int)
    requires
        b > columns::byte_len(s),
    ensures
        char_at_byte(s, b) is None,
    decreases s.len(),
{
    if s.len() > 0 {
        assert(s.drop_last().push(s.last()) =~= s);
        columns::lemma_byte_len_push(s.drop_last(), s.last());
        lemma_no_char_beyond(s.drop_last(), b);
    }
}

proof fn lemma_char_in_range(s: Seq<char>, b: int)
    ensures
        match char_at_byte(s, b) {
            Some(c) => 0 <= c <= s.len(),
            None => true,
        },
    decreases s.len(),
{
    if b != columns::byte_len(s) && s.len() > 0 {
        lemma_char_in_range(s.drop_last(), b);
    }
}

/// For each byte of a text, the character that begins there.
fn chars_by_byte(content: &str) -> (r: Vec<Option<usize>>)
    requires
        content.spec_bytes().len() < 0x1_0000_0000,
    ensures
        r@.len() == columns::byte_len(content@) + 1,
        forall|b: int|
            0 <= b < r@.len() ==> (match #[trigger] r@[b] {
                Some(c) => Some(c as int),
                None => None,
            }) == char_at_byte(content@, b),
{
    let c = text::chars_of(content);
    let n: usize = c.len();
    let mut out: Vec<Option<usize>> = Vec::new();
    out.push(Some(0));
    let mut i: usize = 0;
    assert(content@.take(0) =~= Seq::empty());
    assert(columns::byte_len(content@.take(0)) == 0) by {
        columns::lemma_byte_len_take(content@, 0);
    }
    while i < n
        invariant
            c@ == content@,
            n == c@.len(),
            i <= n,
            out@.len() == columns::byte_len(content@.take(i as int)) + 1,
            forall|b: int|
                0 <= b < out@.len() ==> (match #[trigger] out@[b] {
                    Some(k) => Some(k as int),
                    None => None,
                }) == char_at_byte(content@.take(i as int), b),
        decreases n - i,
    {
        let width: usize = columns::char_utf8_width(c[i]);
        let ghost before = content@.take(i as int);
        let ghost next = content@.take(i + 1);
        let ghost old_out = out@;
        proof {
            assert(next =~= before.push(c@[i as int]));
            assert(next.drop_last() =~= before);
            columns::lemma_byte_len_push(before, c@[i as int]);
        }
        let mut k: usize = 1;
        while k < width
            invariant
                1 <= k <= width || (width == 0 && k == 1),
                old_out.len() == columns::byte_len(before) + 1,
                out@.len() == old_out.len() + k - 1,
                columns::byte_len(next) == columns::byte_len(before) + width,
                next.drop_last() == before,
                next.len() > 0,
                forall|b: int| 0 <= b < old_out.len() ==> #[trigger] out@[b] == old_out[b],
                forall|b: int| old_out.len() <= b < out@.len() ==> (#[trigger] out@[b]) is None,
            decreases width - k,
        {
            out.push(None);
            k += 1;
        }
        out.push(Some(i + 1));
        proof {
            assert forall|b: int| 0 <= b < out@.len() implies (match #[trigger] out@[b] {
                Some(x) => Some(x as int),
                None => None,
            }) == char_at_byte(next, b) by {
                if b < old_out.len() {
                    assert(old_out[b] == out@[b]);
                } else if b < out@.len() - 1 {
                    lemma_no_char_beyond(before, b);
                }
            }
        }
        i += 1;
    }
    assert(content@.take(n as int) =~= content@);
    out
}

// ---------------------------------------------------------------------------
// Trees
// ---------------------------------------------------------------------------

/// The parent of a node: from `j` downwards, the nearest node that lies less deep.
pub open spec fn parent_from(raw: Seq<RawView>, depth: usize, j: int) -> Option<int>
    decreases j + 1,
{
    if j < 0 || j >= raw.len() {
        None
    } else if raw[j].depth < depth {
        Some(j)
    } else {
        parent_from(raw, depth, j - 1)
    }
}

/// The parent of a node.
pub open spec fn parent_of(raw: Seq<RawView>, i: int) -> Option<int> {
    parent_from(raw, raw[i].depth, i - 1)
}

/// The children that a node has among the first `n` nodes.
pub open spec fn children_of(raw: Seq<RawView>, p: int, n: int) -> Seq<int>
    decreases n,
{
    if n <= 0 {
        Seq::empty()
    } else {
        let before = children_of(raw, p, n - 1);
        if parent_of(raw, n - 1) == Some(p) {
            before.push(n - 1)
        } else {
            before
        }
    }
}

/// Whether a node begins and ends where characters do, and does not end before it begins.
pub open spec fn placed(content: Seq<char>, r: RawView) -> bool {
    match (
        char_at_byte(content, r.start_byte as int),
        char_at_byte(content, r.end_byte as int),
    ) {
        (Some(a), Some(b)) => a <= b,
        _ => false,
    }
}

/// A node with its place in the tree, of which the first `n` nodes are known.
pub open spec fn node_of(content: Seq<char>, raw: Seq<RawView>, i: int, n: int) -> NodeView {
    NodeView {
        kind: raw[i].kind,
        start: char_at_byte(content, raw[i].start_byte as int)->0,
        end: char_at_byte(content, raw[i].end_byte as int)->0,
        row: raw[i].row,
        named: raw[i].named,
        parent: parent_of(raw, i),
        children: children_of(raw, i, n),
    }
}

/// A document whose tree has the given nodes; none where a node does not lie in the text.
pub open spec fn doc_of(content: Seq<char>, raw: Seq<RawView>) -> Option<DocView> {
    if forall|i: int| 0 <= i < raw.len() ==> placed(content, #[trigger] raw[i]) {
        Some(
            DocView {
                text: content,
                nodes: Seq::new(
                    raw.len(),
                    |i: int| node_of(content, raw, i, raw.len() as int),
                ),
            },
        )
    } else {
        None
    }
}

proof fn lemma_parent(raw: Seq<RawView>, depth: usize, j: int)
    ensures
        match parent_from(raw, depth, j) {
            Some(p) => 0 <= p <= j && raw[p].depth < depth,
            None => true,
        },
    decreases j + 1,
{
    if 0 <= j < raw.len() && raw[j].depth >= depth {
        lemma_parent(raw, depth, j - 1);
    }
}

/// Nodes that lie at least as deep can be passed over.
proof fn lemma_pass_over(raw: Seq<RawView>, depth: usize, from: int, to: int)
    requires
        -1 <= to <= from < raw.len(),
        forall|k: int| to < k <= from ==> (#[trigger] raw[k]).depth >= depth,
    ensures
        parent_from(raw, depth, from) == parent_from(raw, depth, to),
    decreases from - to,
{
    if to < from {
        assert(raw[from].depth >= depth);
        lemma_pass_over(raw, depth, from - 1, to);
    }
}

proof fn lemma_between(raw: Seq<RawView>, depth: usize, j: int)
    requires
        j < raw.len(),
    ensures
        ({
            let to = match parent_from(raw, depth, j) {
                Some(p) => p,
                None => -1,
            };
            forall|k: int| to < k <= j ==> (#[trigger] raw[k]).depth >= depth
        }),
    decreases j + 1,
{
    if 0 <= j && raw[j].depth >= depth {
        lemma_between(raw, depth, j - 1);
    }
}

proof fn lemma_children(raw: Seq<RawView>, p: int, n: int)
    requires
        n <= raw.len(),
    ensures
        forall|k: int|
            0 <= k < children_of(raw, p, n).len() ==> p < #[trigger] children_of(raw, p, n)[k] < n,
    decreases n,
{
    if n > 0 {
        lemma_children(raw, p, n - 1);
        lemma_parent(raw, raw[n - 1].depth, n - 2);
        let a = children_of(raw, p, n - 1);
        let b = children_of(raw, p, n);
        assert forall|k: int| 0 <= k < b.len() implies p < #[trigger] b[k] < n by {
            if k < a.len() {
                assert(b[k] == a[k]);
            }
        }
    }
}

/// Where a node stands less deep than `i`: climbs from the node before it.
fn find_parent(raw: &Vec<RawNode>, nodes: &Vec<CstNode>, i: usize) -> (r: Option<usize>)
    requires
        i < raw@.len(),
        nodes@.len() == i,
        forall|k: int|
            0 <= k < i ==> (#[trigger] nodes@[k]).deep_view().parent == parent_of(
                raw.deep_view(),
                k,
            ),
    ensures
        match r {
            Some(p) => p < i && parent_of(raw.deep_view(), i as int) == Some(p as int),
            None => parent_of(raw.deep_view(), i as int) is None,
        },
{
    let ghost all = raw.deep_view();
    let depth: usize = raw[i].depth;
    assert(all[i as int] == raw@[i as int].deep_view());
    if i == 0 {
        return None;
    }
    let mut j: usize = i - 1;
    loop
        invariant
            i < raw@.len(),
            nodes@.len() == i,
            all == raw.deep_view(),
            all.len() == raw@.len(),
            depth == all[i as int].depth,
            j < i,
            parent_of(all, i as int) == parent_from(all, depth, j as int),
            forall|k: int|
                0 <= k < i ==> (#[trigger] nodes@[k]).deep_view().parent == parent_of(all, k),
        decreases j,
    {
        assert(all[j as int] == raw@[j as int].deep_view());
        if raw[j].depth < depth {
            return Some(j);
        }
        proof {
            assert(nodes@[j as int].deep_view().parent == parent_of(all, j as int));
            lemma_parent(all, all[j as int].depth, j - 1);
            lemma_between(all, all[j as int].depth, j - 1);
        }
        match nodes[j].parent {
            Some(p) => {
                proof {
                    lemma_pass_over(all, depth, j as int, p as int);
                }
                j = p;
            },
            None => {
                proof {
                    lemma_pass_over(all, depth, j as int, -1);
                }
                return None;
            },
        }
    }
}

/// A document whose tree has the given nodes; none where a node does not lie in the text.
pub fn live_doc_of(content: &str, raw: &Vec<RawNode>) -> (r: Option<LiveDoc>)
    requires
        content.spec_bytes().len() < 0x1_0000_0000,
    ensures
        r.deep_view() == doc_of(content@, raw.deep_view()),
        r matches Some(doc) ==> doc.deep_view().wf(),
{
    let ghost all = raw.deep_view();
    let places = chars_by_byte(content);
    let mut nodes: Vec<CstNode> = Vec::new();
    let mut i: usize = 0;
    while i < raw.len()
        invariant
            i <= raw@.len(),
            all == raw.deep_view(),
            places@.len() == columns::byte_len(content@) + 1,
            forall|b: int|
                0 <= b < places@.len() ==> (match #[trigger] places@[b] {
                    Some(c) => Some(c as int),
                    None => None,
                }) == char_at_byte(content@, b),
            nodes@.len() == i,
            forall|k: int| 0 <= k < i ==> placed(content@, #[trigger] all[k]),
            forall|k: int|
                0 <= k < i ==> (#[trigger] nodes@[k]).deep_view() == node_of(
                    content@,
                    all,
                    k,
                    i as int,
                ),
        decreases raw@.len() - i,
    {
        let node = &raw[i];
        assert(all[i as int] == node.deep_view());
        proof {
            if node.start_byte >= places@.len() {
                lemma_no_char_beyond(content@, node.start_byte as int);
            }
            if node.end_byte >= places@.len() {
                lemma_no_char_beyond(content@, node.end_byte as int);
            }
        }
        if node.start_byte >= places.len() || node.end_byte >= places.len() {
            assert(!placed(content@, all[i as int]));
            return None;
        }
        let (start, end): (usize, usize) = match (places[node.start_byte], places[node.end_byte]) {
            (Some(a), Some(b)) => (a, b),
            _ => {
                assert(!placed(content@, all[i as int]));
                return None;
            },
        };
        if start > end {
            assert(!placed(content@, all[i as int]));
            return None;
        }
        let parent = find_parent(raw, &nodes, i);
        let ghost before = nodes@;
        if let Some(p) = parent {
            let mut above = take_node(&mut nodes, p);
            let ghost kids = above.children@;
            above.children.push(i);
            assert(above.children@.map_values(|c: usize| c as int) =~= kids.map_values(
                |c: usize| c as int,
            ).push(i as int));
            nodes.set(p, above);
        }
        let made = CstNode {
            kind: node.kind.clone(),
            start,
            end,
            row: node.row,
            named: node.named,
            parent,
            children: Vec::new(),
        };
        proof {
            lemma_children(all, i as int, i + 1);
            lemma_parent(all, all[i as int].depth, i - 1);
            assert(children_of(all, i as int, i + 1).len() == 0) by {
                if children_of(all, i as int, i + 1).len() > 0 {
                    let x = children_of(all, i as int, i + 1)[0];
                    assert(i < x < i + 1);
                }
            }
            assert(made.children@.map_values(|c: usize| c as int) =~= children_of(
                all,
                i as int,
                i + 1,
            ));
            assert(made.deep_view() =~= node_of(content@, all, i as int, i + 1));
        }
        nodes.push(made);
        proof {
            assert forall|k: int| 0 <= k < i + 1 implies (#[trigger] nodes@[k]).deep_view()
                == node_of(content@, all, k, i + 1) by {
                if k < i {
                    assert(before[k].deep_view() == node_of(content@, all, k, i as int));
                    assert(nodes@[k].deep_view() =~= node_of(content@, all, k, i + 1));
                }
            }
        }
        i += 1;
    }
    let doc = LiveDoc { text: content.to_owned(), nodes };
    proof {
        let v = doc.deep_view();
        assert(v.nodes =~= doc_of(content@, all)->0.nodes);
        assert forall|k: int| 0 <= k < v.nodes.len() implies #[trigger] v.node_ok(k) by {
            assert(v.nodes[k] == node_of(content@, all, k, all.len() as int));
            assert(placed(content@, all[k]));
            lemma_char_in_range(content@, all[k].start_byte as int);
            lemma_char_in_range(content@, all[k].end_byte as int);
            lemma_parent(all, all[k].depth, k - 1);
            lemma_children(all, k, all.len() as int);
        }
    }
    Some(doc)
}

/// Takes a node out of its place, to be put back.
fn take_node(nodes: &mut Vec<CstNode>, p: usize) -> (r: CstNode)
    requires
        p < old(nodes)@.len(),
    ensures
        r == old(nodes)@[p as int],
        final(nodes)@.len() == old(nodes)@.len(),
        forall|k: int|
            0 <= k < old(nodes)@.len() && k != p ==> #[trigger] final(nodes)@[k] == old(nodes)@[k],
{
    let mut out = CstNode {
        kind: String::new(),
        start: 0,
        end: 0,
        row: 0,
        named: false,
        parent: None,
        children: Vec::new(),
    };
    std::mem::swap(&mut nodes[p], &mut out);
    out
}

// ---------------------------------------------------------------------------
// Languages
// ---------------------------------------------------------------------------

/// A language that documents are parsed in.
#[derive(Clone, Copy, Debug, PartialEq, Eq, Structural)]
pub enum Language {
    Kotlin,
    Java,
    Swift,
}

/// The language of a file, by its extension.
pub open spec fn language_of(path: Seq<char>) -> Option<Language> {
    if text::ends_with(path, ".swift"@) {
        Some(Language::Swift)
    } else if text::ends_with(path, ".java"@) {
        Some(Language::Java)
    } else if text::ends_with(path, ".kt"@) || text::ends_with(path, ".kts"@) {
        Some(Language::Kotlin)
    } else {
        None
    }
}

/// The language of a file, by its extension; none for files of other kinds.
pub fn lang_for_path(path: &str) -> (r: Option<Language>)
    ensures
        r == language_of(path@),
{
    if text::has_suffix(path, ".swift") {
        Some(Language::Swift)
    } else if text::has_suffix(path, ".java") {
        Some(Language::Java)
    } else if text::has_suffix(path, ".kt") || text::has_suffix(path, ".kts") {
        Some(Language::Kotlin)
    } else {
        None
    }
}

/// Whether a text can be handed to the parser of a language: it counts bytes in 32 bits, and for
/// Kotlin it has room for 1024 quotes.
pub open spec fn parsable(lang: Language, content: Seq<char>, bytes: nat) -> bool {
    &&& bytes < 0x1_0000_0000
    &&& lang is Kotlin ==> brackets::occurrences(content, '"') <= 1024
}

/// Whether nodes may be those of the syntax tree of a text. That of a Java text depends on the
/// text alone, and so does that of a Kotlin text in ASCII; outside it the scanner of Kotlin goes
/// by the locale. That of Swift goes by more than the text.
pub open spec fn may_have(lang: Language, content: Seq<char>, nodes: Option<Seq<RawView>>) -> bool {
    match lang {
        Language::Kotlin => text::all_ascii(content) ==> nodes == kotlin_nodes(content),
        Language::Java => nodes == java_nodes(content),
        Language::Swift => true,
    }
}

/// The document that the nodes of a syntax tree make of a text; none where there is no tree, or
/// where its nodes do not fit the text.
pub open spec fn made_of(content: Seq<char>, nodes: Option<Seq<RawView>>) -> Option<DocView> {
    match nodes {
        Some(raw) => doc_of(content, raw),
        None => None,
    }
}

/// Whether a document is what a text may be parsed to: none where the text cannot be handed to
/// the parser, else the one of a tree that the text may have.
pub open spec fn may_parse_to(
    lang: Language,
    content: Seq<char>,
    bytes: nat,
    doc: Option<DocView>,
) -> bool {
    if !parsable(lang, content, bytes) {
        doc is None
    } else {
        exists|nodes: Option<Seq<RawView>>|
            may_have(lang, content, nodes) && doc == #[trigger] made_of(content, nodes)
    }
}

/// A text may always be parsed to something.
pub(crate) proof fn lemma_may_parse(lang: Language, content: Seq<char>, bytes: nat) -> (doc: Option<
    DocView,
>)
    ensures
        may_parse_to(lang, content, bytes, doc),
{
    if parsable(lang, content, bytes) {
        let nodes = match lang {
            Language::Kotlin => kotlin_nodes(content),
            _ => java_nodes(content),
        };
        assert(may_have(lang, content, nodes));
        made_of(content, nodes)
    } else {
        None
    }
}

/// The document of a text in a language.
pub fn parse_live(content: &str, lang: Language) -> (r: Option<LiveDoc>)
    ensures
        may_parse_to(lang, content@, content.spec_bytes().len(), r.deep_view()),
        r matches Some(doc) ==> doc.deep_view().wf() && doc.text@ == content@,
{
    if content.as_bytes().len() > 0xffff_ffff {
        return None;
    }
    let raw = match lang {
        Language::Kotlin => {
            if brackets::count(content, '"') > 1024 {
                return None;
            }
            parse_kotlin(content)
        },
        Language::Java => parse_java(content),
        Language::Swift => parse_swift(content),
    };
    let r = match &raw {
        Some(nodes) => live_doc_of(content, nodes),
        None => None,
    };
    proof {
        let nodes = raw.deep_view();
        assert(may_have(lang, content@, nodes));
        assert(r.deep_view() == made_of(content@, nodes));
    }
    r
}

} // verus!
