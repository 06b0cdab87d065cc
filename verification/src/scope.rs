//! What stands at a cursor: the word, what qualifies it, and what encloses it.
use vstd::prelude::*;
use vstd::string::*;

use crate::brackets;
use crate::columns;
use crate::index::{IndexView, Indexer};
use crate::lambda_params;
use crate::scan;
use crate::scan::Brackets;
use crate::text;
use crate::text::CharClass;
use crate::types::{Location, LocationView, Position, Range};

verus! {

/// How many lines above the cursor are searched for a lambda's parameters.
pub const SCOPE_SCAN_BACK_LINES: usize = 50;

/// How many lines above a block's brace are searched for the declaration that opens it.
pub const DECL_SCAN_UP_LINES: usize = 15;

/// How many lines above an argument are searched for its call.
pub const ENCLOSING_CALL_SCAN_BACK: usize = 20;

// ---------------------------------------------------------------------------
// Calls
// ---------------------------------------------------------------------------

/// A dotted name without the dots at its ends.
pub open spec fn without_dots(s: Seq<char>) -> Seq<char> {
    text::without_suffix_of(text::without_prefix_of(s, text::only('.')), text::only('.'))
}

/// The call that encloses character `col` of line `line_no`: the dotted name before the nearest
/// open parenthesis.
pub open spec fn call_name(lines: Seq<Seq<char>>, line_no: int, col: int) -> Option<Seq<char>> {
    match scan::open_back(
        lines,
        Brackets::Calls,
        line_no,
        col,
        0,
        scan::walk_start(line_no, ENCLOSING_CALL_SCAN_BACK as int),
    ) {
        Some(p) => {
            let name = without_dots(
                text::suffix_of(scan::line_at(lines, p.0).take(p.1), text::dotted_class()),
            );
            if name.len() > 0 {
                Some(name)
            } else {
                None
            }
        },
        None => None,
    }
}

/// The name of the call that encloses character `col` of line `line_no`, with what qualifies
/// it.
pub fn find_enclosing_call_name(lines: &Vec<String>, line_no: usize, col: usize) -> (r: Option<
    String,
>)
    requires
        line_no < lines@.len(),
        col <= lines@[line_no as int]@.len(),
    ensures
        r.deep_view() == call_name(lines.deep_view(), line_no as int, col as int),
{
    let low: usize = if line_no > ENCLOSING_CALL_SCAN_BACK {
        line_no - ENCLOSING_CALL_SCAN_BACK
    } else {
        0
    };
    assert(lines.deep_view()[line_no as int] == lines@[line_no as int]@);
    match scan::find_open(lines, Brackets::Calls, line_no, col, low) {
        Some(p) => {
            let head = text::take(scan::line_or_empty(lines, p.0), p.1);
            let chain = text::suffix_class(head, CharClass::Dotted);
            let name = text::trim_end_class(
                text::trim_start_class(chain, CharClass::Only('.')),
                CharClass::Only('.'),
            );
            if name.is_empty() {
                None
            } else {
                Some(name.to_owned())
            }
        },
        None => None,
    }
}

/// The last of the first `n` segments that names a type.
pub open spec fn last_type_segment(segments: Seq<Seq<char>>, n: int) -> Option<Seq<char>>
    decreases n,
{
    if n <= 0 {
        None
    } else if text::upper_start(segments[n - 1]) {
        Some(segments[n - 1])
    } else {
        last_type_segment(segments, n - 1)
    }
}

/// The type whose parameters a call's named arguments name: the called constructor's type, or
/// the type that a called method belongs to, which is the last segment of the name that names
/// one.
pub open spec fn callee_type(callee: Seq<char>) -> Option<Seq<char>> {
    let segments = text::parts(callee, '.');
    last_type_segment(segments, segments.len() as int)
}

/// The type whose parameters a call's named arguments name.
pub fn callee_to_qualifier(full_callee: &str) -> (r: Option<String>)
    ensures
        r.deep_view() == callee_type(full_callee@),
{
    let segments = text::split(full_callee, '.');
    let ghost all = segments.deep_view();
    let mut n: usize = segments.len();
    while n > 0
        invariant
            n <= segments@.len(),
            all == segments.deep_view(),
            all == text::parts(full_callee@, '.'),
            last_type_segment(all, all.len() as int) == last_type_segment(all, n as int),
        decreases n,
    {
        n -= 1;
        assert(all[n as int] == segments@[n as int]@);
        if text::starts_with_uppercase(segments[n]) {
            return Some(segments[n].to_owned());
        }
    }
    None
}

// ---------------------------------------------------------------------------
// Words
// ---------------------------------------------------------------------------

/// The character that a cursor before character `at` is on: the one it stands before, else the
/// one it stands behind, where that belongs to a word.
pub open spec fn touched(line: Seq<char>, at: int) -> Option<int> {
    if 0 <= at < line.len() && text::id_char(line[at]) {
        Some(at)
    } else if 0 < at <= line.len() && text::id_char(line[at - 1]) {
        Some(at - 1)
    } else {
        None
    }
}

/// The word round the character `e`: from the last character before it that belongs to no word
/// to the first one after it.
pub open spec fn word_round(line: Seq<char>, e: int) -> (int, int) {
    (
        e - text::rspan(line.take(e), text::ident_class()),
        e + text::span(line.skip(e), text::ident_class()),
    )
}

/// The word at the UTF-16 column `col`, as the characters that it spans; a lone underscore is
/// none.
pub open spec fn word_span(line: Seq<char>, col: int) -> Option<(int, int)> {
    match touched(line, columns::column_index(line, col)) {
        Some(e) => {
            let w = word_round(line, e);
            if line.subrange(w.0, w.1) == "_"@ {
                None
            } else {
                Some(w)
            }
        },
        None => None,
    }
}

/// The word at the UTF-16 column `col`, as the characters that it spans.
fn span_of_word(line: &str, col: usize) -> (r: Option<(usize, usize)>)
    ensures
        match r {
            Some(w) => word_span(line@, col as int) == Some((w.0 as int, w.1 as int)) && w.0 < w.1
                <= line@.len(),
            None => word_span(line@, col as int) is None,
        },
{
    let at: usize = columns::utf16_col_to_char(line, col);
    let c = text::chars_of(line);
    let n: usize = c.len();
    let e: usize = if at < n && text::is_id_char(c[at]) {
        at
    } else if at > 0 && text::is_id_char(c[at - 1]) {
        at - 1
    } else {
        return None;
    };
    let left: usize = text::rspan_to(&c, e, CharClass::Ident);
    let right: usize = text::span_from(&c, e, CharClass::Ident);
    proof {
        text::lemma_span(line@.skip(e as int), text::ident_class());
        assert(line@.skip(e as int)[0] == line@[e as int]);
        assert(text::ident_class()(line@[e as int]));
        assert(right > 0);
    }
    if text::same(text::slice(line, e - left, e + right), "_") {
        None
    } else {
        Some((e - left, e + right))
    }
}

/// The dotted name before the word that begins at `start`.
pub open spec fn dotted_qualifier(line: Seq<char>, start: int) -> Option<Seq<char>> {
    let q = text::without_prefix_of(
        text::suffix_of(line.take(start - 1), text::dotted_class()),
        text::only('.'),
    );
    if q.len() > 0 && q != "_"@ {
        Some(q)
    } else {
        None
    }
}

/// Whether what follows a word makes it the name of an argument.
pub open spec fn assigns(after: Seq<char>) -> bool {
    let t = text::trimmed_start(after);
    text::starts_with(t, "="@) && !text::starts_with(t, "=="@)
}

/// What qualifies the word from `start` to `end` of a line: the dotted name before it; for the
/// name of an argument, the type whose parameter it names.
pub open spec fn qualifier(
    lines: Seq<Seq<char>>,
    line_no: int,
    start: int,
    end: int,
) -> Option<Seq<char>> {
    let line = lines[line_no];
    if start >= 2 && line[start - 1] == '.' {
        dotted_qualifier(line, start)
    } else if assigns(line.skip(end)) {
        match call_name(lines, line_no, start) {
            Some(callee) => callee_type(callee),
            None => None,
        }
    } else {
        None
    }
}

/// The word at a position of a text, and what qualifies it.
pub open spec fn word_and_qualifier(lines: Seq<Seq<char>>, p: Position) -> Option<
    (Seq<char>, Option<Seq<char>>),
> {
    if p.line < lines.len() {
        match word_span(lines[p.line as int], p.character as int) {
            Some(w) => Some(
                (
                    lines[p.line as int].subrange(w.0, w.1),
                    qualifier(lines, p.line as int, w.0, w.1),
                ),
            ),
            None => None,
        }
    } else {
        None
    }
}

/// The word at a position of a text, and what qualifies it.
pub fn word_and_qualifier_in(lines: &Vec<String>, position: Position) -> (r: Option<
    (String, Option<String>),
>)
    ensures
        r.deep_view() == word_and_qualifier(lines.deep_view(), position),
{
    let line_no: usize = position.line as usize;
    if line_no >= lines.len() {
        return None;
    }
    let line = lines[line_no].as_str();
    assert(lines.deep_view()[line_no as int] == line@);
    let w = match span_of_word(line, position.character as usize) {
        Some(w) => w,
        None => {
            return None;
        },
    };
    let start: usize = w.0;
    let word = text::slice(line, start, w.1).to_owned();
    let q = if start >= 2 && line.get_char(start - 1) == '.' {
        let chain = text::suffix_class(text::take(line, start - 1), CharClass::Dotted);
        let name = text::trim_start_class(chain, CharClass::Only('.'));
        if !name.is_empty() && !text::same(name, "_") {
            Some(name.to_owned())
        } else {
            None
        }
    } else {
        let after = text::trim_start(text::skip(line, w.1));
        if text::has_prefix(after, "=") && !text::has_prefix(after, "==") {
            match find_enclosing_call_name(lines, line_no, start) {
                Some(callee) => callee_to_qualifier(callee.as_str()),
                None => None,
            }
        } else {
            None
        }
    };
    Some((word, q))
}

/// The stretch of a line from one character to another, in UTF-16 columns.
pub open spec fn stretch(line: Seq<char>, line_no: u32, start: int, end: int) -> Range {
    Range {
        start: Position {
            line: line_no,
            character: columns::utf16_len(line.take(start)) as u32,
        },
        end: Position {
            line: line_no,
            character: (columns::utf16_len(line.take(start)) + columns::utf16_len(
                line.subrange(start, end),
            )) as u32,
        },
    }
}

/// The word at a position of a text, and where it stands.
pub open spec fn word_and_range(lines: Seq<Seq<char>>, p: Position) -> Option<(Seq<char>, Range)> {
    if p.line < lines.len() {
        match word_span(lines[p.line as int], p.character as int) {
            Some(w) => Some(
                (
                    lines[p.line as int].subrange(w.0, w.1),
                    stretch(lines[p.line as int], p.line, w.0, w.1),
                ),
            ),
            None => None,
        }
    } else {
        None
    }
}

/// Whether every column of every line can be counted in 32 bits.
pub open spec fn columns_fit(lines: Seq<Seq<char>>) -> bool {
    forall|i: int| 0 <= i < lines.len() ==> columns::utf16_len(#[trigger] lines[i]) < u32::MAX
}

/// A line takes as many UTF-16 units as its two parts.
proof fn lemma_utf16_split(s: Seq<char>, i: int)
    requires
        0 <= i <= s.len(),
    ensures
        columns::utf16_len(s) == columns::utf16_len(s.take(i)) + columns::utf16_len(s.skip(i)),
    decreases i,
{
    if i == 0 {
        assert(s.take(0) =~= Seq::empty());
        assert(s.skip(0) =~= s);
    } else {
        lemma_utf16_split(s, i - 1);
        assert(s.take(i - 1).push(s[i - 1]) =~= s.take(i));
        columns::lemma_utf16_len_push(s.take(i - 1), s[i - 1]);
        assert(s.skip(i - 1).skip(1) =~= s.skip(i));
    }
}

/// The word at a position of a text, and where it stands.
pub fn word_and_range_in(lines: &Vec<String>, position: Position) -> (r: Option<(String, Range)>)
    requires
        columns_fit(lines.deep_view()),
    ensures
        r.deep_view() == word_and_range(lines.deep_view(), position),
{
    let line_no: usize = position.line as usize;
    if line_no >= lines.len() {
        return None;
    }
    let line = lines[line_no].as_str();
    assert(lines.deep_view()[line_no as int] == line@);
    let w = match span_of_word(line, position.character as usize) {
        Some(w) => w,
        None => {
            return None;
        },
    };
    let word = text::slice(line, w.0, w.1);
    let start: usize = columns::utf16_count(text::take(line, w.0));
    let len: usize = columns::utf16_count(word);
    proof {
        lemma_utf16_split(line@, w.1 as int);
        lemma_utf16_split(line@.take(w.1 as int), w.0 as int);
        assert(line@.take(w.1 as int).take(w.0 as int) =~= line@.take(w.0 as int));
        assert(line@.take(w.1 as int).skip(w.0 as int) =~= word@);
    }
    let range = Range {
        start: Position { line: position.line, character: start as u32 },
        end: Position { line: position.line, character: (start + len) as u32 },
    };
    Some((word.to_owned(), range))
}

/// The word that a range was given for is the text in that range: the range begins where the
/// word does.
pub proof fn law_word_lies_in_its_line(lines: Seq<Seq<char>>, p: Position)
    ensures
        match word_and_qualifier(lines, p) {
            Some(w) => exists|s: int, e: int|
                0 <= s < e <= lines[p.line as int].len() && w.0 == #[trigger] lines[p.line as int].subrange(
                    s,
                    e,
                ),
            None => true,
        },
        match (word_and_qualifier(lines, p), word_and_range(lines, p)) {
            (Some(a), Some(b)) => a.0 == b.0,
            (None, None) => true,
            _ => false,
        },
{
    if p.line < lines.len() {
        let line = lines[p.line as int];
        match word_span(line, p.character as int) {
            Some(w) => {
                let at = columns::column_index(line, p.character as int);
                let e = touched(line, at).unwrap();
                text::lemma_span(line.skip(e), text::ident_class());
                text::lemma_rspan(line.take(e), text::ident_class());
                assert(line.skip(e)[0] == line[e]);
                assert(text::ident_class()(line[e]));
                assert(word_and_qualifier(lines, p).unwrap().0 == line.subrange(w.0, w.1));
            },
            None => {},
        }
    }
}

/// A word is made of identifier characters alone, and cannot be made longer at either end.
pub proof fn law_word_is_maximal(line: Seq<char>, col: int)
    ensures
        match word_span(line, col) {
            Some(w) => {
                &&& 0 <= w.0 < w.1 <= line.len()
                &&& forall|i: int| w.0 <= i < w.1 ==> text::id_char(#[trigger] line[i])
                &&& w.0 > 0 ==> !text::id_char(line[w.0 - 1])
                &&& w.1 < line.len() ==> !text::id_char(line[w.1])
            },
            None => true,
        },
{
    match word_span(line, col) {
        Some(w) => {
            let p = text::ident_class();
            let e = touched(line, columns::column_index(line, col)).unwrap();
            let a = line.take(e);
            let b = line.skip(e);
            text::lemma_rspan(a, p);
            text::lemma_span(b, p);
            assert(b[0] == line[e]);
            assert(p(line[e]));
            assert forall|i: int| w.0 <= i < w.1 implies text::id_char(#[trigger] line[i]) by {
                if i < e {
                    assert(p(a[i]));
                } else {
                    assert(p(b[i - e]));
                }
            }
            if w.0 > 0 {
                assert(a[w.0 - 1] == line[w.0 - 1]);
                assert(!p(a[w.0 - 1]));
            }
            if w.1 < line.len() {
                assert(b[w.1 - e] == line[w.1]);
                assert(!p(b[w.1 - e]));
            }
        },
        None => {},
    }
}

// ---------------------------------------------------------------------------
// Lines of files
// ---------------------------------------------------------------------------

/// The lines of a file as they are known: as an editor has them, else as they were indexed.
pub open spec fn known_lines(v: IndexView, uri: Seq<char>) -> Option<Seq<Seq<char>>> {
    if v.live_lines.dom().contains(uri) {
        Some(v.live_lines[uri])
    } else if v.files.dom().contains(uri) {
        Some(v.files[uri].lines)
    } else {
        None
    }
}

impl Indexer {
    /// The lines of a file as they are known: as an editor has them, else as they were
    /// indexed. Of a file that is neither the caller reads the lines itself.
    pub fn lines_for(&self, uri: &str) -> (r: Option<&Vec<String>>)
        requires
            self.wf(),
        ensures
            match r {
                Some(l) => known_lines(self@, uri@) == Some(l.deep_view()),
                None => known_lines(self@, uri@) is None,
            },
    {
        match self.live_lines.get(uri) {
            Some(l) => Some(l),
            None => match self.files.get(uri) {
                Some(f) => Some(&f.lines),
                None => None,
            },
        }
    }

    /// The word at a position of a file, and what qualifies it.
    pub fn word_and_qualifier_at(&self, uri: &str, position: Position) -> (r: Option<
        (String, Option<String>),
    >)
        requires
            self.wf(),
        ensures
            r.deep_view() == match known_lines(self@, uri@) {
                Some(l) => word_and_qualifier(l, position),
                None => None,
            },
    {
        match self.lines_for(uri) {
            Some(lines) => word_and_qualifier_in(lines, position),
            None => None,
        }
    }

    /// The word at a position of a file.
    pub fn word_at(&self, uri: &str, position: Position) -> (r: Option<String>)
        requires
            self.wf(),
        ensures
            r.deep_view() == match known_lines(self@, uri@) {
                Some(l) => match word_and_qualifier(l, position) {
                    Some(w) => Some(w.0),
                    None => None,
                },
                None => None,
            },
    {
        match self.word_and_qualifier_at(uri, position) {
            Some(w) => Some(w.0),
            None => None,
        }
    }

    /// The word at a position of a file, and where it stands.
    pub fn word_and_range_at(&self, uri: &str, position: Position) -> (r: Option<(String, Range)>)
        requires
            self.wf(),
            match known_lines(self@, uri@) {
                Some(l) => columns_fit(l),
                None => true,
            },
        ensures
            r.deep_view() == match known_lines(self@, uri@) {
                Some(l) => word_and_range(l, position),
                None => None,
            },
    {
        match self.lines_for(uri) {
            Some(lines) => word_and_range_in(lines, position),
            None => None,
        }
    }
}

// ---------------------------------------------------------------------------
// Declarations of types
// ---------------------------------------------------------------------------

/// The words that may stand before the keyword of a type declaration.
pub open spec fn modifiers() -> Seq<Seq<char>> {
    seq![
        "abstract "@,
        "sealed "@,
        "data "@,
        "open "@,
        "inner "@,
        "private "@,
        "protected "@,
        "public "@,
        "internal "@,
        "inline "@,
        "value "@,
        "enum "@,
        "companion "@,
        "override "@,
        "final "@,
        "fileprivate "@,
        "@objc "@,
        "static "@,
    ]
}

fn modifier(i: usize) -> (r: &'static str)
    requires
        i < 18,
    ensures
        r@ == modifiers()[i as int],
{
    match i {
        0 => "abstract ",
        1 => "sealed ",
        2 => "data ",
        3 => "open ",
        4 => "inner ",
        5 => "private ",
        6 => "protected ",
        7 => "public ",
        8 => "internal ",
        9 => "inline ",
        10 => "value ",
        11 => "enum ",
        12 => "companion ",
        13 => "override ",
        14 => "final ",
        15 => "fileprivate ",
        16 => "@objc ",
        _ => "static ",
    }
}

/// A text without a word before it, and without the whitespace then at its start.
pub open spec fn without_word(s: Seq<char>, word: Seq<char>) -> Seq<char> {
    match text::prefix_stripped(s, word) {
        Some(rest) => text::trimmed_start(rest),
        None => text::trimmed_start(s),
    }
}

/// A text without the first `n` modifiers, each taken off once.
pub open spec fn without_modifiers(s: Seq<char>, n: int) -> Seq<char>
    decreases n,
{
    if n <= 0 {
        s
    } else {
        without_word(without_modifiers(s, n - 1), modifiers()[n - 1])
    }
}

/// A text without the annotation before it; an annotation that nothing follows stays.
pub open spec fn without_annotation(s: Seq<char>) -> Seq<char> {
    if s.len() > 0 && s[0] == '@' {
        match text::index_of(s, ' ') {
            Some(i) => text::trimmed_start(s.skip(i)),
            None => s,
        }
    } else {
        s
    }
}

/// A text without one round of modifiers and one annotation.
pub open spec fn one_round(s: Seq<char>) -> Seq<char> {
    without_annotation(without_modifiers(s, 18))
}

/// A text without any modifiers and annotations before it.
pub open spec fn bare_declaration(s: Seq<char>) -> Seq<char>
    decreases s.len(),
{
    let next = one_round(s);
    if next.len() < s.len() {
        bare_declaration(next)
    } else {
        s
    }
}

/// What follows the keyword of a type declaration.
pub open spec fn past_keyword(s: Seq<char>) -> Option<Seq<char>> {
    if text::starts_with(s, "class "@) {
        text::prefix_stripped(s, "class "@)
    } else if text::starts_with(s, "interface "@) {
        text::prefix_stripped(s, "interface "@)
    } else if text::starts_with(s, "object "@) {
        text::prefix_stripped(s, "object "@)
    } else if text::starts_with(s, "struct "@) {
        text::prefix_stripped(s, "struct "@)
    } else if text::starts_with(s, "protocol "@) {
        text::prefix_stripped(s, "protocol "@)
    } else {
        text::prefix_stripped(s, "extension "@)
    }
}

/// The name of the type that a line declares.
pub open spec fn declared_type(line: Seq<char>) -> Option<Seq<char>> {
    match past_keyword(bare_declaration(line)) {
        Some(rest) => {
            let name = text::ident_of(rest);
            if text::upper_start(name) {
                Some(name)
            } else {
                None
            }
        },
        None => None,
    }
}

/// Whether `a` is what is left of `b` when characters are taken off its start.
pub open spec fn tail_of(a: Seq<char>, b: Seq<char>) -> bool {
    a.len() <= b.len() && a == b.skip(b.len() - a.len())
}

proof fn lemma_tail_transitive(a: Seq<char>, b: Seq<char>, c: Seq<char>)
    requires
        tail_of(a, b),
        tail_of(b, c),
    ensures
        tail_of(a, c),
{
    assert(a =~= c.skip(c.len() - a.len()));
}

proof fn lemma_trimmed_start_tail(s: Seq<char>)
    ensures
        tail_of(text::trimmed_start(s), s),
{
    text::lemma_span(s, text::space_class());
}

proof fn lemma_without_word_tail(s: Seq<char>, word: Seq<char>)
    ensures
        tail_of(without_word(s, word), s),
{
    match text::prefix_stripped(s, word) {
        Some(rest) => {
            lemma_trimmed_start_tail(rest);
            assert(tail_of(rest, s));
            lemma_tail_transitive(text::trimmed_start(rest), rest, s);
        },
        None => {
            lemma_trimmed_start_tail(s);
        },
    }
}

proof fn lemma_without_modifiers_tail(s: Seq<char>, n: int)
    ensures
        tail_of(without_modifiers(s, n), s),
    decreases n,
{
    if n <= 0 {
        assert(s.skip(0) =~= s);
    } else {
        lemma_without_modifiers_tail(s, n - 1);
        lemma_without_word_tail(without_modifiers(s, n - 1), modifiers()[n - 1]);
        lemma_tail_transitive(without_modifiers(s, n), without_modifiers(s, n - 1), s);
    }
}

/// A round takes characters off the start, or leaves the text as it is.
proof fn lemma_one_round_tail(s: Seq<char>)
    ensures
        tail_of(one_round(s), s),
{
    let t = without_modifiers(s, 18);
    lemma_without_modifiers_tail(s, 18);
    if t.len() > 0 && t[0] == '@' {
        match text::index_of(t, ' ') {
            Some(i) => {
                text::lemma_span(t, text::all_but(' '));
                lemma_trimmed_start_tail(t.skip(i));
                assert(tail_of(t.skip(i), t)) by {
                    assert(t.skip(t.len() - (t.len() - i)) =~= t.skip(i));
                }
                lemma_tail_transitive(one_round(s), t.skip(i), t);
                lemma_tail_transitive(one_round(s), t, s);
            },
            None => {},
        }
    }
}

/// The name of the type that a line declares: after modifiers and annotations comes the keyword
/// of a type declaration, and after it a name with an uppercase first letter.
pub fn extract_class_decl_name(line: &str) -> (r: Option<String>)
    ensures
        r.deep_view() == declared_type(line@),
{
    let mut rest: &str = line;
    loop
        invariant
            bare_declaration(line@) == bare_declaration(rest@),
        ensures
            rest@ == bare_declaration(line@),
        decreases rest@.len(),
    {
        let mut t: &str = rest;
        let mut i: usize = 0;
        while i < 18
            invariant
                i <= 18,
                t@ == without_modifiers(rest@, i as int),
            decreases 18 - i,
        {
            let m = modifier(i);
            t = match text::strip_prefix(t, m) {
                Some(after) => text::trim_start(after),
                None => text::trim_start(t),
            };
            i += 1;
        }
        if !t.is_empty() && t.get_char(0) == '@' {
            if let Some(i) = text::find_char(t, ' ') {
                t = text::trim_start(text::skip(t, i));
            }
        }
        proof {
            lemma_one_round_tail(rest@);
        }
        if t.unicode_len() == rest.unicode_len() {
            break ;
        }
        rest = t;
    }
    let after = if let Some(s) = text::strip_prefix(rest, "class ") {
        s
    } else if let Some(s) = text::strip_prefix(rest, "interface ") {
        s
    } else if let Some(s) = text::strip_prefix(rest, "object ") {
        s
    } else if let Some(s) = text::strip_prefix(rest, "struct ") {
        s
    } else if let Some(s) = text::strip_prefix(rest, "protocol ") {
        s
    } else if let Some(s) = text::strip_prefix(rest, "extension ") {
        s
    } else {
        return None;
    };
    let name = text::ident_prefix(after);
    if text::starts_with_uppercase(name) {
        Some(name.to_owned())
    } else {
        None
    }
}

// ---------------------------------------------------------------------------
// Enclosing types
// ---------------------------------------------------------------------------

/// How many braces a line closes more than it opens.
pub open spec fn brace_balance(line: Seq<char>) -> int {
    brackets::occurrences(line, '}') - brackets::occurrences(line, '{')
}

/// The type declared on one of the lines from `low` up to `j`, sought from below, up to the
/// first line that begins or ends with a closing brace.
pub open spec fn declared_above(lines: Seq<Seq<char>>, j: int, low: int) -> Option<Seq<char>>
    decreases j - low,
{
    if j <= low {
        None
    } else {
        let t = text::trimmed(lines[j - 1]);
        match declared_type(t) {
            Some(name) => Some(name),
            None => if text::starts_with(t, "}"@) || text::ends_with(t, "}"@) {
                None
            } else {
                declared_above(lines, j - 1, low)
            },
        }
    }
}

/// The type declared where a block opens that encloses row `row`, sought from line `i` upwards:
/// on the line of the block's brace, or shortly above it. `d` more braces were closed than
/// opened below.
pub open spec fn type_from(lines: Seq<Seq<char>>, i: int, row: int, d: int) -> Option<Seq<char>>
    decreases i + 1,
{
    if i < 0 {
        None
    } else {
        let now = d + brace_balance(lines[i]);
        if now < 0 && i < row {
            match declared_type(text::trimmed(lines[i])) {
                Some(name) => Some(name),
                None => match declared_above(
                    lines,
                    i,
                    scan::walk_start(i, DECL_SCAN_UP_LINES as int),
                ) {
                    Some(name) => Some(name),
                    None => type_from(lines, i - 1, row, 0),
                },
            }
        } else {
            type_from(lines, i - 1, row, now)
        }
    }
}

/// The type that encloses a row, by the braces of the text.
pub open spec fn enclosing_type(lines: Seq<Seq<char>>, row: int) -> Option<Seq<char>> {
    type_from(
        lines,
        if row < lines.len() {
            row
        } else {
            lines.len() - 1
        },
        row,
        0,
    )
}

/// How many braces the lines from `i` on hold.
pub open spec fn braces_from(lines: Seq<Seq<char>>, i: int) -> nat
    decreases lines.len() - i,
{
    if i < 0 || i >= lines.len() {
        0
    } else {
        brackets::occurrences(lines[i], '}') + brackets::occurrences(lines[i], '{') + braces_from(
            lines,
            i + 1,
        )
    }
}

proof fn lemma_braces_from(lines: Seq<Seq<char>>, i: int)
    requires
        0 <= i <= lines.len(),
    ensures
        braces_from(lines, i) <= braces_from(lines, 0),
    decreases i,
{
    if i > 0 {
        lemma_braces_from(lines, i - 1);
    }
}

fn find_declared_above(lines: &Vec<String>, from: usize, low: usize) -> (r: Option<String>)
    requires
        from <= lines@.len(),
    ensures
        r.deep_view() == declared_above(lines.deep_view(), from as int, low as int),
{
    let ghost all = lines.deep_view();
    let mut j: usize = from;
    while j > low
        invariant
            j <= from <= lines@.len(),
            all == lines.deep_view(),
            declared_above(all, from as int, low as int) == declared_above(
                all,
                j as int,
                low as int,
            ),
        decreases j,
    {
        assert(all[j - 1] == lines@[j - 1]@);
        let t = text::trim(lines[j - 1].as_str());
        let found = extract_class_decl_name(t);
        if found.is_some() {
            return found;
        }
        if text::has_prefix(t, "}") || text::has_suffix(t, "}") {
            return None;
        }
        j -= 1;
    }
    None
}

/// The type that encloses a row, by the braces of the text.
pub fn enclosing_class_in_text(lines: &Vec<String>, row: usize) -> (r: Option<String>)
    requires
        braces_from(lines.deep_view(), 0) <= i32::MAX,
    ensures
        r.deep_view() == enclosing_type(lines.deep_view(), row as int),
{
    let ghost all = lines.deep_view();
    let n: usize = lines.len();
    let mut left: usize = if row < n {
        row + 1
    } else {
        n
    };
    let mut d: i64 = 0;
    while left > 0
        invariant
            n == lines@.len(),
            left <= n,
            all == lines.deep_view(),
            braces_from(all, 0) <= i32::MAX,
            -(braces_from(all, left as int) as int) <= d <= braces_from(all, left as int),
            enclosing_type(all, row as int) == type_from(all, left - 1, row as int, d as int),
        decreases left,
    {
        let i: usize = left - 1;
        let line = lines[i].as_str();
        assert(all[i as int] == line@);
        let closed: usize = brackets::count(line, '}');
        let opened: usize = brackets::count(line, '{');
        proof {
            lemma_braces_from(all, i as int);
            assert(closed + opened + braces_from(all, left as int) == braces_from(all, i as int));
        }
        d = d + closed as i64 - opened as i64;
        if d < 0 && i < row {
            let found = extract_class_decl_name(text::trim(line));
            if found.is_some() {
                return found;
            }
            let low: usize = if i > DECL_SCAN_UP_LINES {
                i - DECL_SCAN_UP_LINES
            } else {
                0
            };
            let above = find_declared_above(lines, i, low);
            if above.is_some() {
                return above;
            }
            d = 0;
        }
        left = i;
    }
    None
}

// ---------------------------------------------------------------------------
// Lambda parameters
// ---------------------------------------------------------------------------

/// Whether a name is one that a lambda gives its parameter.
pub open spec fn lambda_name(name: Seq<char>) -> bool {
    name != "it"@ && name != "_"@ && text::lower_start(name)
}

/// The names found so far, with those that the first `n` parts of a parameter list add.
pub open spec fn with_names(found: Seq<Seq<char>>, parts: Seq<Seq<char>>, n: int) -> Seq<Seq<char>>
    decreases n,
{
    if n <= 0 {
        found
    } else {
        let before = with_names(found, parts, n - 1);
        let name = text::ident_of(text::trimmed(parts[n - 1]));
        if lambda_name(name) && !before.contains(name) {
            before.push(name)
        } else {
            before
        }
    }
}

/// The names found so far, with those that a lambda beginning with `after_brace` declares.
pub open spec fn with_lambda(found: Seq<Seq<char>>, after_brace: Seq<char>) -> Seq<Seq<char>> {
    let t = text::trimmed_start(after_brace);
    match text::find_text(t, "->"@) {
        Some(i) => {
            let parts = text::parts(t.take(i), ',');
            with_names(found, parts, parts.len() as int)
        },
        None => found,
    }
}

/// What is known while lines are walked back: the parameters of the lambdas that enclose the
/// cursor, and how many braces were closed on the way.
#[verifier::ext_equal]
pub struct ScanView {
    pub params: Seq<Seq<char>>,
    pub depth: nat,
}

/// The walk over the first `i` characters of a line, backwards. The brace of a template in a
/// string opens no lambda.
pub open spec fn scanned(line: Seq<char>, i: int, s: ScanView) -> ScanView
    decreases i,
{
    if i <= 0 {
        s
    } else if line[i - 1] == '}' {
        scanned(line, i - 1, ScanView { depth: s.depth + 1, ..s })
    } else if line[i - 1] == '{' {
        if i >= 2 && line[i - 2] == '$' {
            scanned(line, i - 1, ScanView { depth: 0, ..s })
        } else if s.depth > 0 {
            scanned(line, i - 1, ScanView { depth: (s.depth - 1) as nat, ..s })
        } else {
            scanned(line, i - 1, ScanView { params: with_lambda(s.params, line.skip(i)), depth: 0 })
        }
    } else {
        scanned(line, i - 1, s)
    }
}

/// Whether the braces of a line from `a` up to `i`, and `d` more that are closed behind `i`, are
/// all opened there again, none of them by a template in a string.
pub open spec fn balanced(line: Seq<char>, a: int, i: int, d: nat) -> bool
    decreases i,
{
    if i <= 0 || i <= a {
        d == 0
    } else if line[i - 1] == '}' {
        balanced(line, a, i - 1, d + 1)
    } else if line[i - 1] == '{' {
        d > 0 && !(i >= 2 && line[i - 2] == '$') && balanced(line, a, i - 1, (d - 1) as nat)
    } else {
        balanced(line, a, i - 1, d)
    }
}

proof fn lemma_balanced(line: Seq<char>, a: int, i: int, d: nat, s: ScanView)
    requires
        0 <= a <= i <= line.len(),
        balanced(line, a, i, d),
    ensures
        scanned(line, i, ScanView { depth: s.depth + d, ..s }) == scanned(line, a, s),
    decreases i,
{
    let here = ScanView { depth: s.depth + d, ..s };
    if i <= a {
        assert(here =~= s);
    } else if line[i - 1] == '}' {
        lemma_balanced(line, a, i - 1, d + 1, s);
        assert((ScanView { depth: here.depth + 1, ..here }) =~= (ScanView {
            depth: s.depth + (d + 1),
            ..s
        }));
    } else if line[i - 1] == '{' {
        lemma_balanced(line, a, i - 1, (d - 1) as nat, s);
        assert((ScanView { depth: (here.depth - 1) as nat, ..here }) =~= (ScanView {
            depth: s.depth + (d - 1) as nat,
            ..s
        }));
    } else {
        lemma_balanced(line, a, i - 1, d, s);
    }
}

/// A stretch of a line whose braces are all closed again is passed over: the lambdas in it add
/// no parameters to those in scope.
pub proof fn law_closed_lambdas_are_out_of_scope(line: Seq<char>, a: int, b: int, s: ScanView)
    requires
        0 <= a <= b <= line.len(),
        balanced(line, a, b, 0),
    ensures
        scanned(line, b, s) == scanned(line, a, s),
{
    lemma_balanced(line, a, b, 0, s);
    assert((ScanView { depth: s.depth + 0, ..s }) =~= s);
}

/// A line up to the cursor, where the cursor is on it.
pub open spec fn before_cursor(
    lines: Seq<Seq<char>>,
    ln: int,
    cursor_line: int,
    cursor_col: int,
) -> Seq<char> {
    let line = scan::line_at(lines, ln);
    if ln == cursor_line {
        line.take(columns::column_index(line, cursor_col))
    } else {
        line
    }
}

/// The walk over the lines from `ln` up to `low`.
pub open spec fn scanned_lines(
    lines: Seq<Seq<char>>,
    ln: int,
    low: int,
    cursor_line: int,
    cursor_col: int,
    s: ScanView,
) -> ScanView
    decreases ln - low + 1,
{
    if ln < low {
        s
    } else {
        let line = before_cursor(lines, ln, cursor_line, cursor_col);
        scanned_lines(
            lines,
            ln - 1,
            low,
            cursor_line,
            cursor_col,
            scanned(line, line.len() as int, s),
        )
    }
}

/// The parameters of the lambdas that enclose a cursor, the innermost lambda's first.
pub open spec fn lambda_params_at(
    lines: Seq<Seq<char>>,
    cursor_line: int,
    cursor_col: int,
) -> Seq<Seq<char>> {
    scanned_lines(
        lines,
        cursor_line,
        scan::walk_start(cursor_line, SCOPE_SCAN_BACK_LINES as int),
        cursor_line,
        cursor_col,
        ScanView { params: Seq::empty(), depth: 0 },
    ).params
}

fn holds_name(names: &Vec<String>, name: &str) -> (r: bool)
    ensures
        r == names.deep_view().contains(name@),
{
    let ghost all = names.deep_view();
    let mut i: usize = 0;
    while i < names.len()
        invariant
            i <= names@.len(),
            all == names.deep_view(),
            forall|k: int| 0 <= k < i ==> #[trigger] all[k] != name@,
        decreases names@.len() - i,
    {
        assert(all[i as int] == names@[i as int]@);
        if text::same(names[i].as_str(), name) {
            return true;
        }
        i += 1;
    }
    false
}

/// Whether a lambda's parameter of this name is to be listed beside those found so far.
pub fn should_collect_lambda_param(name: &str, existing: &Vec<String>) -> (r: bool)
    ensures
        r == (lambda_name(name@) && !existing.deep_view().contains(name@)),
{
    !text::same(name, "it") && !text::same(name, "_") && text::starts_with_lowercase(name)
        && !holds_name(existing, name)
}

/// A walk back over lines that gathers the parameters of enclosing lambdas.
pub struct LambdaParamTextScan {
    pub params: Vec<String>,
    pub depth: u128,
}

impl DeepView for LambdaParamTextScan {
    type V = ScanView;

    open spec fn deep_view(&self) -> ScanView {
        ScanView { params: self.params.deep_view(), depth: self.depth as nat }
    }
}

impl LambdaParamTextScan {
    /// Adds the parameters that a lambda beginning with `after_brace` declares.
    fn collect_param_names(&mut self, after_brace: &str)
        ensures
            final(self).params.deep_view() == with_lambda(
                old(self).params.deep_view(),
                after_brace@,
            ),
            final(self).depth == old(self).depth,
    {
        let t = text::trim_start(after_brace);
        if let Some(i) = text::find(t, "->") {
            let parts = text::split(text::take(t, i), ',');
            let ghost all = parts.deep_view();
            let ghost start = self.params.deep_view();
            let mut k: usize = 0;
            while k < parts.len()
                invariant
                    k <= parts@.len(),
                    all == parts.deep_view(),
                    self.depth == old(self).depth,
                    self.params.deep_view() == with_names(start, all, k as int),
                decreases parts@.len() - k,
            {
                assert(all[k as int] == parts@[k as int]@);
                let name = text::ident_prefix(text::trim(parts[k]));
                let ghost before = self.params.deep_view();
                if should_collect_lambda_param(name, &self.params) {
                    self.params.push(name.to_owned());
                    assert(self.params.deep_view() =~= before.push(name@));
                }
                k += 1;
            }
        }
    }

    /// Walks back over a line.
    pub fn scan_line(&mut self, line: &str)
        requires
            old(self).depth <= 0xffff_ffff_ffff_ffff * 1000,
        ensures
            final(self).deep_view() == scanned(line@, line@.len() as int, old(self).deep_view()),
            final(self).depth <= old(self).depth + line@.len(),
    {
        let c = text::chars_of(line);
        let n: usize = c.len();
        let ghost first = self.deep_view();
        let mut i: usize = n;
        while i > 0
            invariant
                c@ == line@,
                i <= n == c@.len(),
                first == old(self).deep_view(),
                old(self).depth <= 0xffff_ffff_ffff_ffff * 1000,
                self.depth <= old(self).depth + (n - i),
                scanned(line@, n as int, first) == scanned(line@, i as int, self.deep_view()),
            decreases i,
        {
            let ghost before = self.deep_view();
            if c[i - 1] == '}' {
                self.depth = self.depth + 1;
                assert(self.deep_view() =~~= (ScanView { depth: before.depth + 1, ..before }));
            } else if c[i - 1] == '{' {
                if i >= 2 && c[i - 2] == '$' {
                    self.depth = 0;
                    assert(self.deep_view() =~~= (ScanView { depth: 0, ..before }));
                } else if self.depth > 0 {
                    self.depth = self.depth - 1;
                    assert(self.deep_view() =~~= (ScanView {
                        depth: (before.depth - 1) as nat,
                        ..before
                    }));
                } else {
                    self.collect_param_names(text::skip(line, i));
                    assert(self.deep_view() =~~= (ScanView {
                        params: with_lambda(before.params, line@.skip(i as int)),
                        depth: 0,
                    }));
                }
            }
            i -= 1;
        }
    }
}

/// A line up to the cursor, where the cursor is on it.
pub fn line_before_cursor<'a>(
    lines: &'a Vec<String>,
    line_index: usize,
    cursor_line: usize,
    cursor_col: usize,
) -> (r: &'a str)
    ensures
        r@ == before_cursor(
            lines.deep_view(),
            line_index as int,
            cursor_line as int,
            cursor_col as int,
        ),
{
    let line = scan::line_or_empty(lines, line_index);
    if line_index == cursor_line {
        columns::before_column(line, cursor_col)
    } else {
        line
    }
}

/// The parameters of the lambdas that enclose a cursor, the innermost lambda's first.
pub fn scan_lambda_params_in_lines(
    lines: &Vec<String>,
    cursor_line: usize,
    cursor_col: usize,
) -> (r: Vec<String>)
    ensures
        r.deep_view() == lambda_params_at(
            lines.deep_view(),
            cursor_line as int,
            cursor_col as int,
        ),
{
    let ghost all = lines.deep_view();
    let low: usize = if cursor_line > SCOPE_SCAN_BACK_LINES {
        cursor_line - SCOPE_SCAN_BACK_LINES
    } else {
        0
    };
    let mut scan = LambdaParamTextScan { params: Vec::new(), depth: 0 };
    assert(scan.deep_view() =~~= (ScanView { params: Seq::empty(), depth: 0 }));
    let mut ln: usize = cursor_line;
    loop
        invariant
            all == lines.deep_view(),
            low <= ln <= cursor_line <= low + 50,
            low == scan::walk_start(cursor_line as int, SCOPE_SCAN_BACK_LINES as int),
            scan.depth <= (cursor_line - ln) * 0xffff_ffff_ffff_ffff,
            lambda_params_at(all, cursor_line as int, cursor_col as int) == scanned_lines(
                all,
                ln as int,
                low as int,
                cursor_line as int,
                cursor_col as int,
                scan.deep_view(),
            ).params,
        decreases ln,
    {
        let line = line_before_cursor(lines, ln, cursor_line, cursor_col);
        let n: usize = line.unicode_len();
        scan.scan_line(line);
        if ln == low {
            let ghost done = scan.deep_view();
            assert(scanned_lines(
                all,
                ln - 1,
                low as int,
                cursor_line as int,
                cursor_col as int,
                done,
            ) == done);
            return scan.params;
        }
        ln -= 1;
    }
}

/// Where the lambda that declares a parameter opens, sought from line `ln` up to `low`.
pub open spec fn decl_from(
    lines: Seq<Seq<char>>,
    uri: Seq<char>,
    param: Seq<char>,
    ln: int,
    low: int,
) -> Option<LocationView>
    decreases ln - low + 1,
{
    if ln < low {
        None
    } else {
        match lambda_params::declaration(scan::line_at(lines, ln), param) {
            Some(d) => Some(
                LocationView {
                    uri,
                    range: Range {
                        start: Position { line: ln as u32, character: d.0 as u32 },
                        end: Position { line: ln as u32, character: (d.0 + 1) as u32 },
                    },
                },
            ),
            None => decl_from(lines, uri, param, ln - 1, low),
        }
    }
}

/// Where the lambda opens that declares a parameter in scope at a line; columns are counted in
/// characters.
pub fn lambda_param_decl_in(
    lines: &Vec<String>,
    uri: &str,
    param_name: &str,
    cursor_line: u32,
) -> (r: Option<Location>)
    requires
        forall|i: int| 0 <= i < lines@.len() ==> (#[trigger] lines@[i])@.len() < u32::MAX,
    ensures
        r.deep_view() == decl_from(
            lines.deep_view(),
            uri@,
            param_name@,
            cursor_line as int,
            scan::walk_start(cursor_line as int, SCOPE_SCAN_BACK_LINES as int),
        ),
{
    let ghost all = lines.deep_view();
    let low: u32 = if cursor_line > 50 {
        cursor_line - 50
    } else {
        0
    };
    let mut ln: u32 = cursor_line;
    loop
        invariant
            all == lines.deep_view(),
            forall|i: int| 0 <= i < lines@.len() ==> (#[trigger] lines@[i])@.len() < u32::MAX,
            low <= ln <= cursor_line,
            low == scan::walk_start(cursor_line as int, SCOPE_SCAN_BACK_LINES as int),
            decl_from(all, uri@, param_name@, cursor_line as int, low as int) == decl_from(
                all,
                uri@,
                param_name@,
                ln as int,
                low as int,
            ),
        decreases ln,
    {
        let line = scan::line_or_empty(lines, ln as usize);
        if let Some(d) = lambda_params::declaration_on(line, param_name) {
            assert(line@.len() < u32::MAX) by {
                if ln < lines@.len() {
                    assert(all[ln as int] == lines@[ln as int]@);
                }
            }
            let col: u32 = d.0 as u32;
            return Some(
                Location {
                    uri: uri.to_owned(),
                    range: Range {
                        start: Position { line: ln, character: col },
                        end: Position { line: ln, character: col + 1 },
                    },
                },
            );
        }
        if ln == low {
            assert(decl_from(all, uri@, param_name@, ln - 1, low as int) is None);
            return None;
        }
        ln -= 1;
    }
}

impl Indexer {
    /// Where the lambda opens that declares a parameter in scope at a line of a file.
    pub fn find_lambda_param_decl(&self, uri: &str, param_name: &str, cursor_line: u32) -> (r:
        Option<Location>)
        requires
            self.wf(),
            match known_lines(self@, uri@) {
                Some(l) => forall|i: int| 0 <= i < l.len() ==> (#[trigger] l[i]).len() < u32::MAX,
                None => true,
            },
        ensures
            r.deep_view() == match known_lines(self@, uri@) {
                Some(l) => decl_from(
                    l,
                    uri@,
                    param_name@,
                    cursor_line as int,
                    scan::walk_start(cursor_line as int, SCOPE_SCAN_BACK_LINES as int),
                ),
                None => None,
            },
    {
        match self.lines_for(uri) {
            Some(lines) => {
                assert forall|i: int| 0 <= i < lines@.len() implies (#[trigger] lines@[i])@.len()
                    < u32::MAX by {
                    assert(lines.deep_view()[i] == lines@[i]@);
                }
                lambda_param_decl_in(lines, uri, param_name, cursor_line)
            },
            None => None,
        }
    }

    /// The parameters of the lambdas that enclose a cursor, by the text of the file.
    pub fn text_lambda_params_at_col(
        &self,
        uri: &str,
        cursor_line: usize,
        cursor_col: usize,
    ) -> (r: Vec<String>)
        requires
            self.wf(),
        ensures
            r.deep_view() == match known_lines(self@, uri@) {
                Some(l) => lambda_params_at(l, cursor_line as int, cursor_col as int),
                None => lambda_params_at(Seq::empty(), cursor_line as int, cursor_col as int),
            },
    {
        match self.lines_for(uri) {
            Some(lines) => scan_lambda_params_in_lines(lines, cursor_line, cursor_col),
            None => {
                let none: Vec<String> = Vec::new();
                assert(none.deep_view() =~= Seq::<Seq<char>>::empty());
                scan_lambda_params_in_lines(&none, cursor_line, cursor_col)
            },
        }
    }
}

} // verus!
