//! What is shown of a symbol, said of its declaration and of the lines round it.
use vstd::prelude::*;
use vstd::string::*;

use crate::brackets;
use crate::doc;
use crate::enrich;
use crate::enrich::ContextView;
use crate::law_positions;
use crate::law_texts;
use crate::lists;
use crate::lookup;
use crate::resolution;
use crate::resolution::{ReadView, ResolveOptions};
use crate::sig;
use crate::text;
use crate::type_subst;
use crate::types::{FileView, LocationView, SymbolKind, SymbolView};
use crate::unicode;
use crate::urls;

verus! {

// ---------------------------------------------------------------------------
// Symbols
// ---------------------------------------------------------------------------

/// Whether symbol `k` of a file is the first whose name stands in the range of a location.
pub open spec fn first_in_range(f: FileView, l: LocationView, k: int) -> bool {
    &&& 0 <= k < f.symbols.len()
    &&& f.symbols[k].selection_range == l.range
    &&& forall|j: int| 0 <= j < k ==> (#[trigger] f.symbols[j]).selection_range != l.range
}

/// Whether symbol `k` of a file is the first of a name, and no name stands in the range of a
/// location.
pub open spec fn first_of_name(f: FileView, l: LocationView, name: Seq<char>, k: int) -> bool {
    &&& 0 <= k < f.symbols.len()
    &&& f.symbols[k].name == name
    &&& forall|j: int| 0 <= j < k ==> (#[trigger] f.symbols[j]).name != name
    &&& forall|j: int|
        0 <= j < f.symbols.len() ==> (#[trigger] f.symbols[j]).selection_range != l.range
}

/// Whether symbol `k` of a file is the one at a location.
pub open spec fn stands_at(f: FileView, l: LocationView, name: Seq<char>, k: int) -> bool {
    first_in_range(f, l, k) || first_of_name(f, l, name, k)
}

/// The symbol at a location is the one whose name stands in its range; where none does, the first
/// of the name; and none is found where neither is.
pub proof fn law_symbol_at_a_location(f: FileView, l: LocationView, name: Seq<char>, k: int)
    ensures
        stands_at(f, l, name, k) ==> resolution::entry_at(f, l, name) == Some(f.symbols[k]),
        (forall|j: int|
            0 <= j < f.symbols.len() ==> (#[trigger] f.symbols[j]).selection_range != l.range
                && f.symbols[j].name != name) ==> resolution::entry_at(f, l, name) is None,
{
    let all = f.symbols;
    let p = resolution::at_range(l.range);
    let q = lookup::symbol_is(name);
    if first_in_range(f, l, k) {
        assert forall|j: int| 0 <= j < k implies !p(#[trigger] all[j]) by {
            assert(f.symbols[j].selection_range != l.range);
        }
        lists::lemma_first(all, p, k);
    } else if first_of_name(f, l, name, k) {
        assert forall|j: int| 0 <= j < all.len() implies !p(#[trigger] all[j]) by {
            assert(f.symbols[j].selection_range != l.range);
        }
        lists::lemma_no_first(all, p);
        assert forall|j: int| 0 <= j < k implies !q(#[trigger] all[j]) by {
            assert(f.symbols[j].name != name);
        }
        lists::lemma_first(all, q, k);
    }
    if forall|j: int|
        0 <= j < f.symbols.len() ==> (#[trigger] f.symbols[j]).selection_range != l.range
            && f.symbols[j].name != name {
        assert forall|j: int| 0 <= j < all.len() implies !p(#[trigger] all[j]) by {
            assert(f.symbols[j].selection_range != l.range);
        }
        lists::lemma_no_first(all, p);
        assert forall|j: int| 0 <= j < all.len() implies !q(#[trigger] all[j]) by {
            assert(f.symbols[j].name != name);
        }
        lists::lemma_no_first(all, q);
    }
}

// ---------------------------------------------------------------------------
// Signatures of values
// ---------------------------------------------------------------------------

/// Whether a symbol is a property or a variable, and a text is that of its declaration: the one
/// stored with it, or without one the lines of the file.
pub open spec fn declares_value(f: FileView, s: SymbolView, declaration: Seq<char>) -> bool {
    &&& s.kind == SymbolKind::Property || s.kind == SymbolKind::Variable
    &&& if s.detail.len() > 0 {
        declaration == s.detail
    } else {
        declaration == sig::signature(f.lines, s.selection_range.start.line as int)
    }
}

/// Whether the declaration of a value says its type: its name stands directly before a colon.
pub open spec fn says_type(declaration: Seq<char>, name: Seq<char>) -> bool {
    exists|j: int| #[trigger] law_texts::occurs(declaration, name + seq![':'], j)
}

proof fn lemma_value(
    v: ReadView,
    f: FileView,
    l: LocationView,
    name: Seq<char>,
    k: int,
    declaration: Seq<char>,
    options: ResolveOptions,
)
    requires
        stands_at(f, l, name, k),
        declares_value(f, f.symbols[k], declaration),
    ensures
        enrich::own_signature(v, f, l.uri, f.symbols[k], name, options) == if says_type(
            declaration,
            name,
        ) {
            declaration
        } else {
            match (v.var_type)(name, l.uri) {
                Some(t) => resolution::augmented(declaration, name, f.symbols[k].kind, t),
                None => declaration,
            }
        },
{
    law_symbol_at_a_location(f, l, name, k);
    reveal_strlit(":");
    assert(name + ":"@ =~= name + seq![':']);
    law_texts::law_text_is_found_first(declaration, name + seq![':']);
    let s = f.symbols[k];
    if s.detail.len() == 0 {
        let full = sig::signature(f.lines, s.selection_range.start.line as int);
        if full.len() == 0 {
            assert(s.detail =~= full);
        }
    }
}

/// A property or variable declared without a type is shown with the type that is inferred: its
/// declaration up to its name, and the type.
#[verifier::rlimit(60)]
pub proof fn law_inferred_type_is_shown(
    v: ReadView,
    f: FileView,
    l: LocationView,
    name: Seq<char>,
    k: int,
    before: Seq<char>,
    after: Seq<char>,
    t: Seq<char>,
    ctx: ContextView,
    options: ResolveOptions,
)
    requires
        stands_at(f, l, name, k),
        declares_value(f, f.symbols[k], before + seq![' '] + name + after),
        !says_type(before + seq![' '] + name + after, name),
        forall|j: int|
            0 <= j < before.len() ==> !#[trigger] law_texts::occurs(
                before + seq![' '] + name + after,
                seq![' '] + name,
                j,
            ),
        (v.var_type)(name, l.uri) == Some(t),
    ensures
        enrich::enriched(v, f, l, name, ctx, options) matches Some(r) && r.raw_signature == before
            + seq![' '] + name + seq![':', ' '] + t,
{
    let declaration = before + seq![' '] + name + after;
    lemma_value(v, f, l, name, k, declaration, options);
    law_symbol_at_a_location(f, l, name, k);
    reveal_strlit(" ");
    reveal_strlit(": ");
    let i = before.len() as int;
    let needle = seq![' '] + name;
    assert(" "@ + name =~= needle);
    assert(declaration.subrange(i, i + needle.len()) =~= needle);
    law_texts::lemma_found_at(declaration, needle, i);
    assert(declaration.take(i + 1 + name.len()) =~= before + seq![' '] + name);
    assert(": "@ =~= seq![':', ' ']);
    assert(before + seq![' '] + name + seq![':', ' '] + t =~= declaration.take(i + 1 + name.len())
        + ": "@ + t);
}

/// The same where the declaration begins with the name, or does not hold it after a space.
pub proof fn law_inferred_type_is_shown_elsewhere(
    v: ReadView,
    f: FileView,
    l: LocationView,
    name: Seq<char>,
    k: int,
    declaration: Seq<char>,
    t: Seq<char>,
    ctx: ContextView,
    options: ResolveOptions,
)
    requires
        stands_at(f, l, name, k),
        declares_value(f, f.symbols[k], declaration),
        !says_type(declaration, name),
        forall|j: int| !#[trigger] law_texts::occurs(declaration, seq![' '] + name, j),
        (v.var_type)(name, l.uri) == Some(t),
    ensures
        enrich::enriched(v, f, l, name, ctx, options) matches Some(r) && r.raw_signature == (
        if law_texts::occurs(declaration, name, 0) {
            name + seq![':', ' '] + t
        } else if f.symbols[k].kind == SymbolKind::Variable {
            seq!['v', 'a', 'r', ' '] + name + seq![':', ' '] + t
        } else {
            seq!['v', 'a', 'l', ' '] + name + seq![':', ' '] + t
        }),
{
    lemma_value(v, f, l, name, k, declaration, options);
    law_symbol_at_a_location(f, l, name, k);
    reveal_strlit(" ");
    reveal_strlit(": ");
    reveal_strlit("var ");
    reveal_strlit("val ");
    assert(" "@ + name =~= seq![' '] + name);
    assert(": "@ =~= seq![':', ' ']);
    assert("var "@ =~= seq!['v', 'a', 'r', ' ']);
    assert("val "@ =~= seq!['v', 'a', 'l', ' ']);
    law_texts::law_text_is_found_first(declaration, seq![' '] + name);
    assert(declaration.take(name.len() as int) =~= declaration.subrange(0, name.len() as int));
}

/// A property or variable whose declaration says its type, or whose type is not known, is shown as
/// it is declared.
pub proof fn law_declaration_is_shown(
    v: ReadView,
    f: FileView,
    l: LocationView,
    name: Seq<char>,
    k: int,
    declaration: Seq<char>,
    ctx: ContextView,
    options: ResolveOptions,
)
    requires
        stands_at(f, l, name, k),
        declares_value(f, f.symbols[k], declaration),
        says_type(declaration, name) || (v.var_type)(name, l.uri) is None,
    ensures
        enrich::enriched(v, f, l, name, ctx, options) matches Some(r) && r.raw_signature
            == declaration,
{
    lemma_value(v, f, l, name, k, declaration, options);
    law_symbol_at_a_location(f, l, name, k);
}

// ---------------------------------------------------------------------------
// Signatures of others
// ---------------------------------------------------------------------------

/// What is no property or variable is shown as its lines declare it, also where a shorter text is
/// stored with it, unless that one is asked for.
pub proof fn law_function_is_shown(
    v: ReadView,
    f: FileView,
    l: LocationView,
    name: Seq<char>,
    k: int,
    ctx: ContextView,
    options: ResolveOptions,
)
    requires
        stands_at(f, l, name, k),
        f.symbols[k].kind != SymbolKind::Property,
        f.symbols[k].kind != SymbolKind::Variable,
    ensures
        enrich::enriched(v, f, l, name, ctx, options) matches Some(r) && ({
            let s = f.symbols[k];
            let lines = sig::signature(f.lines, s.selection_range.start.line as int);
            &&& r.location == l
            &&& r.name == s.name
            &&& r.kind == s.kind
            &&& options.prefer_cached_detail && s.detail.len() > 0 ==> r.raw_signature == s.detail
            &&& (!options.prefer_cached_detail || s.detail.len() == 0) && lines.len() > 0
                ==> r.raw_signature == lines
            &&& lines.len() == 0 ==> r.raw_signature == s.detail
        }),
{
    law_symbol_at_a_location(f, l, name, k);
}

/// A signature ends before the brace of the body.
pub proof fn law_signature_ends_at_the_brace(
    lines: Seq<Seq<char>>,
    start: int,
    head: Seq<char>,
    space: Seq<char>,
    body: Seq<char>,
)
    requires
        0 <= start < lines.len(),
        lines[start] == head + space + seq!['{'] + body,
        law_texts::lacks(head, '{'),
        law_texts::blank(space),
        head.len() > 0 ==> !unicode::whitespace(head.last()),
    ensures
        sig::signature(lines, start) == head,
{
    let line = lines[start];
    let a = head + space;
    assert forall|i: int| 0 <= i < a.len() implies #[trigger] a[i] != '{' by {
        if i < head.len() {
            assert(head[i] != '{');
        } else {
            assert(unicode::whitespace(space[i - head.len()]));
        }
    }
    law_texts::law_character_is_found(a, '{', body);
    assert(line.take(a.len() as int) =~= a);
    assert(Seq::<char>::empty() + Seq::<char>::empty() + a =~= a);
    law_texts::lemma_end_blank(head, space);
}

// ---------------------------------------------------------------------------
// Contexts
// ---------------------------------------------------------------------------

/// A signature is shown with what stands for type parameters: in its own context, or where none
/// is asked for, as it is declared.
pub proof fn law_context_of_a_signature(
    v: ReadView,
    f: FileView,
    l: LocationView,
    name: Seq<char>,
    k: int,
    ctx: ContextView,
    options: ResolveOptions,
)
    requires
        stands_at(f, l, name, k),
    ensures
        enrich::enriched(v, f, l, name, ctx, options) matches Some(r) && {
            &&& ctx == ContextView::Own || !options.apply_subst ==> r.signature == r.raw_signature
                && r.subst.len() == 0
            &&& options.apply_subst ==> (ctx matches ContextView::Precomputed(m) ==> r.subst == m
                && r.signature == type_subst::substituted(r.raw_signature, m))
            &&& options.apply_subst ==> (ctx matches ContextView::CrossFile {
                calling_uri,
                cursor_line,
            } ==> r.subst == enrich::param_subst(
                v,
                l.uri,
                l.range.start.line,
                calling_uri,
                cursor_line,
            ) && r.signature == type_subst::substituted(r.raw_signature, r.subst))
        },
{
    law_symbol_at_a_location(f, l, name, k);
    let raw = enrich::own_signature(v, f, l.uri, f.symbols[k], name, options);
    type_subst::law_empty_subst_changes_nothing(raw);
}

// ---------------------------------------------------------------------------
// Signatures over lines
// ---------------------------------------------------------------------------

/// Lines `from` to `to` of a file, the latter not counted, with line breaks between.
pub open spec fn stacked(lines: Seq<Seq<char>>, from: int, to: int) -> Seq<char>
    decreases to - from,
{
    if to <= from {
        Seq::empty()
    } else if to == from + 1 {
        lines[from]
    } else {
        stacked(lines, from, to - 1) + seq!['\n'] + lines[to - 1]
    }
}

/// How often a character stands in a text.
pub open spec fn count(s: Seq<char>, k: char) -> int
    decreases s.len(),
{
    if s.len() == 0 {
        0
    } else {
        count(s.drop_last(), k) + if s.last() == k {
            1int
        } else {
            0
        }
    }
}

/// Whether what follows a line that ends a text goes on with it: a parenthesis is open, or the
/// next line begins with a colon.
pub open spec fn goes_on(lines: Seq<Seq<char>>, from: int, to: int) -> bool {
    ||| count(stacked(lines, from, to), '(') > count(stacked(lines, from, to), ')')
    ||| to < lines.len() && exists|space: Seq<char>, rest: Seq<char>|
        law_texts::blank(space) && lines[to] == #[trigger] (space + (seq![':'] + rest))
}

pub(crate) proof fn lemma_count(s: Seq<char>, k: char)
    ensures
        brackets::occurrences(s, k) == count(s, k),
    decreases s.len(),
{
    if s.len() > 0 {
        lemma_count(s.drop_last(), k);
    }
}

proof fn lemma_colon(line: Seq<char>)
    ensures
        text::starts_with(text::trimmed_start(line), ":"@) == exists|
            space: Seq<char>,
            rest: Seq<char>,
        |
            law_texts::blank(space) && line == #[trigger] (space + (seq![':'] + rest)),
{
    reveal_strlit(":");
    let p = text::space_class();
    let n = text::span(line, p);
    text::lemma_span(line, p);
    let t = text::trimmed_start(line);
    if text::starts_with(t, ":"@) {
        let space = line.take(n);
        let rest = t.skip(1);
        assert(t.take(1)[0] == ':');
        assert(t =~= seq![':'] + rest);
        assert forall|i: int| 0 <= i < space.len() implies unicode::whitespace(
            #[trigger] space[i],
        ) by {
            assert(p(line[i]));
        }
        assert(line =~= space + (seq![':'] + rest));
    }
    if exists|space: Seq<char>, rest: Seq<char>|
        law_texts::blank(space) && line == #[trigger] (space + (seq![':'] + rest)) {
        let (space, rest) = choose|space: Seq<char>, rest: Seq<char>|
            law_texts::blank(space) && line == #[trigger] (space + (seq![':'] + rest));
        let core = seq![':'] + rest;
        assert(core[0] == ':');
        law_texts::lemma_start_blank(space, core);
        assert(core.take(1) =~= ":"@);
    }
}

proof fn lemma_complete(lines: Seq<Seq<char>>, start: int, to: int)
    requires
        0 <= to,
    ensures
        sig::complete(
            stacked(lines, start, to),
            if to < lines.len() {
                Some(lines[to])
            } else {
                None
            },
        ) == !goes_on(lines, start, to),
{
    let now = stacked(lines, start, to);
    lemma_count(now, '(');
    lemma_count(now, ')');
    if to < lines.len() {
        lemma_colon(lines[to]);
    }
}

/// One more line of a signature.
#[verifier::rlimit(60)]
proof fn lemma_gather(lines: Seq<Seq<char>>, start: int, at: int, left: nat)
    requires
        0 <= start <= at < lines.len(),
        left > 0,
        lines[start].len() > 0,
        law_texts::lacks(lines[at], '{'),
    ensures
        sig::gathered(lines, at, left, stacked(lines, start, at)) == (if goes_on(
            lines,
            start,
            at + 1,
        ) {
            sig::gathered(lines, at + 1, (left - 1) as nat, stacked(lines, start, at + 1))
        } else {
            stacked(lines, start, at + 1)
        }),
{
    let head = stacked(lines, start, at);
    let line = lines[at];
    law_texts::law_character_is_found(line, '{', Seq::empty());
    lemma_stacked(lines, start, at);
    let now = stacked(lines, start, at + 1);
    let sep: Seq<char> = if head.len() == 0 {
        Seq::empty()
    } else {
        seq!['\n']
    };
    if at == start {
        assert(head + sep + line =~= now);
    }
    assert(now == head + sep + line);
    lemma_complete(lines, start, at + 1);
}

proof fn lemma_gathered(lines: Seq<Seq<char>>, start: int, at: int, end: int)
    requires
        0 <= start <= at < end <= lines.len(),
        end <= start + 15,
        lines[start].len() > 0,
        forall|i: int| start <= i < end ==> law_texts::lacks(#[trigger] lines[i], '{'),
        forall|m: int| start < m < end ==> #[trigger] goes_on(lines, start, m),
        !goes_on(lines, start, end) || end == lines.len() || end == start + 15,
    ensures
        sig::gathered(
            lines,
            at,
            (15 - (at - start)) as nat,
            stacked(lines, start, at),
        ) == stacked(lines, start, end),
    decreases end - at,
{
    lemma_gather(lines, start, at, (15 - (at - start)) as nat);
    if at + 1 < end {
        assert(goes_on(lines, start, at + 1));
        lemma_gathered(lines, start, at + 1, end);
    }
}

proof fn lemma_stacked(lines: Seq<Seq<char>>, from: int, to: int)
    requires
        from < to ==> lines[from].len() > 0,
    ensures
        from < to ==> stacked(lines, from, to).len() > 0,
    decreases to - from,
{
    if to > from + 1 {
        lemma_stacked(lines, from, to - 1);
    }
}

/// A signature goes on over the lines that leave a parenthesis open or are followed by a colon, up
/// to fifteen of them, and ends with the line that does neither; white space at its end is left out.
pub proof fn law_signature_over_lines(
    lines: Seq<Seq<char>>,
    start: int,
    end: int,
    core: Seq<char>,
    space: Seq<char>,
)
    requires
        0 <= start < end <= lines.len(),
        end <= start + 15,
        lines[start].len() > 0,
        forall|i: int| start <= i < end ==> law_texts::lacks(#[trigger] lines[i], '{'),
        forall|m: int| start < m < end ==> #[trigger] goes_on(lines, start, m),
        !goes_on(lines, start, end) || end == lines.len() || end == start + 15,
        stacked(lines, start, end) == core + space,
        law_texts::blank(space),
        core.len() > 0 ==> !unicode::whitespace(core.last()),
    ensures
        sig::signature(lines, start) == core,
{
    lemma_gathered(lines, start, start, end);
    assert(stacked(lines, start, start) =~= Seq::empty());
    law_texts::lemma_end_blank(core, space);
}

// ---------------------------------------------------------------------------
// Documentation
// ---------------------------------------------------------------------------

/// Whether a line holds an annotation.
pub open spec fn is_annotation(line: Seq<char>) -> bool {
    exists|space: Seq<char>, rest: Seq<char>|
        law_texts::blank(space) && line == #[trigger] (space + (seq!['@'] + rest))
}

/// A line of a comment that says something: white space, a star, white space, and the words.
pub open spec fn starred(
    a: Seq<char>,
    b: Seq<char>,
    words: Seq<char>,
    c: Seq<char>,
) -> Seq<char> {
    a + (seq!['*'] + b + words) + c
}

/// Whether a line of a comment says the words.
pub open spec fn says(line: Seq<char>, words: Seq<char>) -> bool {
    exists|a: Seq<char>, b: Seq<char>, c: Seq<char>|
        law_texts::blank(a) && law_texts::blank(b) && law_texts::blank(c) && line == #[trigger] starred(a, b, words, c)
}

/// Whether words may stand on a line of a comment.
pub open spec fn is_words(words: Seq<char>) -> bool {
    &&& words.len() > 0
    &&& law_texts::tight(words)
    &&& words[0] != '*'
    &&& words[0] != '/'
    &&& words.last() != '/'
}

/// Whether a line holds a mark and white space.
pub open spec fn is_mark(line: Seq<char>, mark: Seq<char>) -> bool {
    exists|a: Seq<char>, b: Seq<char>|
        law_texts::blank(a) && law_texts::blank(b) && line == #[trigger] (a + mark + b)
}

#[verifier::rlimit(60)]
proof fn lemma_says(line: Seq<char>, words: Seq<char>)
    requires
        says(line, words),
        is_words(words),
    ensures
        doc::bare_line(line) == words,
        !doc::opens_doc(line),
{
    let (a, b, c) = choose|a: Seq<char>, b: Seq<char>, c: Seq<char>|
        law_texts::blank(a) && law_texts::blank(b) && law_texts::blank(c) && line == #[trigger] starred(a, b, words, c);
    let core = seq!['*'] + b + words;
    reveal_strlit("/**");
    reveal_strlit("*/");
    reveal_strlit("*");
    assert(core[0] == '*');
    assert(core.last() == words.last());
    assert(law_texts::tight(core));
    law_texts::law_trimming(a, core, c);
    assert(text::trimmed(line) == core);
    if core.len() >= 3 {
        assert(core.take(3)[0] == '*');
        assert("/**"@[0] == '/');
    }
    assert(!text::starts_with(core, "/**"@));
    if core.len() >= 2 {
        assert(core.skip(core.len() - 2)[1] == core.last());
        assert("*/"@[1] == '/');
    }
    assert(!text::ends_with(core, "*/"@));
    law_texts::lemma_tight(core);
    assert(core.take(1) =~= "*"@);
    let rest = core.skip(1);
    assert(rest =~= b + words);
    law_texts::law_trimming(b, words, Seq::empty());
    assert(b + words + Seq::<char>::empty() =~= rest);
}

proof fn lemma_opening(line: Seq<char>)
    requires
        is_mark(line, seq!['/', '*', '*']),
    ensures
        doc::bare_line(line).len() == 0,
        doc::opens_doc(line),
{
    let mark = seq!['/', '*', '*'];
    let (a, b) = choose|a: Seq<char>, b: Seq<char>|
        law_texts::blank(a) && law_texts::blank(b) && line == #[trigger] (a + mark + b);
    reveal_strlit("/**");
    reveal_strlit("*/");
    reveal_strlit("*");
    law_texts::law_trimming(a, mark, b);
    assert(mark.take(3) =~= "/**"@);
    let rest = mark.skip(3);
    assert(rest =~= Seq::empty());
    assert(rest.len() == 0);
    law_texts::lemma_tight(rest);
    assert(!text::starts_with(rest, "*"@));
}

proof fn lemma_closing(line: Seq<char>)
    requires
        is_mark(line, seq!['*', '/']),
    ensures
        doc::bare_line(line).len() == 0,
        !doc::opens_doc(line),
        text::ends_with(text::trimmed(line), "*/"@),
{
    let mark = seq!['*', '/'];
    let (a, b) = choose|a: Seq<char>, b: Seq<char>|
        law_texts::blank(a) && law_texts::blank(b) && line == #[trigger] (a + mark + b);
    reveal_strlit("/**");
    reveal_strlit("*/");
    reveal_strlit("*");
    law_texts::law_trimming(a, mark, b);
    assert(text::trimmed(line) == mark);
    assert(mark.skip(0) =~= "*/"@);
    assert(mark.skip(mark.len() - 2) =~= "*/"@);
    let rest = mark.take(0);
    assert(rest =~= Seq::empty());
    law_texts::lemma_tight(rest);
}

proof fn lemma_above_annotations(lines: Seq<Seq<char>>, last: int, at: int)
    requires
        0 <= last < at <= lines.len(),
        !is_annotation(lines[last]),
        forall|i: int| last < i < at ==> is_annotation(#[trigger] lines[i]),
    ensures
        doc::above_annotations(lines, at) == Some(last),
    decreases at,
{
    lemma_annotation(lines[at - 1]);
    if last < at - 1 {
        lemma_above_annotations(lines, last, at - 1);
    }
}

proof fn lemma_annotation(line: Seq<char>)
    ensures
        sig::annotation_line()(line) == is_annotation(line),
{
    reveal_strlit("@");
    let p = text::space_class();
    let n = text::span(line, p);
    text::lemma_span(line, p);
    let t = text::trimmed_start(line);
    if text::starts_with(t, "@"@) {
        let space = line.take(n);
        let rest = t.skip(1);
        assert(t.take(1)[0] == '@');
        assert(t =~= seq!['@'] + rest);
        assert forall|i: int| 0 <= i < space.len() implies unicode::whitespace(
            #[trigger] space[i],
        ) by {
            assert(p(line[i]));
        }
        assert(line =~= space + (seq!['@'] + rest));
    }
    if is_annotation(line) {
        let (space, rest) = choose|space: Seq<char>, rest: Seq<char>|
            law_texts::blank(space) && line == #[trigger] (space + (seq!['@'] + rest));
        let core = seq!['@'] + rest;
        assert(core[0] == '@');
        law_texts::lemma_start_blank(space, core);
        assert(core.take(1) =~= "@"@);
    }
}

proof fn lemma_doc_opening(lines: Seq<Seq<char>>, first: int, at: int)
    requires
        0 <= first <= at < lines.len(),
        doc::opens_doc(lines[first]),
        forall|i: int| first < i <= at ==> !doc::opens_doc(#[trigger] lines[i]),
    ensures
        doc::doc_opening(lines, at) == Some(first),
    decreases at,
{
    if first < at {
        lemma_doc_opening(lines, first, at - 1);
    }
}

/// Words on lines of their own.
pub open spec fn lined(words: Seq<Seq<char>>) -> Seq<char> {
    stacked(words, 0, words.len() as int)
}

proof fn lemma_unlines(words: Seq<Seq<char>>, n: int)
    requires
        0 <= n <= words.len(),
    ensures
        text::unlines(seq![Seq::<char>::empty()] + words.take(n)) == (if n == 0 {
            Seq::empty()
        } else {
            seq!['\n'] + stacked(words, 0, n)
        }),
    decreases n,
{
    let nothing = seq![Seq::<char>::empty()];
    let all = nothing + words.take(n);
    if n > 0 {
        lemma_unlines(words, n - 1);
        assert(all.drop_last() =~= nothing + words.take(n - 1));
        assert(all.last() == words[n - 1]);
        if n == 1 {
            assert(all.drop_last() =~= nothing);
            assert(text::unlines(all) =~= seq!['\n'] + stacked(words, 0, 1));
        } else {
            assert(text::unlines(all) =~= seq!['\n'] + stacked(words, 0, n));
        }
    } else {
        assert(all =~= nothing);
    }
}

proof fn lemma_lined_is_tight(words: Seq<Seq<char>>, n: int)
    requires
        0 < n <= words.len(),
        forall|i: int| 0 <= i < words.len() ==> is_words(#[trigger] words[i]),
    ensures
        stacked(words, 0, n).len() > 0,
        law_texts::tight(stacked(words, 0, n)),
    decreases n,
{
    assert(is_words(words[n - 1]));
    if n > 1 {
        lemma_lined_is_tight(words, n - 1);
        let s = stacked(words, 0, n);
        let a = stacked(words, 0, n - 1);
        assert(s[0] == a[0]);
        assert(s.last() == words[n - 1].last());
    }
}

/// The documentation of a declaration is what the comment says that ends directly above it and its
/// annotations, line by line, without the marks of the comment.
#[verifier::rlimit(60)]
pub proof fn law_documentation_is_read(
    lines: Seq<Seq<char>>,
    first: int,
    start: int,
    words: Seq<Seq<char>>,
)
    requires
        words.len() > 0,
        0 <= first,
        first + words.len() + 2 <= start <= lines.len(),
        is_mark(lines[first], seq!['/', '*', '*']),
        is_mark(lines[first + words.len() + 1], seq!['*', '/']),
        forall|i: int| 0 <= i < words.len() ==> is_words(#[trigger] words[i]),
        forall|i: int|
            0 <= i < words.len() ==> says(lines[first + 1 + i], #[trigger] words[i]),
        forall|i: int|
            first + words.len() + 1 < i < start ==> is_annotation(#[trigger] lines[i]),
    ensures
        doc::doc_above(lines, start) == Some(lined(words)),
{
    let n = words.len() as int;
    let last = first + n + 1;
    lemma_opening(lines[first]);
    lemma_closing(lines[last]);
    if is_annotation(lines[last]) {
        let mark = seq!['*', '/'];
        let (a, b) = choose|a: Seq<char>, b: Seq<char>|
            law_texts::blank(a) && law_texts::blank(b) && lines[last] == #[trigger] (a + mark + b);
        lemma_annotation(lines[last]);
        reveal_strlit("@");
        assert(a + mark + b =~= a + (mark + b));
        assert((mark + b)[0] == '*');
        law_texts::lemma_start_blank(a, mark + b);
        assert((mark + b).take(1)[0] == '*');
        assert("@"@[0] == '@');
    }
    lemma_above_annotations(lines, last, start);
    assert forall|i: int| first < i <= last implies !doc::opens_doc(#[trigger] lines[i]) by {
        if i < last {
            let w = words[i - first - 1];
            assert(says(lines[first + 1 + (i - first - 1)], w));
            lemma_says(lines[i], w);
        }
    }
    lemma_doc_opening(lines, first, last);
    let block = lines.subrange(first, last + 1);
    assert(block[0] == lines[first]);
    assert(block[n + 1] == lines[last]);
    assert forall|i: int| 0 <= i < words.len() implies says(block[i + 1], #[trigger] words[i]) by {
        assert(says(lines[first + 1 + i], words[i]));
        assert(block[i + 1] == lines[first + 1 + i]);
    }
    lemma_block(block, words);
}

/// What the lines of a comment say, without its marks.
#[verifier::rlimit(60)]
proof fn lemma_block(block: Seq<Seq<char>>, words: Seq<Seq<char>>)
    requires
        words.len() > 0,
        block.len() == words.len() + 2,
        is_mark(block[0], seq!['/', '*', '*']),
        is_mark(block[words.len() as int + 1], seq!['*', '/']),
        forall|i: int| 0 <= i < words.len() ==> is_words(#[trigger] words[i]),
        forall|i: int| 0 <= i < words.len() ==> says(block[i + 1], #[trigger] words[i]),
    ensures
        text::trimmed(text::unlines(doc::bare_lines(block))) == lined(words),
{
    let n = words.len() as int;
    let bare = doc::bare_lines(block);
    let nothing = seq![Seq::<char>::empty()];
    let all = nothing + words + nothing;
    lemma_opening(block[0]);
    lemma_closing(block[n + 1]);
    assert(bare.len() == all.len());
    assert forall|i: int| 0 <= i < bare.len() implies #[trigger] bare[i] == all[i] by {
        assert(bare[i] == doc::bare_line(block[i]));
        if i == 0 {
            assert(bare[i] =~= Seq::empty());
        } else if i == n + 1 {
            assert(bare[i] =~= Seq::empty());
        } else {
            let w = words[i - 1];
            assert(says(block[(i - 1) + 1], w));
            lemma_says(block[i], w);
        }
    }
    assert(bare =~= all);
    lemma_unlines(words, n);
    assert(words.take(n) =~= words);
    assert(all.drop_last() =~= nothing + words);
    assert(all.last() =~= Seq::empty());
    let br = seq!['\n'];
    assert(text::unlines(all) =~= br + lined(words) + br);
    lemma_lined_is_tight(words, n);
    assert(law_texts::blank(br)) by {
        assert(unicode::whitespace('\n'));
    }
    law_texts::law_trimming(br, lined(words), br);
}

/// A comment that is stored with a symbol says the same as one above it.
pub proof fn law_stored_documentation(block: Seq<Seq<char>>, words: Seq<Seq<char>>)
    requires
        words.len() > 0,
        block.len() == words.len() + 2,
        law_positions::are_lines(block),
        is_mark(block[0], seq!['/', '*', '*']),
        is_mark(block[words.len() as int + 1], seq!['*', '/']),
        forall|i: int| 0 <= i < words.len() ==> is_words(#[trigger] words[i]),
        forall|i: int| 0 <= i < words.len() ==> says(block[i + 1], #[trigger] words[i]),
    ensures
        doc::formatted(law_positions::document(block)) == lined(words),
{
    lemma_block(block, words);
    law_positions::lemma_lines(block);
    let mark = seq!['*', '/'];
    let (a, b) = choose|a: Seq<char>, b: Seq<char>|
        law_texts::blank(a) && law_texts::blank(b) && block[words.len() as int + 1] == #[trigger] (a
            + mark + b);
    assert(block.last().len() > 0);
}

/// A declaration right above which no comment ends has no comment of its own.
pub proof fn law_no_documentation(lines: Seq<Seq<char>>, last: int, start: int)
    requires
        0 <= last < start <= lines.len(),
        !is_annotation(lines[last]),
        forall|i: int| last < i < start ==> is_annotation(#[trigger] lines[i]),
        text::trimmed(lines[last]).len() == 0 || text::trimmed(lines[last]).last() != '/',
    ensures
        doc::doc_above(lines, start) is None,
{
    lemma_above_annotations(lines, last, start);
    reveal_strlit("*/");
    let t = text::trimmed(lines[last]);
    if text::ends_with(t, "*/"@) {
        assert(t.skip(t.len() - 2)[1] == t.last());
        assert("*/"@[1] == '/');
    }
}

/// A symbol is shown with the comment above its declaration, where there is one that says
/// something, else with the text stored with it; without documentation where none is asked for.
pub proof fn law_documentation_is_shown(
    v: ReadView,
    f: FileView,
    l: LocationView,
    name: Seq<char>,
    k: int,
    ctx: ContextView,
    options: ResolveOptions,
)
    requires
        stands_at(f, l, name, k),
    ensures
        enrich::enriched(v, f, l, name, ctx, options) matches Some(r) && ({
            let s = f.symbols[k];
            let above = doc::doc_above(f.lines, s.selection_range.start.line as int);
            &&& !options.include_doc ==> r.doc.len() == 0
            &&& options.include_doc ==> (above matches Some(d) ==> d.len() > 0 ==> r.doc == d)
            &&& options.include_doc && above is None ==> r.doc == doc::formatted(s.doc)
        }),
{
    law_symbol_at_a_location(f, l, name, k);
}

/// A comment on one line says what stands between its marks.
pub proof fn law_comment_on_one_line(
    lines: Seq<Seq<char>>,
    last: int,
    start: int,
    a: Seq<char>,
    b: Seq<char>,
    words: Seq<char>,
    c: Seq<char>,
    e: Seq<char>,
)
    requires
        0 <= last < start <= lines.len(),
        lines[last] == a + ("/**"@ + b + words + c + "*/"@) + e,
        law_texts::blank(a),
        law_texts::blank(b),
        law_texts::blank(c),
        law_texts::blank(e),
        words.len() > 0,
        law_texts::tight(words),
        words[0] != '*',
        forall|i: int| last < i < start ==> is_annotation(#[trigger] lines[i]),
    ensures
        doc::doc_above(lines, start) == Some(words),
{
    reveal_strlit("/**");
    reveal_strlit("*/");
    reveal_strlit("*");
    let line = lines[last];
    let core = "/**"@ + b + words + c + "*/"@;
    let n = core.len() as int;
    assert(core[0] == '/');
    assert(core.last() == '/');
    assert(law_texts::tight(core));
    law_texts::law_trimming(a, core, e);
    assert(core.take(3) =~= "/**"@);
    let rest = core.skip(3);
    assert(rest =~= b + words + c + "*/"@);
    assert(rest.skip(rest.len() - 2) =~= "*/"@);
    let inner = rest.take(rest.len() - 2);
    assert(inner =~= b + words + c);
    law_texts::law_trimming(b, words, c);
    assert(core.skip(n - 2) =~= "*/"@);
    if text::starts_with(words, "*"@) {
        assert(words.take(1)[0] == '*');
        assert(words.take(1)[0] == words[0]);
    }
    law_texts::lemma_tight(words);
    assert(doc::bare_line(line) == words);
    lemma_annotation(line);
    reveal_strlit("@");
    if is_annotation(line) {
        law_texts::lemma_start_blank(a, core + e);
        assert(line =~= a + (core + e));
        assert((core + e)[0] == '/');
        assert((core + e).take(1)[0] == '/');
        assert("@"@[0] == '@');
    }
    lemma_above_annotations(lines, last, start);
    assert(doc::doc_opening(lines, last) == Some(last));
    let block = lines.subrange(last, last + 1);
    let bare = doc::bare_lines(block);
    assert(block[0] == line);
    assert(bare[0] == doc::bare_line(block[0]));
    assert(bare =~= seq![words]);
    assert(text::unlines(bare) == words);
}

/// What is found out about a name is what is found out about the first place that it leads to;
/// nothing where it leads nowhere.
pub proof fn law_first_place_is_shown(
    v: ReadView,
    name: Seq<char>,
    qualifier: Option<Seq<char>>,
    uri: Seq<char>,
    f: FileView,
    ctx: ContextView,
    options: ResolveOptions,
)
    ensures
        (v.locations)(name, qualifier, uri, options.allow_rg).len() == 0 ==> enrich::symbol_info(
            v,
            name,
            qualifier,
            uri,
            ctx,
            options,
        ) is None,
        ({
            let places = (v.locations)(name, qualifier, uri, options.allow_rg);
            places.len() > 0 && (v.file)(places[0].uri) == Some(f) ==> enrich::symbol_info(
                v,
                name,
                qualifier,
                uri,
                ctx,
                options,
            ) == enrich::enriched(v, f, places[0], name, ctx, options)
        }),
{
}

/// What is found out about a position of a file is what is found out about the symbol there.
pub proof fn law_symbol_at_a_position_is_shown(
    v: ReadView,
    uri: Seq<char>,
    f: FileView,
    line: u32,
    col: u32,
    s: SymbolView,
    ctx: ContextView,
    options: ResolveOptions,
)
    requires
        urls::parsed_url(uri) == Some(uri),
    ensures
        (v.file)(uri) == Some(f) && enrich::symbol_at(f, line, col) == Some(s) ==> enrich::enriched_on(
            v,
            uri,
            line,
            col,
            ctx,
            options,
        ) == enrich::enriched(
            v,
            f,
            (LocationView { uri, range: s.selection_range }),
            s.name,
            ctx,
            options,
        ),
        (v.file)(uri) is None || ((v.file)(uri) == Some(f) && enrich::symbol_at(f, line, col) is None)
            ==> enrich::enriched_on(v, uri, line, col, ctx, options) is None,
{
}

} // verus!
