//! What the braces of a text say of the lambdas and types that a place lies in.
use vstd::prelude::*;
use vstd::string::*;

use crate::columns;
use crate::law_arrows;
use crate::law_classes;
use crate::law_hovers;
use crate::law_texts;
use crate::law_words;
use crate::scan;
use crate::scope;
use crate::scope::ScanView;
use crate::text;
use crate::unicode;

verus! {

// ---------------------------------------------------------------------------
// Lambdas
// ---------------------------------------------------------------------------

/// Whether a text holds no braces.
pub open spec fn is_flat(s: Seq<char>) -> bool {
    law_texts::lacks(s, '{') && law_texts::lacks(s, '}')
}

proof fn lemma_scan_flat(line: Seq<char>, j: int, i: int, s: ScanView)
    requires
        0 <= j <= i <= line.len(),
        forall|k: int| j <= k < i ==> #[trigger] line[k] != '{' && line[k] != '}',
    ensures
        scope::scanned(line, i, s) == scope::scanned(line, j, s),
    decreases i - j,
{
    if j < i {
        assert(line[i - 1] != '{' && line[i - 1] != '}');
        lemma_scan_flat(line, j, i - 1, s);
    }
}

proof fn lemma_scan_lines(
    lines: Seq<Seq<char>>,
    ln: int,
    low: int,
    cursor_line: int,
    cursor_col: int,
    s: ScanView,
)
    requires
        ln < cursor_line < lines.len(),
        0 <= low,
        forall|k: int| low <= k <= ln ==> is_flat(#[trigger] lines[k]),
    ensures
        scope::scanned_lines(lines, ln, low, cursor_line, cursor_col, s) == s,
    decreases ln - low + 1,
{
    if low <= ln {
        let line = scope::before_cursor(lines, ln, cursor_line, cursor_col);
        assert(line == lines[ln]);
        assert(is_flat(lines[ln]));
        lemma_scan_flat(line, 0, line.len() as int, s);
        lemma_scan_lines(lines, ln - 1, low, cursor_line, cursor_col, s);
    }
}

proof fn lemma_with_names(parts: Seq<Seq<char>>, names: Seq<Seq<char>>, n: int)
    requires
        parts.len() == names.len(),
        0 <= n <= names.len(),
        forall|i: int|
            0 <= i < parts.len() ==> law_arrows::declares(#[trigger] parts[i], names[i])
                && law_classes::is_own(names[i]),
        names.no_duplicates(),
    ensures
        scope::with_names(Seq::empty(), parts, n) == names.take(n),
    decreases n,
{
    if n > 0 {
        lemma_with_names(parts, names, n - 1);
        law_arrows::lemma_declares(parts[n - 1], names[n - 1]);
        let before = names.take(n - 1);
        if before.contains(names[n - 1]) {
            let i = choose|i: int| 0 <= i < before.len() && before[i] == names[n - 1];
            assert(names[i] == names[n - 1]);
        }
        assert(before.push(names[n - 1]) =~= names.take(n));
    } else {
        assert(names.take(0) =~= Seq::empty());
    }
}

/// The parameters in scope at a cursor behind the arrow of a lambda are those that the lambda
/// declares, in their order, where no other block is open.
pub proof fn law_parameters_of_the_open_lambda(
    lines: Seq<Seq<char>>,
    n: int,
    i: int,
    col: int,
    head: Seq<char>,
    gap: Seq<char>,
    parts: Seq<Seq<char>>,
    names: Seq<Seq<char>>,
    tail: Seq<char>,
)
    requires
        0 <= n < lines.len(),
        0 <= i <= lines[n].len(),
        columns::utf16_len(lines[n].take(i)) == col,
        lines[n].take(i) == head + seq!['{'] + gap + law_texts::joined(parts, ',') + "->"@ + tail,
        is_flat(head),
        head.len() == 0 || head.last() != '$',
        law_texts::blank(gap),
        is_flat(tail),
        parts.len() == names.len() > 0,
        forall|k: int|
            0 <= k < parts.len() ==> law_texts::lacks(#[trigger] parts[k], ',')
                && law_arrows::declares(parts[k], names[k]) && law_classes::is_own(names[k]),
        parts[0].len() > 0,
        !unicode::whitespace(parts[0][0]),
        is_flat(law_texts::joined(parts, ',')),
        law_texts::lacks(law_texts::joined(parts, ','), '-'),
        names.no_duplicates(),
        forall|k: int| 0 <= k < n && n <= k + 50 ==> is_flat(#[trigger] lines[k]),
    ensures
        scope::lambda_params_at(lines, n, col) == names,
{
    let line = lines[n].take(i);
    let inner = law_texts::joined(parts, ',');
    let b = head.len() as int;
    let low = scan::walk_start(n, 50);
    let start = ScanView { params: Seq::<Seq<char>>::empty(), depth: 0 };
    law_words::lemma_column(lines[n], i, col);
    assert(scope::before_cursor(lines, n, n, col) == line);
    reveal_strlit("->");
    assert(line[b] == '{');
    let after = line.skip(b + 1);
    let core = inner + "->"@ + tail;
    assert(after =~= gap + core);
    lemma_first_char(parts);
    assert(core[0] == parts[0][0]);
    law_texts::lemma_start_blank(gap, core);
    let p = inner.len() as int;
    assert(core.subrange(p, p + 2) =~= "->"@);
    assert forall|j: int| 0 <= j < p implies !#[trigger] law_texts::occurs(core, "->"@, j) by {
        if law_texts::occurs(core, "->"@, j) {
            let two = core.subrange(j, j + 2);
            assert(two[0] == '-');
            assert(core[j] == inner[j]);
        }
    }
    law_texts::lemma_found_at(core, "->"@, p);
    assert(core.take(p) =~= inner);
    assert forall|k: int| 0 <= k < parts.len() implies law_texts::lacks(
        #[trigger] parts[k],
        ',',
    ) by {}
    law_texts::law_parts_are_parted(parts, ',');
    lemma_with_names(parts, names, names.len() as int);
    assert(names.take(names.len() as int) =~= names);
    assert(scope::with_lambda(Seq::empty(), after) == names);
    assert forall|k: int| b < k < line.len() implies #[trigger] line[k] != '{' && line[k]
        != '}' by {
        let g = b + 1 + gap.len();
        if k < g {
            assert(line[k] == gap[k - b - 1]);
            assert(unicode::whitespace(gap[k - b - 1]));
        } else if k < g + p {
            assert(line[k] == inner[k - g]);
        } else if k >= g + p + 2 {
            assert(line[k] == tail[k - g - p - 2]);
        } else if k == g + p {
            assert(line[k] == '-');
        } else {
            assert(line[k] == '>');
        }
    }
    lemma_scan_flat(line, b + 1, line.len() as int, start);
    if b > 0 {
        assert(line[b - 1] == head.last());
    }
    let found = ScanView { params: names, depth: 0 };
    assert(scope::scanned(line, b + 1, start) == scope::scanned(line, b, found));
    assert forall|k: int| 0 <= k < b implies #[trigger] line[k] != '{' && line[k] != '}' by {
        assert(line[k] == head[k]);
    }
    lemma_scan_flat(line, 0, b, found);
    assert(scope::scanned(line, line.len() as int, start) == found);
    assert forall|k: int| low <= k <= n - 1 implies is_flat(#[trigger] lines[k]) by {}
    lemma_scan_lines(lines, n - 1, low, n, col, found);
}

proof fn lemma_first_char(parts: Seq<Seq<char>>)
    requires
        parts.len() > 0,
        parts[0].len() > 0,
    ensures
        law_texts::joined(parts, ',').len() > 0,
        law_texts::joined(parts, ',')[0] == parts[0][0],
{
}

// ---------------------------------------------------------------------------
// Types
// ---------------------------------------------------------------------------

/// How many more braces the lines from `i` to `row` open than they close.
pub open spec fn opened(lines: Seq<Seq<char>>, i: int, row: int) -> int
    decreases row - i + 1,
{
    if i > row {
        0
    } else {
        law_hovers::count(lines[i], '{') - law_hovers::count(lines[i], '}') + opened(
            lines,
            i + 1,
            row,
        )
    }
}

/// Whether a text is a word that may stand before the keyword of a declaration.
pub open spec fn is_modifier(m: Seq<char>) -> bool {
    ||| m == "abstract "@ || m == "sealed "@ || m == "data "@ || m == "open "@ || m == "inner "@
    ||| m == "private "@ || m == "protected "@ || m == "public "@ || m == "internal "@
    ||| m == "inline "@ || m == "value "@ || m == "enum "@ || m == "companion "@
    ||| m == "override "@ || m == "final "@ || m == "fileprivate "@ || m == "@objc "@
    ||| m == "static "@
}

/// Whether a line declares a type: perhaps a modifier, a keyword and a name that begins with a
/// capital, with white space before them.
pub open spec fn declares_class(line: Seq<char>, name: Seq<char>) -> bool {
    &&& law_texts::is_name(name)
    &&& unicode::uppercase(name[0])
    &&& exists|indent: Seq<char>, modifier: Seq<char>, keyword: Seq<char>, rest: Seq<char>|
        #![trigger indent + modifier + keyword + name + rest]
        law_texts::blank(indent) && (modifier.len() == 0 || is_modifier(modifier)) && (keyword
            == "class "@ || keyword == "interface "@ || keyword == "object "@) && (rest.len() > 0
            ==> !text::id_char(rest[0])) && line == indent + modifier + keyword + name + rest
}

/// Whether a text is one word and a space behind it.
spec fn is_word(w: Seq<char>) -> bool {
    &&& w.len() > 1
    &&& w.last() == ' '
    &&& w[0] != ' '
    &&& !unicode::whitespace(w[0])
    &&& forall|i: int| 0 <= i < w.len() - 1 ==> #[trigger] w[i] != ' '
}

proof fn lemma_some_words()
    ensures
        is_word("abstract "@),
        is_word("sealed "@),
        is_word("data "@),
        is_word("open "@),
        is_word("inner "@),
        is_word("private "@),
        is_word("protected "@),
        is_word("public "@),
        is_word("internal "@),
{
    reveal_strlit("abstract ");
    reveal_strlit("sealed ");
    reveal_strlit("data ");
    reveal_strlit("open ");
    reveal_strlit("inner ");
    reveal_strlit("private ");
    reveal_strlit("protected ");
    reveal_strlit("public ");
    reveal_strlit("internal ");
}

proof fn lemma_more_words()
    ensures
        is_word("inline "@),
        is_word("value "@),
        is_word("enum "@),
        is_word("companion "@),
        is_word("override "@),
        is_word("final "@),
        is_word("fileprivate "@),
        is_word("@objc "@),
        is_word("static "@),
{
    reveal_strlit("inline ");
    reveal_strlit("value ");
    reveal_strlit("enum ");
    reveal_strlit("companion ");
    reveal_strlit("override ");
    reveal_strlit("final ");
    reveal_strlit("fileprivate ");
    reveal_strlit("@objc ");
    reveal_strlit("static ");
}

proof fn lemma_words(k: int)
    requires
        0 <= k < 18,
    ensures
        is_word(scope::modifiers()[k]),
{
    lemma_some_words();
    lemma_more_words();
    if k < 9 {
        assert(k == 0 || k == 1 || k == 2 || k == 3 || k == 4 || k == 5 || k == 6 || k == 7 || k
            == 8);
    } else {
        assert(k == 9 || k == 10 || k == 11 || k == 12 || k == 13 || k == 14 || k == 15 || k == 16
            || k == 17);
    }
}

/// Where a modifier stands in the list.
proof fn lemma_modifier_place(m: Seq<char>) -> (k: int)
    requires
        is_modifier(m),
    ensures
        0 <= k < 18,
        scope::modifiers()[k] == m,
{
    let all = scope::modifiers();
    if m == "abstract "@ {
        assert(all[0] == m);
        0
    } else if m == "sealed "@ {
        assert(all[1] == m);
        1
    } else if m == "data "@ {
        assert(all[2] == m);
        2
    } else if m == "open "@ {
        assert(all[3] == m);
        3
    } else if m == "inner "@ {
        assert(all[4] == m);
        4
    } else if m == "private "@ {
        assert(all[5] == m);
        5
    } else if m == "protected "@ {
        assert(all[6] == m);
        6
    } else if m == "public "@ {
        assert(all[7] == m);
        7
    } else if m == "internal "@ {
        assert(all[8] == m);
        8
    } else if m == "inline "@ {
        assert(all[9] == m);
        9
    } else if m == "value "@ {
        assert(all[10] == m);
        10
    } else if m == "enum "@ {
        assert(all[11] == m);
        11
    } else if m == "companion "@ {
        assert(all[12] == m);
        12
    } else if m == "override "@ {
        assert(all[13] == m);
        13
    } else if m == "final "@ {
        assert(all[14] == m);
        14
    } else if m == "fileprivate "@ {
        assert(all[15] == m);
        15
    } else if m == "@objc "@ {
        assert(all[16] == m);
        16
    } else {
        assert(all[17] == m);
        17
    }
}

proof fn lemma_same_word(m: Seq<char>, s: Seq<char>, w: Seq<char>)
    requires
        is_word(m),
        is_word(w),
        text::starts_with(m + s, w),
    ensures
        w == m,
{
    let t = m + s;
    let n = w.len() as int;
    assert(t.take(n) == w);
    assert(t.take(n)[n - 1] == t[n - 1]);
    if n < m.len() {
        assert(m[n - 1] == ' ');
    } else if n > m.len() {
        assert(t.take(n)[m.len() - 1] == m[m.len() - 1]);
        assert(w[m.len() - 1] == ' ');
    } else {
        assert(w =~= m);
    }
}

/// A modifier before a declaration is taken off, and the declaration stays.
proof fn lemma_one_modifier(m: Seq<char>, s: Seq<char>, k: int, n: int)
    requires
        0 <= k < 18,
        scope::modifiers()[k] == m,
        0 <= n <= 18,
        s.len() > 0,
        !unicode::whitespace(s[0]),
        forall|j: int| 0 <= j < 18 ==> !text::starts_with(s, #[trigger] scope::modifiers()[j]),
    ensures
        scope::without_modifiers(m + s, n) == s || (n <= k && scope::without_modifiers(m + s, n)
            == m + s),
    decreases n,
{
    if n > 0 {
        lemma_one_modifier(m, s, k, n - 1);
        let w = scope::modifiers()[n - 1];
        lemma_words(n - 1);
        lemma_words(k);
        let t = scope::without_modifiers(m + s, n - 1);
        law_texts::lemma_start_blank(Seq::empty(), s);
        assert(Seq::<char>::empty() + s =~= s);
        law_texts::lemma_start_blank(Seq::empty(), m + s);
        assert(Seq::<char>::empty() + (m + s) =~= m + s);
        assert((m + s)[0] == m[0]);
        if t == s {
            assert(!text::starts_with(s, scope::modifiers()[n - 1]));
        } else if text::starts_with(m + s, w) {
            lemma_same_word(m, s, w);
            assert((m + s).skip(m.len() as int) =~= s);
        } else {
            if n - 1 == k {
                assert((m + s).take(m.len() as int) =~= m);
            }
        }
    }
}

proof fn lemma_no_modifier(s: Seq<char>, n: int)
    requires
        0 <= n <= 18,
        s.len() > 0,
        !unicode::whitespace(s[0]),
        forall|k: int| 0 <= k < 18 ==> !text::starts_with(s, #[trigger] scope::modifiers()[k]),
    ensures
        scope::without_modifiers(s, n) == s,
    decreases n,
{
    if n > 0 {
        lemma_no_modifier(s, n - 1);
        assert(!text::starts_with(s, scope::modifiers()[n - 1]));
        law_texts::lemma_start_blank(Seq::empty(), s);
        assert(Seq::<char>::empty() + s =~= s);
    }
}

proof fn lemma_differs(s: Seq<char>, word: Seq<char>, i: int)
    requires
        0 <= i < word.len(),
        i >= s.len() || s[i] != word[i],
    ensures
        !text::starts_with(s, word),
{
    if text::starts_with(s, word) {
        assert(s.take(word.len() as int)[i] == s[i]);
    }
}

#[verifier::rlimit(60)]
proof fn lemma_modifiers(s: Seq<char>)
    requires
        text::starts_with(s, "class "@) || text::starts_with(s, "interface "@) || text::starts_with(
            s,
            "object "@,
        ),
    ensures
        s.len() > 5,
        s[0] == 'c' || s[0] == 'i' || s[0] == 'o',
        forall|k: int| 0 <= k < 18 ==> !text::starts_with(s, #[trigger] scope::modifiers()[k]),
{
    reveal_strlit("class ");
    reveal_strlit("interface ");
    reveal_strlit("object ");
    if text::starts_with(s, "class "@) {
        assert(s.take(6)[0] == 'c' && s.take(6)[1] == 'l');
        assert(s[0] == 'c' && s[1] == 'l');
    } else if text::starts_with(s, "interface "@) {
        assert(s.take(10)[0] == 'i' && s.take(10)[2] == 't' && s.take(10)[5] == 'f');
        assert(s[0] == 'i' && s[2] == 't' && s[5] == 'f');
    } else {
        assert(s.take(7)[0] == 'o' && s.take(7)[1] == 'b');
        assert(s[0] == 'o' && s[1] == 'b');
    }
    lemma_some_modifiers(s);
    lemma_more_modifiers(s);
    let all = scope::modifiers();
    assert forall|k: int| 0 <= k < 18 implies !text::starts_with(s, #[trigger] all[k]) by {
        if k < 9 {
            assert(k == 0 || k == 1 || k == 2 || k == 3 || k == 4 || k == 5 || k == 6 || k == 7 || k
                == 8);
        } else {
            assert(k == 9 || k == 10 || k == 11 || k == 12 || k == 13 || k == 14 || k == 15 || k
                == 16 || k == 17);
        }
    }
}

proof fn lemma_some_modifiers(s: Seq<char>)
    requires
        s.len() > 5,
        s[0] == 'c' && s[1] == 'l' || s[0] == 'i' && s[2] == 't' && s[5] == 'f' || s[0] == 'o' && s[1]
            == 'b',
    ensures
        !text::starts_with(s, "abstract "@),
        !text::starts_with(s, "sealed "@),
        !text::starts_with(s, "data "@),
        !text::starts_with(s, "open "@),
        !text::starts_with(s, "inner "@),
        !text::starts_with(s, "private "@),
        !text::starts_with(s, "protected "@),
        !text::starts_with(s, "public "@),
        !text::starts_with(s, "internal "@),
{
    reveal_strlit("abstract ");
    reveal_strlit("sealed ");
    reveal_strlit("data ");
    reveal_strlit("open ");
    reveal_strlit("inner ");
    reveal_strlit("private ");
    reveal_strlit("protected ");
    reveal_strlit("public ");
    reveal_strlit("internal ");
    lemma_differs(s, "abstract "@, 0);
    lemma_differs(s, "sealed "@, 0);
    lemma_differs(s, "data "@, 0);
    lemma_differs(s, "private "@, 0);
    lemma_differs(s, "protected "@, 0);
    lemma_differs(s, "public "@, 0);
    if s[0] == 'o' {
        lemma_differs(s, "open "@, 1);
    } else {
        lemma_differs(s, "open "@, 0);
    }
    if s[0] == 'i' {
        lemma_differs(s, "inner "@, 2);
        lemma_differs(s, "internal "@, 5);
    } else {
        lemma_differs(s, "inner "@, 0);
        lemma_differs(s, "internal "@, 0);
    }
}

proof fn lemma_more_modifiers(s: Seq<char>)
    requires
        s.len() > 5,
        s[0] == 'c' && s[1] == 'l' || s[0] == 'i' && s[2] == 't' && s[5] == 'f' || s[0] == 'o' && s[1]
            == 'b',
    ensures
        !text::starts_with(s, "inline "@),
        !text::starts_with(s, "value "@),
        !text::starts_with(s, "enum "@),
        !text::starts_with(s, "companion "@),
        !text::starts_with(s, "override "@),
        !text::starts_with(s, "final "@),
        !text::starts_with(s, "fileprivate "@),
        !text::starts_with(s, "@objc "@),
        !text::starts_with(s, "static "@),
{
    reveal_strlit("inline ");
    reveal_strlit("value ");
    reveal_strlit("enum ");
    reveal_strlit("companion ");
    reveal_strlit("override ");
    reveal_strlit("final ");
    reveal_strlit("fileprivate ");
    reveal_strlit("@objc ");
    reveal_strlit("static ");
    lemma_differs(s, "value "@, 0);
    lemma_differs(s, "enum "@, 0);
    lemma_differs(s, "final "@, 0);
    lemma_differs(s, "fileprivate "@, 0);
    lemma_differs(s, "@objc "@, 0);
    lemma_differs(s, "static "@, 0);
    if s[0] == 'i' {
        lemma_differs(s, "inline "@, 2);
    } else {
        lemma_differs(s, "inline "@, 0);
    }
    if s[0] == 'c' {
        lemma_differs(s, "companion "@, 1);
    } else {
        lemma_differs(s, "companion "@, 0);
    }
    if s[0] == 'o' {
        lemma_differs(s, "override "@, 1);
    } else {
        lemma_differs(s, "override "@, 0);
    }
}

/// A declaration without modifiers is bare.
proof fn lemma_bare(t: Seq<char>)
    requires
        text::starts_with(t, "class "@) || text::starts_with(t, "interface "@) || text::starts_with(
            t,
            "object "@,
        ),
    ensures
        scope::bare_declaration(t) == t,
        t.len() > 0,
        !unicode::whitespace(t[0]),
        t[0] != '@',
        forall|k: int| 0 <= k < 18 ==> !text::starts_with(t, #[trigger] scope::modifiers()[k]),
{
    lemma_modifiers(t);
    lemma_no_modifier(t, 18);
    assert(scope::one_round(t) == t);
}

/// What is left of a declaration without the modifier before it.
proof fn lemma_bare_modified(m: Seq<char>, t: Seq<char>)
    requires
        is_modifier(m),
        text::starts_with(t, "class "@) || text::starts_with(t, "interface "@) || text::starts_with(
            t,
            "object "@,
        ),
    ensures
        scope::bare_declaration(m + t) == t,
        m.len() > 0,
        !unicode::whitespace(m[0]),
{
    lemma_bare(t);
    let k = lemma_modifier_place(m);
    lemma_words(k);
    lemma_one_modifier(m, t, k, 18);
    assert(scope::one_round(m + t) == t);
    assert(t.len() < (m + t).len());
}

#[verifier::rlimit(60)]
proof fn lemma_declared(line: Seq<char>, name: Seq<char>)
    requires
        declares_class(line, name),
    ensures
        scope::declared_type(text::trimmed(line)) == Some(name),
{
    let (indent, modifier, keyword, rest) = choose|
        indent: Seq<char>,
        modifier: Seq<char>,
        keyword: Seq<char>,
        rest: Seq<char>,
    |
        #![trigger indent + modifier + keyword + name + rest]
        law_texts::blank(indent) && (modifier.len() == 0 || is_modifier(modifier)) && (keyword
            == "class "@ || keyword == "interface "@ || keyword == "object "@) && (rest.len() > 0
            ==> !text::id_char(rest[0])) && line == indent + modifier + keyword + name + rest;
    reveal_strlit("class ");
    reveal_strlit("interface ");
    reveal_strlit("object ");
    law_texts::lemma_name_is_tight(name);
    let bare = keyword + name + rest;
    let core = modifier + bare;
    assert(line =~= indent + core);
    assert(bare.take(keyword.len() as int) =~= keyword);
    lemma_bare(bare);
    if modifier.len() > 0 {
        lemma_bare_modified(modifier, bare);
        assert(core[0] == modifier[0]);
    } else {
        assert(core =~= bare);
    }
    law_texts::lemma_start_blank(indent, core);
    let q = text::space_class();
    text::lemma_rspan(core, q);
    let cut = text::rspan(core, q);
    let front = modifier + keyword + name;
    if core.len() - cut < front.len() {
        assert(q(core[front.len() - 1]));
        assert(core[front.len() - 1] == name.last());
    }
    let t = text::trimmed(line);
    let more = t.skip(front.len() as int);
    let decl = keyword + (name + more);
    assert(t =~= modifier + decl);
    if more.len() > 0 {
        assert(more[0] == rest[0]);
    }
    assert(decl.take(keyword.len() as int) =~= keyword);
    lemma_bare(decl);
    if modifier.len() > 0 {
        lemma_bare_modified(modifier, decl);
    } else {
        assert(t =~= decl);
    }
    assert(scope::bare_declaration(t) == decl);
    law_texts::law_names_at_the_ends(name, more);
    lemma_keyword(decl, keyword, name + more);
}

proof fn lemma_keyword(t: Seq<char>, keyword: Seq<char>, rest: Seq<char>)
    requires
        keyword == "class "@ || keyword == "interface "@ || keyword == "object "@,
        t == keyword + rest,
    ensures
        scope::past_keyword(t) == Some(rest),
{
    reveal_strlit("class ");
    reveal_strlit("interface ");
    reveal_strlit("object ");
    assert(t.take(keyword.len() as int) =~= keyword);
    assert(t.skip(keyword.len() as int) =~= rest);
    assert(t[0] == keyword[0]);
    if keyword != "class "@ {
        assert(t[0] != 'c');
        lemma_differs(t, "class "@, 0);
    }
    if keyword == "object "@ {
        lemma_differs(t, "interface "@, 0);
    }
}

proof fn lemma_type_from(lines: Seq<Seq<char>>, at: int, i: int, row: int, name: Seq<char>)
    requires
        0 <= at < row < lines.len(),
        at <= i <= row,
        declares_class(lines[at], name),
        opened(lines, at, row) > 0,
        forall|k: int| at < k < row ==> #[trigger] opened(lines, k, row) <= 0,
    ensures
        scope::type_from(lines, i, row, -opened(lines, i + 1, row)) == Some(name),
    decreases i - at,
{
    let line = lines[i];
    law_hovers::lemma_count(line, '{');
    law_hovers::lemma_count(line, '}');
    let now = -opened(lines, i + 1, row) + scope::brace_balance(line);
    assert(now == -opened(lines, i, row));
    if i == at {
        lemma_declared(line, name);
    } else {
        if i < row {
            assert(opened(lines, i, row) <= 0);
        }
        lemma_type_from(lines, at, i - 1, row, name);
    }
}

/// By the text the type that encloses a row is the one declared on the nearest line above from
/// which on more braces are opened than closed.
pub proof fn law_enclosing_type_by_braces(
    lines: Seq<Seq<char>>,
    at: int,
    row: int,
    name: Seq<char>,
)
    requires
        0 <= at < row < lines.len(),
        declares_class(lines[at], name),
        opened(lines, at, row) > 0,
        forall|k: int| at < k < row ==> #[trigger] opened(lines, k, row) <= 0,
    ensures
        scope::enclosing_type(lines, row) == Some(name),
{
    lemma_type_from(lines, at, row, row, name);
    assert(opened(lines, row + 1, row) == 0);
}

} // verus!
