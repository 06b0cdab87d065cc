//! What is true of the pieces that texts are taken apart into.
use vstd::prelude::*;
use vstd::string::*;

use crate::text;
use crate::unicode;

verus! {

/// Whether a text is white space alone.
pub open spec fn blank(s: Seq<char>) -> bool {
    forall|i: int| 0 <= i < s.len() ==> unicode::whitespace(#[trigger] s[i])
}

/// Whether a text neither begins nor ends with white space.
pub open spec fn tight(s: Seq<char>) -> bool {
    s.len() > 0 ==> !unicode::whitespace(s[0]) && !unicode::whitespace(s.last())
}

/// Whether a text is a name: identifier characters alone, and at least one.
pub open spec fn is_name(s: Seq<char>) -> bool {
    s.len() > 0 && forall|i: int|
        0 <= i < s.len() ==> text::id_char(#[trigger] s[i]) && !unicode::whitespace(s[i])
}

/// Whether a text lacks a character.
pub open spec fn lacks(s: Seq<char>, k: char) -> bool {
    forall|i: int| 0 <= i < s.len() ==> #[trigger] s[i] != k
}

/// Whether `p` stands at `i` of `s`.
pub open spec fn occurs(s: Seq<char>, p: Seq<char>, i: int) -> bool {
    0 <= i && i + p.len() <= s.len() && s.subrange(i, i + p.len()) == p
}

// ---------------------------------------------------------------------------
// Characters
// ---------------------------------------------------------------------------

/// In ASCII the identifier characters are the letters, the digits and the underscore.
pub proof fn law_identifier_characters(c: char)
    requires
        c as u32 <= 0x7f,
    ensures
        text::id_char(c) == ('a' <= c <= 'z' || 'A' <= c <= 'Z' || '0' <= c <= '9' || c == '_'),
        unicode::whitespace(c) == (c == ' ' || c == '\t' || c == '\n' || c == '\r' || c as u32 == 0x0b
            || c as u32 == 0x0c),
{
}

// ---------------------------------------------------------------------------
// Searching
// ---------------------------------------------------------------------------

/// A text is found where it stands first, and nowhere where it does not stand.
pub proof fn law_text_is_found_first(s: Seq<char>, p: Seq<char>)
    ensures
        match text::find_text(s, p) {
            Some(i) => occurs(s, p, i) && forall|j: int| 0 <= j < i ==> !#[trigger] occurs(s, p, j),
            None => forall|j: int| !#[trigger] occurs(s, p, j),
        },
        text::contains_text(s, p) == exists|j: int| #[trigger] occurs(s, p, j),
    decreases s.len(),
{
    if text::starts_with(s, p) {
        assert(s.subrange(0, p.len() as int) =~= s.take(p.len() as int));
        assert(occurs(s, p, 0));
    } else if s.len() > 0 {
        let t = s.skip(1);
        law_text_is_found_first(t, p);
        assert forall|j: int| #[trigger] occurs(s, p, j) implies j > 0 && occurs(t, p, j - 1) by {
            if j == 0 {
                assert(s.take(p.len() as int) =~= s.subrange(0, p.len() as int));
            } else {
                assert(t.subrange(j - 1, j - 1 + p.len()) =~= s.subrange(j, j + p.len()));
            }
        }
        if let Some(i) = text::find_text(t, p) {
            assert(t.subrange(i, i + p.len()) =~= s.subrange(i + 1, i + 1 + p.len()));
            assert(occurs(s, p, i + 1));
            assert forall|j: int| 0 <= j < i + 1 implies !#[trigger] occurs(s, p, j) by {
                if occurs(s, p, j) {
                    assert(occurs(t, p, j - 1));
                }
            }
        }
    } else {
        assert forall|j: int| !#[trigger] occurs(s, p, j) by {
            if occurs(s, p, j) {
                assert(p.len() == 0);
                assert(s.take(0) =~= p);
            }
        }
    }
}

pub(crate) proof fn lemma_found_at(s: Seq<char>, p: Seq<char>, i: int)
    requires
        occurs(s, p, i),
        forall|j: int| 0 <= j < i ==> !#[trigger] occurs(s, p, j),
    ensures
        text::find_text(s, p) == Some(i),
{
    law_text_is_found_first(s, p);
}

/// A character is found where it stands first, and where it stands last.
pub proof fn law_character_is_found(a: Seq<char>, k: char, b: Seq<char>)
    ensures
        lacks(a, k) ==> text::index_of(a + seq![k] + b, k) == Some(a.len() as int),
        lacks(b, k) ==> text::rindex_of(a + seq![k] + b, k) == Some(a.len() as int),
        lacks(a, k) ==> text::index_of(a, k) is None,
        lacks(a, k) ==> text::rindex_of(a, k) is None,
{
    let s = a + seq![k] + b;
    let p = text::all_but(k);
    assert(s[a.len() as int] == k);
    if lacks(a, k) {
        assert forall|i: int| 0 <= i < a.len() implies p(#[trigger] s[i]) by {
            assert(a[i] != k);
        }
        text::lemma_span_unique(s, p, a.len() as int);
        assert forall|i: int| 0 <= i < a.len() implies p(#[trigger] a[i]) by {}
        text::lemma_span_unique(a, p, a.len() as int);
        text::lemma_rspan_unique(a, p, a.len() as int);
    }
    if lacks(b, k) {
        assert forall|i: int| s.len() - b.len() <= i < s.len() implies p(#[trigger] s[i]) by {
            assert(b[i - a.len() - 1] != k);
        }
        text::lemma_rspan_unique(s, p, b.len() as int);
    }
}

// ---------------------------------------------------------------------------
// Trimming
// ---------------------------------------------------------------------------

/// Trimming takes the white space off the ends of a text, and nothing else.
pub proof fn law_trimming(a: Seq<char>, core: Seq<char>, b: Seq<char>)
    requires
        blank(a),
        blank(b),
        tight(core),
    ensures
        text::trimmed(a + core + b) == core,
        core.len() > 0 ==> text::trimmed_start(a + core + b) == core + b,
        core.len() > 0 ==> text::trimmed_end(a + core + b) == a + core,
{
    let s = a + core + b;
    let p = text::space_class();
    if core.len() > 0 {
        assert forall|i: int| 0 <= i < a.len() implies p(#[trigger] s[i]) by {
            assert(unicode::whitespace(a[i]));
        }
        assert(s[a.len() as int] == core[0]);
        text::lemma_span_unique(s, p, a.len() as int);
        assert(s.skip(a.len() as int) =~= core + b);
        let t = core + b;
        lemma_end_blank(core, b);
        assert(t.take(core.len() as int) =~= core);
        lemma_end_blank(a + core, b);
        assert((a + core).last() == core.last());
        assert(s.take((a.len() + core.len()) as int) =~= a + core);
    } else {
        assert forall|i: int| 0 <= i < s.len() implies p(#[trigger] s[i]) by {
            if i < a.len() {
                assert(unicode::whitespace(a[i]));
            } else {
                assert(unicode::whitespace(b[i - a.len()]));
            }
        }
        text::lemma_span_unique(s, p, s.len() as int);
        assert(s.skip(s.len() as int) =~= core);
        assert(text::trimmed_start(s).len() == 0);
        text::lemma_rspan(text::trimmed_start(s), p);
        assert(text::trimmed(s) =~= core);
    }
}

pub(crate) proof fn lemma_end_blank(core: Seq<char>, b: Seq<char>)
    requires
        blank(b),
        core.len() > 0 ==> !unicode::whitespace(core.last()),
    ensures
        text::rspan(core + b, text::space_class()) == b.len(),
        text::trimmed_end(core + b) == core,
{
    let t = core + b;
    let p = text::space_class();
    assert forall|i: int| t.len() - b.len() <= i < t.len() implies p(#[trigger] t[i]) by {
        assert(unicode::whitespace(b[i - core.len()]));
    }
    if core.len() > 0 {
        assert(t[core.len() - 1] == core.last());
    }
    text::lemma_rspan_unique(t, p, b.len() as int);
    assert(t.take(core.len() as int) =~= core);
}

pub(crate) proof fn lemma_start_blank(a: Seq<char>, core: Seq<char>)
    requires
        blank(a),
        core.len() > 0 ==> !unicode::whitespace(core[0]),
    ensures
        text::trimmed_start(a + core) == core,
{
    let s = a + core;
    let p = text::space_class();
    assert forall|i: int| 0 <= i < a.len() implies p(#[trigger] s[i]) by {
        assert(unicode::whitespace(a[i]));
    }
    if core.len() > 0 {
        assert(s[a.len() as int] == core[0]);
    }
    text::lemma_span_unique(s, p, a.len() as int);
    assert(s.skip(a.len() as int) =~= core);
}

pub(crate) proof fn lemma_tight(core: Seq<char>)
    requires
        tight(core),
    ensures
        text::trimmed(core) == core,
        text::trimmed_start(core) == core,
        text::trimmed_end(core) == core,
{
    let none = Seq::<char>::empty();
    assert(none + core =~= core);
    assert(core + none =~= core);
    lemma_start_blank(none, core);
    lemma_end_blank(core, none);
}

/// What is left of a text when it is trimmed begins where the text does, if that begins with no
/// white space, and goes at least as far as any character of it that is no white space.
pub(crate) proof fn lemma_trim_keeps(s: Seq<char>, i: int)
    requires
        0 <= i < s.len(),
        !unicode::whitespace(s[0]),
        !unicode::whitespace(s[i]),
    ensures
        ({
            let t = text::trimmed(s);
            &&& i < t.len() <= s.len()
            &&& t == s.take(t.len() as int)
        }),
{
    let p = text::space_class();
    text::lemma_span_unique(s, p, 0);
    assert(s.skip(0) =~= s);
    text::lemma_rspan(s, p);
    if s.len() - text::rspan(s, p) <= i {
        assert(p(s[i]));
    }
}

// ---------------------------------------------------------------------------
// Names
// ---------------------------------------------------------------------------

/// The name that a text begins with is the longest run of identifier characters there, and the
/// name that it ends with the longest there.
pub proof fn law_names_at_the_ends(a: Seq<char>, b: Seq<char>)
    requires
        is_name(a),
    ensures
        b.len() == 0 || !text::id_char(b[0]) ==> text::ident_of(a + b) == a,
        b.len() == 0 || !text::id_char(b.last()) ==> text::last_ident_of(b + a) == a,
        b.len() == 0 || !(text::id_char(b[0]) || b[0] == '.') ==> text::dotted_ident_of(a + b) == a,
{
    let p = text::ident_class();
    let q = text::dotted_class();
    let s = a + b;
    let t = b + a;
    assert forall|i: int| 0 <= i < a.len() implies p(#[trigger] s[i]) && q(s[i]) by {
        assert(text::id_char(a[i]));
    }
    assert forall|i: int| t.len() - a.len() <= i < t.len() implies p(#[trigger] t[i]) by {
        assert(text::id_char(a[i - b.len()]));
    }
    if b.len() == 0 || !text::id_char(b[0]) {
        if b.len() > 0 {
            assert(s[a.len() as int] == b[0]);
        }
        text::lemma_span_unique(s, p, a.len() as int);
        assert(s.take(a.len() as int) =~= a);
    }
    if b.len() == 0 || !text::id_char(b.last()) {
        if b.len() > 0 {
            assert(t[t.len() - 1 - a.len()] == b.last());
        }
        text::lemma_rspan_unique(t, p, a.len() as int);
        assert(t.skip(t.len() - a.len()) =~= a);
    }
    if b.len() == 0 || !(text::id_char(b[0]) || b[0] == '.') {
        if b.len() > 0 {
            assert(s[a.len() as int] == b[0]);
        }
        text::lemma_span_unique(s, q, a.len() as int);
        assert(s.take(a.len() as int) =~= a);
    }
}

/// What follows the last dot of a name is its last segment; a name without a dot is one itself.
pub proof fn law_last_segment(a: Seq<char>, b: Seq<char>)
    requires
        lacks(b, '.'),
    ensures
        text::last_segment_of(a + seq!['.'] + b) == b,
        text::last_segment_of(b) == b,
{
    let p = text::all_but('.');
    let s = a + seq!['.'] + b;
    assert forall|i: int| s.len() - b.len() <= i < s.len() implies p(#[trigger] s[i]) by {
        assert(b[i - a.len() - 1] != '.');
    }
    assert(s[s.len() - 1 - b.len()] == '.');
    text::lemma_rspan_unique(s, p, b.len() as int);
    assert(s.skip(s.len() - b.len()) =~= b);
    assert forall|i: int| 0 <= i < b.len() implies p(#[trigger] b[i]) by {}
    text::lemma_rspan_unique(b, p, b.len() as int);
    assert(b.skip(0) =~= b);
}

pub(crate) proof fn lemma_name_is_tight(s: Seq<char>)
    requires
        is_name(s),
    ensures
        tight(s),
        lacks(s, '.'),
        lacks(s, ':'),
        lacks(s, '('),
        lacks(s, ')'),
        lacks(s, '='),
        lacks(s, ','),
        lacks(s, '?'),
        lacks(s, '<'),
        lacks(s, ' '),
{
    assert forall|i: int| 0 <= i < s.len() implies !unicode::whitespace(#[trigger] s[i]) && s[i]
        != '.' && s[i] != ':' && s[i] != '(' && s[i] != ')' && s[i] != '=' && s[i] != ',' && s[i]
        != '?' && s[i] != '<' && s[i] != ' ' by {
        assert(text::id_char(s[i]));
    }
}

/// Texts with a character between them.
pub open spec fn joined(texts: Seq<Seq<char>>, k: char) -> Seq<char>
    decreases texts.len(),
{
    if texts.len() == 0 {
        Seq::empty()
    } else if texts.len() == 1 {
        texts[0]
    } else {
        texts[0] + seq![k] + joined(texts.skip(1), k)
    }
}

/// Texts that were joined by a character that none of them holds are parted there again.
pub proof fn law_parts_are_parted(texts: Seq<Seq<char>>, k: char)
    requires
        texts.len() > 0,
        forall|i: int| 0 <= i < texts.len() ==> lacks(#[trigger] texts[i], k),
    ensures
        text::parts(joined(texts, k), k) == texts,
    decreases texts.len(),
{
    let p = text::all_but(k);
    let first = texts[0];
    let s = joined(texts, k);
    assert(lacks(texts[0], k));
    assert forall|i: int| 0 <= i < first.len() implies p(#[trigger] s[i]) by {
        assert(s[i] == first[i]);
        assert(first[i] != k);
    }
    if texts.len() == 1 {
        text::lemma_span_unique(s, p, s.len() as int);
        assert(text::parts(s, k) =~= texts);
    } else {
        let rest = texts.skip(1);
        assert forall|i: int| 0 <= i < rest.len() implies lacks(#[trigger] rest[i], k) by {
            assert(rest[i] == texts[i + 1]);
        }
        law_parts_are_parted(rest, k);
        let n = first.len() as int;
        assert(s[n] == k);
        text::lemma_span_unique(s, p, n);
        assert(s.take(n) =~= first);
        assert(s.skip(n + 1) =~= joined(rest, k));
        assert(seq![first] + rest =~= texts);
    }
}

} // verus!
