//! Text primitives: searching, trimming, splitting and replacing, stated over the sequence of
//! a string's characters.
use vstd::prelude::*;
use vstd::string::*;

use crate::unicode;

verus! {

// ---------------------------------------------------------------------------
// Character classes
// ---------------------------------------------------------------------------

/// Characters that may occur in an identifier.
pub open spec fn id_char(c: char) -> bool {
    unicode::alphanumeric(c) || c == '_'
}

/// True for letters, digits and the underscore.
pub fn is_id_char(c: char) -> (r: bool)
    ensures
        r == id_char(c),
{
    c.is_alphanumeric() || c == '_'
}

/// The class of identifier characters.
pub open spec fn ident_class() -> spec_fn(char) -> bool {
    |c: char| id_char(c)
}

/// The class of identifier characters and the dot.
pub open spec fn dotted_class() -> spec_fn(char) -> bool {
    |c: char| id_char(c) || c == '.'
}

/// The class of whitespace characters.
pub open spec fn space_class() -> spec_fn(char) -> bool {
    |c: char| unicode::whitespace(c)
}

/// The class of non-whitespace characters.
pub open spec fn word_class() -> spec_fn(char) -> bool {
    |c: char| !unicode::whitespace(c)
}

/// The class that holds one character alone.
pub open spec fn only(k: char) -> spec_fn(char) -> bool {
    |c: char| c == k
}

/// The class of every character but one.
pub open spec fn all_but(k: char) -> spec_fn(char) -> bool {
    |c: char| c != k
}

/// A class of characters that the scanning functions can test.
#[derive(Clone, Copy)]
pub enum CharClass {
    Ident,
    Dotted,
    Space,
    Word,
    Only(char),
    AllBut(char),
}

impl CharClass {
    /// The characters of the class.
    pub open spec fn pred(self) -> spec_fn(char) -> bool {
        match self {
            CharClass::Ident => ident_class(),
            CharClass::Dotted => dotted_class(),
            CharClass::Space => space_class(),
            CharClass::Word => word_class(),
            CharClass::Only(k) => only(k),
            CharClass::AllBut(k) => all_but(k),
        }
    }

    /// Whether `c` belongs to the class.
    pub fn holds(self, c: char) -> (r: bool)
        ensures
            r == self.pred()(c),
    {
        match self {
            CharClass::Ident => is_id_char(c),
            CharClass::Dotted => is_id_char(c) || c == '.',
            CharClass::Space => c.is_whitespace(),
            CharClass::Word => !c.is_whitespace(),
            CharClass::Only(k) => c == k,
            CharClass::AllBut(k) => c != k,
        }
    }
}

// ---------------------------------------------------------------------------
// Spans
// ---------------------------------------------------------------------------

/// The length of the longest prefix of `s` whose characters all belong to `p`.
pub open spec fn span(s: Seq<char>, p: spec_fn(char) -> bool) -> int
    decreases s.len(),
{
    if s.len() > 0 && p(s[0]) {
        1 + span(s.skip(1), p)
    } else {
        0
    }
}

/// The length of the longest suffix of `s` whose characters all belong to `p`.
pub open spec fn rspan(s: Seq<char>, p: spec_fn(char) -> bool) -> int
    decreases s.len(),
{
    if s.len() > 0 && p(s.last()) {
        1 + rspan(s.drop_last(), p)
    } else {
        0
    }
}

/// What `span` measures: every character before it belongs to the class, the one at it, if
/// there is one, does not.
pub proof fn lemma_span(s: Seq<char>, p: spec_fn(char) -> bool)
    ensures
        0 <= span(s, p) <= s.len(),
        forall|i: int| 0 <= i < span(s, p) ==> p(#[trigger] s[i]),
        span(s, p) < s.len() ==> !p(s[span(s, p)]),
    decreases s.len(),
{
    if s.len() > 0 && p(s[0]) {
        let t = s.skip(1);
        lemma_span(t, p);
        assert forall|i: int| 0 <= i < span(s, p) implies p(#[trigger] s[i]) by {
            if i > 0 {
                assert(p(t[i - 1]));
            }
        }
    }
}

/// The property that `lemma_span` states holds of one length only.
pub proof fn lemma_span_unique(s: Seq<char>, p: spec_fn(char) -> bool, n: int)
    requires
        0 <= n <= s.len(),
        forall|i: int| 0 <= i < n ==> p(#[trigger] s[i]),
        n < s.len() ==> !p(s[n]),
    ensures
        span(s, p) == n,
{
    lemma_span(s, p);
    if span(s, p) < n {
        assert(p(s[span(s, p)]));
    }
    if n < span(s, p) {
        assert(p(s[n]));
    }
}

/// What `rspan` measures, from the end.
pub proof fn lemma_rspan(s: Seq<char>, p: spec_fn(char) -> bool)
    ensures
        0 <= rspan(s, p) <= s.len(),
        forall|i: int| s.len() - rspan(s, p) <= i < s.len() ==> p(#[trigger] s[i]),
        rspan(s, p) < s.len() ==> !p(s[s.len() - 1 - rspan(s, p)]),
    decreases s.len(),
{
    if s.len() > 0 && p(s.last()) {
        let t = s.drop_last();
        lemma_rspan(t, p);
        assert forall|i: int| s.len() - rspan(s, p) <= i < s.len() implies p(#[trigger] s[i]) by {
            if i < s.len() - 1 {
                assert(p(t[i]));
            }
        }
        if rspan(s, p) < s.len() {
            assert(t[t.len() - 1 - rspan(t, p)] == s[s.len() - 1 - rspan(s, p)]);
        }
    }
}

/// The property that `lemma_rspan` states holds of one length only.
pub proof fn lemma_rspan_unique(s: Seq<char>, p: spec_fn(char) -> bool, n: int)
    requires
        0 <= n <= s.len(),
        forall|i: int| s.len() - n <= i < s.len() ==> p(#[trigger] s[i]),
        n < s.len() ==> !p(s[s.len() - 1 - n]),
    ensures
        rspan(s, p) == n,
{
    lemma_rspan(s, p);
    if rspan(s, p) < n {
        assert(p(s[s.len() - 1 - rspan(s, p)]));
    }
    if n < rspan(s, p) {
        assert(p(s[s.len() - 1 - n]));
    }
}

/// Counts the characters of `c[from..]` that belong to `class`, up to the first that does not.
pub(crate) fn span_from(c: &Vec<char>, from: usize, class: CharClass) -> (r: usize)
    requires
        from <= c@.len(),
    ensures
        r == span(c@.skip(from as int), class.pred()),
        from + r <= c@.len(),
{
    let ghost p = class.pred();
    let ghost s = c@.skip(from as int);
    let mut i: usize = from;
    while i < c.len() && class.holds(c[i])
        invariant
            from <= i <= c@.len(),
            s == c@.skip(from as int),
            p == class.pred(),
            forall|k: int| 0 <= k < i - from ==> p(#[trigger] s[k]),
        ensures
            i < c@.len() ==> !p(c@[i as int]),
        decreases c@.len() - i,
    {
        assert(s[i - from] == c@[i as int]);
        i += 1;
    }
    proof {
        lemma_span_unique(s, p, i - from);
    }
    i - from
}

/// Counts the characters at the end of `c[..to]` that belong to `class`.
pub(crate) fn rspan_to(c: &Vec<char>, to: usize, class: CharClass) -> (r: usize)
    requires
        to <= c@.len(),
    ensures
        r == rspan(c@.take(to as int), class.pred()),
        r <= to,
{
    let ghost p = class.pred();
    let ghost s = c@.take(to as int);
    let mut i: usize = to;
    while i > 0 && class.holds(c[i - 1])
        invariant
            0 <= i <= to <= c@.len(),
            s == c@.take(to as int),
            p == class.pred(),
            forall|k: int| i <= k < to ==> p(#[trigger] s[k]),
        ensures
            i > 0 ==> !p(c@[i - 1]),
        decreases i,
    {
        assert(s[i - 1] == c@[i - 1]);
        i -= 1;
    }
    proof {
        lemma_rspan_unique(s, p, to - i);
    }
    to - i
}

// ---------------------------------------------------------------------------
// Conversions and comparison
// ---------------------------------------------------------------------------

/// The characters of `s`.
pub fn chars_of(s: &str) -> (r: Vec<char>)
    ensures
        r@ == s@,
{
    let mut out: Vec<char> = Vec::new();
    for c in it: s.chars()
        invariant
            it.seq() == s@,
            out@ == s@.take(it.index() as int),
    {
        out.push(c);
    }
    out
}

/// The string made of the characters `c[from..to]`.
pub fn string_of(c: &Vec<char>, from: usize, to: usize) -> (r: String)
    requires
        from <= to <= c@.len(),
    ensures
        r@ == c@.subrange(from as int, to as int),
{
    let mut out = String::new();
    let mut i: usize = from;
    while i < to
        invariant
            from <= i <= to <= c@.len(),
            out@ == c@.subrange(from as int, i as int),
        decreases to - i,
    {
        out.push(c[i]);
        i += 1;
        assert(out@ =~= c@.subrange(from as int, i as int));
    }
    out
}

/// Whether two strings hold the same characters.
pub fn same(a: &str, b: &str) -> (r: bool)
    ensures
        r == (a@ == b@),
{
    let x = chars_of(a);
    let y = chars_of(b);
    if x.len() != y.len() {
        return false;
    }
    let mut i: usize = 0;
    while i < x.len()
        invariant
            i <= x@.len(),
            x@ == a@,
            y@ == b@,
            x@.len() == y@.len(),
            forall|k: int| 0 <= k < i ==> x@[k] == y@[k],
        decreases x@.len() - i,
    {
        if x[i] != y[i] {
            return false;
        }
        i += 1;
    }
    assert(a@ =~= b@);
    true
}

/// `a` followed by `b`.
pub fn concat(a: &str, b: &str) -> (r: String)
    ensures
        r@ == a@ + b@,
{
    let mut out = a.to_owned();
    out.append(b);
    out
}

// ---------------------------------------------------------------------------
// Searching
// ---------------------------------------------------------------------------

/// Whether a text has ASCII characters only.
pub open spec fn all_ascii(s: Seq<char>) -> bool {
    forall|i: int| 0 <= i < s.len() ==> (#[trigger] s[i]) as u32 <= 0x7f
}

/// The position of the first `k` in `s`.
pub open spec fn index_of(s: Seq<char>, k: char) -> Option<int> {
    let n = span(s, all_but(k));
    if n < s.len() {
        Some(n)
    } else {
        None
    }
}

/// The position of the last `k` in `s`.
pub open spec fn rindex_of(s: Seq<char>, k: char) -> Option<int> {
    let n = rspan(s, all_but(k));
    if n < s.len() {
        Some(s.len() - 1 - n)
    } else {
        None
    }
}

/// Whether `s` begins with `p`.
pub open spec fn starts_with(s: Seq<char>, p: Seq<char>) -> bool {
    p.len() <= s.len() && s.take(p.len() as int) == p
}

/// Whether `s` ends with `p`.
pub open spec fn ends_with(s: Seq<char>, p: Seq<char>) -> bool {
    p.len() <= s.len() && s.skip(s.len() - p.len()) == p
}

/// The position of the first occurrence of `p` in `s`.
pub open spec fn find_text(s: Seq<char>, p: Seq<char>) -> Option<int>
    decreases s.len(),
{
    if starts_with(s, p) {
        Some(0)
    } else if s.len() == 0 {
        None
    } else {
        match find_text(s.skip(1), p) {
            Some(i) => Some(i + 1),
            None => None,
        }
    }
}

/// Whether `p` occurs in `s`.
pub open spec fn contains_text(s: Seq<char>, p: Seq<char>) -> bool {
    find_text(s, p) is Some
}

pub proof fn lemma_find_text_bounds(s: Seq<char>, p: Seq<char>)
    ensures
        find_text(s, p) matches Some(i) ==> 0 <= i && i + p.len() <= s.len() && s.subrange(
            i,
            i + p.len(),
        ) == p,
    decreases s.len(),
{
    if starts_with(s, p) {
        assert(s.subrange(0, p.len() as int) =~= s.take(p.len() as int));
    } else if s.len() > 0 {
        lemma_find_text_bounds(s.skip(1), p);
        if find_text(s.skip(1), p) is Some {
            let i = find_text(s.skip(1), p)->0;
            assert(s.skip(1).subrange(i, i + p.len()) =~= s.subrange(i + 1, i + 1 + p.len()));
        }
    }
}

/// The first position of `k` in `c[from..]`, counted from `from`.
pub(crate) fn index_from(c: &Vec<char>, from: usize, k: char) -> (r: Option<usize>)
    requires
        from <= c@.len(),
    ensures
        match r {
            Some(i) => index_of(c@.skip(from as int), k) == Some(i as int) && from + i < c@.len(),
            None => index_of(c@.skip(from as int), k) is None,
        },
{
    let n: usize = span_from(c, from, CharClass::AllBut(k));
    if n < c.len() - from {
        Some(n)
    } else {
        None
    }
}

/// The last position of `k` in `c[..to]`.
pub(crate) fn rindex_to(c: &Vec<char>, to: usize, k: char) -> (r: Option<usize>)
    requires
        to <= c@.len(),
    ensures
        match r {
            Some(i) => rindex_of(c@.take(to as int), k) == Some(i as int) && i < to,
            None => rindex_of(c@.take(to as int), k) is None,
        },
{
    let n: usize = rspan_to(c, to, CharClass::AllBut(k));
    if n < to {
        Some(to - 1 - n)
    } else {
        None
    }
}

/// The position of the first `k` in `s`, in characters.
pub fn find_char(s: &str, k: char) -> (r: Option<usize>)
    ensures
        match r {
            Some(i) => index_of(s@, k) == Some(i as int) && i < s@.len(),
            None => index_of(s@, k) is None,
        },
{
    let c = chars_of(s);
    assert(c@.skip(0) =~= s@);
    index_from(&c, 0, k)
}

/// The position of the last `k` in `s`, in characters.
pub fn rfind_char(s: &str, k: char) -> (r: Option<usize>)
    ensures
        match r {
            Some(i) => rindex_of(s@, k) == Some(i as int) && i < s@.len(),
            None => rindex_of(s@, k) is None,
        },
{
    let c = chars_of(s);
    let n: usize = c.len();
    assert(c@.take(n as int) =~= s@);
    rindex_to(&c, n, k)
}

/// Whether `s` holds the character `k`.
pub fn contains_char(s: &str, k: char) -> (r: bool)
    ensures
        r == s@.contains(k),
{
    let r = find_char(s, k);
    proof {
        lemma_index_contains(s@, k);
    }
    r.is_some()
}

/// A character has a first position exactly when the sequence holds it.
pub proof fn lemma_index_contains(s: Seq<char>, k: char)
    ensures
        (index_of(s, k) is Some) == s.contains(k),
{
    lemma_span(s, all_but(k));
    if s.contains(k) {
        let i = choose|i: int| 0 <= i < s.len() && s[i] == k;
        if span(s, all_but(k)) > i {
            assert(all_but(k)(s[i]));
        }
    }
}

/// Whether `c[at..]` begins with `p`.
pub(crate) fn matches_at(c: &Vec<char>, at: usize, p: &Vec<char>) -> (r: bool)
    requires
        at <= c@.len(),
    ensures
        r == starts_with(c@.skip(at as int), p@),
{
    let n: usize = c.len();
    if p.len() > n - at {
        return false;
    }
    let ghost s = c@.skip(at as int);
    let mut i: usize = 0;
    while i < p.len()
        invariant
            i <= p@.len(),
            at + p@.len() <= n == c@.len(),
            s == c@.skip(at as int),
            forall|k: int| 0 <= k < i ==> s[k] == p@[k],
        decreases p@.len() - i,
    {
        assert(s[i as int] == c@[at + i]);
        if c[at + i] != p[i] {
            assert(s.take(p@.len() as int)[i as int] != p@[i as int]);
            return false;
        }
        i += 1;
    }
    assert(s.take(p@.len() as int) =~= p@);
    true
}

/// The first position of `p` in `c[from..]`, counted from `from`.
pub(crate) fn find_from(c: &Vec<char>, from: usize, p: &Vec<char>) -> (r: Option<usize>)
    requires
        from <= c@.len(),
    ensures
        match r {
            Some(i) => find_text(c@.skip(from as int), p@) == Some(i as int) && from + i + p@.len()
                <= c@.len(),
            None => find_text(c@.skip(from as int), p@) is None,
        },
{
    let ghost whole = find_text(c@.skip(from as int), p@);
    let mut i: usize = from;
    loop
        invariant
            from <= i <= c@.len(),
            whole == find_text(c@.skip(from as int), p@),
            whole == (match find_text(c@.skip(i as int), p@) {
                Some(k) => Some(k + (i - from)),
                None => None,
            }),
        decreases c@.len() - i,
    {
        proof {
            lemma_find_text_bounds(c@.skip(i as int), p@);
        }
        if matches_at(c, i, p) {
            return Some(i - from);
        }
        if i == c.len() {
            return None;
        }
        assert(c@.skip(i as int).skip(1) =~= c@.skip(i + 1));
        i += 1;
    }
}

/// The position of the first `p` in `s`, in characters.
pub fn find(s: &str, p: &str) -> (r: Option<usize>)
    ensures
        match r {
            Some(i) => find_text(s@, p@) == Some(i as int) && i + p@.len() <= s@.len()
                <= usize::MAX,
            None => find_text(s@, p@) is None,
        },
{
    let c = chars_of(s);
    let q = chars_of(p);
    let n: usize = c.len();
    assert(c@.skip(0) =~= s@);
    find_from(&c, 0, &q)
}

/// Whether `p` occurs in `s`.
pub fn contains(s: &str, p: &str) -> (r: bool)
    ensures
        r == contains_text(s@, p@),
{
    find(s, p).is_some()
}

/// Whether `s` begins with `p`.
pub fn has_prefix(s: &str, p: &str) -> (r: bool)
    ensures
        r == starts_with(s@, p@),
{
    let c = chars_of(s);
    let q = chars_of(p);
    assert(c@.skip(0) =~= s@);
    matches_at(&c, 0, &q)
}

/// Whether `s` ends with `p`.
pub fn has_suffix(s: &str, p: &str) -> (r: bool)
    ensures
        r == ends_with(s@, p@),
{
    let c = chars_of(s);
    let q = chars_of(p);
    if q.len() > c.len() {
        return false;
    }
    let r = matches_at(&c, c.len() - q.len(), &q);
    assert(c@.skip(c@.len() - q@.len()).take(q@.len() as int) =~= c@.skip(c@.len() - q@.len()));
    r
}

// ---------------------------------------------------------------------------
// Trimming and prefixes
// ---------------------------------------------------------------------------

/// `s` without the characters of `p` at its start.
pub open spec fn without_prefix_of(s: Seq<char>, p: spec_fn(char) -> bool) -> Seq<char> {
    s.skip(span(s, p))
}

/// `s` without the characters of `p` at its end.
pub open spec fn without_suffix_of(s: Seq<char>, p: spec_fn(char) -> bool) -> Seq<char> {
    s.take(s.len() - rspan(s, p))
}

/// `s` without leading whitespace.
pub open spec fn trimmed_start(s: Seq<char>) -> Seq<char> {
    without_prefix_of(s, space_class())
}

/// `s` without trailing whitespace.
pub open spec fn trimmed_end(s: Seq<char>) -> Seq<char> {
    without_suffix_of(s, space_class())
}

/// `s` without whitespace at either end.
pub open spec fn trimmed(s: Seq<char>) -> Seq<char> {
    trimmed_end(trimmed_start(s))
}

/// The longest prefix of `s` whose characters all belong to `p`.
pub open spec fn prefix_of(s: Seq<char>, p: spec_fn(char) -> bool) -> Seq<char> {
    s.take(span(s, p))
}

/// The longest suffix of `s` whose characters all belong to `p`.
pub open spec fn suffix_of(s: Seq<char>, p: spec_fn(char) -> bool) -> Seq<char> {
    s.skip(s.len() - rspan(s, p))
}

/// The identifier that `s` begins with.
pub open spec fn ident_of(s: Seq<char>) -> Seq<char> {
    prefix_of(s, ident_class())
}

/// The dotted name that `s` begins with; it may end in dots.
pub open spec fn dotted_ident_of(s: Seq<char>) -> Seq<char> {
    prefix_of(s, dotted_class())
}

/// The identifier that `s` ends with.
pub open spec fn last_ident_of(s: Seq<char>) -> Seq<char> {
    suffix_of(s, ident_class())
}

/// What follows the last dot of `s`; all of `s` where it has none.
pub open spec fn last_segment_of(s: Seq<char>) -> Seq<char> {
    suffix_of(s, all_but('.'))
}

/// Whether `s` begins with an uppercase letter.
pub open spec fn upper_start(s: Seq<char>) -> bool {
    s.len() > 0 && unicode::uppercase(s[0])
}

/// Whether `s` begins with a lowercase letter.
pub open spec fn lower_start(s: Seq<char>) -> bool {
    s.len() > 0 && unicode::lowercase(s[0])
}

/// `s[from..to]`, counted in characters.
pub fn slice<'a>(s: &'a str, from: usize, to: usize) -> (r: &'a str)
    requires
        from <= to <= s@.len(),
    ensures
        r@ == s@.subrange(from as int, to as int),
{
    s.substring_char(from, to)
}

/// `s[from..]`, counted in characters.
pub fn skip<'a>(s: &'a str, from: usize) -> (r: &'a str)
    requires
        from <= s@.len(),
    ensures
        r@ == s@.skip(from as int),
{
    let n: usize = s.unicode_len();
    let r = s.substring_char(from, n);
    assert(r@ =~= s@.skip(from as int));
    r
}

/// `s[..to]`, counted in characters.
pub fn take<'a>(s: &'a str, to: usize) -> (r: &'a str)
    requires
        to <= s@.len(),
    ensures
        r@ == s@.take(to as int),
{
    let r = s.substring_char(0, to);
    assert(r@ =~= s@.take(to as int));
    r
}

/// `s` without the characters of `class` at its start.
pub fn trim_start_class<'a>(s: &'a str, class: CharClass) -> (r: &'a str)
    ensures
        r@ == without_prefix_of(s@, class.pred()),
{
    let c = chars_of(s);
    assert(c@.skip(0) =~= s@);
    let n: usize = span_from(&c, 0, class);
    skip(s, n)
}

/// `s` without the characters of `class` at its end.
pub fn trim_end_class<'a>(s: &'a str, class: CharClass) -> (r: &'a str)
    ensures
        r@ == without_suffix_of(s@, class.pred()),
{
    let c = chars_of(s);
    let len: usize = c.len();
    assert(c@.take(len as int) =~= s@);
    let n: usize = rspan_to(&c, len, class);
    take(s, len - n)
}

/// The longest prefix of `s` made of characters of `class`.
pub fn prefix_class<'a>(s: &'a str, class: CharClass) -> (r: &'a str)
    ensures
        r@ == prefix_of(s@, class.pred()),
{
    let c = chars_of(s);
    assert(c@.skip(0) =~= s@);
    let n: usize = span_from(&c, 0, class);
    take(s, n)
}

/// The longest suffix of `s` made of characters of `class`.
pub fn suffix_class<'a>(s: &'a str, class: CharClass) -> (r: &'a str)
    ensures
        r@ == suffix_of(s@, class.pred()),
{
    let c = chars_of(s);
    let len: usize = c.len();
    assert(c@.take(len as int) =~= s@);
    let n: usize = rspan_to(&c, len, class);
    skip(s, len - n)
}

/// `s` without leading whitespace.
pub fn trim_start<'a>(s: &'a str) -> (r: &'a str)
    ensures
        r@ == trimmed_start(s@),
{
    trim_start_class(s, CharClass::Space)
}

/// `s` without trailing whitespace.
pub fn trim_end<'a>(s: &'a str) -> (r: &'a str)
    ensures
        r@ == trimmed_end(s@),
{
    trim_end_class(s, CharClass::Space)
}

/// `s` without whitespace at either end.
pub fn trim<'a>(s: &'a str) -> (r: &'a str)
    ensures
        r@ == trimmed(s@),
{
    trim_end(trim_start(s))
}

/// The identifier that `s` begins with.
pub fn ident_prefix<'a>(s: &'a str) -> (r: &'a str)
    ensures
        r@ == ident_of(s@),
{
    prefix_class(s, CharClass::Ident)
}

/// The dotted name that `s` begins with; it may end in dots.
pub fn dotted_ident_prefix<'a>(s: &'a str) -> (r: &'a str)
    ensures
        r@ == dotted_ident_of(s@),
{
    prefix_class(s, CharClass::Dotted)
}

/// The longest suffix of `s` whose characters may all occur in an identifier.
pub fn last_ident_in<'a>(s: &'a str) -> (r: &'a str)
    ensures
        r@ == last_ident_of(s@),
{
    suffix_class(s, CharClass::Ident)
}

/// What follows the last dot of `s`; all of `s` where it has none.
pub fn last_segment<'a>(s: &'a str) -> (r: &'a str)
    ensures
        r@ == last_segment_of(s@),
{
    suffix_class(s, CharClass::AllBut('.'))
}

/// Whether `s` begins with an uppercase letter.
pub fn starts_with_uppercase(s: &str) -> (r: bool)
    ensures
        r == upper_start(s@),
{
    if s.is_empty() {
        false
    } else {
        s.get_char(0).is_uppercase()
    }
}

/// Whether `s` begins with a lowercase letter.
pub fn starts_with_lowercase(s: &str) -> (r: bool)
    ensures
        r == lower_start(s@),
{
    if s.is_empty() {
        false
    } else {
        s.get_char(0).is_lowercase()
    }
}

/// `s` without the prefix `p`, where it has it.
pub open spec fn prefix_stripped(s: Seq<char>, p: Seq<char>) -> Option<Seq<char>> {
    if starts_with(s, p) {
        Some(s.skip(p.len() as int))
    } else {
        None
    }
}

/// `s` without the suffix `p`, where it has it.
pub open spec fn suffix_stripped(s: Seq<char>, p: Seq<char>) -> Option<Seq<char>> {
    if ends_with(s, p) {
        Some(s.take(s.len() - p.len()))
    } else {
        None
    }
}

/// `s` without the prefix `p`, where it has it.
pub fn strip_prefix<'a>(s: &'a str, p: &str) -> (r: Option<&'a str>)
    ensures
        r.deep_view() == prefix_stripped(s@, p@),
{
    if has_prefix(s, p) {
        Some(skip(s, p.unicode_len()))
    } else {
        None
    }
}

/// `s` without the suffix `p`, where it has it.
pub fn strip_suffix<'a>(s: &'a str, p: &str) -> (r: Option<&'a str>)
    ensures
        r.deep_view() == suffix_stripped(s@, p@),
{
    if has_suffix(s, p) {
        let n: usize = s.unicode_len();
        Some(take(s, n - p.unicode_len()))
    } else {
        None
    }
}

// ---------------------------------------------------------------------------
// Splitting and replacing
// ---------------------------------------------------------------------------

/// The parts of `s` between the occurrences of `k`.
pub open spec fn parts(s: Seq<char>, k: char) -> Seq<Seq<char>>
    decreases s.len(),
{
    let n = span(s, all_but(k));
    if 0 <= n < s.len() {
        seq![s.take(n)] + parts(s.skip(n + 1), k)
    } else {
        seq![s]
    }
}

/// Parts joined by `k`.
pub open spec fn unsplit(parts: Seq<Seq<char>>, k: char) -> Seq<char>
    decreases parts.len(),
{
    if parts.len() == 0 {
        Seq::empty()
    } else if parts.len() == 1 {
        parts[0]
    } else {
        parts[0] + seq![k] + unsplit(parts.skip(1), k)
    }
}

/// The parts of a text, joined again, are the text.
pub proof fn lemma_unsplit(s: Seq<char>, k: char)
    ensures
        parts(s, k).len() >= 1,
        unsplit(parts(s, k), k) == s,
    decreases s.len(),
{
    let n = span(s, all_but(k));
    lemma_span(s, all_but(k));
    if n < s.len() {
        let rest = s.skip(n + 1);
        lemma_unsplit(rest, k);
        assert(parts(s, k).skip(1) =~= parts(rest, k));
        assert(s[n] == k);
        assert(s.take(n) + seq![k] + rest =~= s);
    }
}

/// The parts of `s` between the occurrences of `k`.
pub fn split<'a>(s: &'a str, k: char) -> (r: Vec<&'a str>)
    ensures
        r.deep_view() == parts(s@, k),
        r@.len() >= 1,
{
    let c = chars_of(s);
    let len: usize = c.len();
    let mut out: Vec<&'a str> = Vec::new();
    let mut from: usize = 0;
    assert(c@.skip(0) =~= s@);
    assert(out.deep_view() + parts(s@, k) =~= parts(s@, k));
    loop
        invariant
            from <= len == c@.len(),
            c@ == s@,
            out.deep_view() + parts(s@.skip(from as int), k) == parts(s@, k),
        decreases len - from,
    {
        match index_from(&c, from, k) {
            Some(i) => {
                let ghost rest = s@.skip(from as int);
                let ghost before = out.deep_view();
                let piece = slice(s, from, from + i);
                out.push(piece);
                proof {
                    assert(rest.take(i as int) =~= piece@);
                    assert(rest.skip(i + 1) =~= s@.skip(from + i + 1));
                    assert(out.deep_view() =~= before.push(piece@));
                    assert(before + (seq![piece@] + parts(rest.skip(i + 1), k)) =~= out.deep_view()
                        + parts(rest.skip(i + 1), k));
                }
                from = from + i + 1;
            },
            None => {
                let ghost before = out.deep_view();
                let piece = skip(s, from);
                out.push(piece);
                proof {
                    lemma_span(s@.skip(from as int), all_but(k));
                    assert(out.deep_view() =~= before + seq![piece@]);
                }
                return out;
            },
        }
    }
}

/// `s` with each occurrence of the non-empty text `p`, from left to right, replaced by `q`.
pub open spec fn replaced(s: Seq<char>, p: Seq<char>, q: Seq<char>) -> Seq<char>
    decreases s.len(),
{
    match find_text(s, p) {
        Some(i) => if 0 <= i && 0 < p.len() && i + p.len() <= s.len() {
            s.take(i) + q + replaced(s.skip(i + p.len()), p, q)
        } else {
            s
        },
        None => s,
    }
}

/// Before the first occurrence of a character it does not occur.
pub proof fn lemma_find_one(s: Seq<char>, k: char)
    ensures
        match find_text(s, seq![k]) {
            Some(i) => !s.take(i).contains(k),
            None => !s.contains(k),
        },
    decreases s.len(),
{
    let p = seq![k];
    if starts_with(s, p) {
        assert(s.take(0) =~= Seq::empty());
    } else if s.len() > 0 {
        lemma_find_one(s.skip(1), k);
        if s[0] == k {
            assert(s.take(1) =~= p);
        }
        match find_text(s.skip(1), p) {
            Some(i) => {
                lemma_find_text_bounds(s.skip(1), p);
                let t = s.take(i + 1);
                assert forall|j: int| 0 <= j < t.len() implies #[trigger] t[j] != k by {
                    if j > 0 {
                        assert(s.skip(1).take(i)[j - 1] == s[j]);
                    }
                }
            },
            None => {
                assert forall|j: int| 0 <= j < s.len() implies s[j] != k by {
                    if j > 0 {
                        assert(s.skip(1)[j - 1] == s[j]);
                    }
                }
            },
        }
    }
}

/// A character that is replaced everywhere does not occur any more, unless the replacement
/// brings it back.
pub proof fn lemma_replaced_is_gone(s: Seq<char>, k: char, q: Seq<char>)
    requires
        !q.contains(k),
    ensures
        !replaced(s, seq![k], q).contains(k),
    decreases s.len(),
{
    let p = seq![k];
    lemma_find_one(s, k);
    lemma_find_text_bounds(s, p);
    if let Some(i) = find_text(s, p) {
        let rest = replaced(s.skip(i + 1), p, q);
        lemma_replaced_is_gone(s.skip(i + 1), k, q);
        let r = s.take(i) + q + rest;
        assert(replaced(s, p, q) == r);
        assert forall|j: int| 0 <= j < r.len() implies r[j] != k by {
            if j < i {
                assert(r[j] == s.take(i)[j]);
            } else if j < i + q.len() {
                assert(r[j] == q[j - i]);
            } else {
                assert(r[j] == rest[j - i - q.len()]);
            }
        }
    }
}

/// `s` with each occurrence of `p` replaced by `q`.
pub fn replace(s: &str, p: &str, q: &str) -> (r: String)
    requires
        p@.len() > 0,
    ensures
        r@ == replaced(s@, p@, q@),
{
    let c = chars_of(s);
    let pat = chars_of(p);
    let len: usize = c.len();
    let mut out = String::new();
    let mut from: usize = 0;
    assert(c@.skip(0) =~= s@);
    assert(out@ + replaced(s@, p@, q@) =~= replaced(s@, p@, q@));
    loop
        invariant
            from <= len == c@.len(),
            c@ == s@,
            pat@ == p@,
            p@.len() > 0,
            out@ + replaced(s@.skip(from as int), p@, q@) == replaced(s@, p@, q@),
        decreases len - from,
    {
        let ghost rest = s@.skip(from as int);
        match find_from(&c, from, &pat) {
            Some(i) => {
                let ghost before = out@;
                let piece = slice(s, from, from + i);
                out.append(piece);
                out.append(q);
                proof {
                    assert(rest.take(i as int) =~= piece@);
                    assert(rest.skip(i + p@.len()) =~= s@.skip(from + i + p@.len()));
                    assert(before + (piece@ + q@ + replaced(rest.skip(i + p@.len()), p@, q@))
                        =~= out@ + replaced(rest.skip(i + p@.len()), p@, q@));
                }
                from = from + i + pat.len();
            },
            None => {
                out.append(skip(s, from));
                return out;
            },
        }
    }
}

/// The longest stretches of `s` without whitespace.
pub open spec fn words_of(s: Seq<char>) -> Seq<Seq<char>>
    decreases s.len(),
{
    let t = trimmed_start(s);
    let n = span(t, word_class());
    if 0 < n <= t.len() <= s.len() {
        seq![t.take(n)] + words_of(t.skip(n))
    } else {
        Seq::empty()
    }
}

/// The longest stretches of `s` without whitespace.
pub fn words<'a>(s: &'a str) -> (r: Vec<&'a str>)
    ensures
        r.deep_view() == words_of(s@),
{
    let mut out: Vec<&'a str> = Vec::new();
    let mut rest: &'a str = s;
    assert(out.deep_view() + words_of(s@) =~= words_of(s@));
    loop
        invariant
            out.deep_view() + words_of(rest@) == words_of(s@),
        decreases rest@.len(),
    {
        let t = trim_start(rest);
        proof {
            lemma_span(rest@, space_class());
            lemma_span(t@, word_class());
        }
        if t.is_empty() {
            assert(out.deep_view() + words_of(rest@) =~= out.deep_view());
            return out;
        }
        let word = prefix_class(t, CharClass::Word);
        let tail = trim_start_class(t, CharClass::Word);
        proof {
            let gap = span(rest@, space_class());
            assert(t@[0] == rest@[gap]);
            assert(!space_class()(rest@[gap]));
            assert(word_class()(t@[0]));
        }
        let ghost before = out.deep_view();
        out.push(word);
        proof {
            assert(out.deep_view() =~= before.push(word@));
            assert(before + (seq![word@] + words_of(tail@)) =~= out.deep_view() + words_of(tail@));
        }
        rest = tail;
    }
}

// ---------------------------------------------------------------------------
// Lines
// ---------------------------------------------------------------------------

/// A line that a newline ended, without the carriage return before the newline.
pub open spec fn without_return(s: Seq<char>) -> Seq<char> {
    if s.len() > 0 && s.last() == '\r' {
        s.drop_last()
    } else {
        s
    }
}

/// The lines of a text. A final newline ends the last line and begins none.
pub open spec fn lines_of(s: Seq<char>) -> Seq<Seq<char>>
    decreases s.len(),
{
    let n = span(s, all_but('\n'));
    if s.len() == 0 {
        Seq::empty()
    } else if 0 <= n < s.len() {
        seq![without_return(s.take(n))] + lines_of(s.skip(n + 1))
    } else {
        seq![s]
    }
}

/// The lines of a text. A final newline ends the last line and begins none.
pub fn lines<'a>(s: &'a str) -> (r: Vec<&'a str>)
    ensures
        r.deep_view() == lines_of(s@),
{
    let c = chars_of(s);
    let len: usize = c.len();
    let mut out: Vec<&'a str> = Vec::new();
    let mut from: usize = 0;
    assert(c@.skip(0) =~= s@);
    assert(out.deep_view() + lines_of(s@) =~= lines_of(s@));
    while from < len
        invariant
            from <= len == c@.len(),
            c@ == s@,
            out.deep_view() + lines_of(s@.skip(from as int)) == lines_of(s@),
        decreases len - from,
    {
        let ghost rest = s@.skip(from as int);
        let ghost before = out.deep_view();
        match index_from(&c, from, '\n') {
            Some(i) => {
                let mut end: usize = from + i;
                if i > 0 && c[end - 1] == '\r' {
                    end = end - 1;
                }
                let piece = slice(s, from, end);
                out.push(piece);
                proof {
                    assert(without_return(rest.take(i as int)) =~= piece@);
                    assert(rest.skip(i + 1) =~= s@.skip(from + i + 1));
                    assert(out.deep_view() =~= before.push(piece@));
                    assert(before + (seq![piece@] + lines_of(rest.skip(i + 1)))
                        =~= out.deep_view() + lines_of(rest.skip(i + 1)));
                }
                from = from + i + 1;
            },
            None => {
                let piece = skip(s, from);
                out.push(piece);
                proof {
                    lemma_span(rest, all_but('\n'));
                    assert(out.deep_view() =~= before + seq![piece@]);
                    assert(lines_of(s@.skip(len as int)) =~= Seq::empty());
                    assert(out.deep_view() + lines_of(s@.skip(len as int)) =~= out.deep_view());
                }
                from = len;
            },
        }
    }
    assert(lines_of(s@.skip(len as int)) =~= Seq::empty());
    assert(out.deep_view() + lines_of(s@.skip(len as int)) =~= out.deep_view());
    out
}

/// Lines joined by newlines.
pub open spec fn unlines(l: Seq<Seq<char>>) -> Seq<char>
    decreases l.len(),
{
    if l.len() == 0 {
        Seq::empty()
    } else if l.len() == 1 {
        l[0]
    } else {
        unlines(l.drop_last()) + seq!['\n'] + l.last()
    }
}

/// Lines joined by newlines.
pub fn join_lines(l: &Vec<String>) -> (r: String)
    ensures
        r@ == unlines(l.deep_view()),
{
    let ghost all = l.deep_view();
    let mut out = String::new();
    let mut i: usize = 0;
    while i < l.len()
        invariant
            i <= l@.len(),
            all == l.deep_view(),
            out@ == unlines(all.take(i as int)),
        decreases l@.len() - i,
    {
        let ghost before = out@;
        if i > 0 {
            out.push('\n');
        }
        out.append(l[i].as_str());
        proof {
            assert(all.take(i + 1).drop_last() =~= all.take(i as int));
            assert(all.take(i + 1).last() == l@[i as int]@);
            assert(before.push('\n') =~= before + seq!['\n']);
            if i == 0 {
                assert(out@ =~= l@[0]@);
            }
        }
        i += 1;
    }
    assert(all.take(all.len() as int) =~= all);
    out
}

} // verus!
