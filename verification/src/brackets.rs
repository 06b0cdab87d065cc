//! Text in brackets: how deep a place is nested, and where a bracket is closed.
use vstd::prelude::*;
use vstd::string::*;

use crate::text;

verus! {

// ---------------------------------------------------------------------------
// Depth
// ---------------------------------------------------------------------------

/// Whether a character opens a bracket. Angle brackets count only in types.
pub open spec fn opens(c: char, angles: bool) -> bool {
    c == '(' || c == '[' || c == '{' || (angles && c == '<')
}

/// Whether the character at `i` closes a bracket. The `>` of an arrow closes none.
pub open spec fn closes(s: Seq<char>, angles: bool, i: int) -> bool {
    s[i] == ')' || s[i] == ']' || s[i] == '}' || (angles && s[i] == '>' && !(i > 0 && s[i - 1]
        == '-'))
}

/// How many brackets are open after the first `n` characters. A bracket that closes none is
/// passed over.
pub open spec fn depth(s: Seq<char>, angles: bool, n: int) -> nat
    decreases n,
{
    if n <= 0 || n > s.len() {
        0
    } else {
        let d = depth(s, angles, n - 1);
        if opens(s[n - 1], angles) {
            d + 1
        } else if closes(s, angles, n - 1) && d > 0 {
            (d - 1) as nat
        } else {
            d
        }
    }
}

/// The depth after one more character.
pub(crate) fn step(c: &Vec<char>, angles: bool, i: usize, d: usize) -> (r: usize)
    requires
        i < c@.len(),
        d == depth(c@, angles, i as int),
        d <= i,
    ensures
        r == depth(c@, angles, i + 1),
        r <= i + 1,
{
    let k = c[i];
    let n: usize = c.len();
    assert(i < n);
    if k == '(' || k == '[' || k == '{' || (angles && k == '<') {
        d + 1
    } else if d > 0 && (k == ')' || k == ']' || k == '}' || (angles && k == '>' && !(i > 0 && c[i
        - 1] == '-'))) {
        d - 1
    } else {
        d
    }
}

/// The first `n` characters, cut at the commas outside all brackets.
pub open spec fn splits(s: Seq<char>, n: int) -> Seq<Seq<char>>
    decreases n,
{
    if n <= 0 {
        seq![Seq::empty()]
    } else {
        let before = splits(s, n - 1);
        if s[n - 1] == ',' && depth(s, true, n - 1) == 0 {
            before.push(Seq::empty())
        } else {
            before.drop_last().push(before.last().push(s[n - 1]))
        }
    }
}

/// A parameter or argument list, cut at the commas outside all brackets.
pub open spec fn split_top(s: Seq<char>) -> Seq<Seq<char>> {
    splits(s, s.len() as int)
}

/// A parameter or argument list, cut at the commas outside all brackets.
pub fn split_params_at_depth_zero<'a>(s: &'a str) -> (r: Vec<&'a str>)
    ensures
        r.deep_view() == split_top(s@),
        r@.len() >= 1,
{
    let c = text::chars_of(s);
    let n: usize = c.len();
    let mut out: Vec<&'a str> = Vec::new();
    let mut start: usize = 0;
    let mut d: usize = 0;
    let mut i: usize = 0;
    assert(s@.subrange(0, 0) =~= Seq::<char>::empty());
    assert(out.deep_view().push(s@.subrange(0, 0)) =~= splits(s@, 0));
    while i < n
        invariant
            c@ == s@,
            n == c@.len(),
            start <= i <= n,
            d == depth(s@, true, i as int),
            d <= i,
            out.deep_view().push(s@.subrange(start as int, i as int)) == splits(s@, i as int),
        decreases n - i,
    {
        let ghost before = out.deep_view();
        let ghost cur = s@.subrange(start as int, i as int);
        proof {
            assert(before.push(cur).drop_last() =~= before);
            assert(before.push(cur).last() == cur);
        }
        let next: usize = step(&c, true, i, d);
        if c[i] == ',' && d == 0 {
            let piece = text::slice(s, start, i);
            out.push(piece);
            start = i + 1;
            proof {
                assert(out.deep_view() =~= before.push(cur));
                assert(s@.subrange(i + 1, i + 1) =~= Seq::empty());
            }
        } else {
            assert(s@.subrange(start as int, i + 1) =~= cur.push(s@[i as int]));
        }
        d = next;
        i += 1;
    }
    let ghost before = out.deep_view();
    let piece = text::slice(s, start, n);
    out.push(piece);
    assert(out.deep_view() =~= before.push(piece@));
    out
}

/// The last dot among the first `n` characters that stands outside all brackets.
pub open spec fn last_dot(s: Seq<char>, n: int) -> Option<int>
    decreases n,
{
    if n <= 0 {
        None
    } else if s[n - 1] == '.' && depth(s, false, n - 1) == 0 {
        Some(n - 1)
    } else {
        last_dot(s, n - 1)
    }
}

/// The last dot outside all brackets.
pub open spec fn top_dot(s: Seq<char>) -> Option<int> {
    last_dot(s, s.len() as int)
}

/// The position of the last dot outside all brackets, in characters.
pub fn find_top_dot(s: &str) -> (r: Option<usize>)
    ensures
        match r {
            Some(i) => top_dot(s@) == Some(i as int) && i < s@.len(),
            None => top_dot(s@) is None,
        },
{
    let c = text::chars_of(s);
    let n: usize = c.len();
    let mut found: Option<usize> = None;
    let mut d: usize = 0;
    let mut i: usize = 0;
    while i < n
        invariant
            c@ == s@,
            n == c@.len(),
            i <= n,
            d == depth(s@, false, i as int),
            d <= i,
            match found {
                Some(k) => last_dot(s@, i as int) == Some(k as int) && k < i,
                None => last_dot(s@, i as int) is None,
            },
        decreases n - i,
    {
        if c[i] == '.' && d == 0 {
            found = Some(i);
        }
        d = step(&c, false, i, d);
        i += 1;
    }
    found
}

// ---------------------------------------------------------------------------
// Parentheses
// ---------------------------------------------------------------------------

/// The nearest parenthesis left of `n` that nothing before `n` closes, with the number of
/// commas between it and `n` that stand in no inner parentheses. `d` parentheses to the right
/// are still to be opened; `k` commas were counted to the right.
pub open spec fn open_before(s: Seq<char>, n: int, d: nat, k: nat) -> Option<(int, nat)>
    decreases n,
{
    if n <= 0 {
        None
    } else if s[n - 1] == ')' {
        open_before(s, n - 1, d + 1, k)
    } else if s[n - 1] == '(' {
        if d == 0 {
            Some((n - 1, k))
        } else {
            open_before(s, n - 1, (d - 1) as nat, k)
        }
    } else if s[n - 1] == ',' && d == 0 {
        open_before(s, n - 1, d, k + 1)
    } else {
        open_before(s, n - 1, d, k)
    }
}

/// The nearest parenthesis among the first `n` characters that none of them closes, with the
/// number of commas after it that stand in no inner parentheses.
pub fn unclosed_paren(s: &str, n: usize) -> (r: Option<(usize, usize)>)
    requires
        n <= s@.len(),
    ensures
        match r {
            Some(p) => open_before(s@, n as int, 0, 0) == Some((p.0 as int, p.1 as nat)) && p.0 < n,
            None => open_before(s@, n as int, 0, 0) is None,
        },
{
    let c = text::chars_of(s);
    let mut d: usize = 0;
    let mut k: usize = 0;
    let mut i: usize = n;
    while i > 0
        invariant
            c@ == s@,
            i <= n <= s@.len(),
            d + k <= n - i,
            open_before(s@, n as int, 0, 0) == open_before(s@, i as int, d as nat, k as nat),
        decreases i,
    {
        i -= 1;
        if c[i] == ')' {
            d += 1;
        } else if c[i] == '(' {
            if d == 0 {
                return Some((i, k));
            }
            d -= 1;
        } else if c[i] == ',' && d == 0 {
            k += 1;
        }
    }
    None
}

/// The parenthesis that closes the one opened before `i`, where `d` more have been opened.
pub open spec fn close_after(s: Seq<char>, i: int, d: nat) -> Option<int>
    decreases s.len() - i,
{
    if i < 0 || i >= s.len() {
        None
    } else if s[i] == '(' {
        close_after(s, i + 1, d + 1)
    } else if s[i] == ')' {
        if d == 0 {
            Some(i)
        } else {
            close_after(s, i + 1, (d - 1) as nat)
        }
    } else {
        close_after(s, i + 1, d)
    }
}

/// The parenthesis that closes the one opened before `from`.
pub fn closing_paren(s: &str, from: usize) -> (r: Option<usize>)
    requires
        from <= s@.len(),
    ensures
        match r {
            Some(p) => close_after(s@, from as int, 0) == Some(p as int) && from <= p < s@.len(),
            None => close_after(s@, from as int, 0) is None,
        },
{
    let c = text::chars_of(s);
    let n: usize = c.len();
    let mut d: usize = 0;
    let mut i: usize = from;
    while i < n
        invariant
            c@ == s@,
            n == c@.len(),
            from <= i <= n,
            d <= i - from,
            close_after(s@, from as int, 0) == close_after(s@, i as int, d as nat),
        decreases n - i,
    {
        if c[i] == '(' {
            d += 1;
        } else if c[i] == ')' {
            if d == 0 {
                return Some(i);
            }
            d -= 1;
        }
        i += 1;
    }
    None
}

/// How often `k` occurs in `s`.
pub open spec fn occurrences(s: Seq<char>, k: char) -> nat
    decreases s.len(),
{
    if s.len() == 0 {
        0
    } else {
        occurrences(s.drop_last(), k) + if s.last() == k {
            1nat
        } else {
            0
        }
    }
}

/// How often `k` occurs in `s`.
pub fn count(s: &str, k: char) -> (r: usize)
    ensures
        r == occurrences(s@, k),
{
    let c = text::chars_of(s);
    let n: usize = c.len();
    let mut found: usize = 0;
    let mut i: usize = 0;
    while i < n
        invariant
            c@ == s@,
            n == c@.len(),
            i <= n,
            found <= i,
            found == occurrences(s@.take(i as int), k),
        decreases n - i,
    {
        assert(s@.take(i + 1).drop_last() =~= s@.take(i as int));
        if c[i] == k {
            found += 1;
        }
        i += 1;
    }
    assert(s@.take(n as int) =~= s@);
    found
}

/// Whether more parentheses are opened than closed.
pub fn has_unclosed_paren(s: &str) -> (r: bool)
    ensures
        r == (occurrences(s@, '(') > occurrences(s@, ')')),
{
    count(s, '(') > count(s, ')')
}

} // verus!
