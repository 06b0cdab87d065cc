//! Walking back from a cursor to the bracket that is open there.
use vstd::prelude::*;
use vstd::string::*;

use crate::text;

verus! {

/// Which brackets a walk counts.
#[derive(Clone, Copy)]
pub enum Brackets {
    /// Braces of blocks and lambdas.
    Braces,
    /// Parentheses of calls and brackets of index expressions.
    Calls,
}

impl Brackets {
    pub open spec fn opens(self, c: char) -> bool {
        match self {
            Brackets::Braces => c == '{',
            Brackets::Calls => c == '(' || c == '[',
        }
    }

    pub open spec fn closes(self, c: char) -> bool {
        match self {
            Brackets::Braces => c == '}',
            Brackets::Calls => c == ')' || c == ']',
        }
    }

    fn is_open(self, c: char) -> (r: bool)
        ensures
            r == self.opens(c),
    {
        match self {
            Brackets::Braces => c == '{',
            Brackets::Calls => c == '(' || c == '[',
        }
    }

    fn is_close(self, c: char) -> (r: bool)
        ensures
            r == self.closes(c),
    {
        match self {
            Brackets::Braces => c == '}',
            Brackets::Calls => c == ')' || c == ']',
        }
    }
}

/// A line; empty past the last one.
pub open spec fn line_at(lines: Seq<Seq<char>>, ln: int) -> Seq<char> {
    if 0 <= ln < lines.len() {
        lines[ln]
    } else {
        Seq::empty()
    }
}

/// A line; empty past the last one.
pub fn line_or_empty<'a>(lines: &'a Vec<String>, ln: usize) -> (r: &'a str)
    ensures
        r@ == line_at(lines.deep_view(), ln as int),
{
    if ln < lines.len() {
        assert(lines.deep_view()[ln as int] == lines@[ln as int]@);
        lines[ln].as_str()
    } else {
        proof {
            reveal_strlit("");
            assert(""@ =~= Seq::<char>::empty());
        }
        ""
    }
}

/// The nearest bracket that is open before character `i` of line `ln`, as its line and
/// character; it is sought no further up than line `low`. `d` brackets were closed on the way.
pub open spec fn open_back(
    lines: Seq<Seq<char>>,
    kind: Brackets,
    ln: int,
    i: int,
    d: nat,
    low: int,
) -> Option<(int, int)>
    decreases ln, i,
{
    if i > 0 {
        let c = line_at(lines, ln)[i - 1];
        if kind.closes(c) {
            open_back(lines, kind, ln, i - 1, d + 1, low)
        } else if kind.opens(c) {
            if d == 0 {
                Some((ln, i - 1))
            } else {
                open_back(lines, kind, ln, i - 1, (d - 1) as nat, low)
            }
        } else {
            open_back(lines, kind, ln, i - 1, d, low)
        }
    } else if ln <= low || ln <= 0 {
        None
    } else {
        open_back(lines, kind, ln - 1, line_at(lines, ln - 1).len() as int, d, low)
    }
}

/// The bracket that a walk finds lies before its start.
pub proof fn lemma_open_back(
    lines: Seq<Seq<char>>,
    kind: Brackets,
    ln: int,
    i: int,
    d: nat,
    low: int,
)
    requires
        0 <= ln,
        0 <= i <= line_at(lines, ln).len(),
    ensures
        match open_back(lines, kind, ln, i, d, low) {
            Some(p) => {
                &&& 0 <= p.0 <= ln
                &&& 0 <= p.1 < line_at(lines, p.0).len()
                &&& p.0 == ln ==> p.1 < i
                &&& low <= p.0 || p.0 == ln
                &&& kind.opens(line_at(lines, p.0)[p.1])
            },
            None => true,
        },
    decreases ln, i,
{
    if i > 0 {
        let c = line_at(lines, ln)[i - 1];
        if kind.closes(c) {
            lemma_open_back(lines, kind, ln, i - 1, d + 1, low);
        } else if kind.opens(c) {
            if d > 0 {
                lemma_open_back(lines, kind, ln, i - 1, (d - 1) as nat, low);
            }
        } else {
            lemma_open_back(lines, kind, ln, i - 1, d, low);
        }
    } else if ln > low && ln > 0 {
        lemma_open_back(lines, kind, ln - 1, line_at(lines, ln - 1).len() as int, d, low);
    }
}

/// How far up a walk may be asked to go.
pub const WALK_LINES: usize = 1000;

/// The nearest bracket that is open before character `i` of line `ln`, as its line and
/// character; it is sought no further up than line `low`.
pub fn find_open(
    lines: &Vec<String>,
    kind: Brackets,
    ln: usize,
    i: usize,
    low: usize,
) -> (r: Option<(usize, usize)>)
    requires
        i <= line_at(lines.deep_view(), ln as int).len(),
        low <= ln <= low + WALK_LINES,
    ensures
        match r {
            Some(p) => open_back(lines.deep_view(), kind, ln as int, i as int, 0, low as int)
                == Some((p.0 as int, p.1 as int)) && low <= p.0 <= ln && p.1 < line_at(
                lines.deep_view(),
                p.0 as int,
            ).len() && (p.0 == ln ==> p.1 < i),
            None => open_back(lines.deep_view(), kind, ln as int, i as int, 0, low as int) is None,
        },
{
    let ghost all = lines.deep_view();
    let ghost wanted = open_back(all, kind, ln as int, i as int, 0, low as int);
    proof {
        lemma_open_back(all, kind, ln as int, i as int, 0, low as int);
    }
    let mut at: usize = ln;
    let mut stop: usize = i;
    let mut d: u128 = 0;
    loop
        invariant
            all == lines.deep_view(),
            low <= at <= ln <= low + WALK_LINES,
            stop <= line_at(all, at as int).len(),
            d <= (ln - at) * 0xffff_ffff_ffff_ffff,
            wanted == open_back(all, kind, at as int, stop as int, d as nat, low as int),
            match wanted {
                Some(p) => low <= p.0 <= ln && 0 <= p.1 < line_at(all, p.0).len() && (p.0 == ln
                    ==> p.1 < i),
                None => true,
            },
            wanted == open_back(all, kind, ln as int, i as int, 0, low as int),
        decreases at,
    {
        let c = text::chars_of(line_or_empty(lines, at));
        let size: usize = c.len();
        let mut k: usize = stop;
        while k > 0
            invariant
                all == lines.deep_view(),
                low <= at <= ln <= low + WALK_LINES,
                c@ == line_at(all, at as int),
                k <= stop <= size == c@.len(),
                d <= (ln - at) * 0xffff_ffff_ffff_ffff + (stop - k),
                wanted == open_back(all, kind, at as int, k as int, d as nat, low as int),
                match wanted {
                    Some(p) => low <= p.0 <= ln && 0 <= p.1 < line_at(all, p.0).len() && (p.0 == ln
                        ==> p.1 < i),
                    None => true,
                },
                wanted == open_back(all, kind, ln as int, i as int, 0, low as int),
            decreases k,
        {
            k -= 1;
            if kind.is_close(c[k]) {
                d += 1;
            } else if kind.is_open(c[k]) {
                if d == 0 {
                    return Some((at, k));
                }
                d -= 1;
            }
        }
        if at <= low {
            return None;
        }
        at -= 1;
        let next = line_or_empty(lines, at);
        stop = next.unicode_len();
    }
}

/// The first line that a walk of `back` lines from `ln` looks at.
pub open spec fn walk_start(ln: int, back: int) -> int {
    if ln > back {
        ln - back
    } else {
        0
    }
}

} // verus!
