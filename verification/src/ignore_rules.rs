//! Files and directories that the user wants left out.
use globset::{Glob, GlobSetBuilder};
use vstd::prelude::*;
use vstd::string::*;

use crate::apply;
use crate::paths;
use crate::text;

verus! {

/// Where the next character of a pattern stands.
#[derive(Clone, Copy, Debug, PartialEq, Eq, Structural)]
pub enum Place {
    /// Among the characters that mean something.
    Open,
    /// Behind a backslash.
    Escaped,
    /// At the beginning of a class of characters.
    ClassStart,
    /// At the beginning of a class of characters that is negated.
    NegatedStart,
    /// In a class of characters.
    Class,
}

/// Where the character behind `c` stands. On some systems a backslash makes the next character
/// literal. The first character of a class never closes it.
pub open spec fn next_place(place: Place, c: char, escapes: bool) -> Place {
    match place {
        Place::Open => if c == '[' {
            Place::ClassStart
        } else if c == '\\' && escapes {
            Place::Escaped
        } else {
            Place::Open
        },
        Place::Escaped => Place::Open,
        Place::ClassStart => if c == '!' || c == '^' {
            Place::NegatedStart
        } else {
            Place::Class
        },
        Place::NegatedStart => Place::Class,
        Place::Class => if c == ']' {
            Place::Open
        } else {
            Place::Class
        },
    }
}

/// Where the character behind a text stands.
pub open spec fn place_after(s: Seq<char>, escapes: bool) -> Place
    decreases s.len(),
{
    if s.len() == 0 {
        Place::Open
    } else {
        next_place(place_after(s.drop_last(), escapes), s.last(), escapes)
    }
}

/// How many braces are open at the end of a text. In a class of characters and behind a backslash
/// that makes it literal a brace is a character like others.
pub open spec fn open_braces(s: Seq<char>, escapes: bool) -> nat
    decreases s.len(),
{
    if s.len() == 0 {
        0
    } else {
        let before = open_braces(s.drop_last(), escapes);
        if !(place_after(s.drop_last(), escapes) is Open) {
            before
        } else if s.last() == '{' {
            before + 1
        } else if s.last() == '}' && before > 0 {
            (before - 1) as nat
        } else {
            before
        }
    }
}

/// Whether a pattern has nowhere more braces open than a glob may.
pub open spec fn shallow(pattern: Seq<char>, escapes: bool) -> bool {
    forall|n: int|
        0 <= n <= pattern.len() ==> open_braces(#[trigger] pattern.take(n), escapes) <= 250
}

/// Whether a pattern nests no more braces than a glob may, on every system.
pub open spec fn few_braces(pattern: Seq<char>) -> bool {
    shallow(pattern, true) && shallow(pattern, false)
}

fn behind(place: Place, c: char, escapes: bool) -> (r: Place)
    ensures
        r == next_place(place, c, escapes),
{
    match place {
        Place::Open => if c == '[' {
            Place::ClassStart
        } else if c == '\\' && escapes {
            Place::Escaped
        } else {
            Place::Open
        },
        Place::Escaped => Place::Open,
        Place::ClassStart => if c == '!' || c == '^' {
            Place::NegatedStart
        } else {
            Place::Class
        },
        Place::NegatedStart => Place::Class,
        Place::Class => if c == ']' {
            Place::Open
        } else {
            Place::Class
        },
    }
}

fn is_shallow(c: &Vec<char>, escapes: bool) -> (r: bool)
    ensures
        r == shallow(c@, escapes),
{
    let mut place = Place::Open;
    let mut open: usize = 0;
    let mut i: usize = 0;
    while i < c.len()
        invariant
            i <= c@.len(),
            open <= 250,
            place == place_after(c@.take(i as int), escapes),
            open == open_braces(c@.take(i as int), escapes),
            forall|n: int| 0 <= n <= i ==> open_braces(#[trigger] c@.take(n), escapes) <= 250,
        decreases c@.len() - i,
    {
        assert(c@.take(i + 1).drop_last() =~= c@.take(i as int));
        if place == Place::Open {
            if c[i] == '{' {
                open += 1;
            } else if c[i] == '}' && open > 0 {
                open -= 1;
            }
        }
        place = behind(place, c[i], escapes);
        i += 1;
        assert(open == open_braces(c@.take(i as int), escapes));
        if open > 250 {
            return false;
        }
    }
    true
}

fn nests_few_braces(pattern: &str) -> (r: bool)
    ensures
        r == few_braces(pattern@),
{
    let c = text::chars_of(pattern);
    is_shallow(&c, true) && is_shallow(&c, false)
}

/// Whether a glob pattern matches a path; none where the pattern is not one.
pub uninterp spec fn glob_match(pattern: Seq<char>, path: Seq<char>) -> Option<bool>;

/// `Glob::new`, a set of that one pattern built by `GlobSetBuilder::build`, and
/// `GlobSet::is_match`. On some systems a backslash separates the names of a path and on others
/// it makes the next character of a pattern literal; without one in either, the result depends
/// on the pattern and the path alone, and nothing is said of it otherwise. What is built of the
/// pattern is gone through by functions that call themselves for each brace that is opened in
/// another, without a limit of their own, so that a pattern may nest only so many.
#[verifier::external_body]
pub(crate) fn matches_glob(pattern: &str, path: &str) -> (r: Option<bool>)
    requires
        few_braces(pattern@),
    ensures
        !pattern@.contains('\\') && !path@.contains('\\') ==> r == glob_match(pattern@, path@),
{
    match Glob::new(pattern).and_then(|glob| GlobSetBuilder::new().add(glob).build()) {
        Ok(set) => Some(set.is_match(path)),
        Err(_) => None,
    }
}

/// The part of a path below a directory; the path itself where it does not lie there.
pub open spec fn relative(path: Seq<char>, root: Seq<char>) -> Seq<char> {
    if paths::below(path, root) {
        paths::assembled(paths::components(path).skip(paths::components(root).len() as int))
    } else {
        path
    }
}

/// The part of a path below a directory; the path itself where it does not lie there.
pub fn relative_to(path: &str, root: &str) -> (r: String)
    ensures
        r@ == relative(path@, root@),
{
    if !paths::is_below(path, root) {
        return path.to_owned();
    }
    let all = paths::components_of(path);
    let head = paths::components_of(root);
    let ghost names = all.deep_view().skip(head@.len() as int);
    let mut rest: Vec<String> = Vec::new();
    let mut i: usize = head.len();
    while i < all.len()
        invariant
            head@.len() <= i <= all@.len(),
            names == all.deep_view().skip(head@.len() as int),
            rest@.len() == i - head@.len(),
            forall|k: int| 0 <= k < rest@.len() ==> (#[trigger] rest@[k])@ == names[k],
        decreases all@.len() - i,
    {
        assert(names[i - head@.len()] == all@[i as int]@);
        rest.push(all[i].clone());
        i += 1;
    }
    proof {
        assert(rest.deep_view() =~= names);
        assert(rest.deep_view().take(rest@.len() as int) =~= names);
    }
    let n: usize = rest.len();
    paths::assemble(&rest, n)
}

/// The globs that a pattern stands for: one that names no directory counts at any depth, for a
/// file and for all below a directory; one that begins with the root is taken from there, and
/// one that lies elsewhere counts for nothing.
pub open spec fn globs_for(pattern: Seq<char>, root: Seq<char>) -> Seq<Seq<char>> {
    if pattern.len() > 0 && pattern[0] == '/' {
        if paths::below(pattern, root) {
            seq![relative(pattern, root)]
        } else {
            Seq::empty()
        }
    } else if pattern.contains('/') {
        seq![pattern]
    } else {
        seq!["**/"@ + pattern, "**/"@ + pattern + "/**"@]
    }
}

/// The globs that the first `n` patterns stand for.
pub open spec fn all_globs(patterns: Seq<Seq<char>>, root: Seq<char>, n: int) -> Seq<Seq<char>>
    decreases n,
{
    if n <= 0 || n > patterns.len() {
        Seq::empty()
    } else {
        all_globs(patterns, root, n - 1) + globs_for(patterns[n - 1], root)
    }
}

/// What the user wants left out.
#[derive(Debug, PartialEq, Eq)]
pub struct IgnoreMatcher {
    /// The patterns as they are given.
    pub patterns: Vec<String>,
    /// The globs that they stand for.
    pub globs: Vec<String>,
}

/// Whether a glob matches a path. One that nests too many braces matches nothing, as one that is
/// no glob does.
pub open spec fn glob_hits(glob: Seq<char>, path: Seq<char>) -> bool {
    few_braces(glob) && glob_match(glob, path) == Some(true)
}

/// Whether one of the globs matches a path.
pub open spec fn any_match(globs: Seq<Seq<char>>, path: Seq<char>) -> bool {
    exists|i: int| 0 <= i < globs.len() && glob_hits(#[trigger] globs[i], path)
}

/// Whether one of the globs that mean the same on every system matches a path.
pub open spec fn surely_matched(globs: Seq<Seq<char>>, path: Seq<char>) -> bool {
    exists|i: int|
        0 <= i < globs.len() && !(#[trigger] globs[i]).contains('\\') && glob_hits(globs[i], path)
}

/// Whether one of the globs matches a path on some system, as far as that is known.
pub open spec fn maybe_matched(globs: Seq<Seq<char>>, path: Seq<char>) -> bool {
    exists|i: int|
        0 <= i < globs.len() && few_braces(#[trigger] globs[i]) && (globs[i].contains('\\')
            || glob_hits(globs[i], path))
}

/// Whether globs mean the same on every system.
pub open spec fn portable(globs: Seq<Seq<char>>) -> bool {
    forall|i: int| 0 <= i < globs.len() ==> !(#[trigger] globs[i]).contains('\\')
}

fn push_globs(out: &mut Vec<String>, pattern: &str, root: &str)
    ensures
        final(out).deep_view() == old(out).deep_view() + globs_for(pattern@, root@),
{
    let ghost before = out.deep_view();
    if !pattern.is_empty() && pattern.get_char(0) == '/' {
        if paths::is_below(pattern, root) {
            out.push(relative_to(pattern, root));
        }
    } else if text::contains_char(pattern, '/') {
        out.push(pattern.to_owned());
    } else {
        let at_any_depth = text::concat("**/", pattern);
        let below = text::concat(at_any_depth.as_str(), "/**");
        out.push(at_any_depth);
        out.push(below);
    }
    assert(out.deep_view() =~= before + globs_for(pattern@, root@));
}

impl IgnoreMatcher {
    /// What patterns leave out of a workspace.
    pub fn new(patterns: Vec<String>, root: &str) -> (r: IgnoreMatcher)
        ensures
            r.patterns.deep_view() == patterns.deep_view(),
            r.globs.deep_view() == all_globs(patterns.deep_view(), root@, patterns@.len() as int),
    {
        let ghost all = patterns.deep_view();
        let mut globs: Vec<String> = Vec::new();
        let mut i: usize = 0;
        assert(globs.deep_view() =~= all_globs(all, root@, 0));
        while i < patterns.len()
            invariant
                i <= patterns@.len(),
                all == patterns.deep_view(),
                globs.deep_view() == all_globs(all, root@, i as int),
            decreases patterns@.len() - i,
        {
            assert(all[i as int] == patterns@[i as int]@);
            push_globs(&mut globs, patterns[i].as_str(), root);
            i += 1;
        }
        IgnoreMatcher { patterns, globs }
    }

    /// Whether nothing is left out.
    pub fn is_empty(&self) -> (r: bool)
        ensures
            r == (self.globs@.len() == 0),
    {
        self.globs.len() == 0
    }

    /// Whether a path, taken from the root, is left out.
    pub fn matches(&self, path: &str) -> (r: bool)
        ensures
            portable(self.globs.deep_view()) ==> r == any_match(
                self.globs.deep_view(),
                apply::forward_slashes(path@),
            ),
            surely_matched(self.globs.deep_view(), apply::forward_slashes(path@)) ==> r,
            r ==> maybe_matched(self.globs.deep_view(), apply::forward_slashes(path@)),
    {
        proof {
            reveal_strlit("\\");
            reveal_strlit("/");
            assert("\\"@ =~= seq!['\\']);
            assert("/"@ =~= seq!['/']);
            text::lemma_replaced_is_gone(path@, '\\', "/"@);
        }
        let slashed = text::replace(path, "\\", "/");
        let ghost globs = self.globs.deep_view();
        let mut i: usize = 0;
        while i < self.globs.len()
            invariant
                i <= self.globs@.len(),
                globs == self.globs.deep_view(),
                slashed@ == apply::forward_slashes(path@),
                !slashed@.contains('\\'),
                forall|k: int|
                    0 <= k < i && !(#[trigger] globs[k]).contains('\\') ==> !glob_hits(
                        globs[k],
                        slashed@,
                    ),
            decreases self.globs@.len() - i,
        {
            assert(globs[i as int] == self.globs@[i as int]@);
            let glob = self.globs[i].as_str();
            if nests_few_braces(glob) {
                if let Some(found) = matches_glob(glob, slashed.as_str()) {
                    if found {
                        assert(few_braces(globs[i as int]));
                        return true;
                    }
                }
            }
            i += 1;
        }
        false
    }
}

} // verus!
