//! Documentation comments.
use vstd::prelude::*;
use vstd::string::*;

use crate::sig;
use crate::text;

verus! {

/// A text without a prefix, where it has it.
pub open spec fn less_prefix(s: Seq<char>, p: Seq<char>) -> Seq<char> {
    match text::prefix_stripped(s, p) {
        Some(rest) => rest,
        None => s,
    }
}

/// A text without a suffix, where it has it.
pub open spec fn less_suffix(s: Seq<char>, p: Seq<char>) -> Seq<char> {
    match text::suffix_stripped(s, p) {
        Some(rest) => rest,
        None => s,
    }
}

/// A line of a documentation comment, without what marks it as one.
pub open spec fn bare_line(line: Seq<char>) -> Seq<char> {
    let inner = less_suffix(less_prefix(text::trimmed(line), "/**"@), "*/"@);
    text::trimmed(less_prefix(text::trimmed(inner), "*"@))
}

/// Lines of a documentation comment, without what marks them.
pub open spec fn bare_lines(lines: Seq<Seq<char>>) -> Seq<Seq<char>> {
    lines.map_values(|l: Seq<char>| bare_line(l))
}

/// What a documentation comment says.
pub open spec fn formatted(raw: Seq<char>) -> Seq<char> {
    text::trimmed(text::unlines(bare_lines(text::lines_of(raw))))
}

/// The line before `at` that is nearest to it and holds no annotation.
pub open spec fn above_annotations(lines: Seq<Seq<char>>, at: int) -> Option<int>
    decreases at,
{
    if at <= 0 || at > lines.len() {
        None
    } else if sig::annotation_line()(lines[at - 1]) {
        above_annotations(lines, at - 1)
    } else {
        Some(at - 1)
    }
}

/// Whether a documentation comment begins on a line.
pub open spec fn opens_doc(line: Seq<char>) -> bool {
    text::starts_with(text::trimmed(line), "/**"@)
}

/// The line nearest to `at`, from it upwards, on which a documentation comment begins.
pub open spec fn doc_opening(lines: Seq<Seq<char>>, at: int) -> Option<int>
    decreases at + 1,
{
    if at < 0 || at >= lines.len() {
        None
    } else if opens_doc(lines[at]) {
        Some(at)
    } else {
        doc_opening(lines, at - 1)
    }
}

/// The documentation comment that ends directly above a declaration and its annotations.
pub open spec fn doc_above(lines: Seq<Seq<char>>, start: int) -> Option<Seq<char>> {
    match above_annotations(lines, start) {
        Some(last) => if text::ends_with(text::trimmed(lines[last]), "*/"@) {
            match doc_opening(lines, last) {
                Some(first) => Some(
                    text::trimmed(text::unlines(bare_lines(lines.subrange(first, last + 1)))),
                ),
                None => None,
            }
        } else {
            None
        },
        None => None,
    }
}

fn bare(line: &str) -> (r: String)
    ensures
        r@ == bare_line(line@),
{
    let whole = text::trim(line);
    let head = match text::strip_prefix(whole, "/**") {
        Some(rest) => rest,
        None => whole,
    };
    let inner = text::trim(
        match text::strip_suffix(head, "*/") {
            Some(rest) => rest,
            None => head,
        },
    );
    let said = match text::strip_prefix(inner, "*") {
        Some(rest) => rest,
        None => inner,
    };
    text::trim(said).to_owned()
}

/// What a documentation comment says.
pub fn format_doc_comment(raw: &str) -> (r: String)
    ensures
        r@ == formatted(raw@),
{
    let lines = text::lines(raw);
    let ghost all = lines.deep_view();
    let mut out: Vec<String> = Vec::new();
    let mut i: usize = 0;
    while i < lines.len()
        invariant
            i <= lines@.len(),
            all == lines.deep_view(),
            out@.len() == i,
            forall|k: int| 0 <= k < i ==> (#[trigger] out@[k])@ == bare_line(all[k]),
        decreases lines@.len() - i,
    {
        assert(all[i as int] == lines@[i as int]@);
        out.push(bare(lines[i]));
        i += 1;
    }
    assert(out.deep_view() =~= bare_lines(all));
    text::trim(text::join_lines(&out).as_str()).to_owned()
}

/// The documentation comment of the declaration on line `start`.
pub fn extract_doc_comment(lines: &Vec<String>, start: usize) -> (r: Option<String>)
    ensures
        r.deep_view() == doc_above(lines.deep_view(), start as int),
{
    let ghost all = lines.deep_view();
    if start == 0 || start > lines.len() {
        return None;
    }
    let mut at: usize = start;
    while at > 0 && text::has_prefix(text::trim_start(lines[at - 1].as_str()), "@")
        invariant
            at <= start <= lines@.len(),
            all == lines.deep_view(),
            above_annotations(all, start as int) == above_annotations(all, at as int),
        ensures
            at > 0 ==> !sig::annotation_line()(all[at - 1]),
        decreases at,
    {
        assert(all[at - 1] == lines@[at - 1]@);
        at = at - 1;
    }
    if at == 0 {
        return None;
    }
    let last: usize = at - 1;
    proof {
        assert(all[last as int] == lines@[last as int]@);
        assert(above_annotations(all, start as int) == Some(last as int));
    }
    if !text::has_suffix(text::trim(lines[last].as_str()), "*/") {
        return None;
    }
    let mut first: usize = last + 1;
    while first > 0 && !text::has_prefix(text::trim(lines[first - 1].as_str()), "/**")
        invariant
            first <= last + 1 <= lines@.len(),
            all == lines.deep_view(),
            doc_opening(all, last as int) == doc_opening(all, first - 1),
        ensures
            first > 0 ==> opens_doc(all[first - 1]),
        decreases first,
    {
        assert(all[first - 1] == lines@[first - 1]@);
        first = first - 1;
    }
    if first == 0 {
        return None;
    }
    let from: usize = first - 1;
    assert(doc_opening(all, last as int) == Some(from as int));
    let mut out: Vec<String> = Vec::new();
    let mut i: usize = from;
    while i < at
        invariant
            from <= i <= at <= lines@.len(),
            all == lines.deep_view(),
            out@.len() == i - from,
            forall|k: int| 0 <= k < out@.len() ==> (#[trigger] out@[k])@ == bare_line(all[from + k]),
        decreases at - i,
    {
        assert(all[i as int] == lines@[i as int]@);
        out.push(bare(lines[i].as_str()));
        i += 1;
    }
    assert(out.deep_view() =~= bare_lines(all.subrange(from as int, last + 1)));
    Some(text::trim(text::join_lines(&out).as_str()).to_owned())
}

} // verus!
