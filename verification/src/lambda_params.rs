//! The parameters that lambdas declare on a line: `{ a, b -> ... }`.
use vstd::prelude::*;
use vstd::string::*;

use crate::columns;
use crate::lists;
use crate::text;

verus! {

/// The lambdas on a line that declare parameters, from the arrow `from` on: where each one's
/// brace stands, and what stands between the brace and the arrow.
pub open spec fn arrows_from(line: Seq<char>, from: int) -> Seq<(int, Seq<char>)>
    decreases line.len() - from,
{
    match text::find_text(line.skip(from), "->"@) {
        Some(rel) => if 0 <= from && 0 <= rel && from + rel + 2 <= line.len() {
            let p = from + rel;
            let rest = arrows_from(line, p + 2);
            match text::rindex_of(line.take(p), '{') {
                Some(b) => seq![(b, line.subrange(b + 1, p))] + rest,
                None => rest,
            }
        } else {
            Seq::empty()
        },
        None => Seq::empty(),
    }
}

/// The lambdas on a line that declare parameters.
pub open spec fn arrows(line: Seq<char>) -> Seq<(int, Seq<char>)> {
    arrows_from(line, 0)
}

/// Where a lambda's brace stands, and what names its parameters.
pub struct Arrow<'a> {
    pub brace: usize,
    pub names: &'a str,
}

impl<'a> DeepView for Arrow<'a> {
    type V = (int, Seq<char>);

    open spec fn deep_view(&self) -> (int, Seq<char>) {
        (self.brace as int, self.names@)
    }
}

/// The lambdas on a line that declare parameters; braces are counted in characters.
pub fn arrows_on<'a>(line: &'a str) -> (r: Vec<Arrow<'a>>)
    ensures
        r.deep_view() == arrows(line@),
        forall|i: int| 0 <= i < r@.len() ==> (#[trigger] r@[i]).brace < line@.len(),
{
    let c = text::chars_of(line);
    let arrow = text::chars_of("->");
    let n: usize = c.len();
    let mut out: Vec<Arrow<'a>> = Vec::new();
    let mut from: usize = 0;
    proof {
        reveal_strlit("->");
        assert(out.deep_view() + arrows(line@) =~= arrows(line@));
    }
    loop
        invariant
            c@ == line@,
            n == c@.len(),
            arrow@ == "->"@,
            arrow@.len() == 2,
            from <= n,
            out.deep_view() + arrows_from(line@, from as int) == arrows(line@),
            forall|i: int| 0 <= i < out@.len() ==> (#[trigger] out@[i]).brace < line@.len(),
        decreases n - from,
    {
        match text::find_from(&c, from, &arrow) {
            None => {
                assert(out.deep_view() + arrows_from(line@, from as int) =~= out.deep_view());
                return out;
            },
            Some(rel) => {
                let p: usize = from + rel;
                let ghost before = out.deep_view();
                let ghost rest = arrows_from(line@, p + 2);
                match text::rindex_to(&c, p, '{') {
                    Some(b) => {
                        let names = text::slice(line, b + 1, p);
                        out.push(Arrow { brace: b, names });
                        proof {
                            assert(out.deep_view() =~= before.push((b as int, names@)));
                            assert(before + (seq![(b as int, names@)] + rest) =~= out.deep_view()
                                + rest);
                        }
                    },
                    None => {},
                }
                from = p + 2;
            },
        }
    }
}

/// The lambdas on a line that declare parameters: the byte offset of each one's brace, and what
/// stands between the brace and the arrow.
pub fn lambda_brace_arrows<'a>(line: &'a str) -> (r: Vec<(usize, &'a str)>)
    ensures
        r@.len() == arrows(line@).len(),
        forall|i: int|
            #![trigger r@[i]]
            0 <= i < r@.len() ==> r@[i].0 == columns::byte_len(line@.take(arrows(line@)[i].0))
                && r@[i].1@ == arrows(line@)[i].1,
{
    let found = arrows_on(line);
    let ghost all = found.deep_view();
    let mut out: Vec<(usize, &'a str)> = Vec::new();
    let mut i: usize = 0;
    while i < found.len()
        invariant
            i <= found@.len(),
            all == found.deep_view(),
            all == arrows(line@),
            out@.len() == i,
            forall|k: int| 0 <= k < found@.len() ==> (#[trigger] found@[k]).brace < line@.len(),
            forall|k: int|
                #![trigger out@[k]]
                0 <= k < i ==> out@[k].0 == columns::byte_len(line@.take(all[k].0)) && out@[k].1@
                    == all[k].1,
        decreases found@.len() - i,
    {
        assert(all[i as int] == found@[i as int].deep_view());
        let bytes: usize = columns::byte_offset(line, found[i].brace);
        out.push((bytes, found[i].names));
        i += 1;
    }
    out
}

/// Whether a part of a parameter list names the parameter.
pub open spec fn names_it(param: Seq<char>) -> spec_fn(Seq<char>) -> bool {
    |part: Seq<char>| text::ident_of(text::trimmed(part)) == param
}

/// The place of a parameter in a list.
pub open spec fn param_place(names: Seq<char>, param: Seq<char>) -> Option<int> {
    lists::first_where(text::parts(names, ','), names_it(param))
}

/// The place of a parameter in a list of names.
pub fn param_index_in(names: &str, param: &str) -> (r: Option<usize>)
    ensures
        match r {
            Some(i) => param_place(names@, param@) == Some(i as int),
            None => param_place(names@, param@) is None,
        },
{
    let parts = text::split(names, ',');
    let ghost all = parts.deep_view();
    let ghost p = names_it(param@);
    let mut i: usize = 0;
    while i < parts.len()
        invariant
            i <= parts@.len(),
            all == parts.deep_view(),
            all == text::parts(names@, ','),
            p == names_it(param@),
            forall|k: int| 0 <= k < i ==> !p(#[trigger] all[k]),
        decreases parts@.len() - i,
    {
        assert(all[i as int] == parts@[i as int]@);
        if text::same(text::ident_prefix(text::trim(parts[i])), param) {
            proof {
                lists::lemma_first(all, p, i as int);
            }
            return Some(i);
        }
        i += 1;
    }
    proof {
        lists::lemma_no_first(all, p);
    }
    None
}

/// Whether a list of names holds the parameter.
pub fn names_has_param(names: &str, param: &str) -> (r: bool)
    ensures
        r == (param_place(names@, param@) is Some),
{
    param_index_in(names, param).is_some()
}

/// Whether a lambda declares the parameter.
pub open spec fn declares(param: Seq<char>) -> spec_fn((int, Seq<char>)) -> bool {
    |a: (int, Seq<char>)| param_place(a.1, param) is Some
}

/// The first lambda on a line that declares the parameter: where its brace stands, in
/// characters, and the parameter's place.
pub open spec fn declaration(line: Seq<char>, param: Seq<char>) -> Option<(int, int)> {
    match lists::find_where(arrows(line), declares(param)) {
        Some(a) => Some((a.0, param_place(a.1, param).unwrap())),
        None => None,
    }
}

/// The first lambda on a line that declares the parameter: where its brace stands, in
/// characters, and the parameter's place.
pub fn declaration_on(line: &str, param: &str) -> (r: Option<(usize, usize)>)
    ensures
        match r {
            Some(d) => declaration(line@, param@) == Some((d.0 as int, d.1 as int)) && d.0
                < line@.len(),
            None => declaration(line@, param@) is None,
        },
{
    let found = arrows_on(line);
    let ghost all = found.deep_view();
    let ghost p = declares(param@);
    let mut i: usize = 0;
    while i < found.len()
        invariant
            i <= found@.len(),
            all == found.deep_view(),
            all == arrows(line@),
            p == declares(param@),
            forall|k: int| 0 <= k < found@.len() ==> (#[trigger] found@[k]).brace < line@.len(),
            forall|k: int| 0 <= k < i ==> !p(#[trigger] all[k]),
        decreases found@.len() - i,
    {
        assert(all[i as int] == found@[i as int].deep_view());
        if let Some(place) = param_index_in(found[i].names, param) {
            proof {
                lists::lemma_first(all, p, i as int);
            }
            return Some((found[i].brace, place));
        }
        i += 1;
    }
    proof {
        lists::lemma_no_first(all, p);
    }
    None
}

/// Whether a lambda on the line declares the parameter.
pub fn line_has_lambda_param(line: &str, param: &str) -> (r: bool)
    ensures
        r == (declaration(line@, param@) is Some),
{
    declaration_on(line, param).is_some()
}

/// The byte offset of the brace of the lambda on the line that declares the parameter.
pub fn lambda_brace_pos_for_param(line: &str, param: &str) -> (r: Option<usize>)
    ensures
        match (r, declaration(line@, param@)) {
            (Some(p), Some(d)) => p == columns::byte_len(line@.take(d.0)),
            (None, None) => true,
            _ => false,
        },
{
    match declaration_on(line, param) {
        Some(d) => Some(columns::byte_offset(line, d.0)),
        None => None,
    }
}

/// The byte offset of the brace of the lambda on the line that declares the parameter, and the
/// parameter's place.
pub fn find_lambda_brace_for_param(line: &str, param: &str) -> (r: Option<(usize, usize)>)
    ensures
        match (r, declaration(line@, param@)) {
            (Some(p), Some(d)) => p.0 == columns::byte_len(line@.take(d.0)) && p.1 == d.1,
            (None, None) => true,
            _ => false,
        },
{
    match declaration_on(line, param) {
        Some(d) => Some((columns::byte_offset(line, d.0), d.1)),
        None => None,
    }
}

/// The place of a parameter in the lambda on the line that declares it; zero where none does.
pub fn lambda_param_position_on_line(line: &str, param: &str) -> (r: usize)
    ensures
        match declaration(line@, param@) {
            Some(d) => r == d.1,
            None => r == 0,
        },
{
    match declaration_on(line, param) {
        Some(d) => d.1,
        None => 0,
    }
}

} // verus!
