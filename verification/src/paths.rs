//! File paths, in the form that Unix systems give them.
use vstd::prelude::*;
use vstd::string::*;

use crate::text;

verus! {

/// The names between the slashes of a path that count as components.
pub open spec fn counts() -> spec_fn(Seq<char>) -> bool {
    |n: Seq<char>| n.len() > 0 && n != "."@
}

/// What a path begins with before its names: the root, or the current directory where the path
/// names it.
pub open spec fn anchor(p: Seq<char>) -> Seq<Seq<char>> {
    if p.len() > 0 && p[0] == '/' {
        seq!["/"@]
    } else if text::parts(p, '/')[0] == "."@ {
        seq!["."@]
    } else {
        Seq::empty()
    }
}

/// The components of a path. Repeated slashes and `.` components are left out, except that a
/// path may begin with `.`.
pub open spec fn components(p: Seq<char>) -> Seq<Seq<char>> {
    anchor(p) + text::parts(p, '/').filter(counts())
}

/// Whether a component is a name, and not the root, `.` or `..`.
pub open spec fn is_name(c: Seq<char>) -> bool {
    c != "/"@ && c != "."@ && c != ".."@
}

/// The last component of a path, where it is a name.
pub open spec fn base_name(p: Seq<char>) -> Option<Seq<char>> {
    let c = components(p);
    if c.len() > 0 && is_name(c.last()) {
        Some(c.last())
    } else {
        None
    }
}

/// Whether the components of `p` begin with those of `base`.
pub open spec fn below(p: Seq<char>, base: Seq<char>) -> bool {
    components(base).len() <= components(p).len() && components(p).take(
        components(base).len() as int,
    ) == components(base)
}

/// `path` below `base`; an absolute path stays as it is.
pub open spec fn joined(base: Seq<char>, path: Seq<char>) -> Seq<char> {
    if path.len() > 0 && path[0] == '/' {
        path
    } else if base.len() == 0 || base.last() == '/' {
        base + path
    } else {
        base + seq!['/'] + path
    }
}

/// The path made of components.
pub open spec fn assembled(c: Seq<Seq<char>>) -> Seq<char>
    decreases c.len(),
{
    if c.len() == 0 {
        Seq::empty()
    } else {
        joined(assembled(c.drop_last()), c.last())
    }
}

/// `path` below `base`; an absolute path stays as it is.
pub fn join_path(base: &str, path: &str) -> (r: String)
    ensures
        r@ == joined(base@, path@),
{
    let n: usize = base.unicode_len();
    if !path.is_empty() && path.get_char(0) == '/' {
        path.to_owned()
    } else if n == 0 || base.get_char(n - 1) == '/' {
        text::concat(base, path)
    } else {
        let mut out = base.to_owned();
        out.push('/');
        out.append(path);
        assert(base@.push('/') =~= base@ + seq!['/']);
        out
    }
}

/// The components of a path.
pub fn components_of(p: &str) -> (r: Vec<String>)
    ensures
        r.deep_view() == components(p@),
{
    let mut out: Vec<String> = Vec::new();
    let names = text::split(p, '/');
    let ghost all = names.deep_view();
    let ghost keep = counts();
    proof {
        assert(all[0] == names@[0]@);
    }
    if !p.is_empty() && p.get_char(0) == '/' {
        out.push("/".to_owned());
        assert(out.deep_view() =~= anchor(p@));
    } else if text::same(names[0], ".") {
        out.push(".".to_owned());
        assert(out.deep_view() =~= anchor(p@));
    } else {
        assert(out.deep_view() =~= anchor(p@));
    }
    let mut i: usize = 0;
    proof {
        reveal(Seq::filter);
        assert(out.deep_view() =~= anchor(p@) + all.take(0).filter(keep));
    }
    while i < names.len()
        invariant
            i <= names@.len(),
            all == names.deep_view(),
            keep == counts(),
            out.deep_view() == anchor(p@) + all.take(i as int).filter(keep),
        decreases names@.len() - i,
    {
        let name = names[i];
        let ghost before = out.deep_view();
        proof {
            assert(all[i as int] == name@);
            assert(all.take(i as int).push(name@) =~= all.take(i + 1));
            all.take(i as int).lemma_filter_push(name@, keep);
        }
        if !name.is_empty() && !text::same(name, ".") {
            out.push(name.to_owned());
            assert(out.deep_view() =~= before.push(name@));
            assert(before.push(name@) =~= anchor(p@) + all.take(i as int).filter(keep).push(name@));
        }
        i += 1;
    }
    assert(all.take(all.len() as int) =~= all);
    out
}

/// The last component of a path, where it is a name.
pub fn file_name(p: &str) -> (r: Option<String>)
    ensures
        r.deep_view() == base_name(p@),
{
    let c = components_of(p);
    if c.len() == 0 {
        return None;
    }
    let last = &c[c.len() - 1];
    assert(components(p@).last() == last@);
    if text::same(last.as_str(), "/") || text::same(last.as_str(), ".") || text::same(
        last.as_str(),
        "..",
    ) {
        None
    } else {
        Some(last.clone())
    }
}

/// Whether the components of `p` begin with those of `base`.
pub fn is_below(p: &str, base: &str) -> (r: bool)
    ensures
        r == below(p@, base@),
{
    let a = components_of(p);
    let b = components_of(base);
    let ghost x = components(p@);
    let ghost y = components(base@);
    if b.len() > a.len() {
        return false;
    }
    let mut i: usize = 0;
    while i < b.len()
        invariant
            i <= b@.len() <= a@.len(),
            x == a.deep_view(),
            y == b.deep_view(),
            x == components(p@),
            y == components(base@),
            forall|k: int| 0 <= k < i ==> x[k] == y[k],
        decreases b@.len() - i,
    {
        assert(x[i as int] == a@[i as int]@);
        assert(y[i as int] == b@[i as int]@);
        if !text::same(a[i].as_str(), b[i].as_str()) {
            assert(x.take(y.len() as int)[i as int] != y[i as int]);
            return false;
        }
        i += 1;
    }
    assert(x.take(y.len() as int) =~= y);
    true
}

/// The path made of the first `n` components.
pub fn assemble(c: &Vec<String>, n: usize) -> (r: String)
    requires
        n <= c@.len(),
    ensures
        r@ == assembled(c.deep_view().take(n as int)),
{
    let ghost all = c.deep_view();
    let mut out = String::new();
    let mut i: usize = 0;
    while i < n
        invariant
            i <= n <= c@.len(),
            all == c.deep_view(),
            out@ == assembled(all.take(i as int)),
        decreases n - i,
    {
        out = join_path(out.as_str(), c[i].as_str());
        proof {
            assert(all.take(i + 1).drop_last() =~= all.take(i as int));
            assert(all.take(i + 1).last() == c@[i as int]@);
        }
        i += 1;
    }
    out
}

/// The position of the first component `name`.
pub open spec fn position_of(c: Seq<Seq<char>>, name: Seq<char>) -> Option<int>
    decreases c.len(),
{
    if c.len() == 0 {
        None
    } else if c[0] == name {
        Some(0)
    } else {
        match position_of(c.skip(1), name) {
            Some(i) => Some(i + 1),
            None => None,
        }
    }
}

/// The position of the first component `name`.
pub fn find_component(c: &Vec<String>, name: &str) -> (r: Option<usize>)
    ensures
        match r {
            Some(i) => position_of(c.deep_view(), name@) == Some(i as int) && i < c@.len(),
            None => position_of(c.deep_view(), name@) is None,
        },
{
    let ghost all = c.deep_view();
    let mut i: usize = 0;
    assert(all.skip(0) =~= all);
    while i < c.len()
        invariant
            i <= c@.len(),
            all == c.deep_view(),
            position_of(all, name@) == (match position_of(all.skip(i as int), name@) {
                Some(k) => Some(k + i),
                None => None,
            }),
        decreases c@.len() - i,
    {
        assert(all.skip(i as int)[0] == c@[i as int]@);
        if text::same(c[i].as_str(), name) {
            return Some(i);
        }
        assert(all.skip(i as int).skip(1) =~= all.skip(i + 1));
        i += 1;
    }
    assert(all.skip(i as int).len() == 0);
    None
}

/// The path written with single slashes and without `.` components.
pub open spec fn plain(p: Seq<char>) -> Seq<char> {
    assembled(components(p))
}

/// The path written with single slashes and without `.` components.
pub fn plain_path(p: &str) -> (r: String)
    ensures
        r@ == plain(p@),
{
    let c = components_of(p);
    let n: usize = c.len();
    assert(c.deep_view().take(n as int) =~= c.deep_view());
    assemble(&c, n)
}

/// Whether two paths have the same components.
pub fn same_path(a: &str, b: &str) -> (r: bool)
    ensures
        r == (components(a@) == components(b@)),
{
    let r = is_below(a, b) && is_below(b, a);
    proof {
        let x = components(a@);
        let y = components(b@);
        assert(x.take(x.len() as int) =~= x);
        assert(y.take(y.len() as int) =~= y);
    }
    r
}

/// The last component of a path, up to its last dot. A name that begins with its only dot is
/// kept whole.
pub open spec fn stem(p: Seq<char>) -> Option<Seq<char>> {
    match base_name(p) {
        Some(name) => match text::rindex_of(name, '.') {
            Some(i) => if i > 0 {
                Some(name.take(i))
            } else {
                Some(name)
            },
            None => Some(name),
        },
        None => None,
    }
}

/// The last component of a path, without its extension.
pub fn file_stem(p: &str) -> (r: Option<String>)
    ensures
        r.deep_view() == stem(p@),
{
    match file_name(p) {
        Some(name) => match text::rfind_char(name.as_str(), '.') {
            Some(i) => if i > 0 {
                Some(text::take(name.as_str(), i).to_owned())
            } else {
                Some(name)
            },
            None => Some(name),
        },
        None => None,
    }
}

/// What follows the last dot of the last component, unless the component begins with that dot.
pub open spec fn extension(p: Seq<char>) -> Option<Seq<char>> {
    match base_name(p) {
        Some(name) => match text::rindex_of(name, '.') {
            Some(i) => if i > 0 {
                Some(name.skip(i + 1))
            } else {
                None
            },
            None => None,
        },
        None => None,
    }
}

/// The extension of the last component of a path.
pub fn extension_of(p: &str) -> (r: Option<String>)
    ensures
        r.deep_view() == extension(p@),
{
    match file_name(p) {
        Some(name) => match text::rfind_char(name.as_str(), '.') {
            Some(i) => if i > 0 {
                let n: usize = name.as_str().unicode_len();
                assert(i < n);
                Some(text::skip(name.as_str(), i + 1).to_owned())
            } else {
                None
            },
            None => None,
        },
        None => None,
    }
}

} // verus!
