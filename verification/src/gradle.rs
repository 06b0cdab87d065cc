//! Libraries in Gradle's cache: which files are libraries, and which versions count.
use vstd::prelude::*;
use vstd::string::*;

use crate::paths;
use crate::sorting;
use crate::text;

verus! {

// ---------------------------------------------------------------------------
// Places
// ---------------------------------------------------------------------------

/// Where Gradle keeps the libraries that it fetched.
pub open spec fn cache_root(home: Seq<char>) -> Seq<char> {
    paths::joined(paths::joined(paths::joined(home, "caches"@), "modules-2"@), "files-2.1"@)
}

/// Where Gradle keeps the libraries that it fetched, below its home or below the default one.
pub fn gradle_cache_root(gradle_home: Option<&str>, default_home: &str) -> (r: String)
    ensures
        r@ == cache_root(
            match gradle_home {
                Some(h) => h@,
                None => default_home@,
            },
        ),
{
    let home = match gradle_home {
        Some(h) => h,
        None => default_home,
    };
    let caches = paths::join_path(home, "caches");
    let modules = paths::join_path(caches.as_str(), "modules-2");
    paths::join_path(modules.as_str(), "files-2.1")
}

/// Whether a file of this name is a library, compiled or as sources.
pub open spec fn library_name(name: Seq<char>) -> bool {
    &&& text::ends_with(name, ".jar"@) || text::ends_with(name, ".aar"@)
    &&& !text::contains_text(name, "-javadoc"@)
}

/// Whether a file of this name is a library, compiled or as sources.
pub fn is_library_name(name: &str) -> (r: bool)
    ensures
        r == library_name(name@),
{
    (text::has_suffix(name, ".jar") || text::has_suffix(name, ".aar")) && !text::contains(
        name,
        "-javadoc",
    )
}

/// Whether a file is a library, compiled or as sources.
pub open spec fn library_file(path: Seq<char>) -> bool {
    match paths::base_name(path) {
        Some(n) => library_name(n),
        None => false,
    }
}

/// Whether a file is a library, compiled or as sources.
pub fn is_library_file(path: &str) -> (r: bool)
    ensures
        r == library_file(path@),
{
    match paths::file_name(path) {
        Some(n) => is_library_name(n.as_str()),
        None => false,
    }
}

/// Whether a library holds sources.
pub open spec fn holds_sources(path: Seq<char>) -> bool {
    match paths::base_name(path) {
        Some(n) => text::contains_text(n, "-sources"@) || text::contains_text(n, "-javadoc"@),
        None => false,
    }
}

/// Whether a library holds sources.
pub fn is_sources_jar(path: &str) -> (r: bool)
    ensures
        r == holds_sources(path@),
{
    match paths::file_name(path) {
        Some(n) => text::contains(n.as_str(), "-sources") || text::contains(
            n.as_str(),
            "-javadoc",
        ),
        None => false,
    }
}

// ---------------------------------------------------------------------------
// Versions
// ---------------------------------------------------------------------------

/// A part of a version.
#[derive(Debug, PartialEq, Eq)]
pub enum VersionPart {
    Text(String),
    Number(u64),
}

/// A part of a version.
pub enum PartView {
    Text(Seq<char>),
    Number(u64),
}

impl DeepView for VersionPart {
    type V = PartView;

    open spec fn deep_view(&self) -> PartView {
        match self {
            VersionPart::Text(s) => PartView::Text(s@),
            VersionPart::Number(n) => PartView::Number(*n),
        }
    }
}

/// The number that decimal digits write, where 64 bits hold it.
pub open spec fn decimal(s: Seq<char>) -> Option<u64>
    decreases s.len(),
{
    if s.len() == 0 {
        Some(0u64)
    } else {
        match decimal(s.drop_last()) {
            Some(v) => {
                let c = s.last();
                let w = v * 10 + (c as u32 - '0' as u32);
                if '0' <= c <= '9' && w <= u64::MAX {
                    Some(w as u64)
                } else {
                    None
                }
            },
            None => None,
        }
    }
}

/// A part of a version: a number, else a text.
pub open spec fn version_part(s: Seq<char>) -> PartView {
    if s.len() == 0 {
        PartView::Text(s)
    } else {
        match decimal(s) {
            Some(n) => PartView::Number(n),
            None => PartView::Text(s),
        }
    }
}

/// The parts of a version, between dots and hyphens.
pub open spec fn version_parts(version: Seq<char>) -> Seq<PartView> {
    text::parts(text::replaced(version, "-"@, "."@), '.').map_values(
        |p: Seq<char>| version_part(p),
    )
}

/// Whether a part comes before another: texts before numbers, numbers by size.
pub open spec fn part_before(a: PartView, b: PartView) -> bool {
    match (a, b) {
        (PartView::Text(x), PartView::Text(y)) => sorting::text_before(x, y),
        (PartView::Text(x), PartView::Number(y)) => true,
        (PartView::Number(x), PartView::Text(y)) => false,
        (PartView::Number(x), PartView::Number(y)) => x < y,
    }
}

/// Whether a version comes before another: by the first parts that differ, else by having fewer.
pub open spec fn version_before(a: Seq<PartView>, b: Seq<PartView>) -> bool
    decreases a.len(),
{
    if b.len() == 0 {
        false
    } else if a.len() == 0 {
        true
    } else if a[0] == b[0] {
        version_before(a.skip(1), b.skip(1))
    } else {
        part_before(a[0], b[0])
    }
}

fn parse_decimal(s: &str) -> (r: Option<u64>)
    ensures
        r == decimal(s@),
{
    let c = text::chars_of(s);
    let n: usize = c.len();
    let mut v: u64 = 0;
    let mut i: usize = 0;
    while i < n
        invariant
            c@ == s@,
            n == c@.len(),
            i <= n,
            decimal(s@.take(i as int)) == Some(v),
        decreases n - i,
    {
        let k = c[i];
        proof {
            assert(s@.take(i + 1).drop_last() =~= s@.take(i as int));
            assert(s@.take(i + 1).last() == k);
        }
        let ok: bool = '0' <= k && k <= '9';
        let digit: u64 = if ok {
            (k as u32 - '0' as u32) as u64
        } else {
            0
        };
        let room: bool = v < 1844674407370955161 || (v == 1844674407370955161 && digit <= 5);
        if !ok || !room {
            proof {
                assert(decimal(s@.take(i + 1)) is None);
                lemma_decimal_prefix(s@, i + 1);
            }
            return None;
        }
        v = v * 10 + digit;
        i += 1;
    }
    assert(s@.take(n as int) =~= s@);
    Some(v)
}

proof fn lemma_decimal_prefix(s: Seq<char>, n: int)
    requires
        0 <= n <= s.len(),
        decimal(s.take(n)) is None,
    ensures
        decimal(s) is None,
    decreases s.len(),
{
    if n == s.len() {
        assert(s.take(n) =~= s);
    } else {
        assert(s.drop_last().take(n) =~= s.take(n));
        lemma_decimal_prefix(s.drop_last(), n);
    }
}

/// The parts of a version, between dots and hyphens.
pub fn version_key(version: &str) -> (r: Vec<VersionPart>)
    ensures
        r.deep_view() == version_parts(version@),
{
    proof {
        reveal_strlit("-");
    }
    let dotted = text::replace(version, "-", ".");
    let parts = text::split(dotted.as_str(), '.');
    let ghost all = parts.deep_view();
    let mut out: Vec<VersionPart> = Vec::new();
    let mut i: usize = 0;
    while i < parts.len()
        invariant
            i <= parts@.len(),
            all == parts.deep_view(),
            out@.len() == i,
            forall|k: int|
                0 <= k < i ==> (#[trigger] out@[k]).deep_view() == version_part(all[k]),
        decreases parts@.len() - i,
    {
        let p = parts[i];
        assert(all[i as int] == p@);
        let number = parse_decimal(p);
        out.push(
            match number {
                Some(n) => if p.is_empty() {
                    VersionPart::Text(p.to_owned())
                } else {
                    VersionPart::Number(n)
                },
                None => VersionPart::Text(p.to_owned()),
            },
        );
        i += 1;
    }
    assert(out.deep_view() =~= version_parts(version@));
    out
}

/// Whether a part comes before another, and whether they are equal.
fn rank(a: &VersionPart, b: &VersionPart) -> (r: (bool, bool))
    ensures
        r.0 == part_before(a.deep_view(), b.deep_view()),
        r.1 == (a.deep_view() == b.deep_view()),
{
    match a {
        VersionPart::Text(x) => match b {
            VersionPart::Text(y) => (
                sorting::comes_before(x.as_str(), y.as_str()),
                text::same(x.as_str(), y.as_str()),
            ),
            VersionPart::Number(_) => (true, false),
        },
        VersionPart::Number(x) => match b {
            VersionPart::Text(_) => (false, false),
            VersionPart::Number(y) => (*x < *y, *x == *y),
        },
    }
}

/// Whether a version comes before another.
pub fn is_older(a: &Vec<VersionPart>, b: &Vec<VersionPart>) -> (r: bool)
    ensures
        r == version_before(a.deep_view(), b.deep_view()),
{
    let ghost x = a.deep_view();
    let ghost y = b.deep_view();
    let mut i: usize = 0;
    assert(x.skip(0) =~= x);
    assert(y.skip(0) =~= y);
    while i < a.len() && i < b.len()
        invariant
            i <= a@.len(),
            i <= b@.len(),
            x == a.deep_view(),
            y == b.deep_view(),
            version_before(x, y) == version_before(x.skip(i as int), y.skip(i as int)),
        decreases a@.len() - i,
    {
        proof {
            assert(x.skip(i as int)[0] == a@[i as int].deep_view());
            assert(y.skip(i as int)[0] == b@[i as int].deep_view());
            assert(x.skip(i as int).skip(1) =~= x.skip(i + 1));
            assert(y.skip(i as int).skip(1) =~= y.skip(i + 1));
        }
        let (before, equal) = rank(&a[i], &b[i]);
        if !equal {
            return before;
        }
        i += 1;
    }
    assert(x.skip(i as int).len() == a@.len() - i);
    assert(y.skip(i as int).len() == b@.len() - i);
    i < b.len()
}

/// A version that comes before one that comes before a third comes before the third.
pub proof fn law_versions_are_ordered(a: Seq<PartView>, b: Seq<PartView>, c: Seq<PartView>)
    requires
        version_before(a, b),
        version_before(b, c),
    ensures
        version_before(a, c),
    decreases a.len(),
{
    if a.len() > 0 && b.len() > 0 && c.len() > 0 {
        if a[0] == b[0] && b[0] == c[0] {
            law_versions_are_ordered(a.skip(1), b.skip(1), c.skip(1));
        } else if a[0] != b[0] && b[0] != c[0] {
            if let (PartView::Text(x), PartView::Text(y)) = (a[0], b[0]) {
                if let PartView::Text(z) = c[0] {
                    sorting::lemma_before_transitive(x, y, z);
                    sorting::lemma_before_irreflexive(x);
                }
            }
        }
    }
}

/// No version comes before itself.
pub proof fn law_no_version_before_itself(a: Seq<PartView>)
    ensures
        !version_before(a, a),
    decreases a.len(),
{
    if a.len() > 0 {
        law_no_version_before_itself(a.skip(1));
    }
}

// ---------------------------------------------------------------------------
// The newest of each library
// ---------------------------------------------------------------------------

/// A library: its coordinates, its version and its file.
#[derive(Debug, PartialEq, Eq)]
pub struct JarMeta {
    pub group: String,
    pub artifact: String,
    pub version: Vec<VersionPart>,
    pub path: String,
}

#[verifier::ext_equal]
pub struct MetaView {
    pub group: Seq<char>,
    pub artifact: Seq<char>,
    pub version: Seq<PartView>,
    pub path: Seq<char>,
}

impl DeepView for JarMeta {
    type V = MetaView;

    open spec fn deep_view(&self) -> MetaView {
        MetaView {
            group: self.group@,
            artifact: self.artifact@,
            version: self.version.deep_view(),
            path: self.path@,
        }
    }
}

/// What the place of a file in the cache says of it: below group, artifact, version and hash.
pub open spec fn meta_of(path: Seq<char>) -> Option<MetaView> {
    let c = paths::components(path);
    let n = c.len();
    if n >= 5 {
        Some(
            MetaView {
                group: c[n - 5],
                artifact: c[n - 4],
                version: version_parts(c[n - 3]),
                path,
            },
        )
    } else {
        None
    }
}

/// What the place of a file in the cache says of it.
pub fn parse_jar_meta(path: &str) -> (r: Option<JarMeta>)
    ensures
        r.deep_view() == meta_of(path@),
{
    let c = paths::components_of(path);
    let n: usize = c.len();
    if n < 5 {
        return None;
    }
    proof {
        let all = c.deep_view();
        assert(all[n - 5] == c@[n - 5]@);
        assert(all[n - 4] == c@[n - 4]@);
        assert(all[n - 3] == c@[n - 3]@);
    }
    Some(
        JarMeta {
            group: c[n - 5].clone(),
            artifact: c[n - 4].clone(),
            version: version_key(c[n - 3].as_str()),
            path: path.to_owned(),
        },
    )
}

/// Whether two files are of one library.
pub open spec fn same_library(a: MetaView, b: MetaView) -> bool {
    a.group == b.group && a.artifact == b.artifact
}

/// The place in a list of the file that is of the same library.
pub open spec fn place_of(list: Seq<MetaView>, m: MetaView) -> Option<int>
    decreases list.len(),
{
    if list.len() == 0 {
        None
    } else {
        match place_of(list.drop_last(), m) {
            Some(i) => Some(i),
            None => if same_library(list.last(), m) {
                Some(list.len() - 1)
            } else {
                None
            },
        }
    }
}

/// A list with a file in the place of an older one of the same library.
pub open spec fn with_file(list: Seq<MetaView>, m: MetaView) -> Seq<MetaView> {
    match place_of(list, m) {
        Some(i) => if version_before(list[i].version, m.version) {
            list.update(i, m)
        } else {
            list
        },
        None => list.push(m),
    }
}

/// Whether a file is a library of the cache, with sources or without.
pub open spec fn candidate(path: Seq<char>, sources: bool) -> bool {
    library_file(path) && meta_of(path) is Some && holds_sources(path) == sources
}

/// The newest file of each library, among those that hold sources or among those that do not.
pub open spec fn newest(jars: Seq<Seq<char>>, sources: bool) -> Seq<MetaView>
    decreases jars.len(),
{
    if jars.len() == 0 {
        Seq::empty()
    } else {
        let before = newest(jars.drop_last(), sources);
        if candidate(jars.last(), sources) {
            with_file(before, meta_of(jars.last())->0)
        } else {
            before
        }
    }
}

/// The paths of files.
pub open spec fn paths_of(list: Seq<MetaView>) -> Seq<Seq<char>> {
    list.map_values(|m: MetaView| m.path)
}

proof fn lemma_place(list: Seq<MetaView>, m: MetaView)
    ensures
        match place_of(list, m) {
            Some(i) => 0 <= i < list.len() && same_library(list[i], m),
            None => forall|k: int| 0 <= k < list.len() ==> !same_library(#[trigger] list[k], m),
        },
    decreases list.len(),
{
    if list.len() > 0 {
        lemma_place(list.drop_last(), m);
        assert forall|k: int|
            place_of(list, m) is None && 0 <= k < list.len() implies !same_library(
            #[trigger] list[k],
            m,
        ) by {
            if k < list.len() - 1 {
                assert(list.drop_last()[k] == list[k]);
            }
        }
    }
}

fn find_place(list: &Vec<JarMeta>, m: &JarMeta) -> (r: Option<usize>)
    ensures
        match r {
            Some(i) => place_of(list.deep_view(), m.deep_view()) == Some(i as int) && i
                < list@.len(),
            None => place_of(list.deep_view(), m.deep_view()) is None,
        },
{
    let ghost all = list.deep_view();
    let ghost mv = m.deep_view();
    let mut found: Option<usize> = None;
    let mut i: usize = 0;
    while i < list.len()
        invariant
            i <= list@.len(),
            all == list.deep_view(),
            mv == m.deep_view(),
            match found {
                Some(k) => place_of(all.take(i as int), mv) == Some(k as int) && k < list@.len(),
                None => place_of(all.take(i as int), mv) is None,
            },
        decreases list@.len() - i,
    {
        proof {
            assert(all.take(i + 1).drop_last() =~= all.take(i as int));
            assert(all.take(i + 1).last() == list@[i as int].deep_view());
        }
        if found.is_none() && text::same(list[i].group.as_str(), m.group.as_str()) && text::same(
            list[i].artifact.as_str(),
            m.artifact.as_str(),
        ) {
            found = Some(i);
        }
        i += 1;
    }
    assert(all.take(all.len() as int) =~= all);
    found
}

fn enter_file(list: &mut Vec<JarMeta>, m: JarMeta)
    ensures
        final(list).deep_view() == with_file(old(list).deep_view(), m.deep_view()),
{
    let ghost before = list.deep_view();
    let ghost mv = m.deep_view();
    match find_place(list, &m) {
        Some(i) => {
            assert(before[i as int] == list@[i as int].deep_view());
            if is_older(&list[i].version, &m.version) {
                list.set(i, m);
                assert(list.deep_view() =~= before.update(i as int, mv));
            }
        },
        None => {
            list.push(m);
            assert(list.deep_view() =~= before.push(mv));
        },
    }
}

fn paths_in(list: &Vec<JarMeta>) -> (r: Vec<String>)
    ensures
        r.deep_view() == paths_of(list.deep_view()),
{
    let ghost all = list.deep_view();
    let mut out: Vec<String> = Vec::new();
    let mut i: usize = 0;
    while i < list.len()
        invariant
            i <= list@.len(),
            all == list.deep_view(),
            out@.len() == i,
            forall|k: int| 0 <= k < i ==> (#[trigger] out@[k])@ == all[k].path,
        decreases list@.len() - i,
    {
        assert(all[i as int] == list@[i as int].deep_view());
        out.push(list[i].path.clone());
        i += 1;
    }
    assert(out.deep_view() =~= paths_of(all));
    out
}

/// The newest file of each library among the files of the cache: those that are compiled, and
/// those that hold sources.
pub fn scan_gradle_jars_split(all: &Vec<String>) -> (r: (Vec<String>, Vec<String>))
    ensures
        r.0.deep_view() == paths_of(newest(all.deep_view(), false)),
        r.1.deep_view() == paths_of(newest(all.deep_view(), true)),
{
    let ghost jars = all.deep_view();
    let mut compiled: Vec<JarMeta> = Vec::new();
    let mut sources: Vec<JarMeta> = Vec::new();
    let mut i: usize = 0;
    assert(compiled.deep_view() =~= newest(jars.take(0), false));
    assert(sources.deep_view() =~= newest(jars.take(0), true));
    while i < all.len()
        invariant
            i <= all@.len(),
            jars == all.deep_view(),
            compiled.deep_view() == newest(jars.take(i as int), false),
            sources.deep_view() == newest(jars.take(i as int), true),
        decreases all@.len() - i,
    {
        let path = all[i].as_str();
        proof {
            assert(jars.take(i + 1).drop_last() =~= jars.take(i as int));
            assert(jars.take(i + 1).last() == path@);
        }
        if is_library_file(path) {
            if let Some(m) = parse_jar_meta(path) {
                if is_sources_jar(path) {
                    enter_file(&mut sources, m);
                } else {
                    enter_file(&mut compiled, m);
                }
            }
        }
        i += 1;
    }
    assert(jars.take(jars.len() as int) =~= jars);
    (paths_in(&compiled), paths_in(&sources))
}

/// The newest file of each compiled library of the cache.
pub fn scan_gradle_jars(all: &Vec<String>) -> (r: Vec<String>)
    ensures
        r.deep_view() == paths_of(newest(all.deep_view(), false)),
{
    scan_gradle_jars_split(all).0
}

/// The newest file of each library of the cache that holds sources.
pub fn scan_gradle_sources_jars(all: &Vec<String>) -> (r: Vec<String>)
    ensures
        r.deep_view() == paths_of(newest(all.deep_view(), true)),
{
    scan_gradle_jars_split(all).1
}

/// Whether a list holds one file of a library that no version of `m` comes after.
pub open spec fn covers(list: Seq<MetaView>, m: MetaView) -> bool {
    exists|i: int|
        0 <= i < list.len() && same_library(#[trigger] list[i], m) && !version_before(
            list[i].version,
            m.version,
        )
}

/// No two files of a list are of one library.
pub open spec fn one_each(list: Seq<MetaView>) -> bool {
    forall|i: int, j: int|
        0 <= i < j < list.len() ==> !same_library(#[trigger] list[i], #[trigger] list[j])
}

proof fn lemma_with_file(list: Seq<MetaView>, m: MetaView)
    requires
        one_each(list),
    ensures
        one_each(with_file(list, m)),
        covers(with_file(list, m), m),
        forall|o: MetaView| #[trigger] covers(list, o) ==> covers(with_file(list, m), o),
{
    let next = with_file(list, m);
    lemma_place(list, m);
    match place_of(list, m) {
        Some(i) => {
            if version_before(list[i].version, m.version) {
                assert(next[i] == m);
                law_no_version_before_itself(m.version);
                assert forall|o: MetaView| #[trigger] covers(list, o) implies covers(next, o) by {
                    let k = choose|k: int|
                        0 <= k < list.len() && same_library(#[trigger] list[k], o)
                            && !version_before(list[k].version, o.version);
                    if k == i {
                        if version_before(m.version, o.version) {
                            law_versions_are_ordered(list[i].version, m.version, o.version);
                        }
                        assert(same_library(next[i], o));
                    } else {
                        assert(next[k] == list[k]);
                    }
                }
                assert forall|a: int, b: int|
                    0 <= a < b < next.len() implies !same_library(
                    #[trigger] next[a],
                    #[trigger] next[b],
                ) by {
                    assert(!same_library(list[a], list[b]));
                }
            }
        },
        None => {
            assert(next[list.len() as int] == m);
            law_no_version_before_itself(m.version);
            assert forall|o: MetaView| #[trigger] covers(list, o) implies covers(next, o) by {
                let k = choose|k: int|
                    0 <= k < list.len() && same_library(#[trigger] list[k], o) && !version_before(
                        list[k].version,
                        o.version,
                    );
                assert(next[k] == list[k]);
            }
            assert forall|a: int, b: int| 0 <= a < b < next.len() implies !same_library(
                #[trigger] next[a],
                #[trigger] next[b],
            ) by {
                if b < list.len() {
                    assert(!same_library(list[a], list[b]));
                } else {
                    assert(!same_library(list[a], m));
                }
            }
        },
    }
}

/// Of each library one file is taken, and none of the cache is of a later version than it.
pub proof fn law_newest_of_each(jars: Seq<Seq<char>>, sources: bool)
    ensures
        one_each(newest(jars, sources)),
        forall|i: int|
            0 <= i < jars.len() && candidate(#[trigger] jars[i], sources) ==> covers(
                newest(jars, sources),
                meta_of(jars[i])->0,
            ),
    decreases jars.len(),
{
    if jars.len() > 0 {
        law_newest_of_each(jars.drop_last(), sources);
        let before = newest(jars.drop_last(), sources);
        if candidate(jars.last(), sources) {
            lemma_with_file(before, meta_of(jars.last())->0);
        }
        assert forall|i: int|
            0 <= i < jars.len() && candidate(#[trigger] jars[i], sources) implies covers(
            newest(jars, sources),
            meta_of(jars[i])->0,
        ) by {
            if i < jars.len() - 1 {
                assert(jars.drop_last()[i] == jars[i]);
                assert(covers(before, meta_of(jars[i])->0));
            }
        }
    }
}

/// Whether a file is one of the cache: a library, with sources or without, that is no
/// documentation.
pub open spec fn taken_rightly(jars: Seq<Seq<char>>, sources: bool, path: Seq<char>) -> bool {
    &&& jars.contains(path)
    &&& meta_of(path) is Some
    &&& paths::base_name(path) is Some
    &&& ({
        let name = paths::base_name(path)->0;
        &&& text::ends_with(name, ".jar"@) || text::ends_with(name, ".aar"@)
        &&& !text::contains_text(name, "-javadoc"@)
        &&& text::contains_text(name, "-sources"@) == sources
    })
}

/// Every file that is taken is one of the files of the cache, bears the name of a library and no
/// name of documentation, and holds sources just where those were asked for.
pub proof fn law_only_libraries_are_taken(jars: Seq<Seq<char>>, sources: bool)
    ensures
        forall|i: int|
            0 <= i < paths_of(newest(jars, sources)).len() ==> taken_rightly(
                jars,
                sources,
                #[trigger] paths_of(newest(jars, sources))[i],
            ),
    decreases jars.len(),
{
    if jars.len() > 0 {
        let before = newest(jars.drop_last(), sources);
        let now = newest(jars, sources);
        law_only_libraries_are_taken(jars.drop_last(), sources);
        assert forall|i: int| 0 <= i < now.len() implies taken_rightly(
            jars,
            sources,
            #[trigger] paths_of(now)[i],
        ) by {
            let path = paths_of(now)[i];
            if candidate(jars.last(), sources) && now[i] == meta_of(jars.last())->0 {
                assert(path == jars.last());
                assert(jars[jars.len() - 1] == path);
            } else {
                let m = meta_of(jars.last())->0;
                lemma_place(before, m);
                assert(i < before.len() && before[i] == now[i]);
                assert(paths_of(before)[i] == path);
                assert(jars.drop_last().contains(path));
                let k = choose|k: int|
                    0 <= k < jars.drop_last().len() && jars.drop_last()[k] == path;
                assert(jars[k] == path);
            }
        }
    }
}

} // verus!
