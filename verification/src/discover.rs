//! Finding the files of a workspace. Searching is done by a search tool, or by a walk over the
//! directories where the tool is not there; here stand what is searched for and which of the
//! findings count.
use vstd::prelude::*;
use vstd::string::*;

use crate::apply;
use crate::cache_paths;
use crate::contributions;
use crate::ignore_rules;
use crate::ignore_rules::IgnoreMatcher;
use crate::lists;
use crate::paths;
use crate::text;
use crate::types::Replicate;

verus! {

// ---------------------------------------------------------------------------
// What is searched for
// ---------------------------------------------------------------------------

/// The extensions of source files.
pub open spec fn source_exts() -> Seq<Seq<char>> {
    seq!["kt"@, "kts"@, "java"@, "swift"@]
}

/// Directories that hold nothing of the user's own.
pub open spec fn excluded_dirs() -> Seq<Seq<char>> {
    seq![
        ".git"@,
        "build"@,
        "target"@,
        ".gradle"@,
        ".build"@,
        "DerivedData"@,
        "Generated"@,
    ]
}

/// The extensions of source files.
pub fn source_extensions() -> (r: Vec<String>)
    ensures
        r.deep_view() == source_exts(),
{
    let mut out: Vec<String> = Vec::new();
    out.push("kt".to_owned());
    out.push("kts".to_owned());
    out.push("java".to_owned());
    out.push("swift".to_owned());
    assert(out.deep_view() =~= source_exts());
    out
}

/// Directories that hold nothing of the user's own.
pub fn excluded_dir_names() -> (r: Vec<String>)
    ensures
        r.deep_view() == excluded_dirs(),
{
    let mut out: Vec<String> = Vec::new();
    out.push(".git".to_owned());
    out.push("build".to_owned());
    out.push("target".to_owned());
    out.push(".gradle".to_owned());
    out.push(".build".to_owned());
    out.push("DerivedData".to_owned());
    out.push("Generated".to_owned());
    assert(out.deep_view() =~= excluded_dirs());
    out
}

/// Each value with a flag before it.
pub open spec fn flagged(flag: Seq<char>, values: Seq<Seq<char>>) -> Seq<Seq<char>>
    decreases values.len(),
{
    if values.len() == 0 {
        Seq::empty()
    } else {
        flagged(flag, values.drop_last()).push(flag).push(values.last())
    }
}

/// What the search tool is called with: which files, how long ago changed at most, with which
/// extensions, where not to look, and where to look.
pub open spec fn search_args(
    window: Option<u64>,
    exts: Seq<Seq<char>>,
    excluded: Seq<Seq<char>>,
    patterns: Seq<Seq<char>>,
    root: Seq<char>,
) -> Seq<Seq<char>> {
    let recent = match window {
        Some(secs) => seq![
            "--changed-within"@,
            cache_paths::decimal_digits(secs as nat) + "s"@,
        ],
        None => Seq::empty(),
    };
    seq!["--type"@, "f"@] + recent + flagged("--extension"@, exts) + seq!["--absolute-path"@]
        + flagged("--exclude"@, excluded) + flagged("--exclude"@, patterns) + seq!["."@, root]
}

fn push_flagged(out: &mut Vec<String>, flag: &str, values: &Vec<String>)
    ensures
        final(out).deep_view() == old(out).deep_view() + flagged(flag@, values.deep_view()),
{
    let ghost start = out.deep_view();
    let ghost all = values.deep_view();
    let mut i: usize = 0;
    assert(start + flagged(flag@, all.take(0)) =~= start);
    while i < values.len()
        invariant
            i <= values@.len(),
            all == values.deep_view(),
            out.deep_view() == start + flagged(flag@, all.take(i as int)),
        decreases values@.len() - i,
    {
        let ghost before = out.deep_view();
        proof {
            assert(all.take(i + 1).drop_last() =~= all.take(i as int));
            assert(all.take(i + 1).last() == values@[i as int]@);
        }
        out.push(flag.to_owned());
        out.push(values[i].clone());
        proof {
            assert(out.deep_view() =~= before.push(flag@).push(values@[i as int]@));
            assert(out.deep_view() =~= start + flagged(flag@, all.take(i + 1)));
        }
        i += 1;
    }
    assert(all.take(all.len() as int) =~= all);
}

fn build_args(
    window: Option<u64>,
    exts: &Vec<String>,
    excluded: &Vec<String>,
    patterns: &Vec<String>,
    root: &str,
) -> (r: Vec<String>)
    ensures
        r.deep_view() == search_args(
            window,
            exts.deep_view(),
            excluded.deep_view(),
            patterns.deep_view(),
            root@,
        ),
{
    let mut args: Vec<String> = Vec::new();
    args.push("--type".to_owned());
    args.push("f".to_owned());
    let ghost recent: Seq<Seq<char>> = Seq::empty();
    if let Some(secs) = window {
        let span = text::concat(cache_paths::digits_of(secs).as_str(), "s");
        proof {
            recent = seq!["--changed-within"@, span@];
        }
        args.push("--changed-within".to_owned());
        args.push(span);
    }
    assert(args.deep_view() =~= seq!["--type"@, "f"@] + recent);
    push_flagged(&mut args, "--extension", exts);
    let ghost a = args.deep_view();
    args.push("--absolute-path".to_owned());
    assert(args.deep_view() =~= a + seq!["--absolute-path"@]);
    push_flagged(&mut args, "--exclude", excluded);
    push_flagged(&mut args, "--exclude", patterns);
    let ghost b = args.deep_view();
    args.push(".".to_owned());
    args.push(root.to_owned());
    assert(args.deep_view() =~= b + seq!["."@, root@]);
    args
}

fn given_patterns(matcher: Option<&IgnoreMatcher>) -> (r: Vec<String>)
    ensures
        r.deep_view() == match matcher {
            Some(m) => m.patterns.deep_view(),
            None => Seq::empty(),
        },
{
    match matcher {
        Some(m) => m.patterns.replicate(),
        None => {
            let none: Vec<String> = Vec::new();
            assert(none.deep_view() =~= Seq::empty());
            none
        },
    }
}

/// What the search tool is called with to find the source files of a workspace.
pub fn source_search_args(root: &str, matcher: Option<&IgnoreMatcher>) -> (r: Vec<String>)
    ensures
        r.deep_view() == search_args(
            None,
            source_exts(),
            excluded_dirs(),
            match matcher {
                Some(m) => m.patterns.deep_view(),
                None => Seq::empty(),
            },
            root@,
        ),
{
    build_args(
        None,
        &source_extensions(),
        &excluded_dir_names(),
        &given_patterns(matcher),
        root,
    )
}

/// What the search tool is called with to find source files where the user named a directory:
/// nothing is left out.
pub fn unconstrained_search_args(root: &str) -> (r: Vec<String>)
    ensures
        r.deep_view() == search_args(None, source_exts(), Seq::empty(), Seq::empty(), root@),
{
    let none: Vec<String> = Vec::new();
    assert(none.deep_view() =~= Seq::empty());
    build_args(None, &source_extensions(), &none, &none, root)
}

/// What the search tool is called with to find the layouts of a workspace.
pub fn layout_search_args(root: &str, matcher: Option<&IgnoreMatcher>) -> (r: Vec<String>)
    ensures
        r.deep_view() == search_args(
            None,
            seq!["xml"@],
            excluded_dirs(),
            match matcher {
                Some(m) => m.patterns.deep_view(),
                None => Seq::empty(),
            },
            root@,
        ),
{
    let mut exts: Vec<String> = Vec::new();
    exts.push("xml".to_owned());
    assert(exts.deep_view() =~= seq!["xml"@]);
    build_args(None, &exts, &excluded_dir_names(), &given_patterns(matcher), root)
}

/// What the search tool is called with to find the source files that were changed in the last
/// `elapsed_secs` seconds.
pub fn newer_search_args(root: &str, elapsed_secs: u64, matcher: Option<&IgnoreMatcher>) -> (r: Vec<
    String,
>)
    ensures
        r.deep_view() == search_args(
            Some(elapsed_secs),
            source_exts(),
            excluded_dirs(),
            match matcher {
                Some(m) => m.patterns.deep_view(),
                None => Seq::empty(),
            },
            root@,
        ),
{
    build_args(
        Some(elapsed_secs),
        &source_extensions(),
        &excluded_dir_names(),
        &given_patterns(matcher),
        root,
    )
}

// ---------------------------------------------------------------------------
// Which of the findings count
// ---------------------------------------------------------------------------

/// Texts that are not empty.
pub open spec fn not_empty() -> spec_fn(Seq<char>) -> bool {
    |s: Seq<char>| s.len() > 0
}

/// The paths that the search tool printed, one on a line.
pub open spec fn printed(output: Seq<char>) -> Seq<Seq<char>> {
    text::lines_of(output).filter(not_empty())
}

/// The paths that the search tool printed, one on a line.
pub fn printed_paths(output: &str) -> (r: Vec<String>)
    ensures
        r.deep_view() == printed(output@),
{
    let lines = text::lines(output);
    let ghost all = lines.deep_view();
    let ghost p = not_empty();
    let mut out: Vec<String> = Vec::new();
    let mut i: usize = 0;
    proof {
        reveal(Seq::filter);
        assert(out.deep_view() =~= all.take(0).filter(p));
    }
    while i < lines.len()
        invariant
            i <= lines@.len(),
            all == lines.deep_view(),
            p == not_empty(),
            out.deep_view() == all.take(i as int).filter(p),
        decreases lines@.len() - i,
    {
        let line = lines[i];
        let ghost before = out.deep_view();
        proof {
            assert(all[i as int] == line@);
            assert(all.take(i as int).push(line@) =~= all.take(i + 1));
            all.take(i as int).lemma_filter_push(line@, p);
        }
        if !line.is_empty() {
            out.push(line.to_owned());
            assert(out.deep_view() =~= before.push(line@));
        }
        i += 1;
    }
    assert(all.take(all.len() as int) =~= all);
    out
}

/// Whether a file has one of the extensions.
pub open spec fn has_ext(path: Seq<char>, exts: Seq<Seq<char>>) -> bool {
    match paths::extension(path) {
        Some(e) => exts.contains(e),
        None => false,
    }
}

/// Whether a file has one of the extensions.
pub fn has_extension(path: &str, exts: &Vec<String>) -> (r: bool)
    ensures
        r == has_ext(path@, exts.deep_view()),
{
    match paths::extension_of(path) {
        Some(e) => contributions::contains_name(exts, e.as_str()),
        None => false,
    }
}

/// Whether the user's patterns leave a path out.
pub open spec fn left_out(m: IgnoreMatcher, path: Seq<char>, root: Seq<char>) -> bool {
    ignore_rules::any_match(m.globs.deep_view(), from_root(path, root))
}

/// A path as patterns see it: taken from the root, with forward slashes.
pub open spec fn from_root(path: Seq<char>, root: Seq<char>) -> Seq<char> {
    apply::forward_slashes(ignore_rules::relative(path, root))
}

/// Whether the user's patterns leave a path out on every system.
pub open spec fn surely_out(matcher: Option<IgnoreMatcher>, seen: Seq<char>) -> bool {
    match matcher {
        Some(m) => ignore_rules::surely_matched(m.globs.deep_view(), seen),
        None => false,
    }
}

/// Whether the user's patterns may leave a path out.
pub open spec fn maybe_out(matcher: Option<IgnoreMatcher>, seen: Seq<char>) -> bool {
    match matcher {
        Some(m) => ignore_rules::maybe_matched(m.globs.deep_view(), seen),
        None => false,
    }
}

fn is_left_out(matcher: Option<&IgnoreMatcher>, path: &str, root: &str) -> (r: bool)
    ensures
        match matcher {
            Some(m) => ignore_rules::portable(m.globs.deep_view()) ==> r == left_out(
                *m,
                path@,
                root@,
            ),
            None => !r,
        },
        surely_out(pointed(matcher), from_root(path@, root@)) ==> r,
        r ==> maybe_out(pointed(matcher), from_root(path@, root@)),
{
    match matcher {
        Some(m) => m.matches(ignore_rules::relative_to(path, root).as_str()),
        None => false,
    }
}

/// Whether the walk goes into a directory: not into one that holds nothing of the user's own,
/// nor into one that is left out by its path or by its name.
pub open spec fn walked_into(path: Seq<char>, by_path: bool, by_name: bool) -> bool {
    match paths::base_name(path) {
        Some(n) => !excluded_dirs().contains(n) && !by_path && !by_name,
        None => !by_path,
    }
}

/// Whether the user's patterns leave out all that has a name.
pub open spec fn name_left_out(m: IgnoreMatcher, path: Seq<char>) -> bool {
    match paths::base_name(path) {
        Some(n) => ignore_rules::any_match(m.globs.deep_view(), apply::forward_slashes(n)),
        None => false,
    }
}

/// The name of a directory as patterns see it; empty where it has none.
pub open spec fn name_seen(path: Seq<char>) -> Seq<char> {
    match paths::base_name(path) {
        Some(n) => apply::forward_slashes(n),
        None => Seq::empty(),
    }
}

/// Whether the walk goes into a directory. Into one that holds nothing of the user's own it
/// never goes, nor into one that is surely left out; into others it goes unless it may be left
/// out.
pub fn enters_dir(path: &str, root: &str, matcher: Option<&IgnoreMatcher>) -> (r: bool)
    ensures
        match matcher {
            Some(m) => ignore_rules::portable(m.globs.deep_view()) ==> r == walked_into(
                path@,
                left_out(*m, path@, root@),
                name_left_out(*m, path@),
            ),
            None => r == walked_into(path@, false, false),
        },
        r ==> walked_into(
            path@,
            surely_out(pointed(matcher), from_root(path@, root@)),
            surely_out(pointed(matcher), name_seen(path@)),
        ),
        walked_into(
            path@,
            maybe_out(pointed(matcher), from_root(path@, root@)),
            maybe_out(pointed(matcher), name_seen(path@)),
        ) ==> r,
{
    let name = paths::file_name(path);
    if let Some(n) = &name {
        if contributions::contains_name(&excluded_dir_names(), n.as_str()) {
            return false;
        }
    }
    if is_left_out(matcher, path, root) {
        return false;
    }
    match matcher {
        Some(m) => match &name {
            Some(n) => !m.matches(n.as_str()),
            None => true,
        },
        None => true,
    }
}

/// The directories between a root and a file below it.
pub open spec fn dirs_between(path: Seq<char>, root: Seq<char>) -> Seq<Seq<char>> {
    let c = paths::components(path);
    let n = paths::components(root).len();
    if paths::below(path, root) && c.len() > n {
        c.subrange(n as int, c.len() - 1)
    } else {
        Seq::empty()
    }
}

/// Whether a file lies in a directory below the root that holds nothing of the user's own.
pub open spec fn in_excluded_dir(path: Seq<char>, root: Seq<char>) -> bool {
    exists|i: int|
        0 <= i < dirs_between(path, root).len() && excluded_dirs().contains(
            #[trigger] dirs_between(path, root)[i],
        )
}

/// Whether a file lies in a directory below the root that holds nothing of the user's own.
pub fn lies_in_excluded_dir(path: &str, root: &str) -> (r: bool)
    ensures
        r == in_excluded_dir(path@, root@),
{
    if !paths::is_below(path, root) {
        return false;
    }
    let c = paths::components_of(path);
    let base = paths::components_of(root);
    let excluded = excluded_dir_names();
    let ghost dirs = dirs_between(path@, root@);
    let mut i: usize = base.len();
    while i < c.len() && i < c.len() - 1
        invariant
            c.deep_view() == paths::components(path@),
            base.deep_view() == paths::components(root@),
            base@.len() <= i,
            paths::below(path@, root@),
            dirs == dirs_between(path@, root@),
            excluded.deep_view() == excluded_dirs(),
            i < c@.len() || i == base@.len(),
            forall|k: int| 0 <= k < i - base@.len() ==> !excluded_dirs().contains(#[trigger] dirs[k]),
        decreases c@.len() - i,
    {
        assert(base.deep_view().len() == base@.len());
        assert(c.deep_view().len() == c@.len());
        assert(dirs[i - base@.len()] == c@[i as int]@);
        if contributions::contains_name(&excluded, c[i].as_str()) {
            return true;
        }
        i += 1;
    }
    assert(base.deep_view().len() == base@.len());
    assert(c.deep_view().len() == c@.len());
    false
}

// ---------------------------------------------------------------------------
// Choosing among paths
// ---------------------------------------------------------------------------

/// Those of some paths that were chosen, in their order.
pub open spec fn picked(all: Seq<Seq<char>>, chosen: Seq<bool>) -> Seq<Seq<char>>
    decreases all.len(),
{
    if all.len() == 0 || chosen.len() != all.len() {
        Seq::empty()
    } else if chosen.last() {
        picked(all.drop_last(), chosen.drop_last()).push(all.last())
    } else {
        picked(all.drop_last(), chosen.drop_last())
    }
}

/// Whether every path is chosen that surely counts, and none that surely does not.
pub open spec fn chosen_by(
    all: Seq<Seq<char>>,
    chosen: Seq<bool>,
    surely: spec_fn(Seq<char>) -> bool,
    maybe: spec_fn(Seq<char>) -> bool,
) -> bool {
    &&& chosen.len() == all.len()
    &&& forall|i: int|
        0 <= i < all.len() ==> (surely(all[i]) ==> #[trigger] chosen[i]) && (chosen[i] ==> maybe(
            all[i],
        ))
}

/// Whether a list is drawn from another, in its order: with every path that surely counts, and
/// none that surely does not.
#[verifier::opaque]
pub open spec fn drawn(
    all: Seq<Seq<char>>,
    list: Seq<Seq<char>>,
    surely: spec_fn(Seq<char>) -> bool,
    maybe: spec_fn(Seq<char>) -> bool,
) -> bool {
    exists|chosen: Seq<bool>| #[trigger]
        picked(all, chosen) == list && chosen_by(all, chosen, surely, maybe)
}

proof fn lemma_drawn(
    all: Seq<Seq<char>>,
    chosen: Seq<bool>,
    surely: spec_fn(Seq<char>) -> bool,
    maybe: spec_fn(Seq<char>) -> bool,
)
    requires
        chosen_by(all, chosen, surely, maybe),
    ensures
        drawn(all, picked(all, chosen), surely, maybe),
{
    reveal(drawn);
}

/// Where it is certain of each path whether it counts, those that count are drawn.
pub proof fn law_certain_paths_are_drawn(
    all: Seq<Seq<char>>,
    list: Seq<Seq<char>>,
    p: spec_fn(Seq<char>) -> bool,
)
    requires
        drawn(all, list, p, p),
    ensures
        list == all.filter(p),
{
    reveal(drawn);
    let chosen = choose|chosen: Seq<bool>| #[trigger]
        picked(all, chosen) == list && chosen_by(all, chosen, p, p);
    lemma_picked_filter(all, chosen, p);
}

proof fn lemma_picked_filter(
    all: Seq<Seq<char>>,
    chosen: Seq<bool>,
    p: spec_fn(Seq<char>) -> bool,
)
    requires
        chosen_by(all, chosen, p, p),
    ensures
        picked(all, chosen) == all.filter(p),
    decreases all.len(),
{
    reveal(Seq::filter);
    if all.len() > 0 {
        let a = all.drop_last();
        let c = chosen.drop_last();
        assert(chosen[all.len() - 1] == p(all.last()));
        assert forall|i: int| 0 <= i < a.len() implies (p(a[i]) ==> #[trigger] c[i]) && (c[i] ==> p(
            a[i],
        )) by {
            assert(c[i] == chosen[i]);
        }
        lemma_picked_filter(a, c, p);
    } else {
        assert(all.filter(p) =~= Seq::empty());
    }
}

proof fn lemma_picked_holds(all: Seq<Seq<char>>, chosen: Seq<bool>, path: Seq<char>)
    requires
        chosen.len() == all.len(),
    ensures
        picked(all, chosen).contains(path) <==> exists|i: int|
            0 <= i < all.len() && #[trigger] all[i] == path && chosen[i],
    decreases all.len(),
{
    if all.len() > 0 {
        let a = all.drop_last();
        let c = chosen.drop_last();
        let before = picked(a, c);
        let now = picked(all, chosen);
        let n = all.len() - 1;
        lemma_picked_holds(a, c, path);
        if before.contains(path) {
            let i = choose|i: int| 0 <= i < a.len() && #[trigger] a[i] == path && c[i];
            assert(all[i] == path && chosen[i]);
            let k = choose|k: int| 0 <= k < before.len() && before[k] == path;
            assert(now[k] == path);
        }
        if chosen.last() {
            assert(now[before.len() as int] == all[n]);
            if now.contains(path) && !before.contains(path) {
                let k = choose|k: int| 0 <= k < now.len() && now[k] == path;
                assert(k < before.len() ==> before[k] == path);
                assert(all[n] == path && chosen[n]);
            }
        }
        if exists|i: int| 0 <= i < all.len() && #[trigger] all[i] == path && chosen[i] {
            let i = choose|i: int| 0 <= i < all.len() && #[trigger] all[i] == path && chosen[i];
            if i < n {
                assert(a[i] == path && c[i]);
            }
        }
    }
}

/// What is drawn comes from the list and counts, as far as is known; what surely counts is drawn.
pub proof fn law_drawn_paths_count(
    all: Seq<Seq<char>>,
    list: Seq<Seq<char>>,
    surely: spec_fn(Seq<char>) -> bool,
    maybe: spec_fn(Seq<char>) -> bool,
    path: Seq<char>,
)
    requires
        drawn(all, list, surely, maybe),
    ensures
        list.contains(path) ==> all.contains(path) && maybe(path),
        all.contains(path) && surely(path) ==> list.contains(path),
        list.len() <= all.len(),
{
    reveal(drawn);
    let chosen = choose|chosen: Seq<bool>| #[trigger]
        picked(all, chosen) == list && chosen_by(all, chosen, surely, maybe);
    lemma_picked_holds(all, chosen, path);
    lemma_picked_len(all, chosen);
    if all.contains(path) && surely(path) {
        let i = choose|i: int| 0 <= i < all.len() && #[trigger] all[i] == path;
        assert(chosen[i]);
    }
}

proof fn lemma_picked_len(all: Seq<Seq<char>>, chosen: Seq<bool>)
    ensures
        picked(all, chosen).len() <= all.len(),
    decreases all.len(),
{
    if all.len() > 0 && chosen.len() == all.len() {
        lemma_picked_len(all.drop_last(), chosen.drop_last());
    }
}

/// The files that have one of the extensions, lie in no directory that holds nothing of the
/// user's own, and are not left out by the user's patterns.
pub open spec fn keeps(
    exts: Seq<Seq<char>>,
    matcher: Option<IgnoreMatcher>,
    root: Seq<char>,
) -> spec_fn(Seq<char>) -> bool {
    |path: Seq<char>|
        has_ext(path, exts) && !in_excluded_dir(path, root) && match matcher {
            Some(m) => !left_out(m, path, root),
            None => true,
        }
}

/// The files that count on every system.
pub open spec fn surely_keeps(
    exts: Seq<Seq<char>>,
    matcher: Option<IgnoreMatcher>,
    root: Seq<char>,
) -> spec_fn(Seq<char>) -> bool {
    |path: Seq<char>|
        has_ext(path, exts) && !in_excluded_dir(path, root) && !maybe_out(
            matcher,
            from_root(path, root),
        )
}

/// The files that may count.
pub open spec fn maybe_keeps(
    exts: Seq<Seq<char>>,
    matcher: Option<IgnoreMatcher>,
    root: Seq<char>,
) -> spec_fn(Seq<char>) -> bool {
    |path: Seq<char>|
        has_ext(path, exts) && !in_excluded_dir(path, root) && !surely_out(
            matcher,
            from_root(path, root),
        )
}

/// The files that have one of the extensions.
pub open spec fn with_ext(exts: Seq<Seq<char>>) -> spec_fn(Seq<char>) -> bool {
    |path: Seq<char>| has_ext(path, exts)
}

/// Whether the user's patterns mean the same on every system.
pub open spec fn portable_rules(matcher: Option<IgnoreMatcher>) -> bool {
    match matcher {
        Some(m) => ignore_rules::portable(m.globs.deep_view()),
        None => true,
    }
}

/// What a reference may point to.
pub open spec fn pointed<T>(r: Option<&T>) -> Option<T> {
    match r {
        Some(v) => Some(*v),
        None => None,
    }
}

/// One more path to choose from.
proof fn lemma_picked_next(all: Seq<Seq<char>>, chosen: Seq<bool>, i: int, take: bool)
    requires
        0 <= i < all.len(),
        chosen.len() == i,
    ensures
        picked(all.take(i + 1), chosen.push(take)) == if take {
            picked(all.take(i), chosen).push(all[i])
        } else {
            picked(all.take(i), chosen)
        },
{
    assert(all.take(i + 1).drop_last() =~= all.take(i));
    assert(chosen.push(take).drop_last() =~= chosen);
}

fn keep_files(
    found: &Vec<String>,
    exts: &Vec<String>,
    matcher: Option<&IgnoreMatcher>,
    root: &str,
) -> (r: Vec<String>)
    ensures
        portable_rules(pointed(matcher)) ==> r.deep_view() == found.deep_view().filter(
            keeps(exts.deep_view(), pointed(matcher), root@),
        ),
        drawn(
            found.deep_view(),
            r.deep_view(),
            surely_keeps(exts.deep_view(), pointed(matcher), root@),
            maybe_keeps(exts.deep_view(), pointed(matcher), root@),
        ),
{
    let ghost all = found.deep_view();
    let ghost p = keeps(exts.deep_view(), pointed(matcher), root@);
    let ghost surely = surely_keeps(exts.deep_view(), pointed(matcher), root@);
    let ghost maybe = maybe_keeps(exts.deep_view(), pointed(matcher), root@);
    let ghost fixed = portable_rules(pointed(matcher));
    let ghost mut chosen: Seq<bool> = Seq::empty();
    let mut out: Vec<String> = Vec::new();
    let mut i: usize = 0;
    assert(out.deep_view() =~= picked(all.take(0), chosen));
    while i < found.len()
        invariant
            i <= found@.len(),
            all == found.deep_view(),
            p == keeps(exts.deep_view(), pointed(matcher), root@),
            surely == surely_keeps(exts.deep_view(), pointed(matcher), root@),
            maybe == maybe_keeps(exts.deep_view(), pointed(matcher), root@),
            fixed == portable_rules(pointed(matcher)),
            out.deep_view() == picked(all.take(i as int), chosen),
            chosen.len() == i,
            forall|k: int|
                0 <= k < i ==> (surely(all[k]) ==> #[trigger] chosen[k]) && (chosen[k] ==> maybe(
                    all[k],
                )) && (fixed ==> chosen[k] == p(all[k])),
        decreases found@.len() - i,
    {
        let path = found[i].as_str();
        let ghost before = out.deep_view();
        let ghost so_far = chosen;
        assert(all[i as int] == path@);
        let take: bool = has_extension(path, exts) && !lies_in_excluded_dir(path, root)
            && !is_left_out(matcher, path, root);
        proof {
            lemma_picked_next(all, chosen, i as int, take);
            chosen = chosen.push(take);
        }
        if take {
            out.push(path.to_owned());
            assert(out.deep_view() =~= before.push(path@));
        }
        i += 1;
        assert forall|k: int| 0 <= k < i implies (surely(all[k]) ==> #[trigger] chosen[k]) && (
        chosen[k] ==> maybe(all[k])) && (fixed ==> chosen[k] == p(all[k])) by {
            if k < i - 1 {
                assert(chosen[k] == so_far[k]);
            }
        }
    }
    proof {
        assert(all.take(all.len() as int) =~= all);
        assert(chosen_by(all, chosen, surely, maybe));
        lemma_drawn(all, chosen, surely, maybe);
        if fixed {
            assert(chosen_by(all, chosen, p, p));
            lemma_picked_filter(all, chosen, p);
        }
    }
    out
}

/// What the search tool printed, or, where it could not be run, what a walk came by.
pub open spec fn found_files(fd_output: Option<&str>, walked: Seq<Seq<char>>) -> Seq<Seq<char>> {
    match fd_output {
        Some(output) => printed(output@),
        None => walked,
    }
}

/// The source files of a workspace, of those that the search tool printed or, where it could not
/// be run, that a walk came by.
pub fn find_source_files(
    fd_output: Option<&str>,
    walked: &Vec<String>,
    root: &str,
    matcher: Option<&IgnoreMatcher>,
) -> (r: Vec<String>)
    ensures
        portable_rules(pointed(matcher)) ==> r.deep_view() == found_files(
            fd_output,
            walked.deep_view(),
        ).filter(keeps(source_exts(), pointed(matcher), root@)),
        drawn(
            found_files(fd_output, walked.deep_view()),
            r.deep_view(),
            surely_keeps(source_exts(), pointed(matcher), root@),
            maybe_keeps(source_exts(), pointed(matcher), root@),
        ),
{
    match fd_output {
        Some(output) => keep_files(&printed_paths(output), &source_extensions(), matcher, root),
        None => keep_files(walked, &source_extensions(), matcher, root),
    }
}

fn keep_extension(walked: &Vec<String>, exts: &Vec<String>) -> (r: Vec<String>)
    ensures
        r.deep_view() == walked.deep_view().filter(with_ext(exts.deep_view())),
{
    let ghost all = walked.deep_view();
    let ghost p = with_ext(exts.deep_view());
    let mut out: Vec<String> = Vec::new();
    let mut i: usize = 0;
    proof {
        reveal(Seq::filter);
        assert(out.deep_view() =~= all.take(0).filter(p));
    }
    while i < walked.len()
        invariant
            i <= walked@.len(),
            all == walked.deep_view(),
            p == with_ext(exts.deep_view()),
            out.deep_view() == all.take(i as int).filter(p),
        decreases walked@.len() - i,
    {
        let path = walked[i].as_str();
        let ghost before = out.deep_view();
        proof {
            assert(all[i as int] == path@);
            assert(all.take(i as int).push(path@) =~= all.take(i + 1));
            all.take(i as int).lemma_filter_push(path@, p);
        }
        if has_extension(path, exts) {
            out.push(path.to_owned());
            assert(out.deep_view() =~= before.push(path@));
        }
        i += 1;
    }
    assert(all.take(all.len() as int) =~= all);
    out
}

/// The source files below a directory that the user named: what the search tool printed, or,
/// where it printed nothing, those that a walk came by.
pub fn find_source_files_unconstrained(fd_output: Option<&str>, walked: &Vec<String>) -> (r: Vec<
    String,
>)
    ensures
        r.deep_view() == match fd_output {
            Some(output) => if printed(output@).len() > 0 {
                printed(output@)
            } else {
                walked.deep_view().filter(with_ext(source_exts()))
            },
            None => walked.deep_view().filter(with_ext(source_exts())),
        },
{
    if let Some(output) = fd_output {
        let found = printed_paths(output);
        assert(found.deep_view().len() == found@.len());
        if found.len() > 0 {
            return found;
        }
    }
    keep_extension(walked, &source_extensions())
}

/// The source files that were changed lately, of those that the search tool printed; none where
/// it could not be run.
pub fn find_source_files_newer_than(
    fd_output: Option<&str>,
    root: &str,
    matcher: Option<&IgnoreMatcher>,
) -> (r: Vec<String>)
    ensures
        portable_rules(pointed(matcher)) ==> r.deep_view() == found_files(
            fd_output,
            Seq::empty(),
        ).filter(keeps(source_exts(), pointed(matcher), root@)),
        drawn(
            found_files(fd_output, Seq::empty()),
            r.deep_view(),
            surely_keeps(source_exts(), pointed(matcher), root@),
            maybe_keeps(source_exts(), pointed(matcher), root@),
        ),
{
    let none: Vec<String> = Vec::new();
    assert(none.deep_view() =~= Seq::empty());
    find_source_files(fd_output, &none, root, matcher)
}

// ---------------------------------------------------------------------------
// Layouts
// ---------------------------------------------------------------------------

/// Whether a file is a layout: an XML file in a directory `layout` or `layout-…` of resources.
pub open spec fn layout_path(path: Seq<char>) -> bool {
    let c = paths::components(path);
    let n = c.len();
    &&& n >= 3
    &&& paths::extension(path) == Some("xml"@)
    &&& c[n - 3] == "res"@
    &&& c[n - 2] == "layout"@ || text::starts_with(c[n - 2], "layout-"@)
}

/// Whether a file is a layout.
pub fn is_layout_xml_path(path: &str) -> (r: bool)
    ensures
        r == layout_path(path@),
{
    let c = paths::components_of(path);
    let n: usize = c.len();
    if n < 3 {
        return false;
    }
    proof {
        assert(c.deep_view()[n - 3] == c@[n - 3]@);
        assert(c.deep_view()[n - 2] == c@[n - 2]@);
    }
    let xml: bool = match paths::extension_of(path) {
        Some(e) => text::same(e.as_str(), "xml"),
        None => false,
    };
    xml && text::same(c[n - 3].as_str(), "res") && (text::same(c[n - 2].as_str(), "layout")
        || text::has_prefix(c[n - 2].as_str(), "layout-"))
}

/// The layouts among paths.
pub open spec fn are_layouts() -> spec_fn(Seq<char>) -> bool {
    |path: Seq<char>| layout_path(path)
}

/// The layouts among files that count.
pub open spec fn layouts_in(p: spec_fn(Seq<char>) -> bool) -> spec_fn(Seq<char>) -> bool {
    |path: Seq<char>| p(path) && layout_path(path)
}

/// Drawing the layouts from what was drawn.
proof fn lemma_draw_layouts(
    all: Seq<Seq<char>>,
    chosen: Seq<bool>,
    surely: spec_fn(Seq<char>) -> bool,
    maybe: spec_fn(Seq<char>) -> bool,
) -> (kept: Seq<bool>)
    requires
        chosen_by(all, chosen, surely, maybe),
    ensures
        chosen_by(all, kept, layouts_in(surely), layouts_in(maybe)),
        picked(all, kept) == picked(all, chosen).filter(are_layouts()),
    decreases all.len(),
{
    let p = are_layouts();
    reveal(Seq::filter);
    if all.len() == 0 {
        assert(picked(all, chosen).filter(p) =~= Seq::empty());
        chosen
    } else {
        let a = all.drop_last();
        let c = chosen.drop_last();
        assert(chosen[all.len() - 1] == chosen.last());
        assert forall|i: int| 0 <= i < a.len() implies (surely(a[i]) ==> #[trigger] c[i]) && (c[i]
            ==> maybe(a[i])) by {
            assert(c[i] == chosen[i]);
        }
        let before = lemma_draw_layouts(a, c, surely, maybe);
        let last = chosen.last() && layout_path(all.last());
        let kept = before.push(last);
        assert(kept.drop_last() =~= before);
        picked(a, c).lemma_filter_push(all.last(), p);
        assert forall|i: int|
            0 <= i < all.len() implies (layouts_in(surely)(all[i]) ==> #[trigger] kept[i]) && (
        kept[i] ==> layouts_in(maybe)(all[i])) by {
            if i < a.len() {
                assert(kept[i] == before[i]);
                assert(all[i] == a[i]);
            }
        }
        kept
    }
}

fn keep_layouts(found: &Vec<String>) -> (r: Vec<String>)
    ensures
        r.deep_view() == found.deep_view().filter(are_layouts()),
{
    let ghost all = found.deep_view();
    let ghost p = are_layouts();
    let mut out: Vec<String> = Vec::new();
    let mut i: usize = 0;
    proof {
        reveal(Seq::filter);
        assert(out.deep_view() =~= all.take(0).filter(p));
    }
    while i < found.len()
        invariant
            i <= found@.len(),
            all == found.deep_view(),
            p == are_layouts(),
            out.deep_view() == all.take(i as int).filter(p),
        decreases found@.len() - i,
    {
        let path = found[i].as_str();
        let ghost before = out.deep_view();
        proof {
            assert(all[i as int] == path@);
            assert(all.take(i as int).push(path@) =~= all.take(i + 1));
            all.take(i as int).lemma_filter_push(path@, p);
        }
        if is_layout_xml_path(path) {
            out.push(path.to_owned());
            assert(out.deep_view() =~= before.push(path@));
        }
        i += 1;
    }
    assert(all.take(all.len() as int) =~= all);
    out
}

/// The layouts of a workspace, of the files that the search tool printed or, where it could not
/// be run, that a walk came by.
pub fn find_layout_files(
    fd_output: Option<&str>,
    walked: &Vec<String>,
    root: &str,
    matcher: Option<&IgnoreMatcher>,
) -> (r: Vec<String>)
    ensures
        portable_rules(pointed(matcher)) ==> r.deep_view() == found_files(
            fd_output,
            walked.deep_view(),
        ).filter(layouts_in(keeps(seq!["xml"@], pointed(matcher), root@))),
        drawn(
            found_files(fd_output, walked.deep_view()),
            r.deep_view(),
            layouts_in(surely_keeps(seq!["xml"@], pointed(matcher), root@)),
            layouts_in(maybe_keeps(seq!["xml"@], pointed(matcher), root@)),
        ),
{
    let mut exts: Vec<String> = Vec::new();
    exts.push("xml".to_owned());
    assert(exts.deep_view() =~= seq!["xml"@]);
    let found = match fd_output {
        Some(output) => keep_files(&printed_paths(output), &exts, matcher, root),
        None => keep_files(walked, &exts, matcher, root),
    };
    let out = keep_layouts(&found);
    proof {
        let given = found_files(fd_output, walked.deep_view());
        let all = found.deep_view();
        let m = pointed(matcher);
        let x = seq!["xml"@];
        lemma_layouts_drawn(given, all, surely_keeps(x, m, root@), maybe_keeps(x, m, root@));
        if portable_rules(m) {
            let q = keeps(x, m, root@);
            lemma_certain(given, q, all);
            lemma_layouts_drawn(given, all, q, q);
            law_certain_paths_are_drawn(given, out.deep_view(), layouts_in(q));
        }
    }
    out
}

/// The layouts of what is drawn are drawn.
proof fn lemma_layouts_drawn(
    all: Seq<Seq<char>>,
    list: Seq<Seq<char>>,
    surely: spec_fn(Seq<char>) -> bool,
    maybe: spec_fn(Seq<char>) -> bool,
)
    requires
        drawn(all, list, surely, maybe),
    ensures
        drawn(all, list.filter(are_layouts()), layouts_in(surely), layouts_in(maybe)),
{
    reveal(drawn);
    let chosen = choose|chosen: Seq<bool>| #[trigger]
        picked(all, chosen) == list && chosen_by(all, chosen, surely, maybe);
    let kept = lemma_draw_layouts(all, chosen, surely, maybe);
    lemma_drawn(all, kept, layouts_in(surely), layouts_in(maybe));
}

/// What a predicate filters is drawn by it.
proof fn lemma_certain(all: Seq<Seq<char>>, p: spec_fn(Seq<char>) -> bool, list: Seq<Seq<char>>)
    requires
        list == all.filter(p),
    ensures
        drawn(all, list, p, p),
{
    let chosen = all.map_values(p);
    assert(chosen_by(all, chosen, p, p));
    lemma_picked_filter(all, chosen, p);
    lemma_drawn(all, chosen, p, p);
}

// ---------------------------------------------------------------------------
// Starting from a cache
// ---------------------------------------------------------------------------

/// How far back files are searched that were changed since the cache was written, with two
/// seconds to spare; none where the cache's age is not known, so that everything is searched.
pub fn warm_window(cache_age_secs: Option<u64>) -> (r: Option<u64>)
    ensures
        r == match cache_age_secs {
            Some(age) => if age + 2 < u64::MAX {
                Some((age + 2) as u64)
            } else {
                None
            },
            None => None,
        },
{
    match cache_age_secs {
        Some(age) => if age < u64::MAX - 2 {
            Some(age + 2)
        } else {
            None
        },
        None => None,
    }
}

/// The files of a cache that the user's patterns do not leave out.
pub open spec fn cache_keeps(matcher: Option<IgnoreMatcher>, root: Seq<char>) -> spec_fn(
    Seq<char>,
) -> bool {
    |path: Seq<char>|
        match matcher {
            Some(m) => !left_out(m, path, root),
            None => true,
        }
}

/// The files of a cache that the user's patterns leave in on every system.
pub open spec fn cache_surely_keeps(matcher: Option<IgnoreMatcher>, root: Seq<char>) -> spec_fn(
    Seq<char>,
) -> bool {
    |path: Seq<char>| !maybe_out(matcher, from_root(path, root))
}

/// The files of a cache that the user's patterns may leave in.
pub open spec fn cache_maybe_keeps(matcher: Option<IgnoreMatcher>, root: Seq<char>) -> spec_fn(
    Seq<char>,
) -> bool {
    |path: Seq<char>| !surely_out(matcher, from_root(path, root))
}

/// What holds of both.
pub open spec fn both(a: Seq<bool>, b: Seq<bool>) -> Seq<bool> {
    Seq::new(a.len(), |i: int| a[i] && b[i])
}

/// The files that are not among some.
pub open spec fn not_among(cached: Seq<Seq<char>>) -> spec_fn(Seq<char>) -> bool {
    |path: Seq<char>| !cached.contains(path)
}

/// The source files of a workspace whose cache is known: those of the cache that count and are
/// still there, and those changed lately that are not among the ones that count.
pub open spec fn warm_files(
    cached: Seq<Seq<char>>,
    on_disk: Seq<bool>,
    counted: Seq<bool>,
    newer: Seq<Seq<char>>,
) -> Seq<Seq<char>> {
    picked(cached, both(counted, on_disk)) + newer.filter(not_among(picked(cached, counted)))
}

/// The source files of a workspace whose cache is known. `on_disk` tells which of the files of
/// the cache are still there, `newer` holds the files that were changed lately.
pub fn warm_discover_files(
    cached: &Vec<String>,
    on_disk: &Vec<bool>,
    root: &str,
    matcher: Option<&IgnoreMatcher>,
    newer: &Vec<String>,
) -> (r: Vec<String>)
    requires
        cached@.len() == on_disk@.len(),
    ensures
        portable_rules(pointed(matcher)) ==> r.deep_view() == warm_files(
            cached.deep_view(),
            on_disk@,
            cached.deep_view().map_values(cache_keeps(pointed(matcher), root@)),
            newer.deep_view(),
        ),
        exists|counted: Seq<bool>|
            r.deep_view() == #[trigger] warm_files(
                cached.deep_view(),
                on_disk@,
                counted,
                newer.deep_view(),
            ) && chosen_by(
                cached.deep_view(),
                counted,
                cache_surely_keeps(pointed(matcher), root@),
                cache_maybe_keeps(pointed(matcher), root@),
            ),
{
    let ghost all = cached.deep_view();
    let ghost m = pointed(matcher);
    let ghost keep = cache_keeps(m, root@);
    let ghost surely = cache_surely_keeps(m, root@);
    let ghost maybe = cache_maybe_keeps(m, root@);
    let ghost fixed = portable_rules(m);
    let ghost mut flags: Seq<bool> = Seq::empty();
    let ghost mut here: Seq<bool> = Seq::empty();
    let mut out: Vec<String> = Vec::new();
    let mut counted: Vec<String> = Vec::new();
    let mut i: usize = 0;
    assert(out.deep_view() =~= picked(all.take(0), here));
    assert(counted.deep_view() =~= picked(all.take(0), flags));
    while i < cached.len()
        invariant
            i <= cached@.len() == on_disk@.len(),
            all == cached.deep_view(),
            m == pointed(matcher),
            keep == cache_keeps(m, root@),
            surely == cache_surely_keeps(m, root@),
            maybe == cache_maybe_keeps(m, root@),
            fixed == portable_rules(m),
            flags.len() == i,
            here.len() == i,
            out.deep_view() == picked(all.take(i as int), here),
            counted.deep_view() == picked(all.take(i as int), flags),
            forall|k: int|
                0 <= k < i ==> (surely(all[k]) ==> #[trigger] flags[k]) && (flags[k] ==> maybe(
                    all[k],
                )) && (fixed ==> flags[k] == keep(all[k])) && here[k] == (flags[k] && on_disk@[k]),
        decreases cached@.len() - i,
    {
        let path = cached[i].as_str();
        let ghost a = out.deep_view();
        let ghost b = counted.deep_view();
        let ghost so_far = flags;
        let ghost here_so_far = here;
        assert(all[i as int] == path@);
        let counts: bool = !is_left_out(matcher, path, root);
        proof {
            lemma_picked_next(all, flags, i as int, counts);
            lemma_picked_next(all, here, i as int, counts && on_disk@[i as int]);
            flags = flags.push(counts);
            here = here.push(counts && on_disk@[i as int]);
        }
        if counts {
            counted.push(path.to_owned());
            assert(counted.deep_view() =~= b.push(path@));
            if on_disk[i] {
                out.push(path.to_owned());
                assert(out.deep_view() =~= a.push(path@));
            }
        }
        i += 1;
        assert forall|k: int| 0 <= k < i implies (surely(all[k]) ==> #[trigger] flags[k]) && (
        flags[k] ==> maybe(all[k])) && (fixed ==> flags[k] == keep(all[k])) && here[k] == (flags[k]
            && on_disk@[k]) by {
            if k < i - 1 {
                assert(flags[k] == so_far[k]);
                assert(here[k] == here_so_far[k]);
            }
        }
    }
    assert(all.take(all.len() as int) =~= all);
    assert forall|k: int| 0 <= k < all.len() implies here[k] == both(flags, on_disk@)[k] by {
        assert(flags[k] || !flags[k]);
    }
    assert(here =~= both(flags, on_disk@));
    let ghost old_files = out.deep_view();
    let ghost fresh = newer.deep_view();
    let ghost p = not_among(counted.deep_view());
    let mut j: usize = 0;
    proof {
        reveal(Seq::filter);
        assert(old_files + fresh.take(0).filter(p) =~= old_files);
    }
    while j < newer.len()
        invariant
            j <= newer@.len(),
            fresh == newer.deep_view(),
            p == not_among(counted.deep_view()),
            out.deep_view() == old_files + fresh.take(j as int).filter(p),
        decreases newer@.len() - j,
    {
        let path = newer[j].as_str();
        let ghost before = out.deep_view();
        proof {
            assert(fresh[j as int] == path@);
            assert(fresh.take(j as int).push(path@) =~= fresh.take(j + 1));
            fresh.take(j as int).lemma_filter_push(path@, p);
        }
        if !contributions::contains_name(&counted, path) {
            out.push(path.to_owned());
            proof {
                assert(out.deep_view() =~= before.push(path@));
                assert(before.push(path@) =~= old_files + fresh.take(j as int).filter(p).push(
                    path@,
                ));
            }
        }
        j += 1;
    }
    proof {
        assert(fresh.take(fresh.len() as int) =~= fresh);
        assert(out.deep_view() == warm_files(all, on_disk@, flags, fresh));
        assert(chosen_by(all, flags, surely, maybe));
        if fixed {
            assert(flags =~= all.map_values(keep));
        }
    }
    out
}

/// Starting from a cache finds a file if the cache has it, it counts and it is still there; else
/// if it was changed lately and is not one of the files of the cache that count. So a pattern
/// that the user has added takes effect, and a file that was removed is not found again.
pub proof fn law_warm_files(
    cached: Seq<Seq<char>>,
    on_disk: Seq<bool>,
    counted: Seq<bool>,
    newer: Seq<Seq<char>>,
    path: Seq<char>,
)
    requires
        cached.len() == on_disk.len(),
        cached.len() == counted.len(),
    ensures
        warm_files(cached, on_disk, counted, newer).contains(path) <==> {
            ||| exists|i: int|
                0 <= i < cached.len() && #[trigger] cached[i] == path && on_disk[i] && counted[i]
            ||| newer.contains(path) && !exists|i: int|
                0 <= i < cached.len() && #[trigger] cached[i] == path && counted[i]
        },
{
    let here = both(counted, on_disk);
    let old_files = picked(cached, here);
    let p = not_among(picked(cached, counted));
    let new_files = newer.filter(p);
    let all = warm_files(cached, on_disk, counted, newer);
    lemma_picked_holds(cached, here, path);
    lemma_picked_holds(cached, counted, path);
    lists::lemma_filter_holds(newer, p);
    assert((exists|i: int|
        0 <= i < cached.len() && #[trigger] cached[i] == path && on_disk[i] && counted[i])
        == old_files.contains(path)) by {
        if exists|i: int|
            0 <= i < cached.len() && #[trigger] cached[i] == path && on_disk[i] && counted[i] {
            let i = choose|i: int|
                0 <= i < cached.len() && #[trigger] cached[i] == path && on_disk[i] && counted[i];
            assert(here[i]);
        }
        if old_files.contains(path) {
            let i = choose|i: int| 0 <= i < cached.len() && #[trigger] cached[i] == path && here[i];
            assert(on_disk[i] && counted[i]);
        }
    }
    assert(all.contains(path) <==> old_files.contains(path) || new_files.contains(path)) by {
        if old_files.contains(path) {
            let k = choose|k: int| 0 <= k < old_files.len() && old_files[k] == path;
            assert(all[k] == path);
        }
        if new_files.contains(path) {
            let k = choose|k: int| 0 <= k < new_files.len() && new_files[k] == path;
            assert(all[old_files.len() + k] == path);
        }
        if all.contains(path) {
            let k = choose|k: int| 0 <= k < all.len() && all[k] == path;
            if k < old_files.len() {
                assert(old_files[k] == path);
            } else {
                assert(new_files[k - old_files.len()] == path);
            }
        }
    }
}

} // verus!
