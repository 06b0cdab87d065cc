//! Libraries that come as sources: their files are parsed like those of the workspace, and what
//! parsing gave is kept for as long as a library does not change.
use vstd::prelude::*;
use vstd::string::*;

use crate::apply;
use crate::contributions;
use crate::contributions::{ContributionsView, FileContributions};
use crate::index::{IndexView, Indexer};
use crate::jar_index;
use crate::table::Table;
use crate::text;
use crate::types::{FileData, FileIndexResult, FileView, Replicate, SourceSet};
use crate::urls;

verus! {

// ---------------------------------------------------------------------------
// What is kept
// ---------------------------------------------------------------------------

/// What tells one state of a library's file from another.
#[derive(Clone, Copy, Debug, PartialEq, Eq, Structural)]
pub struct JarFingerprint {
    pub mtime_secs: u64,
    pub mtime_nanos: u32,
    pub file_size: u64,
}

impl DeepView for JarFingerprint {
    type V = JarFingerprint;

    open spec fn deep_view(&self) -> JarFingerprint {
        *self
    }
}

/// What parsing a file of a library gave.
#[derive(Debug, PartialEq, Eq)]
pub struct SourcesFileEntry {
    pub uri: String,
    pub content_hash: u64,
    pub file_data: FileData,
}

#[verifier::ext_equal]
pub struct SourcesFileView {
    pub uri: Seq<char>,
    pub content_hash: u64,
    pub file_data: FileView,
}

impl DeepView for SourcesFileEntry {
    type V = SourcesFileView;

    open spec fn deep_view(&self) -> SourcesFileView {
        SourcesFileView {
            uri: self.uri@,
            content_hash: self.content_hash,
            file_data: self.file_data.deep_view(),
        }
    }
}

/// What parsing a library gave, in the state of the fingerprint.
#[derive(Debug, PartialEq, Eq)]
pub struct SourcesJarEntry {
    pub fingerprint: JarFingerprint,
    pub files: Vec<SourcesFileEntry>,
}

#[verifier::ext_equal]
pub struct SourcesJarView {
    pub fingerprint: JarFingerprint,
    pub files: Seq<SourcesFileView>,
}

impl DeepView for SourcesJarEntry {
    type V = SourcesJarView;

    open spec fn deep_view(&self) -> SourcesJarView {
        SourcesJarView { fingerprint: self.fingerprint, files: self.files.deep_view() }
    }
}

/// Libraries by path.
pub type SourcesCache = Map<Seq<char>, SourcesJarView>;

/// Whether what is kept of a library is what its file still holds.
pub open spec fn fresh(cache: SourcesCache, path: Seq<char>, fingerprint: JarFingerprint) -> bool {
    cache.dom().contains(path) && cache[path].fingerprint == fingerprint
}

// ---------------------------------------------------------------------------
// Files of a library
// ---------------------------------------------------------------------------

/// The address of a file inside a library, where the file is one of Kotlin or Java.
pub open spec fn entry_address(jar_path: Seq<char>, name: Seq<char>) -> Option<Seq<char>> {
    if text::ends_with(name, ".kt"@) || text::ends_with(name, ".java"@) {
        urls::parsed_url("jar:file://"@ + jar_path + "!/"@ + name)
    } else {
        None
    }
}

/// The address of a file inside a library, where the file is one of Kotlin or Java.
pub fn sources_entry_uri(jar_path: &str, name: &str) -> (r: Option<String>)
    ensures
        r.deep_view() == entry_address(jar_path@, name@),
{
    if !text::has_suffix(name, ".kt") && !text::has_suffix(name, ".java") {
        return None;
    }
    let mut address = text::concat("jar:file://", jar_path);
    address.append("!/");
    address.append(name);
    urls::parse_url(address.as_str())
}

/// The results without those of files that could not be parsed.
pub open spec fn without_errors(results: Seq<FileIndexResult>) -> Seq<FileIndexResult> {
    results.filter(|r: FileIndexResult| r.error is None)
}

/// What parsing the files of a library gave. It is incomplete where a file could not be gone
/// through.
#[derive(Debug)]
pub struct ParsedJarEntries {
    pub results: Vec<FileIndexResult>,
    pub complete: bool,
}

/// Gathers what parsing the files of a library gave: `chunks` holds the results of groups of
/// its files, none for a group whose parsing broke off.
pub fn parse_jar_entries(chunks: Vec<Option<Vec<FileIndexResult>>>) -> (r: ParsedJarEntries)
    ensures
        r.results@ == gathered(chunks@, chunks@.len() as int),
        r.complete == forall|i: int| 0 <= i < chunks@.len() ==> (#[trigger] chunks@[i]) is Some,
{
    let ghost all = chunks@;
    let mut chunks = chunks;
    let mut rest: Vec<Option<Vec<FileIndexResult>>> = Vec::new();
    let mut results: Vec<FileIndexResult> = Vec::new();
    let mut complete = true;
    while chunks.len() > 0
        invariant
            all == chunks@ + rest@.reverse(),
        decreases chunks@.len(),
    {
        let ghost c = chunks@;
        let ghost r = rest@;
        let last = chunks.pop();
        if let Some(l) = last {
            rest.push(l);
            assert(chunks@ + rest@.reverse() =~= c + r.reverse());
        }
    }
    assert(rest@.reverse() =~= all);
    let n: usize = rest.len();
    while rest.len() > 0
        invariant
            n == all.len(),
            rest@.len() <= n,
            forall|i: int| 0 <= i < rest@.len() ==> rest@[i] == all[n - 1 - i],
            results@ == gathered(all, n - rest@.len()),
            complete == forall|i: int| 0 <= i < n - rest@.len() ==> (#[trigger] all[i]) is Some,
        decreases rest@.len(),
    {
        let ghost done = n - rest@.len();
        let ghost before = results@;
        if let Some(chunk) = rest.pop() {
            assert(chunk == all[done]);
            match chunk {
                Some(list) => {
                    append_without_errors(&mut results, list);
                },
                None => {
                    complete = false;
                },
            }
        }
    }
    ParsedJarEntries { results, complete }
}

/// The results of the first `n` groups, without those of files that could not be parsed.
pub open spec fn gathered(chunks: Seq<Option<Vec<FileIndexResult>>>, n: int) -> Seq<FileIndexResult>
    decreases n,
{
    if n <= 0 || n > chunks.len() {
        Seq::empty()
    } else {
        gathered(chunks, n - 1) + match chunks[n - 1] {
            Some(list) => without_errors(list@),
            None => Seq::empty(),
        }
    }
}

fn append_without_errors(out: &mut Vec<FileIndexResult>, list: Vec<FileIndexResult>)
    ensures
        final(out)@ == old(out)@ + without_errors(list@),
{
    let ghost all = list@;
    let ghost p = |r: FileIndexResult| r.error is None;
    let mut list = list;
    let mut rest: Vec<FileIndexResult> = Vec::new();
    while list.len() > 0
        invariant
            all == list@ + rest@.reverse(),
        decreases list@.len(),
    {
        let ghost c = list@;
        let ghost r = rest@;
        if let Some(l) = list.pop() {
            rest.push(l);
            assert(list@ + rest@.reverse() =~= c + r.reverse());
        }
    }
    assert(rest@.reverse() =~= all);
    let n: usize = rest.len();
    let ghost start = out@;
    proof {
        reveal(Seq::filter);
        assert(start + all.take(0).filter(p) =~= start);
    }
    while rest.len() > 0
        invariant
            n == all.len(),
            rest@.len() <= n,
            p == (|r: FileIndexResult| r.error is None),
            forall|i: int| 0 <= i < rest@.len() ==> rest@[i] == all[n - 1 - i],
            out@ == start + all.take(n - rest@.len()).filter(p),
        decreases rest@.len(),
    {
        let ghost done = n - rest@.len();
        let ghost before = out@;
        if let Some(item) = rest.pop() {
            proof {
                assert(item == all[done]);
                assert(all.take(done).push(item) =~= all.take(done + 1));
                all.take(done).lemma_filter_push(item, p);
            }
            if item.error.is_none() {
                let ghost i = item;
                out.push(item);
                assert(out@ =~= start + all.take(done).filter(p).push(i));
            }
        }
    }
    assert(all.take(n as int) =~= all);
}

// ---------------------------------------------------------------------------
// Libraries that have not changed
// ---------------------------------------------------------------------------

/// Every table of each contribution is in order.
pub open spec fn all_wf(list: Seq<FileContributions>) -> bool {
    forall|i: int| 0 <= i < list.len() ==> (#[trigger] list[i]).wf()
}

/// What the first `n` files of a library contribute; files whose address cannot be read count
/// for nothing.
pub open spec fn kept_contributions(files: Seq<SourcesFileView>, n: int) -> Seq<ContributionsView>
    decreases n,
{
    if n <= 0 || n > files.len() {
        Seq::empty()
    } else {
        let before = kept_contributions(files, n - 1);
        let f = files[n - 1];
        match urls::parsed_url(f.uri) {
            Some(uri) => before.push(
                contributions::contributions(
                    f.file_data,
                    uri,
                    f.content_hash,
                    contributions::supertypes_of(f.file_data, uri),
                ),
            ),
            None => before,
        }
    }
}

/// A library's path and the state of its file, where that can be told.
pub type Source = (Seq<char>, Option<JarFingerprint>);

/// How many of the first `n` libraries have not changed.
pub open spec fn unchanged(cache: SourcesCache, sources: Seq<Source>, n: int) -> nat
    decreases n,
{
    if n <= 0 || n > sources.len() {
        0
    } else {
        let before = unchanged(cache, sources, n - 1);
        match sources[n - 1].1 {
            Some(fp) => if fresh(cache, sources[n - 1].0, fp) {
                before + 1
            } else {
                before
            },
            None => before,
        }
    }
}

/// What those of the first `n` libraries contribute that have not changed.
pub open spec fn unchanged_contributions(cache: SourcesCache, sources: Seq<Source>, n: int) -> Seq<
    ContributionsView,
>
    decreases n,
{
    if n <= 0 || n > sources.len() {
        Seq::empty()
    } else {
        let before = unchanged_contributions(cache, sources, n - 1);
        match sources[n - 1].1 {
            Some(fp) => if fresh(cache, sources[n - 1].0, fp) {
                let files = cache[sources[n - 1].0].files;
                before + kept_contributions(files, files.len() as int)
            } else {
                before
            },
            None => before,
        }
    }
}

/// Those of the first `n` libraries that are new or have changed.
pub open spec fn changed(cache: SourcesCache, sources: Seq<Source>, n: int) -> Seq<
    (Seq<char>, JarFingerprint),
>
    decreases n,
{
    if n <= 0 || n > sources.len() {
        Seq::empty()
    } else {
        let before = changed(cache, sources, n - 1);
        match sources[n - 1].1 {
            Some(fp) => if fresh(cache, sources[n - 1].0, fp) {
                before
            } else {
                before.push((sources[n - 1].0, fp))
            },
            None => before,
        }
    }
}

/// Libraries told apart by whether they have changed.
pub struct Partition {
    /// How many have not changed.
    pub cache_hits: usize,
    /// What those contribute.
    pub contributions: Vec<FileContributions>,
    /// Those that are new or have changed.
    pub missed: Vec<(String, JarFingerprint)>,
}

fn append_kept(out: &mut Vec<FileContributions>, files: &Vec<SourcesFileEntry>)
    requires
        all_wf(old(out)@),
    ensures
        all_wf(final(out)@),
        final(out).deep_view() == old(out).deep_view() + kept_contributions(
            files.deep_view(),
            files@.len() as int,
        ),
{
    let ghost all = files.deep_view();
    let ghost start = out.deep_view();
    let mut i: usize = 0;
    assert(start + kept_contributions(all, 0) =~= start);
    while i < files.len()
        invariant
            i <= files@.len(),
            all == files.deep_view(),
            all_wf(out@),
            out.deep_view() == start + kept_contributions(all, i as int),
        decreases files@.len() - i,
    {
        let f = &files[i];
        let ghost before = out.deep_view();
        assert(all[i as int] == f.deep_view());
        if let Some(uri) = urls::parse_url(f.uri.as_str()) {
            let supertypes = contributions::derive_supertypes(uri.as_str(), &f.file_data);
            let added = contributions::contributions_from_data(
                uri.as_str(),
                f.file_data.replicate(),
                f.content_hash,
                &supertypes,
            );
            let ghost a = added.deep_view();
            out.push(added);
            proof {
                assert(out.deep_view() =~= before.push(a));
                assert(before.push(a) =~= start + kept_contributions(all, i as int).push(a));
            }
        }
        i += 1;
    }
}

/// Tells the libraries that have not changed from the others.
pub fn partition_sources_jars(
    cache: &Table<SourcesJarEntry>,
    sources: &Vec<(String, Option<JarFingerprint>)>,
) -> (r: Partition)
    requires
        cache.wf(),
    ensures
        r.cache_hits == unchanged(cache@, sources.deep_view(), sources@.len() as int),
        all_wf(r.contributions@),
        r.contributions.deep_view() == unchanged_contributions(
            cache@,
            sources.deep_view(),
            sources@.len() as int,
        ),
        r.missed.deep_view() == changed(cache@, sources.deep_view(), sources@.len() as int),
{
    let ghost all = sources.deep_view();
    let mut hits: usize = 0;
    let mut kept: Vec<FileContributions> = Vec::new();
    let mut missed: Vec<(String, JarFingerprint)> = Vec::new();
    let mut i: usize = 0;
    assert(kept.deep_view() =~= unchanged_contributions(cache@, all, 0));
    assert(missed.deep_view() =~= changed(cache@, all, 0));
    while i < sources.len()
        invariant
            i <= sources@.len(),
            hits <= i,
            cache.wf(),
            all == sources.deep_view(),
            hits == unchanged(cache@, all, i as int),
            all_wf(kept@),
            kept.deep_view() == unchanged_contributions(cache@, all, i as int),
            missed.deep_view() == changed(cache@, all, i as int),
        decreases sources@.len() - i,
    {
        let source = &sources[i];
        let ghost before = missed.deep_view();
        assert(all[i as int] == source.deep_view());
        if let Some(fingerprint) = source.1 {
            let mut done = false;
            if let Some(entry) = cache.get(source.0.as_str()) {
                if entry.fingerprint == fingerprint {
                    append_kept(&mut kept, &entry.files);
                    assert(entry.deep_view().files.len() == entry.files@.len());
                    hits += 1;
                    done = true;
                }
            }
            if !done {
                missed.push((source.0.clone(), fingerprint));
                assert(missed.deep_view() =~= before.push((source.0@, fingerprint)));
            }
        }
        i += 1;
    }
    Partition { cache_hits: hits, contributions: kept, missed }
}

// ---------------------------------------------------------------------------
// Libraries that have changed
// ---------------------------------------------------------------------------

/// What is kept of a file of a library.
pub open spec fn kept_file(r: FileIndexResult) -> SourcesFileView {
    SourcesFileView {
        uri: r.uri@,
        content_hash: r.content_hash,
        file_data: FileView { source_set: SourceSet::Library, ..r.data.deep_view() },
    }
}

/// What a parsed file contributes.
pub open spec fn contributed(r: FileIndexResult) -> ContributionsView {
    contributions::contributions(
        r.data.deep_view(),
        r.uri@,
        r.content_hash,
        r.supertypes.deep_view(),
    )
}

/// What the first `n` libraries that have changed contribute; one that could not be read
/// contributes nothing.
pub open spec fn changed_contributions(parsed: Seq<Option<ParsedJarEntries>>, n: int) -> Seq<
    ContributionsView,
>
    decreases n,
{
    if n <= 0 || n > parsed.len() {
        Seq::empty()
    } else {
        changed_contributions(parsed, n - 1) + match parsed[n - 1] {
            Some(p) => p.results@.map_values(|r: FileIndexResult| contributed(r)),
            None => Seq::empty(),
        }
    }
}

/// The cache with what parsing the first `n` libraries gave that have changed. One that could
/// not be read, or whose parsing broke off, is not kept, since nothing would show later that
/// something is missing.
pub open spec fn refreshed(
    cache: SourcesCache,
    missed: Seq<(Seq<char>, JarFingerprint)>,
    parsed: Seq<Option<ParsedJarEntries>>,
    n: int,
) -> SourcesCache
    decreases n,
{
    if n <= 0 || n > missed.len() || n > parsed.len() {
        cache
    } else {
        let before = refreshed(cache, missed, parsed, n - 1);
        match parsed[n - 1] {
            Some(p) => if p.complete {
                before.insert(
                    missed[n - 1].0,
                    SourcesJarView {
                        fingerprint: missed[n - 1].1,
                        files: p.results@.map_values(|r: FileIndexResult| kept_file(r)),
                    },
                )
            } else {
                before
            },
            None => before,
        }
    }
}

fn files_to_keep(results: &Vec<FileIndexResult>) -> (r: Vec<SourcesFileEntry>)
    ensures
        r.deep_view() == results@.map_values(|r: FileIndexResult| kept_file(r)),
{
    let mut out: Vec<SourcesFileEntry> = Vec::new();
    let mut i: usize = 0;
    while i < results.len()
        invariant
            i <= results@.len(),
            out@.len() == i,
            forall|k: int| 0 <= k < i ==> (#[trigger] out@[k]).deep_view() == kept_file(results@[k]),
        decreases results@.len() - i,
    {
        let result = &results[i];
        let mut data = result.data.replicate();
        data.source_set = SourceSet::Library;
        out.push(
            SourcesFileEntry {
                uri: result.uri.clone(),
                content_hash: result.content_hash,
                file_data: data,
            },
        );
        i += 1;
    }
    assert(out.deep_view() =~= results@.map_values(|r: FileIndexResult| kept_file(r)));
    out
}

fn append_contributions(out: &mut Vec<FileContributions>, results: &Vec<FileIndexResult>)
    requires
        all_wf(old(out)@),
    ensures
        all_wf(final(out)@),
        final(out).deep_view() == old(out).deep_view() + results@.map_values(
            |r: FileIndexResult| contributed(r),
        ),
{
    let ghost start = out.deep_view();
    let ghost f = |r: FileIndexResult| contributed(r);
    let mut i: usize = 0;
    assert(start + results@.take(0).map_values(f) =~= start);
    while i < results.len()
        invariant
            i <= results@.len(),
            f == (|r: FileIndexResult| contributed(r)),
            all_wf(out@),
            out.deep_view() == start + results@.take(i as int).map_values(f),
        decreases results@.len() - i,
    {
        let ghost before = out.deep_view();
        let added = contributions::file_contributions(&results[i]);
        let ghost a = added.deep_view();
        out.push(added);
        proof {
            assert(out.deep_view() =~= before.push(a));
            assert(results@.take(i + 1).map_values(f) =~= results@.take(i as int).map_values(
                f,
            ).push(a));
            assert(before.push(a) =~= start + results@.take(i + 1).map_values(f));
        }
        i += 1;
    }
    assert(results@.take(results@.len() as int) =~= results@);
}

/// Keeps what parsing the libraries gave that have changed; hands out what they contribute.
/// `parsed` holds what reading and parsing each of `missed` gave, none for one that could not
/// be read.
pub fn parse_missed_sources_jars(
    cache: &mut Table<SourcesJarEntry>,
    missed: &Vec<(String, JarFingerprint)>,
    parsed: &Vec<Option<ParsedJarEntries>>,
) -> (r: Vec<FileContributions>)
    requires
        old(cache).wf(),
        missed@.len() == parsed@.len(),
    ensures
        final(cache).wf(),
        final(cache)@ == refreshed(
            old(cache)@,
            missed.deep_view(),
            parsed@,
            missed@.len() as int,
        ),
        all_wf(r@),
        r.deep_view() == changed_contributions(parsed@, missed@.len() as int),
{
    let ghost all = missed.deep_view();
    let mut out: Vec<FileContributions> = Vec::new();
    let mut i: usize = 0;
    assert(out.deep_view() =~= changed_contributions(parsed@, 0));
    while i < missed.len()
        invariant
            i <= missed@.len() == parsed@.len(),
            cache.wf(),
            all == missed.deep_view(),
            cache@ == refreshed(old(cache)@, all, parsed@, i as int),
            all_wf(out@),
            out.deep_view() == changed_contributions(parsed@, i as int),
        decreases missed@.len() - i,
    {
        let ghost before = out.deep_view();
        proof {
            assert(all[i as int] == missed@[i as int].deep_view());
            assert(before + Seq::<ContributionsView>::empty() =~= before);
        }
        if let Some(p) = &parsed[i] {
            if p.complete {
                let entry = SourcesJarEntry {
                    fingerprint: missed[i].1,
                    files: files_to_keep(&p.results),
                };
                cache.insert(missed[i].0.as_str(), entry);
            }
            append_contributions(&mut out, &p.results);
        }
        i += 1;
    }
    out
}

// ---------------------------------------------------------------------------
// Entering what libraries contribute
// ---------------------------------------------------------------------------

/// An index without what the files of the first `n` contributions entered.
pub open spec fn without_all(v: IndexView, added: Seq<ContributionsView>, n: int) -> IndexView
    decreases n,
{
    if n <= 0 || n > added.len() {
        v
    } else {
        apply::without_stale(without_all(v, added, n - 1), added[n - 1].uri)
    }
}

/// An index that has taken in a file of a library.
pub open spec fn with_library_file(v: IndexView, c: ContributionsView) -> IndexView {
    apply::with_fresh(
        IndexView { library_uris: v.library_uris.insert(c.uri, ()), ..v },
        c,
        SourceSet::Library,
    )
}

/// An index that has taken in the first `n` files of libraries.
pub open spec fn with_all(v: IndexView, added: Seq<ContributionsView>, n: int) -> IndexView
    decreases n,
{
    if n <= 0 || n > added.len() {
        v
    } else {
        with_library_file(with_all(v, added, n - 1), added[n - 1])
    }
}

/// How many symbols the first `n` files declare.
pub open spec fn symbols_in(added: Seq<ContributionsView>, n: int) -> nat
    decreases n,
{
    if n <= 0 || n > added.len() {
        0
    } else {
        symbols_in(added, n - 1) + added[n - 1].file.symbols.len()
    }
}

/// An index in which files of libraries stand in place of what they entered before.
pub open spec fn with_sources(v: IndexView, added: Seq<ContributionsView>) -> IndexView {
    if added.len() == 0 {
        v
    } else {
        jar_index::with_new_names(
            with_all(without_all(v, added, added.len() as int), added, added.len() as int),
        )
    }
}

proof fn lemma_symbols_in(added: Seq<ContributionsView>, i: int, n: int)
    requires
        0 <= i <= n <= added.len(),
    ensures
        symbols_in(added, i) <= symbols_in(added, n),
    decreases n - i,
{
    if i < n {
        lemma_symbols_in(added, i, n - 1);
    }
}

/// How many symbols some results declare.
pub open spec fn result_symbols(results: Seq<FileIndexResult>) -> nat
    decreases results.len(),
{
    if results.len() == 0 {
        0
    } else {
        result_symbols(results.drop_last()) + results.last().data.symbols@.len()
    }
}

/// How many symbols the first `n` parsed libraries declare.
pub open spec fn parsed_symbols(parsed: Seq<Option<ParsedJarEntries>>, n: int) -> nat
    decreases n,
{
    if n <= 0 || n > parsed.len() {
        0
    } else {
        parsed_symbols(parsed, n - 1) + match parsed[n - 1] {
            Some(p) => result_symbols(p.results@),
            None => 0,
        }
    }
}

proof fn lemma_symbols_add(a: Seq<ContributionsView>, b: Seq<ContributionsView>, n: int)
    requires
        0 <= n <= b.len(),
    ensures
        symbols_in(a + b, a.len() + n) == symbols_in(a, a.len() as int) + symbols_in(b, n),
    decreases n,
{
    if n > 0 {
        lemma_symbols_add(a, b, n - 1);
        assert((a + b)[a.len() + n - 1] == b[n - 1]);
    } else {
        lemma_symbols_prefix(a, b, a.len() as int);
    }
}

proof fn lemma_symbols_prefix(a: Seq<ContributionsView>, b: Seq<ContributionsView>, n: int)
    requires
        0 <= n <= a.len(),
    ensures
        symbols_in(a + b, n) == symbols_in(a, n),
    decreases n,
{
    if n > 0 {
        lemma_symbols_prefix(a, b, n - 1);
        assert((a + b)[n - 1] == a[n - 1]);
    }
}

proof fn lemma_result_symbols(results: Seq<FileIndexResult>)
    ensures
        symbols_in(
            results.map_values(|r: FileIndexResult| contributed(r)),
            results.len() as int,
        ) == result_symbols(results),
    decreases results.len(),
{
    let f = |r: FileIndexResult| contributed(r);
    if results.len() > 0 {
        lemma_result_symbols(results.drop_last());
        let a = results.drop_last().map_values(f);
        let b = seq![contributed(results.last())];
        assert(a + b =~= results.map_values(f));
        lemma_symbols_add(a, b, 1);
        assert(symbols_in(b, 0) == 0);
        assert(symbols_in(b, 1) == b[0].file.symbols.len());
    }
}

proof fn lemma_parsed_symbols(parsed: Seq<Option<ParsedJarEntries>>, n: int)
    ensures
        symbols_in(
            changed_contributions(parsed, n),
            changed_contributions(parsed, n).len() as int,
        ) == parsed_symbols(parsed, n),
    decreases n,
{
    if 0 < n <= parsed.len() {
        lemma_parsed_symbols(parsed, n - 1);
        let a = changed_contributions(parsed, n - 1);
        match parsed[n - 1] {
            Some(p) => {
                let b = p.results@.map_values(|r: FileIndexResult| contributed(r));
                lemma_result_symbols(p.results@);
                lemma_symbols_add(a, b, b.len() as int);
            },
            None => {
                assert(a + Seq::<ContributionsView>::empty() =~= a);
            },
        }
    }
}

impl Indexer {
    /// Enters what a file of a library contributes into tables that hold nothing from it.
    pub fn apply_contribution_to_index(&mut self, added: FileContributions)
        requires
            old(self).wf(),
            added.wf(),
        ensures
            final(self).wf(),
            final(self)@ == apply::with_fresh(
                old(self)@,
                added.deep_view(),
                SourceSet::Library,
            ),
    {
        self.enter_fresh(added, SourceSet::Library);
    }

    fn enter_all(&mut self, contributions: Vec<FileContributions>) -> (r: usize)
        requires
            old(self).wf(),
            all_wf(contributions@),
            symbols_in(contributions.deep_view(), contributions@.len() as int) <= usize::MAX,
        ensures
            final(self).wf(),
            final(self)@ == with_all(
                old(self)@,
                contributions.deep_view(),
                contributions@.len() as int,
            ),
            r == symbols_in(contributions.deep_view(), contributions@.len() as int),
    {
        let ghost all = contributions.deep_view();
        let ghost whole = contributions@;
        let n: usize = contributions.len();
        let mut list = contributions;
        let mut rest: Vec<FileContributions> = Vec::new();
        while list.len() > 0
            invariant
                whole == list@ + rest@.reverse(),
            decreases list@.len(),
        {
            let ghost c = list@;
            let ghost r = rest@;
            if let Some(l) = list.pop() {
                rest.push(l);
                assert(list@ + rest@.reverse() =~= c + r.reverse());
            }
        }
        assert(rest@.reverse() =~= whole);
        let mut total: usize = 0;
        while rest.len() > 0
            invariant
                self.wf(),
                n == whole.len() == all.len(),
                rest@.len() <= n,
                all_wf(whole),
                forall|i: int| 0 <= i < n ==> #[trigger] all[i] == whole[i].deep_view(),
                forall|i: int| 0 <= i < rest@.len() ==> rest@[i] == whole[n - 1 - i],
                symbols_in(all, n as int) <= usize::MAX,
                total == symbols_in(all, n - rest@.len()),
                self@ == with_all(old(self)@, all, n - rest@.len()),
            decreases rest@.len(),
        {
            let ghost done = n - rest@.len();
            if let Some(added) = rest.pop() {
                proof {
                    assert(added == whole[done]);
                    assert(all[done] == added.deep_view());
                    lemma_symbols_in(all, done + 1, n as int);
                    assert(added.deep_view().file.symbols.len()
                        == added.file_data.1.symbols@.len());
                }
                self.library_uris.insert(added.file_data.0.as_str(), ());
                total = total + added.file_data.1.symbols.len();
                self.apply_contribution_to_index(added);
            }
        }
        total
    }

    /// Puts files of libraries in place of what they entered before; hands out how many symbols
    /// they declare.
    pub fn apply_sources_contributions(&mut self, contributions: Vec<FileContributions>) -> (r:
        usize)
        requires
            old(self).wf(),
            all_wf(contributions@),
            symbols_in(contributions.deep_view(), contributions@.len() as int) <= usize::MAX,
        ensures
            final(self).wf(),
            final(self)@ == with_sources(old(self)@, contributions.deep_view()),
            r == symbols_in(contributions.deep_view(), contributions@.len() as int),
    {
        let ghost all = contributions.deep_view();
        assert(all.len() == contributions@.len());
        if contributions.len() == 0 {
            return 0;
        }
        let mut i: usize = 0;
        while i < contributions.len()
            invariant
                i <= contributions@.len(),
                self.wf(),
                all == contributions.deep_view(),
                self@ == without_all(old(self)@, all, i as int),
            decreases contributions@.len() - i,
        {
            assert(all[i as int] == contributions@[i as int].deep_view());
            self.remove_stale_for_uri(contributions[i].file_data.0.as_str());
            i += 1;
        }
        let total: usize = self.enter_all(contributions);
        self.names_changed();
        total
    }

    /// Indexes libraries that come as sources, told apart by whether they have changed; hands
    /// out how many symbols they declare. `parsed` holds what reading and parsing each of those
    /// gave that have changed.
    pub fn index_sources_jars(
        &mut self,
        cache: &mut Table<SourcesJarEntry>,
        partition: Partition,
        parsed: &Vec<Option<ParsedJarEntries>>,
    ) -> (r: usize)
        requires
            old(self).wf(),
            old(cache).wf(),
            all_wf(partition.contributions@),
            partition.missed@.len() == parsed@.len(),
            symbols_in(partition.contributions.deep_view(), partition.contributions@.len() as int)
                + parsed_symbols(parsed@, parsed@.len() as int) <= usize::MAX,
        ensures
            final(self).wf(),
            final(cache).wf(),
            final(cache)@ == refreshed(
                old(cache)@,
                partition.missed.deep_view(),
                parsed@,
                parsed@.len() as int,
            ),
            ({
                let all = partition.contributions.deep_view() + changed_contributions(
                    parsed@,
                    parsed@.len() as int,
                );
                &&& final(self)@ == with_sources(old(self)@, all)
                &&& r == symbols_in(all, all.len() as int)
            }),
    {
        let mut all = partition.contributions;
        let ghost a = all.deep_view();
        let mut more = parse_missed_sources_jars(cache, &partition.missed, parsed);
        let ghost b = more.deep_view();
        let ghost x = all@;
        let ghost y = more@;
        all.append(&mut more);
        proof {
            assert(all.deep_view() =~= a + b);
            lemma_symbols_add(a, b, b.len() as int);
            lemma_parsed_symbols(parsed@, parsed@.len() as int);
            assert forall|i: int| 0 <= i < all@.len() implies (#[trigger] all@[i]).wf() by {
                if i < x.len() {
                    assert(all@[i] == x[i]);
                } else {
                    assert(all@[i] == y[i - x.len()]);
                }
            }
        }
        self.apply_sources_contributions(all)
    }
}

/// Whether the cache must be written anew: where it lost libraries that are gone, or some have
/// changed.
pub fn sources_cache_dirty(pruned: bool, partition: &Partition) -> (r: bool)
    ensures
        r == (pruned || partition.missed@.len() > 0),
{
    pruned || partition.missed.len() > 0
}

/// What is kept of a library is used again as long as its file does not change.
pub proof fn law_kept_until_changed(
    cache: SourcesCache,
    missed: Seq<(Seq<char>, JarFingerprint)>,
    parsed: Seq<Option<ParsedJarEntries>>,
    i: int,
)
    requires
        missed.len() == parsed.len(),
        0 <= i < missed.len(),
        parsed[i] is Some,
        parsed[i]->0.complete,
        forall|j: int| i < j < missed.len() ==> (#[trigger] missed[j]).0 != missed[i].0,
    ensures
        fresh(
            refreshed(cache, missed, parsed, missed.len() as int),
            missed[i].0,
            missed[i].1,
        ),
{
    lemma_kept(cache, missed, parsed, i, missed.len() as int);
}

proof fn lemma_kept(
    cache: SourcesCache,
    missed: Seq<(Seq<char>, JarFingerprint)>,
    parsed: Seq<Option<ParsedJarEntries>>,
    i: int,
    n: int,
)
    requires
        missed.len() == parsed.len(),
        0 <= i < n <= missed.len(),
        parsed[i] is Some,
        parsed[i]->0.complete,
        forall|j: int| i < j < missed.len() ==> (#[trigger] missed[j]).0 != missed[i].0,
    ensures
        fresh(refreshed(cache, missed, parsed, n), missed[i].0, missed[i].1),
    decreases n,
{
    if n - 1 > i {
        lemma_kept(cache, missed, parsed, i, n - 1);
        assert(missed[n - 1].0 != missed[i].0);
    }
}

/// A library that could not be read or whose parsing broke off is looked at again next time.
pub proof fn law_incomplete_is_not_kept(
    cache: SourcesCache,
    missed: Seq<(Seq<char>, JarFingerprint)>,
    parsed: Seq<Option<ParsedJarEntries>>,
    path: Seq<char>,
    n: int,
)
    requires
        0 <= n <= missed.len(),
        missed.len() == parsed.len(),
        forall|i: int|
            0 <= i < n && (#[trigger] missed[i]).0 == path ==> parsed[i] is None
                || !parsed[i]->0.complete,
    ensures
        refreshed(cache, missed, parsed, n).dom().contains(path) == cache.dom().contains(path),
        cache.dom().contains(path) ==> refreshed(cache, missed, parsed, n)[path] == cache[path],
    decreases n,
{
    if n > 0 {
        law_incomplete_is_not_kept(cache, missed, parsed, path, n - 1);
        assert(missed[n - 1].0 == path ==> parsed[n - 1] is None || !parsed[n - 1]->0.complete);
    }
}

} // verus!
