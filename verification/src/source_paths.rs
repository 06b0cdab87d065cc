//! Indexing the source paths that the user configured: from a cache where one is up to date,
//! else by a scan that uses what it can of a cache.
use vstd::prelude::*;
use vstd::string::*;

use crate::apply;
use crate::cache;
use crate::cache::Seen;
use crate::contributions;
use crate::contributions::ContributionsView;
use crate::index::{IndexView, Indexer};
use crate::library;
use crate::library::{CacheEntryView, FileCacheEntry};
use crate::names;
use crate::paths;
use crate::table::Table;
use crate::types::{FileIndexResult, ResultView};
use crate::urls;

verus! {

// ---------------------------------------------------------------------------
// Scanning
// ---------------------------------------------------------------------------

/// Library files by path, where a cache is known.
pub type LibraryCache = Option<Map<Seq<char>, CacheEntryView>>;

/// What a cache holds of a file that has not changed.
pub open spec fn hit(lib_cache: LibraryCache, path: Seq<char>, seen: Seen) -> Option<CacheEntryView> {
    match lib_cache {
        Some(m) => if m.dom().contains(path) && cache::unchanged(m[path], seen) {
            Some(m[path])
        } else {
            None
        },
        None => None,
    }
}

/// The files of a cache.
pub open spec fn files_of(lib_cache: Option<&Table<FileCacheEntry>>) -> LibraryCache {
    match lib_cache {
        Some(t) => Some(t@),
        None => None,
    }
}

/// What a cache holds of a file that has not changed. `seen` is what the system says of it.
pub fn try_cache_hit<'a>(
    lib_cache: Option<&'a Table<FileCacheEntry>>,
    path: &str,
    seen: Seen,
) -> (r: Option<&'a FileCacheEntry>)
    requires
        match lib_cache {
            Some(t) => t.wf(),
            None => true,
        },
    ensures
        match r {
            Some(e) => hit(files_of(lib_cache), path@, seen) == Some(e.deep_view()),
            None => hit(files_of(lib_cache), path@, seen) is None,
        },
{
    match lib_cache {
        Some(t) => match t.get(path) {
            Some(entry) => match seen {
                Some((Some(mtime), size)) => if mtime == entry.mtime_secs && size
                    == entry.file_size {
                    Some(entry)
                } else {
                    None
                },
                _ => None,
            },
            None => None,
        },
        None => None,
    }
}

/// A result that a cache gives.
pub open spec fn cached_result(uri: Seq<char>, e: CacheEntryView) -> ResultView {
    ResultView {
        uri,
        data: e.file_data,
        supertypes: contributions::supertypes_of(e.file_data, uri),
        content_hash: e.content_hash,
        error: None,
    }
}

/// The results that a cache gives for the first `n` files.
pub open spec fn hits(
    files: Seq<Seq<char>>,
    uris: Seq<Option<Seq<char>>>,
    seen: Seq<Seen>,
    lib_cache: LibraryCache,
    n: int,
) -> Seq<ResultView>
    decreases n,
{
    if n <= 0 || n > files.len() || n > uris.len() || n > seen.len() {
        Seq::empty()
    } else {
        let before = hits(files, uris, seen, lib_cache, n - 1);
        match (uris[n - 1], hit(lib_cache, files[n - 1], seen[n - 1])) {
            (Some(uri), Some(e)) => before.push(cached_result(uri, e)),
            _ => before,
        }
    }
}

/// Those of the first `n` files that must be parsed, each with its URI.
pub open spec fn misses(
    files: Seq<Seq<char>>,
    uris: Seq<Option<Seq<char>>>,
    seen: Seq<Seen>,
    lib_cache: LibraryCache,
    n: int,
) -> Seq<(Seq<char>, Seq<char>)>
    decreases n,
{
    if n <= 0 || n > files.len() || n > uris.len() || n > seen.len() {
        Seq::empty()
    } else {
        let before = misses(files, uris, seen, lib_cache, n - 1);
        match (uris[n - 1], hit(lib_cache, files[n - 1], seen[n - 1])) {
            (Some(uri), None) => before.push((files[n - 1], uri)),
            _ => before,
        }
    }
}

/// The URIs of those of the first `n` files that lie outside the workspace.
pub open spec fn outside_uris(
    files: Seq<Seq<char>>,
    uris: Seq<Option<Seq<char>>>,
    root: Seq<char>,
    n: int,
) -> Seq<Seq<char>>
    decreases n,
{
    if n <= 0 || n > files.len() || n > uris.len() {
        Seq::empty()
    } else {
        let before = outside_uris(files, uris, root, n - 1);
        match uris[n - 1] {
            Some(uri) => if paths::below(files[n - 1], root) {
                before
            } else {
                before.push(uri)
            },
            None => before,
        }
    }
}

/// What a scan of one source path has to do.
pub struct ScanPlan {
    /// The results that the cache gives.
    pub hits: Vec<FileIndexResult>,
    /// The files that must be parsed, each with its URI.
    pub to_parse: Vec<(String, String)>,
    /// The URIs of the files that belong to a library: those outside the workspace.
    pub library_uris: Vec<String>,
}

/// What a scan of one source path has to do. `files` are the files found there, `uris` their
/// URIs, `seen` what the system says of them.
pub fn plan_scan(
    files: &Vec<String>,
    uris: &Vec<Option<String>>,
    seen: &Vec<Seen>,
    lib_cache: Option<&Table<FileCacheEntry>>,
    workspace_root: &str,
) -> (r: ScanPlan)
    requires
        files@.len() == uris@.len() == seen@.len(),
        match lib_cache {
            Some(t) => t.wf(),
            None => true,
        },
    ensures
        r.hits.deep_view() == hits(
            files.deep_view(),
            uris.deep_view(),
            seen@,
            files_of(lib_cache),
            files@.len() as int,
        ),
        r.to_parse.deep_view() == misses(
            files.deep_view(),
            uris.deep_view(),
            seen@,
            files_of(lib_cache),
            files@.len() as int,
        ),
        r.library_uris.deep_view() == outside_uris(
            files.deep_view(),
            uris.deep_view(),
            workspace_root@,
            files@.len() as int,
        ),
{
    let ghost fs = files.deep_view();
    let ghost us = uris.deep_view();
    let ghost known = files_of(lib_cache);
    let mut found: Vec<FileIndexResult> = Vec::new();
    let mut to_parse: Vec<(String, String)> = Vec::new();
    let mut library_uris: Vec<String> = Vec::new();
    let mut i: usize = 0;
    assert(found.deep_view() =~= hits(fs, us, seen@, known, 0));
    assert(to_parse.deep_view() =~= misses(fs, us, seen@, known, 0));
    assert(library_uris.deep_view() =~= outside_uris(fs, us, workspace_root@, 0));
    while i < files.len()
        invariant
            i <= files@.len() == uris@.len() == seen@.len(),
            match lib_cache {
                Some(t) => t.wf(),
                None => true,
            },
            fs == files.deep_view(),
            us == uris.deep_view(),
            known == files_of(lib_cache),
            found.deep_view() == hits(fs, us, seen@, known, i as int),
            to_parse.deep_view() == misses(fs, us, seen@, known, i as int),
            library_uris.deep_view() == outside_uris(fs, us, workspace_root@, i as int),
        decreases files@.len() - i,
    {
        let path = files[i].as_str();
        let ghost a = found.deep_view();
        let ghost b = to_parse.deep_view();
        let ghost c = library_uris.deep_view();
        assert(fs[i as int] == path@);
        assert(us[i as int] == uris@[i as int].deep_view());
        if let Some(uri) = &uris[i] {
            if !paths::is_below(path, workspace_root) {
                library_uris.push(uri.clone());
                assert(library_uris.deep_view() =~= c.push(uri@));
            }
            match try_cache_hit(lib_cache, path, seen[i]) {
                Some(entry) => {
                    let result = library::cache_entry_to_file_result(uri.as_str(), entry);
                    assert(result.deep_view() =~= cached_result(uri@, entry.deep_view()));
                    found.push(result);
                    assert(found.deep_view() =~= a.push(cached_result(uri@, entry.deep_view())));
                },
                None => {
                    to_parse.push((path.to_owned(), uri.clone()));
                    assert(to_parse.deep_view() =~= b.push((path@, uri@)));
                },
            }
        }
        i += 1;
    }
    ScanPlan { hits: found, to_parse, library_uris }
}

/// The URIs of paths, as the system writes them; none for a path that is not absolute.
pub fn uris_of_paths(files: &Vec<String>) -> (r: Vec<Option<String>>)
    ensures
        urls::urls_fit(files.deep_view(), r.deep_view()),
{
    let ghost paths = files.deep_view();
    let mut out: Vec<Option<String>> = Vec::new();
    let mut i: usize = 0;
    while i < files.len()
        invariant
            i <= files@.len(),
            out@.len() == i,
            paths == files.deep_view(),
            forall|k: int| 0 <= k < i ==> urls::url_fits(paths[k], (#[trigger] out@[k]).deep_view()),
        decreases files@.len() - i,
    {
        assert(paths[i as int] == files@[i as int]@);
        out.push(urls::url_of_path(files[i].as_str()));
        i += 1;
    }
    proof {
        let found = out.deep_view();
        assert forall|k: int| 0 <= k < found.len() implies urls::url_fits(
            paths[k],
            #[trigger] found[k],
        ) by {
            assert(found[k] == out@[k].deep_view());
        }
    }
    out
}

/// What a scan of source paths found.
pub struct SourcePathScan {
    pub results: Vec<FileIndexResult>,
    pub new_library_uris: Vec<String>,
    pub cache_hits: usize,
}

impl SourcePathScan {
    /// A scan that has found nothing yet.
    pub fn new() -> (r: SourcePathScan)
        ensures
            r.results.deep_view() == Seq::<ResultView>::empty(),
            r.new_library_uris.deep_view() == Seq::<Seq<char>>::empty(),
            r.cache_hits == 0,
    {
        let r = SourcePathScan {
            results: Vec::new(),
            new_library_uris: Vec::new(),
            cache_hits: 0,
        };
        assert(r.results.deep_view() =~= Seq::<ResultView>::empty());
        assert(r.new_library_uris.deep_view() =~= Seq::<Seq<char>>::empty());
        r
    }

    /// Adds what one source path gave: the results that the cache gave, and those of parsing.
    pub fn take_in(&mut self, plan: ScanPlan, parsed: Vec<FileIndexResult>)
        requires
            old(self).cache_hits + plan.hits@.len() <= usize::MAX,
        ensures
            final(self).results.deep_view() == old(self).results.deep_view()
                + plan.hits.deep_view() + parsed.deep_view(),
            final(self).new_library_uris.deep_view() == old(self).new_library_uris.deep_view()
                + plan.library_uris.deep_view(),
            final(self).cache_hits == old(self).cache_hits + plan.hits@.len(),
    {
        let mut found = plan.hits;
        let mut parsed = parsed;
        let mut library_uris = plan.library_uris;
        let ghost a = found.deep_view();
        let ghost b = parsed.deep_view();
        let ghost c = library_uris.deep_view();
        self.cache_hits = self.cache_hits + found.len();
        self.results.append(&mut found);
        self.results.append(&mut parsed);
        self.new_library_uris.append(&mut library_uris);
        proof {
            assert(self.results.deep_view() =~= old(self).results.deep_view() + a + b);
            assert(self.new_library_uris.deep_view() =~= old(self).new_library_uris.deep_view()
                + c);
        }
    }
}

// ---------------------------------------------------------------------------
// Entering what a scan found
// ---------------------------------------------------------------------------

/// What a result contributes, where private symbols of libraries count for nothing.
pub open spec fn scan_contribution(r: ResultView, library_uris: Seq<Seq<char>>) -> ContributionsView {
    contributions::contributions(
        contributions::library_result(r.data, r.uri, library_uris),
        r.uri,
        r.content_hash,
        r.supertypes,
    )
}

/// An index that has taken in the first `n` results of a scan.
pub open spec fn with_results(
    v: IndexView,
    results: Seq<ResultView>,
    library_uris: Seq<Seq<char>>,
    n: int,
) -> IndexView
    decreases n,
{
    if n <= 0 || n > results.len() {
        v
    } else {
        apply::with_contributions(
            with_results(v, results, library_uris, n - 1),
            scan_contribution(results[n - 1], library_uris),
        )
    }
}

/// An index that has taken in what a scan found.
pub open spec fn with_scan(
    v: IndexView,
    results: Seq<ResultView>,
    library_uris: Seq<Seq<char>>,
) -> IndexView {
    let w = with_results(v, results, library_uris, results.len() as int);
    names::refreshed(
        IndexView { library_uris: library::with_members(w.library_uris, library_uris), ..w },
    )
}

impl Indexer {
    /// Enters what a scan of source paths found. Files of libraries keep their private symbols
    /// to themselves.
    pub fn apply_source_path_scan(&mut self, scan: SourcePathScan)
        requires
            old(self).wf(),
        ensures
            final(self).wf(),
            final(self)@ == with_scan(
                old(self)@,
                scan.results.deep_view(),
                scan.new_library_uris.deep_view(),
            ),
    {
        let ghost all = scan.results.deep_view();
        let ghost whole = scan.results@;
        let ghost libs = scan.new_library_uris.deep_view();
        let results = contributions::strip_library_private_symbols(
            scan.results,
            &scan.new_library_uris,
        );
        let mut i: usize = 0;
        while i < results.len()
            invariant
                i <= results@.len() == all.len(),
                self.wf(),
                whole.len() == all.len(),
                forall|k: int| 0 <= k < all.len() ==> #[trigger] all[k] == whole[k].deep_view(),
                forall|k: int|
                    0 <= k < whole.len() ==> {
                        &&& (#[trigger] results@[k]).uri@ == whole[k].uri@
                        &&& results@[k].supertypes.deep_view() == whole[k].supertypes.deep_view()
                        &&& results@[k].content_hash == whole[k].content_hash
                        &&& results@[k].data.deep_view() == contributions::library_result(
                            whole[k].data.deep_view(),
                            whole[k].uri@,
                            libs,
                        )
                    },
                self@ == with_results(old(self)@, all, libs, i as int),
            decreases results@.len() - i,
        {
            assert(all[i as int] == whole[i as int].deep_view());
            let added = contributions::file_contributions(&results[i]);
            assert(added.deep_view() == scan_contribution(all[i as int], libs));
            self.apply_contributions(added);
            i += 1;
        }
        library::add_members(&mut self.library_uris, &scan.new_library_uris);
        self.rebuild_bare_name_cache();
    }
}

// ---------------------------------------------------------------------------
// From cache or by a scan
// ---------------------------------------------------------------------------

/// How far indexing the source paths is.
#[derive(Clone, Copy, Debug, PartialEq, Eq, Structural)]
pub enum SourceState {
    Start,
    AwaitManifest,
    AwaitFirstChunk(u32),
    AwaitFreshness(u32),
    /// Loading what is left of a cache that is out of date: how many files it has, which is
    /// loaded.
    LoadingStale(u32, u32),
    /// Loading what is left of a cache that is up to date.
    LoadingFresh(u32, u32),
    Scanning,
    Finished,
}

/// What has happened.
#[derive(Clone, Copy, Debug, PartialEq, Eq, Structural)]
pub enum SourceEvent {
    /// Indexing begins; whether any source path is configured.
    Begin(bool),
    /// How many files the cache has, where it can be used.
    Manifest(Option<u32>),
    /// Whether a file of the cache could be loaded.
    Chunk(bool),
    /// Whether the cache is up to date.
    Fresh(bool),
    /// The scan is done; whether the workspace is still the same.
    Scanned(bool),
}

/// What is to be done next.
#[derive(Clone, Copy, Debug, PartialEq, Eq, Structural)]
pub enum SourceAction {
    LoadManifest,
    LoadChunk(u32),
    CheckFreshness,
    /// Scan the source paths; whether what was loaded of the cache can be used.
    Scan(bool),
    /// Remove the manifest, so that the cache is written anew, and scan.
    DiscardManifestAndScan,
    /// Enter every file of the cache.
    RestoreChunks(u32),
    /// Enter what the scan found, and write the cache anew.
    ApplyScan,
    Stop,
}

/// The step of indexing the source paths that follows an event. An event that does not fit ends
/// it.
pub open spec fn advance(state: SourceState, event: SourceEvent) -> (SourceState, SourceAction) {
    match (state, event) {
        (SourceState::Start, SourceEvent::Begin(configured)) => if configured {
            (SourceState::AwaitManifest, SourceAction::LoadManifest)
        } else {
            (SourceState::Finished, SourceAction::Stop)
        },
        (SourceState::AwaitManifest, SourceEvent::Manifest(None)) => (
            SourceState::Scanning,
            SourceAction::Scan(false),
        ),
        (SourceState::AwaitManifest, SourceEvent::Manifest(Some(count))) => if count == 0 {
            (SourceState::Finished, SourceAction::Stop)
        } else {
            (SourceState::AwaitFirstChunk(count), SourceAction::LoadChunk(0))
        },
        (SourceState::AwaitFirstChunk(count), SourceEvent::Chunk(ok)) => if ok {
            (SourceState::AwaitFreshness(count), SourceAction::CheckFreshness)
        } else {
            (SourceState::Scanning, SourceAction::Scan(false))
        },
        (SourceState::AwaitFreshness(count), SourceEvent::Fresh(fresh)) => if fresh {
            if count > 1 {
                (SourceState::LoadingFresh(count, 1), SourceAction::LoadChunk(1))
            } else {
                (SourceState::Finished, SourceAction::RestoreChunks(count))
            }
        } else if count > 1 {
            (SourceState::LoadingStale(count, 1), SourceAction::LoadChunk(1))
        } else {
            (SourceState::Scanning, SourceAction::Scan(true))
        },
        (SourceState::LoadingStale(count, n), SourceEvent::Chunk(_)) => if n + 1 < count {
            (
                SourceState::LoadingStale(count, (n + 1) as u32),
                SourceAction::LoadChunk((n + 1) as u32),
            )
        } else {
            (SourceState::Scanning, SourceAction::Scan(true))
        },
        (SourceState::LoadingFresh(count, n), SourceEvent::Chunk(ok)) => if !ok {
            (SourceState::Scanning, SourceAction::DiscardManifestAndScan)
        } else if n + 1 < count {
            (
                SourceState::LoadingFresh(count, (n + 1) as u32),
                SourceAction::LoadChunk((n + 1) as u32),
            )
        } else {
            (SourceState::Finished, SourceAction::RestoreChunks(count))
        },
        (SourceState::Scanning, SourceEvent::Scanned(same_root)) => if same_root {
            (SourceState::Finished, SourceAction::ApplyScan)
        } else {
            (SourceState::Finished, SourceAction::Stop)
        },
        _ => (SourceState::Finished, SourceAction::Stop),
    }
}

/// The step of indexing the source paths that follows an event.
pub fn index_source_paths(state: SourceState, event: SourceEvent) -> (r: (
    SourceState,
    SourceAction,
))
    ensures
        r == advance(state, event),
{
    match (state, event) {
        (SourceState::Start, SourceEvent::Begin(configured)) => if configured {
            (SourceState::AwaitManifest, SourceAction::LoadManifest)
        } else {
            (SourceState::Finished, SourceAction::Stop)
        },
        (SourceState::AwaitManifest, SourceEvent::Manifest(None)) => (
            SourceState::Scanning,
            SourceAction::Scan(false),
        ),
        (SourceState::AwaitManifest, SourceEvent::Manifest(Some(count))) => if count == 0 {
            (SourceState::Finished, SourceAction::Stop)
        } else {
            (SourceState::AwaitFirstChunk(count), SourceAction::LoadChunk(0))
        },
        (SourceState::AwaitFirstChunk(count), SourceEvent::Chunk(ok)) => if ok {
            (SourceState::AwaitFreshness(count), SourceAction::CheckFreshness)
        } else {
            (SourceState::Scanning, SourceAction::Scan(false))
        },
        (SourceState::AwaitFreshness(count), SourceEvent::Fresh(fresh)) => if fresh {
            if count > 1 {
                (SourceState::LoadingFresh(count, 1), SourceAction::LoadChunk(1))
            } else {
                (SourceState::Finished, SourceAction::RestoreChunks(count))
            }
        } else if count > 1 {
            (SourceState::LoadingStale(count, 1), SourceAction::LoadChunk(1))
        } else {
            (SourceState::Scanning, SourceAction::Scan(true))
        },
        (SourceState::LoadingStale(count, n), SourceEvent::Chunk(_)) => if n < u32::MAX && n + 1
            < count {
            (SourceState::LoadingStale(count, n + 1), SourceAction::LoadChunk(n + 1))
        } else {
            (SourceState::Scanning, SourceAction::Scan(true))
        },
        (SourceState::LoadingFresh(count, n), SourceEvent::Chunk(ok)) => if !ok {
            (SourceState::Scanning, SourceAction::DiscardManifestAndScan)
        } else if n < u32::MAX && n + 1 < count {
            (SourceState::LoadingFresh(count, n + 1), SourceAction::LoadChunk(n + 1))
        } else {
            (SourceState::Finished, SourceAction::RestoreChunks(count))
        },
        (SourceState::Scanning, SourceEvent::Scanned(same_root)) => if same_root {
            (SourceState::Finished, SourceAction::ApplyScan)
        } else {
            (SourceState::Finished, SourceAction::Stop)
        },
        _ => (SourceState::Finished, SourceAction::Stop),
    }
}

/// Where indexing the source paths is after events.
pub open spec fn state_after(events: Seq<SourceEvent>) -> SourceState
    decreases events.len(),
{
    if events.len() == 0 {
        SourceState::Start
    } else {
        advance(state_after(events.drop_last()), events.last()).0
    }
}

/// The file of the cache that is being loaded.
pub open spec fn loading(state: SourceState) -> Option<u32> {
    match state {
        SourceState::AwaitFirstChunk(_) => Some(0u32),
        SourceState::LoadingStale(_, n) => Some(n),
        SourceState::LoadingFresh(_, n) => Some(n),
        _ => None,
    }
}

/// The files of the cache that could be loaded.
pub open spec fn loaded(events: Seq<SourceEvent>) -> Set<u32>
    decreases events.len(),
{
    if events.len() == 0 {
        Set::empty()
    } else {
        let before = loaded(events.drop_last());
        match (loading(state_after(events.drop_last())), events.last()) {
            (Some(n), SourceEvent::Chunk(true)) => before.insert(n),
            _ => before,
        }
    }
}

/// Whether the first `n` files of the cache could be loaded.
pub open spec fn loaded_up_to(events: Seq<SourceEvent>, n: int) -> bool {
    forall|k: u32| k < n ==> #[trigger] loaded(events).contains(k)
}

proof fn lemma_loaded(events: Seq<SourceEvent>)
    ensures
        match state_after(events) {
            SourceState::AwaitFreshness(count) => count > 0 && loaded_up_to(events, 1),
            SourceState::AwaitFirstChunk(count) => count > 0,
            SourceState::LoadingFresh(count, n) => n < count && loaded_up_to(events, n as int),
            _ => true,
        },
    decreases events.len(),
{
    if events.len() > 0 {
        let before = events.drop_last();
        lemma_loaded(before);
        assert forall|k: u32| #[trigger] loaded(before).contains(k) implies loaded(
            events,
        ).contains(k) by {}
        assert forall|n: int| #[trigger] loaded_up_to(before, n) implies loaded_up_to(events, n) by {
            assert forall|k: u32| k < n implies #[trigger] loaded(events).contains(k) by {
                assert(loaded(before).contains(k));
            }
        }
        match state_after(before) {
            SourceState::AwaitFirstChunk(count) => {
                if events.last() == SourceEvent::Chunk(true) {
                    assert(loaded(events).contains(0u32));
                    assert(loaded_up_to(events, 1));
                }
            },
            SourceState::LoadingFresh(count, n) => {
                if events.last() == SourceEvent::Chunk(true) {
                    assert(loaded_up_to(events, n as int));
                    assert(loaded(events).contains(n));
                    assert(loaded_up_to(events, n + 1));
                }
            },
            _ => {},
        }
    }
}

/// A cache is entered only when every file of it could be loaded, so that the index never holds
/// a part of one.
pub proof fn law_cache_is_entered_whole(events: Seq<SourceEvent>, event: SourceEvent, count: u32)
    requires
        advance(state_after(events), event).1 == SourceAction::RestoreChunks(count),
    ensures
        loaded_up_to(events.push(event), count as int),
{
    let all = events.push(event);
    lemma_loaded(events);
    assert(all.drop_last() =~= events);
    assert forall|k: u32| k < count implies #[trigger] loaded(all).contains(k) by {
        if let SourceState::LoadingFresh(c, n) = state_after(events) {
            if k < n {
                assert(loaded(events).contains(k));
            }
        } else {
            assert(loaded(events).contains(k));
        }
    }
}

/// What a scan found is entered only where the workspace is still the one that was scanned for.
pub proof fn law_scan_of_another_workspace_is_dropped(
    state: SourceState,
    event: SourceEvent,
)
    requires
        advance(state, event).1 == SourceAction::ApplyScan,
    ensures
        state == SourceState::Scanning,
        event == SourceEvent::Scanned(true),
{
}

/// How many more events indexing the source paths can take.
pub open spec fn steps_left(state: SourceState) -> int {
    match state {
        SourceState::Start => 0x1_0000_0004,
        SourceState::AwaitManifest => 0x1_0000_0003,
        SourceState::AwaitFirstChunk(count) => count + 3,
        SourceState::AwaitFreshness(count) => count + 2,
        SourceState::LoadingStale(count, n) => if n < count {
            count - n + 1
        } else {
            2
        },
        SourceState::LoadingFresh(count, n) => if n < count {
            count - n + 1
        } else {
            2
        },
        SourceState::Scanning => 1,
        SourceState::Finished => 0,
    }
}

/// Every event brings indexing the source paths nearer to its end.
pub proof fn law_source_paths_come_to_an_end(state: SourceState, event: SourceEvent)
    requires
        state != SourceState::Finished,
    ensures
        0 <= steps_left(advance(state, event).0) < steps_left(state),
{
}

} // verus!
