//! What is kept of an index between runs.
use vstd::prelude::*;
use vstd::string::*;

use crate::contributions;
use crate::group;
use crate::index::{IndexView, Indexer};
use crate::layouts::{BindingView, GeneratedBindingEntry, LayoutFileData, LayoutView};
use crate::library;
use crate::library::{BatchView, CacheEntryView, FileCacheEntry};
use crate::merge;
use crate::paths;
use crate::table::Table;
use crate::types::{FileData, FileView, Replicate};
use crate::urls;

verus! {

/// The form in which caches are written. A cache of another form is not read.
pub const CACHE_VERSION: u32 = 31;

/// How many files of libraries one file of the cache holds at most.
pub const LIBRARY_CHUNK_SIZE: usize = 2000;

/// How many files a library cache can have.
pub const MAX_LIBRARY_CHUNKS: u32 = 10_000;

/// What a cache stores of one layout.
pub struct LayoutCacheEntry {
    /// Time of the file's last change, in seconds since the Unix epoch.
    pub mtime_secs: u64,
    /// Size of the file in bytes.
    pub file_size: u64,
    pub data: LayoutFileData,
}

#[verifier::ext_equal]
pub struct LayoutEntryView {
    pub mtime_secs: u64,
    pub file_size: u64,
    pub data: LayoutView,
}

impl DeepView for LayoutCacheEntry {
    type V = LayoutEntryView;

    open spec fn deep_view(&self) -> LayoutEntryView {
        LayoutEntryView {
            mtime_secs: self.mtime_secs,
            file_size: self.file_size,
            data: self.data.deep_view(),
        }
    }
}

/// An index as it is kept.
pub struct IndexCache {
    pub version: u32,
    /// Whether the whole workspace was indexed.
    pub complete_scan: bool,
    /// Files by path.
    pub entries: Table<FileCacheEntry>,
    /// Layouts by path.
    pub layouts: Table<LayoutCacheEntry>,
    /// Generated binding classes by the root of their module.
    pub generated_bindings: Table<Vec<GeneratedBindingEntry>>,
}

#[verifier::ext_equal]
pub struct CacheView {
    pub version: u32,
    pub complete_scan: bool,
    pub entries: Map<Seq<char>, CacheEntryView>,
    pub layouts: Map<Seq<char>, LayoutEntryView>,
    pub generated_bindings: Map<Seq<char>, Seq<BindingView>>,
}

impl View for IndexCache {
    type V = CacheView;

    open spec fn view(&self) -> CacheView {
        CacheView {
            version: self.version,
            complete_scan: self.complete_scan,
            entries: self.entries@,
            layouts: self.layouts@,
            generated_bindings: self.generated_bindings@,
        }
    }
}

impl IndexCache {
    /// Every table of the cache is in order.
    pub open spec fn wf(&self) -> bool {
        self.entries.wf() && self.layouts.wf() && self.generated_bindings.wf()
    }

    /// Whether the cache is of the form that this program reads.
    pub fn is_usable(&self) -> (r: bool)
        ensures
            r == (self@.version == CACHE_VERSION),
    {
        self.version == CACHE_VERSION
    }
}

// ---------------------------------------------------------------------------
// Files to keep
// ---------------------------------------------------------------------------

/// Whether a file belongs to a library, or to the workspace.
pub open spec fn of_library(v: IndexView, library: bool) -> spec_fn(Seq<char>) -> bool {
    |uri: Seq<char>| v.library_uris.dom().contains(uri) == library
}

/// A file, its path and what the system says of it.
#[derive(Debug, PartialEq, Eq)]
pub struct FileStat {
    pub uri: String,
    pub path: String,
    /// Time of the file's last change, in seconds since the Unix epoch; zero where it is not
    /// known.
    pub mtime_secs: u64,
    /// Size of the file in bytes; zero where it is not known.
    pub file_size: u64,
}

#[verifier::ext_equal]
pub struct StatView {
    pub uri: Seq<char>,
    pub path: Seq<char>,
    pub mtime_secs: u64,
    pub file_size: u64,
}

impl DeepView for FileStat {
    type V = StatView;

    open spec fn deep_view(&self) -> StatView {
        StatView {
            uri: self.uri@,
            path: self.path@,
            mtime_secs: self.mtime_secs,
            file_size: self.file_size,
        }
    }
}

/// The content hash of a file, zero where none is known.
pub open spec fn hash_of(v: IndexView, uri: Seq<char>) -> u64 {
    if v.content_hashes.dom().contains(uri) {
        v.content_hashes[uri]
    } else {
        0u64
    }
}

/// What is kept of a file, whose symbols may have the qualified names under `stem`.
pub open spec fn kept_entry(v: IndexView, s: StatView, f: FileView, stem: Option<Seq<char>>) -> CacheEntryView {
    CacheEntryView {
        mtime_secs: s.mtime_secs,
        file_size: s.file_size,
        content_hash: hash_of(v, s.uri),
        file_data: f,
        qualified_keys: contributions::qualified_keys(f, stem),
    }
}

/// Whether the index has the file, and it is one of the workspace, or of a library.
pub open spec fn known(v: IndexView, s: StatView, library: bool) -> bool {
    v.files.dom().contains(s.uri) && v.library_uris.dom().contains(s.uri) == library
}

/// What is kept of the first `n` files of the workspace, by path.
pub open spec fn workspace_entries(v: IndexView, stats: Seq<StatView>, n: int) -> Map<
    Seq<char>,
    CacheEntryView,
>
    decreases n,
{
    if n <= 0 || n > stats.len() {
        Map::empty()
    } else {
        let before = workspace_entries(v, stats, n - 1);
        let s = stats[n - 1];
        if known(v, s, false) {
            before.insert(
                s.path,
                kept_entry(v, s, v.files[s.uri], contributions::file_stem(s.uri)),
            )
        } else {
            before
        }
    }
}

/// What is kept of the first `n` layouts, by path.
pub open spec fn layout_entries(v: IndexView, stats: Seq<StatView>, n: int) -> Map<
    Seq<char>,
    LayoutEntryView,
>
    decreases n,
{
    if n <= 0 || n > stats.len() {
        Map::empty()
    } else {
        let before = layout_entries(v, stats, n - 1);
        let s = stats[n - 1];
        if v.layouts.dom().contains(s.uri) {
            before.insert(
                s.path,
                LayoutEntryView {
                    mtime_secs: s.mtime_secs,
                    file_size: s.file_size,
                    data: v.layouts[s.uri],
                },
            )
        } else {
            before
        }
    }
}

/// What is kept of an index: the files of the workspace, layouts and generated bindings.
pub open spec fn cache_of(
    v: IndexView,
    files: Seq<StatView>,
    layouts: Seq<StatView>,
    complete_scan: bool,
) -> CacheView {
    CacheView {
        version: CACHE_VERSION,
        complete_scan,
        entries: workspace_entries(v, files, files.len() as int),
        layouts: layout_entries(v, layouts, layouts.len() as int),
        generated_bindings: v.generated_bindings,
    }
}

/// A file without what is of no use for the symbols of a library: private symbols, the text,
/// and what serves only to complete and infer inside the file.
pub open spec fn library_file(f: FileView) -> FileView {
    FileView {
        symbols: f.symbols.filter(contributions::usable_outside()),
        lines: Seq::empty(),
        declared_names: Seq::empty(),
        imports: Seq::empty(),
        rhs_types: Seq::empty(),
        method_call_rhs: Seq::empty(),
        field_access_rhs: Seq::empty(),
        ..f
    }
}

/// What is kept of the first `n` files of libraries.
pub open spec fn library_entries(v: IndexView, stats: Seq<StatView>, n: int) -> Seq<
    (Seq<char>, CacheEntryView),
>
    decreases n,
{
    if n <= 0 || n > stats.len() {
        Seq::empty()
    } else {
        let before = library_entries(v, stats, n - 1);
        let s = stats[n - 1];
        if known(v, s, true) {
            before.push(
                (s.path, kept_entry(v, s, library_file(v.files[s.uri]), paths::stem(s.path))),
            )
        } else {
            before
        }
    }
}

impl Replicate for FileCacheEntry {
    fn replicate(&self) -> (r: Self) {
        FileCacheEntry {
            mtime_secs: self.mtime_secs,
            file_size: self.file_size,
            content_hash: self.content_hash,
            file_data: self.file_data.replicate(),
            qualified_keys: self.qualified_keys.replicate(),
        }
    }
}

/// A file without what is of no use for the symbols of a library.
pub fn strip_library_file_data(data: &FileData) -> (r: FileData)
    ensures
        r.deep_view() == library_file(data.deep_view()),
{
    let mut filtered = data.replicate();
    filtered.symbols = contributions::retain_usable(filtered.symbols);
    filtered.lines = Vec::new();
    filtered.declared_names = Vec::new();
    filtered.imports = Vec::new();
    filtered.rhs_types = Vec::new();
    filtered.method_call_rhs = Vec::new();
    filtered.field_access_rhs = Vec::new();
    assert(filtered.deep_view() =~~= library_file(data.deep_view()));
    filtered
}

/// Whether `pairs` gives each URI, in order, a path that may be its own.
pub open spec fn placed(pairs: Seq<(String, Option<String>)>, uris: Seq<Seq<char>>) -> bool {
    &&& pairs.len() == uris.len()
    &&& forall|i: int|
        0 <= i < pairs.len() ==> (#[trigger] pairs[i]).0@ == uris[i] && urls::path_fits(
            uris[i],
            pairs[i].1.deep_view(),
        )
}

fn with_paths(uris: Vec<String>) -> (r: Vec<(String, Option<String>)>)
    ensures
        placed(r@, uris.deep_view()),
{
    let ghost all = uris.deep_view();
    let mut out: Vec<(String, Option<String>)> = Vec::new();
    let mut i: usize = 0;
    while i < uris.len()
        invariant
            i <= uris@.len(),
            all == uris.deep_view(),
            out@.len() == i,
            forall|k: int|
                0 <= k < i ==> (#[trigger] out@[k]).0@ == all[k] && urls::path_fits(
                    all[k],
                    out@[k].1.deep_view(),
                ),
        decreases uris@.len() - i,
    {
        assert(all[i as int] == uris@[i as int]@);
        let path = urls::path_of_url(uris[i].as_str());
        out.push((uris[i].clone(), path));
        i += 1;
    }
    out
}

impl Indexer {
    /// The files of the workspace, or of libraries, in the order of the table.
    pub fn files_to_keep(&self, library: bool) -> (r: Vec<String>)
        requires
            self.wf(),
        ensures
            r.deep_view() == self.files.order().filter(of_library(self@, library)),
    {
        let ghost all = self.files.order();
        let ghost p = of_library(self@, library);
        let mut out: Vec<String> = Vec::new();
        let mut i: usize = 0;
        proof {
            reveal(Seq::filter);
            assert(out.deep_view() =~= all.take(0).filter(p));
        }
        while i < self.files.len()
            invariant
                self.wf(),
                i <= self.files.order().len(),
                all == self.files.order(),
                p == of_library(self@, library),
                out.deep_view() == all.take(i as int).filter(p),
            decreases self.files.order().len() - i,
        {
            let uri = self.files.key_at(i);
            let ghost before = out.deep_view();
            proof {
                assert(all.take(i as int).push(uri@) =~= all.take(i + 1));
                all.take(i as int).lemma_filter_push(uri@, p);
            }
            if self.library_uris.contains_key(uri) == library {
                out.push(uri.to_owned());
                assert(out.deep_view() =~= before.push(uri@));
            }
            i += 1;
        }
        assert(all.take(all.len() as int) =~= all);
        out
    }

    /// The files of the workspace, or of libraries, each with its path.
    pub fn paths_to_keep(&self, library: bool) -> (r: Vec<(String, Option<String>)>)
        requires
            self.wf(),
        ensures
            placed(r@, self.files.order().filter(of_library(self@, library))),
    {
        with_paths(self.files_to_keep(library))
    }

    /// The layouts, each with its path.
    pub fn layout_paths(&self) -> (r: Vec<(String, Option<String>)>)
        requires
            self.wf(),
        ensures
            placed(r@, self.layouts.order()),
    {
        let ghost all = self.layouts.order();
        let mut uris: Vec<String> = Vec::new();
        let mut i: usize = 0;
        while i < self.layouts.len()
            invariant
                self.wf(),
                i <= all.len(),
                all == self.layouts.order(),
                uris@.len() == i,
                forall|k: int| 0 <= k < i ==> (#[trigger] uris@[k])@ == all[k],
            decreases all.len() - i,
        {
            uris.push(self.layouts.key_at(i).to_owned());
            i += 1;
        }
        assert(uris.deep_view() =~= all);
        with_paths(uris)
    }

    fn hash_at(&self, uri: &str) -> (r: u64)
        requires
            self.wf(),
        ensures
            r == hash_of(self@, uri@),
    {
        match self.content_hashes.get(uri) {
            Some(h) => *h,
            None => 0,
        }
    }

    fn collect_workspace_entries(&self, stats: &Vec<FileStat>) -> (r: Table<FileCacheEntry>)
        requires
            self.wf(),
        ensures
            r.wf(),
            r@ == workspace_entries(self@, stats.deep_view(), stats@.len() as int),
    {
        let ghost all = stats.deep_view();
        let mut out: Table<FileCacheEntry> = Table::new();
        let mut i: usize = 0;
        while i < stats.len()
            invariant
                self.wf(),
                i <= stats@.len(),
                all == stats.deep_view(),
                out.wf(),
                out@ == workspace_entries(self@, all, i as int),
            decreases stats@.len() - i,
        {
            let s = &stats[i];
            assert(all[i as int] == s.deep_view());
            let uri = s.uri.as_str();
            if !self.library_uris.contains_key(uri) {
                if let Some(data) = self.files.get(uri) {
                    let stem = contributions::file_stem_from_uri(uri);
                    let stem_ref: Option<&str> = match &stem {
                        Some(t) => Some(t.as_str()),
                        None => None,
                    };
                    let entry = FileCacheEntry {
                        mtime_secs: s.mtime_secs,
                        file_size: s.file_size,
                        content_hash: self.hash_at(uri),
                        file_data: data.replicate(),
                        qualified_keys: contributions::build_qualified_keys(data, stem_ref),
                    };
                    out.insert(s.path.as_str(), entry);
                }
            }
            i += 1;
        }
        out
    }

    fn collect_layout_entries(&self, stats: &Vec<FileStat>) -> (r: Table<LayoutCacheEntry>)
        requires
            self.wf(),
        ensures
            r.wf(),
            r@ == layout_entries(self@, stats.deep_view(), stats@.len() as int),
    {
        let ghost all = stats.deep_view();
        let mut out: Table<LayoutCacheEntry> = Table::new();
        let mut i: usize = 0;
        while i < stats.len()
            invariant
                self.wf(),
                i <= stats@.len(),
                all == stats.deep_view(),
                out.wf(),
                out@ == layout_entries(self@, all, i as int),
            decreases stats@.len() - i,
        {
            let s = &stats[i];
            assert(all[i as int] == s.deep_view());
            if let Some(data) = self.layouts.get(s.uri.as_str()) {
                let entry = LayoutCacheEntry {
                    mtime_secs: s.mtime_secs,
                    file_size: s.file_size,
                    data: data.replicate(),
                };
                out.insert(s.path.as_str(), entry);
            }
            i += 1;
        }
        out
    }

    /// What is kept of the index: the files of the workspace and the layouts of which the
    /// system says something, and generated bindings.
    pub fn build_cache(
        &self,
        files: &Vec<FileStat>,
        layouts: &Vec<FileStat>,
        complete_scan: bool,
    ) -> (r: IndexCache)
        requires
            self.wf(),
        ensures
            r.wf(),
            r@ == cache_of(self@, files.deep_view(), layouts.deep_view(), complete_scan),
    {
        let entries = self.collect_workspace_entries(files);
        let layout_table = self.collect_layout_entries(layouts);
        let mut bindings: Table<Vec<GeneratedBindingEntry>> = Table::new();
        merge::overwrite_all(&mut bindings, &self.generated_bindings);
        assert(bindings@ =~= self.generated_bindings@);
        IndexCache {
            version: CACHE_VERSION,
            complete_scan,
            entries,
            layouts: layout_table,
            generated_bindings: bindings,
        }
    }

    /// What is kept of the files of libraries of which the system says something.
    pub fn collect_library_entries(&self, stats: &Vec<FileStat>) -> (r: Vec<
        (String, FileCacheEntry),
    >)
        requires
            self.wf(),
        ensures
            r.deep_view() == library_entries(self@, stats.deep_view(), stats@.len() as int),
    {
        let ghost all = stats.deep_view();
        let mut out: Vec<(String, FileCacheEntry)> = Vec::new();
        let mut i: usize = 0;
        assert(out.deep_view() =~= library_entries(self@, all, 0));
        while i < stats.len()
            invariant
                self.wf(),
                i <= stats@.len(),
                all == stats.deep_view(),
                out.deep_view() == library_entries(self@, all, i as int),
            decreases stats@.len() - i,
        {
            let s = &stats[i];
            let ghost before = out.deep_view();
            assert(all[i as int] == s.deep_view());
            let uri = s.uri.as_str();
            if self.library_uris.contains_key(uri) {
                if let Some(data) = self.files.get(uri) {
                    let filtered = strip_library_file_data(data);
                    let stem = paths::file_stem(s.path.as_str());
                    let stem_ref: Option<&str> = match &stem {
                        Some(t) => Some(t.as_str()),
                        None => None,
                    };
                    let keys = contributions::build_qualified_keys(&filtered, stem_ref);
                    let entry = FileCacheEntry {
                        mtime_secs: s.mtime_secs,
                        file_size: s.file_size,
                        content_hash: self.hash_at(uri),
                        file_data: filtered,
                        qualified_keys: keys,
                    };
                    let ghost e = entry.deep_view();
                    out.push((s.path.clone(), entry));
                    assert(out.deep_view() =~= before.push((s.path@, e)));
                }
            }
            i += 1;
        }
        out
    }
}

proof fn lemma_workspace_entry(v: IndexView, stats: Seq<StatView>, i: int, n: int)
    requires
        0 <= i < n <= stats.len(),
        known(v, stats[i], false),
        forall|j: int| i < j < n ==> (#[trigger] stats[j]).path != stats[i].path,
    ensures
        workspace_entries(v, stats, n).dom().contains(stats[i].path),
        workspace_entries(v, stats, n)[stats[i].path] == kept_entry(
            v,
            stats[i],
            v.files[stats[i].uri],
            contributions::file_stem(stats[i].uri),
        ),
    decreases n,
{
    if n - 1 > i {
        lemma_workspace_entry(v, stats, i, n - 1);
        assert(stats[n - 1].path != stats[i].path);
    }
}

proof fn lemma_only_workspace(v: IndexView, stats: Seq<StatView>, path: Seq<char>, n: int)
    requires
        0 <= n <= stats.len(),
        forall|j: int| 0 <= j < n && (#[trigger] stats[j]).path == path ==> !known(v, stats[j], false),
    ensures
        !workspace_entries(v, stats, n).dom().contains(path),
    decreases n,
{
    if n > 0 {
        lemma_only_workspace(v, stats, path, n - 1);
        assert(stats[n - 1].path == path ==> !known(v, stats[n - 1], false));
    }
}

/// A file of the workspace is kept as the index has it: what it contributes when it comes back
/// from the cache is what it contributes now.
pub proof fn law_kept_file_comes_back(
    v: IndexView,
    files: Seq<StatView>,
    layouts: Seq<StatView>,
    complete_scan: bool,
    i: int,
)
    requires
        0 <= i < files.len(),
        known(v, files[i], false),
        forall|j: int| i < j < files.len() ==> (#[trigger] files[j]).path != files[i].path,
    ensures
        ({
            let uri = files[i].uri;
            let entries = cache_of(v, files, layouts, complete_scan).entries;
            let e = entries[files[i].path];
            &&& entries.dom().contains(files[i].path)
            &&& e.file_data == v.files[uri]
            &&& e.content_hash == hash_of(v, uri)
            &&& (e.mtime_secs, e.file_size) == (files[i].mtime_secs, files[i].file_size)
            &&& contributions::contributions(
                e.file_data,
                uri,
                e.content_hash,
                contributions::supertypes_of(e.file_data, uri),
            ) == contributions::contributions(
                v.files[uri],
                uri,
                hash_of(v, uri),
                contributions::supertypes_of(v.files[uri], uri),
            )
        }),
{
    lemma_workspace_entry(v, files, i, files.len() as int);
}

/// The names that are kept with a file of the workspace are those that it would be given anew:
/// an index that takes the file from the cache does not depend on whether they were kept.
pub proof fn law_kept_names_are_those_of_the_file(
    v: IndexView,
    s: StatView,
    b: BatchView,
    path: Seq<char>,
    workspace_root: Seq<char>,
)
    ensures
        ({
            let e = kept_entry(v, s, v.files[s.uri], contributions::file_stem(s.uri));
            let bare = CacheEntryView { qualified_keys: Seq::empty(), ..e };
            library::with_entry(b, s.uri, path, e, workspace_root) == library::with_entry(
                b,
                s.uri,
                path,
                bare,
                workspace_root,
            )
        }),
{
    let e = kept_entry(v, s, v.files[s.uri], contributions::file_stem(s.uri));
    let bare = CacheEntryView { qualified_keys: Seq::empty(), ..e };
    assert(library::entry_keys(s.uri, e) == library::entry_keys(s.uri, bare));
}

/// No file of a library is kept with those of the workspace.
pub proof fn law_libraries_stay_out_of_the_cache(
    v: IndexView,
    files: Seq<StatView>,
    layouts: Seq<StatView>,
    complete_scan: bool,
    path: Seq<char>,
)
    requires
        forall|j: int|
            0 <= j < files.len() && (#[trigger] files[j]).path == path
                ==> v.library_uris.dom().contains(files[j].uri),
    ensures
        !cache_of(v, files, layouts, complete_scan).entries.dom().contains(path),
{
    lemma_only_workspace(v, files, path, files.len() as int);
}

/// A cache that was read, where it can be used.
pub open spec fn accepted(c: CacheView) -> Option<CacheView> {
    if c.version == CACHE_VERSION {
        Some(c)
    } else {
        None
    }
}

/// A cache that was read, where it can be used.
pub fn accept_cache(cache: IndexCache) -> (r: Option<IndexCache>)
    requires
        cache.wf(),
    ensures
        match r {
            Some(c) => c.wf() && accepted(cache@) == Some(c@),
            None => accepted(cache@) is None,
        },
{
    if cache.is_usable() {
        Some(cache)
    } else {
        None
    }
}

/// Whether a path is that of a file of the workspace that the index knows.
pub open spec fn of_workspace(v: IndexView, files: Seq<StatView>, path: Seq<char>) -> bool {
    exists|i: int|
        0 <= i < files.len() && (#[trigger] files[i]).path == path && known(v, files[i], false)
}

/// The cache that is kept of an index is one that can be used when it is read. Its entries are
/// just those of the files of the workspace, each as the index has it.
pub proof fn law_kept_cache_is_accepted(
    v: IndexView,
    files: Seq<StatView>,
    layouts: Seq<StatView>,
    complete_scan: bool,
)
    requires
        forall|i: int, j: int|
            0 <= i < j < files.len() ==> (#[trigger] files[i]).path != (#[trigger] files[j]).path,
    ensures
        ({
            let c = cache_of(v, files, layouts, complete_scan);
            &&& accepted(c) == Some(c)
            &&& c.version == CACHE_VERSION
            &&& c.complete_scan == complete_scan
            &&& forall|path: Seq<char>| #[trigger]
                c.entries.dom().contains(path) <==> of_workspace(v, files, path)
            &&& forall|i: int|
                0 <= i < files.len() && known(v, #[trigger] files[i], false) ==> {
                    let e = c.entries[files[i].path];
                    &&& e.file_data == v.files[files[i].uri]
                    &&& e.content_hash == hash_of(v, files[i].uri)
                }
        }),
{
    let c = cache_of(v, files, layouts, complete_scan);
    let n = files.len() as int;
    assert forall|path: Seq<char>| #[trigger]
        c.entries.dom().contains(path) <==> of_workspace(v, files, path) by {
        if of_workspace(v, files, path) {
            let i = choose|i: int|
                0 <= i < files.len() && (#[trigger] files[i]).path == path && known(
                    v,
                    files[i],
                    false,
                );
            lemma_workspace_entry(v, files, i, n);
        } else {
            lemma_only_workspace(v, files, path, n);
        }
    }
    assert forall|i: int| 0 <= i < files.len() && known(v, #[trigger] files[i], false) implies {
        let e = c.entries[files[i].path];
        &&& e.file_data == v.files[files[i].uri]
        &&& e.content_hash == hash_of(v, files[i].uri)
    } by {
        lemma_workspace_entry(v, files, i, n);
    }
}

/// Whether a cache may be written over one that is there. Unless the writer knows the whole
/// workspace, a larger cache is not replaced by a smaller one.
pub fn may_replace(existing: Option<u64>, new_size: u64, allow_shrink: bool) -> (r: bool)
    ensures
        r == (allow_shrink || match existing {
            Some(old_size) => old_size <= new_size,
            None => true,
        }),
{
    allow_shrink || match existing {
        Some(old_size) => old_size <= new_size,
        None => true,
    }
}

// ---------------------------------------------------------------------------
// Files of a library cache
// ---------------------------------------------------------------------------

/// How many files a library cache has that holds `total` files of libraries.
pub open spec fn chunks_for(total: nat) -> nat {
    (total + LIBRARY_CHUNK_SIZE - 1) as nat / LIBRARY_CHUNK_SIZE as nat
}

/// The entries that the `n`-th file of a library cache holds.
pub open spec fn chunk_entries<T>(entries: Seq<T>, n: int) -> Seq<T> {
    let from = n * LIBRARY_CHUNK_SIZE;
    let to = from + LIBRARY_CHUNK_SIZE;
    entries.subrange(
        from,
        if to < entries.len() {
            to
        } else {
            entries.len() as int
        },
    )
}

/// The `n`-th file of a library cache.
pub open spec fn chunk_cache(entries: Seq<(Seq<char>, CacheEntryView)>, n: int) -> CacheView {
    CacheView {
        version: CACHE_VERSION,
        complete_scan: true,
        entries: group::last_wins(chunk_entries(entries, n)),
        layouts: Map::empty(),
        generated_bindings: Map::empty(),
    }
}

/// How many files a library cache has that holds `total` files of libraries.
pub fn library_chunk_count(total: usize) -> (r: u32)
    requires
        total <= LIBRARY_CHUNK_SIZE * u32::MAX,
        total + LIBRARY_CHUNK_SIZE <= usize::MAX,
    ensures
        r == chunks_for(total as nat),
{
    let n: usize = (total + LIBRARY_CHUNK_SIZE - 1) / LIBRARY_CHUNK_SIZE;
    n as u32
}

/// The `n`-th file of a library cache.
pub fn library_chunk(entries: &Vec<(String, FileCacheEntry)>, n: u32) -> (r: IndexCache)
    requires
        n < chunks_for(entries@.len()),
    ensures
        r.wf(),
        r@ == chunk_cache(entries.deep_view(), n as int),
{
    let ghost all = entries.deep_view();
    let len: usize = entries.len();
    assert(n * LIBRARY_CHUNK_SIZE < len);
    let from: usize = n as usize * LIBRARY_CHUNK_SIZE;
    let to: usize = if len - from > LIBRARY_CHUNK_SIZE {
        from + LIBRARY_CHUNK_SIZE
    } else {
        len
    };
    let ghost piece = chunk_entries(all, n as int);
    let mut table: Table<FileCacheEntry> = Table::new();
    let mut i: usize = from;
    assert(piece.take(0) =~= Seq::empty());
    while i < to
        invariant
            from <= i <= to <= entries@.len(),
            all == entries.deep_view(),
            piece == all.subrange(from as int, to as int),
            table.wf(),
            table@ == group::last_wins(piece.take(i - from)),
        decreases to - i,
    {
        proof {
            let p = piece.take(i + 1 - from);
            assert(p.drop_last() =~= piece.take(i - from));
            assert(p.last() == entries@[i as int].deep_view());
        }
        table.insert(entries[i].0.as_str(), entries[i].1.replicate());
        i += 1;
    }
    assert(piece.take(to - from) =~= piece);
    let layouts: Table<LayoutCacheEntry> = Table::new();
    let generated_bindings: Table<Vec<GeneratedBindingEntry>> = Table::new();
    IndexCache { version: CACHE_VERSION, complete_scan: true, entries: table, layouts, generated_bindings }
}

/// The entries of the first `n` files of a library cache, one after the other.
pub open spec fn chunks_joined<T>(entries: Seq<T>, n: int) -> Seq<T>
    decreases n,
{
    if n <= 0 {
        Seq::empty()
    } else {
        chunks_joined(entries, n - 1) + chunk_entries(entries, n - 1)
    }
}

proof fn lemma_chunks_joined<T>(entries: Seq<T>, n: int)
    requires
        0 <= n <= chunks_for(entries.len()),
    ensures
        chunks_joined(entries, n) == entries.take(
            if n * LIBRARY_CHUNK_SIZE < entries.len() {
                n * LIBRARY_CHUNK_SIZE
            } else {
                entries.len() as int
            },
        ),
    decreases n,
{
    if n > 0 {
        lemma_chunks_joined(entries, n - 1);
        assert((n - 1) * LIBRARY_CHUNK_SIZE < entries.len());
        assert(chunks_joined(entries, n) =~= entries.take(
            if n * LIBRARY_CHUNK_SIZE < entries.len() {
                n * LIBRARY_CHUNK_SIZE
            } else {
                entries.len() as int
            },
        ));
    } else {
        assert(chunks_joined(entries, n) =~= entries.take(0));
    }
}

/// The files of a library cache hold every entry once, in order, and none holds more than its
/// share.
pub proof fn law_chunks_hold_everything<T>(entries: Seq<T>)
    ensures
        chunks_joined(entries, chunks_for(entries.len()) as int) == entries,
        forall|n: int|
            0 <= n < chunks_for(entries.len()) ==> 0 < (#[trigger] chunk_entries(entries, n)).len()
                <= LIBRARY_CHUNK_SIZE,
{
    lemma_chunks_joined(entries, chunks_for(entries.len()) as int);
    assert(entries.take(entries.len() as int) =~= entries);
}

/// What a library cache says of itself.
#[derive(Clone, Copy, Debug, PartialEq, Eq, Structural)]
pub struct LibraryManifest {
    pub version: u32,
    pub chunk_count: u32,
}

/// How many files a library cache has, where it can be used: where it is of the form that this
/// program reads, has a plausible number of files, and the first of them is there.
pub fn accept_manifest(manifest: &LibraryManifest, first_chunk_exists: bool) -> (r: Option<u32>)
    ensures
        r == if manifest.version == CACHE_VERSION && manifest.chunk_count <= MAX_LIBRARY_CHUNKS && (
        manifest.chunk_count == 0 || first_chunk_exists) {
            Some(manifest.chunk_count)
        } else {
            None
        },
{
    if manifest.version != CACHE_VERSION || manifest.chunk_count > MAX_LIBRARY_CHUNKS {
        return None;
    }
    if manifest.chunk_count > 0 && !first_chunk_exists {
        return None;
    }
    Some(manifest.chunk_count)
}

/// The files that a cache holds, where it can be used.
pub fn usable_entries(cache: IndexCache) -> (r: Option<Table<FileCacheEntry>>)
    requires
        cache.wf(),
    ensures
        match r {
            Some(t) => cache@.version == CACHE_VERSION && t.wf() && t@ == cache@.entries,
            None => cache@.version != CACHE_VERSION,
        },
{
    if cache.is_usable() {
        Some(cache.entries)
    } else {
        None
    }
}

// ---------------------------------------------------------------------------
// Whether a library cache is up to date
// ---------------------------------------------------------------------------

/// How many of `len` entries are looked at.
pub open spec fn sample_size(len: nat, limit: nat) -> nat {
    if limit < len {
        limit
    } else {
        len
    }
}

/// How far apart the entries lie that are looked at.
pub open spec fn sample_stride(len: nat, limit: nat) -> nat {
    let size = sample_size(len, limit);
    if size == 0 {
        1
    } else {
        len / size
    }
}

/// The positions of the entries that are looked at.
pub open spec fn sample(len: nat, limit: nat) -> Seq<int> {
    Seq::new(sample_size(len, limit), |k: int| k * sample_stride(len, limit))
}

proof fn lemma_sample(len: nat, limit: nat, k: int)
    requires
        0 <= k < sample_size(len, limit),
    ensures
        0 <= k * sample_stride(len, limit) < len,
        sample_stride(len, limit) > 0,
{
    let size = sample_size(len, limit) as int;
    let stride = sample_stride(len, limit) as int;
    assert(stride * size <= len && stride >= 1) by (nonlinear_arith)
        requires
            size > 0,
            size <= len,
            stride == len as int / size,
    ;
    assert(0 <= k * stride && k * stride <= stride * size - stride) by (nonlinear_arith)
        requires
            0 <= k,
            k <= size - 1,
            stride >= 1,
    ;
}

/// The positions of the entries that are looked at, spread evenly over all of them.
pub fn sample_positions(len: usize, limit: usize) -> (r: Vec<usize>)
    ensures
        r@.len() == sample_size(len as nat, limit as nat),
        forall|k: int|
            0 <= k < r@.len() ==> (#[trigger] r@[k]) as int == sample(len as nat, limit as nat)[k]
                && r@[k] < len,
{
    let mut out: Vec<usize> = Vec::new();
    let size: usize = if limit < len {
        limit
    } else {
        len
    };
    if size == 0 {
        return out;
    }
    let stride: usize = len / size;
    let mut k: usize = 0;
    while k < size
        invariant
            0 < size == sample_size(len as nat, limit as nat),
            stride == sample_stride(len as nat, limit as nat),
            k <= size,
            out@.len() == k,
            forall|j: int|
                0 <= j < k ==> (#[trigger] out@[j]) as int == sample(len as nat, limit as nat)[j]
                    && out@[j] < len,
        decreases size - k,
    {
        proof {
            lemma_sample(len as nat, limit as nat, k as int);
        }
        out.push(k * stride);
        k += 1;
    }
    out
}

/// What the system says of a file: when it was changed last, in seconds since the Unix epoch,
/// and its size.
pub type Seen = Option<(Option<u64>, u64)>;

/// Whether a file is still as an entry has it.
pub open spec fn unchanged(e: CacheEntryView, seen: Seen) -> bool {
    match seen {
        Some((Some(mtime), size)) => mtime == e.mtime_secs && size == e.file_size,
        _ => false,
    }
}

/// The paths of the entries that are looked at.
pub fn sampled_paths(chunk: &Table<FileCacheEntry>, limit: usize) -> (r: Vec<String>)
    requires
        chunk.wf(),
    ensures
        r@.len() == sample_size(chunk.order().len(), limit as nat),
        forall|k: int|
            0 <= k < r@.len() ==> (#[trigger] r@[k])@ == chunk.order()[sample(
                chunk.order().len(),
                limit as nat,
            )[k]],
{
    let positions = sample_positions(chunk.len(), limit);
    let mut out: Vec<String> = Vec::new();
    let mut k: usize = 0;
    while k < positions.len()
        invariant
            chunk.wf(),
            k <= positions@.len(),
            forall|j: int|
                0 <= j < positions@.len() ==> (#[trigger] positions@[j]) as int == sample(
                    chunk.order().len(),
                    limit as nat,
                )[j] && positions@[j] < chunk.order().len(),
            out@.len() == k,
            forall|j: int|
                0 <= j < k ==> (#[trigger] out@[j])@ == chunk.order()[positions@[j] as int],
        decreases positions@.len() - k,
    {
        out.push(chunk.key_at(positions[k]).to_owned());
        k += 1;
    }
    out
}

/// Whether the files that are looked at are still as their entries have them. `seen` is what the
/// system says of each.
pub fn sample_entries_fresh(chunk: &Table<FileCacheEntry>, limit: usize, seen: &Vec<Seen>) -> (r:
    bool)
    requires
        chunk.wf(),
        seen@.len() == sample_size(chunk.order().len(), limit as nat),
    ensures
        r == forall|k: int|
            0 <= k < seen@.len() ==> unchanged(
                chunk@[chunk.order()[sample(chunk.order().len(), limit as nat)[k]]],
                #[trigger] seen@[k],
            ),
{
    let positions = sample_positions(chunk.len(), limit);
    let mut k: usize = 0;
    while k < positions.len()
        invariant
            chunk.wf(),
            k <= positions@.len() == seen@.len(),
            forall|j: int|
                0 <= j < positions@.len() ==> (#[trigger] positions@[j]) as int == sample(
                    chunk.order().len(),
                    limit as nat,
                )[j] && positions@[j] < chunk.order().len(),
            forall|j: int|
                0 <= j < k ==> unchanged(
                    chunk@[chunk.order()[positions@[j] as int]],
                    #[trigger] seen@[j],
                ),
        decreases positions@.len() - k,
    {
        let entry = chunk.value_at(positions[k]);
        let same: bool = match seen[k] {
            Some((Some(mtime), size)) => mtime == entry.mtime_secs && size == entry.file_size,
            _ => false,
        };
        if !same {
            assert(!unchanged(chunk@[chunk.order()[positions@[k as int] as int]], seen@[k as int]));
            return false;
        }
        assert(positions@[k as int] as int == sample(chunk.order().len(), limit as nat)[k as int]);
        k += 1;
    }
    proof {
        assert forall|j: int| 0 <= j < seen@.len() implies unchanged(
            chunk@[chunk.order()[sample(chunk.order().len(), limit as nat)[j]]],
            #[trigger] seen@[j],
        ) by {
            assert(positions@[j] as int == sample(chunk.order().len(), limit as nat)[j]);
        }
    }
    true
}

/// Which files of a library cache are looked into, and how many entries of each: the first, the
/// last and one in the middle.
pub open spec fn samples_of(chunk_count: u32) -> Seq<(u32, usize)> {
    if chunk_count > 2 {
        seq![
            (0u32, 128usize),
            ((chunk_count - 1) as u32, 64usize),
            ((chunk_count / 2) as u32, 64usize),
        ]
    } else if chunk_count == 2 {
        seq![(0u32, 128usize), (1u32, 128usize)]
    } else {
        seq![(0u32, 128usize)]
    }
}

/// How many entries samples take together.
pub open spec fn entries_in(samples: Seq<(u32, usize)>) -> nat
    decreases samples.len(),
{
    if samples.len() == 0 {
        0
    } else {
        entries_in(samples.drop_last()) + samples.last().1 as nat
    }
}

/// At most 256 entries of a library cache are looked at, from files that it has, no file twice;
/// the first and the last are among them.
pub proof fn law_samples_are_few(chunk_count: u32)
    requires
        chunk_count > 0,
    ensures
        ({
            let s = samples_of(chunk_count);
            &&& entries_in(s) <= 256
            &&& forall|i: int| 0 <= i < s.len() ==> (#[trigger] s[i]).0 < chunk_count
            &&& forall|i: int, j: int|
                0 <= i < j < s.len() ==> (#[trigger] s[i]).0 != (#[trigger] s[j]).0
            &&& exists|i: int| 0 <= i < s.len() && (#[trigger] s[i]).0 == 0
            &&& exists|i: int| 0 <= i < s.len() && (#[trigger] s[i]).0 == chunk_count - 1
        }),
{
    let s = samples_of(chunk_count);
    reveal_with_fuel(entries_in, 4);
    assert(s[0].0 == 0);
    if chunk_count >= 2 {
        assert(s[1].0 == chunk_count - 1);
    }
    if chunk_count > 2 {
        assert(s[2].0 == chunk_count / 2);
        assert(0 < chunk_count / 2 < chunk_count - 1);
    }
}

/// Which files of a library cache are looked into, and how many entries of each.
pub fn sampled_chunks(chunk_count: u32) -> (r: Vec<(u32, usize)>)
    ensures
        r@ == samples_of(chunk_count),
{
    let mut out: Vec<(u32, usize)> = Vec::new();
    out.push((0, 128));
    if chunk_count > 2 {
        out.push((chunk_count - 1, 64));
        out.push((chunk_count / 2, 64));
    } else if chunk_count == 2 {
        out.push((1, 128));
    }
    assert(out@ =~= samples_of(chunk_count));
    out
}

/// Whether a library cache is likely up to date: none of the source directories was changed
/// after it was written, and no file was found changed.
pub fn library_cache_is_fresh(
    cache_mtime: Option<u64>,
    dir_mtimes: &Vec<Option<u64>>,
    samples: &Vec<bool>,
) -> (r: bool)
    ensures
        r == match cache_mtime {
            Some(written) => {
                &&& forall|i: int|
                    0 <= i < dir_mtimes@.len() ==> match #[trigger] dir_mtimes@[i] {
                        Some(changed) => written >= changed,
                        None => false,
                    }
                &&& forall|i: int| 0 <= i < samples@.len() ==> #[trigger] samples@[i]
            },
            None => false,
        },
{
    let written: u64 = match cache_mtime {
        Some(t) => t,
        None => {
            return false;
        },
    };
    let mut i: usize = 0;
    while i < dir_mtimes.len()
        invariant
            i <= dir_mtimes@.len(),
            cache_mtime == Some(written),
            forall|k: int|
                0 <= k < i ==> match #[trigger] dir_mtimes@[k] {
                    Some(changed) => written >= changed,
                    None => false,
                },
        decreases dir_mtimes@.len() - i,
    {
        match dir_mtimes[i] {
            Some(changed) => {
                if written < changed {
                    assert(dir_mtimes@[i as int] == Some(changed));
                    return false;
                }
            },
            None => {
                assert(dir_mtimes@[i as int] is None);
                return false;
            },
        }
        i += 1;
    }
    let mut j: usize = 0;
    while j < samples.len()
        invariant
            j <= samples@.len(),
            cache_mtime == Some(written),
            forall|k: int| 0 <= k < j ==> #[trigger] samples@[k],
        decreases samples@.len() - j,
    {
        if !samples[j] {
            return false;
        }
        j += 1;
    }
    true
}

// ---------------------------------------------------------------------------
// Writing a library cache
// ---------------------------------------------------------------------------

/// How far writing a library cache is.
#[derive(Clone, Copy, Debug, PartialEq, Eq, Structural)]
pub enum SaveState {
    Start,
    RemovingManifest,
    WritingChunk(u32),
    WritingManifest,
    Saved,
    Failed,
}

/// What is to be done next.
#[derive(Clone, Copy, Debug, PartialEq, Eq, Structural)]
pub enum SaveAction {
    RemoveManifest,
    WriteChunk(u32),
    WriteManifest(LibraryManifest),
    Stop,
}

/// The step of writing a library cache of `count` files that follows one that went well or not.
/// The manifest goes first and comes back last, so that a cache that was written in part is
/// never taken for a whole one.
pub open spec fn saving(state: SaveState, count: u32, ok: bool) -> (SaveState, SaveAction) {
    let finish = (
        SaveState::WritingManifest,
        SaveAction::WriteManifest(LibraryManifest { version: CACHE_VERSION, chunk_count: count }),
    );
    match state {
        SaveState::Start => (SaveState::RemovingManifest, SaveAction::RemoveManifest),
        SaveState::RemovingManifest => if count == 0 {
            finish
        } else {
            (SaveState::WritingChunk(0), SaveAction::WriteChunk(0))
        },
        SaveState::WritingChunk(n) => if !ok {
            (SaveState::Failed, SaveAction::Stop)
        } else if n + 1 < count {
            (SaveState::WritingChunk((n + 1) as u32), SaveAction::WriteChunk((n + 1) as u32))
        } else {
            finish
        },
        SaveState::WritingManifest => if ok {
            (SaveState::Saved, SaveAction::Stop)
        } else {
            (SaveState::Failed, SaveAction::Stop)
        },
        SaveState::Saved => (SaveState::Saved, SaveAction::Stop),
        SaveState::Failed => (SaveState::Failed, SaveAction::Stop),
    }
}

/// The step of writing a library cache of `count` files that follows one that went well or not.
pub fn save_step(state: SaveState, count: u32, ok: bool) -> (r: (SaveState, SaveAction))
    ensures
        r == saving(state, count, ok),
{
    let finish = (
        SaveState::WritingManifest,
        SaveAction::WriteManifest(LibraryManifest { version: CACHE_VERSION, chunk_count: count }),
    );
    match state {
        SaveState::Start => (SaveState::RemovingManifest, SaveAction::RemoveManifest),
        SaveState::RemovingManifest => if count == 0 {
            finish
        } else {
            (SaveState::WritingChunk(0), SaveAction::WriteChunk(0))
        },
        SaveState::WritingChunk(n) => if !ok {
            (SaveState::Failed, SaveAction::Stop)
        } else if n < u32::MAX && n + 1 < count {
            (SaveState::WritingChunk(n + 1), SaveAction::WriteChunk(n + 1))
        } else {
            finish
        },
        SaveState::WritingManifest => if ok {
            (SaveState::Saved, SaveAction::Stop)
        } else {
            (SaveState::Failed, SaveAction::Stop)
        },
        SaveState::Saved => (SaveState::Saved, SaveAction::Stop),
        SaveState::Failed => (SaveState::Failed, SaveAction::Stop),
    }
}

/// Where writing a library cache is after steps that went well or not.
pub open spec fn saved_state(count: u32, oks: Seq<bool>) -> SaveState
    decreases oks.len(),
{
    if oks.len() == 0 {
        SaveState::Start
    } else {
        saving(saved_state(count, oks.drop_last()), count, oks.last()).0
    }
}

/// The files of a library cache that were written.
pub open spec fn written(count: u32, oks: Seq<bool>) -> Set<u32>
    decreases oks.len(),
{
    if oks.len() == 0 {
        Set::empty()
    } else {
        let before = written(count, oks.drop_last());
        match saved_state(count, oks.drop_last()) {
            SaveState::WritingChunk(n) => if oks.last() {
                before.insert(n)
            } else {
                before
            },
            _ => before,
        }
    }
}

/// Whether the first `n` files of a library cache were written.
pub open spec fn written_up_to(count: u32, oks: Seq<bool>, n: int) -> bool {
    forall|k: u32| k < n ==> #[trigger] written(count, oks).contains(k)
}

proof fn lemma_saving(count: u32, oks: Seq<bool>)
    ensures
        match saved_state(count, oks) {
            SaveState::WritingChunk(n) => n < count && written_up_to(count, oks, n as int),
            SaveState::WritingManifest => written_up_to(count, oks, count as int),
            SaveState::Saved => written_up_to(count, oks, count as int),
            _ => true,
        },
    decreases oks.len(),
{
    if oks.len() > 0 {
        let before = oks.drop_last();
        lemma_saving(count, before);
        assert forall|k: u32| #[trigger] written(count, before).contains(k) implies written(
            count,
            oks,
        ).contains(k) by {}
        assert forall|n: int| #[trigger] written_up_to(count, before, n) implies written_up_to(
            count,
            oks,
            n,
        ) by {
            assert forall|k: u32| k < n implies #[trigger] written(count, oks).contains(k) by {
                assert(written(count, before).contains(k));
            }
        }
        if let SaveState::WritingChunk(n) = saved_state(count, before) {
            if oks.last() {
                assert(written_up_to(count, oks, n as int));
                assert(written(count, oks).contains(n));
                assert(written_up_to(count, oks, n + 1));
            }
        }
    }
}

/// The manifest is written only when every file of the cache is.
pub proof fn law_manifest_comes_last(count: u32, oks: Seq<bool>, ok: bool)
    requires
        saving(saved_state(count, oks), count, ok).1 is WriteManifest,
    ensures
        written_up_to(count, oks.push(ok), count as int),
{
    lemma_saving(count, oks.push(ok));
    assert(oks.push(ok).drop_last() =~= oks);
}

/// A cache that counts as saved has all its files.
pub proof fn law_saved_means_written(count: u32, oks: Seq<bool>)
    requires
        saved_state(count, oks) is Saved,
    ensures
        written_up_to(count, oks, count as int),
{
    lemma_saving(count, oks);
}

} // verus!
