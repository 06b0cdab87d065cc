//! Restoring library files from a cache: a batch gathers what many files contribute, and is
//! entered into the index at once.
use vstd::prelude::*;
use vstd::string::*;

use crate::apply;
use crate::contributions;
use crate::group;
use crate::index::{IndexView, Indexer};
use crate::merge;
use crate::paths;
use crate::table;
use crate::table::Table;
use crate::types::{
    ExtensionEntry, ExtensionView, FileData, FileIndexResult, FileView, Location, LocationView,
    Range, Replicate,
};
use crate::urls;

verus! {

// ---------------------------------------------------------------------------
// Cache entries
// ---------------------------------------------------------------------------

/// What a cache stores of one file.
pub struct FileCacheEntry {
    /// Time of the file's last change, in seconds since the Unix epoch.
    pub mtime_secs: u64,
    /// Size of the file in bytes.
    pub file_size: u64,
    /// Hash of the content that the file was parsed from.
    pub content_hash: u64,
    /// What parsing the file yielded.
    pub file_data: FileData,
    /// The qualified names of the file's symbols, as `build_qualified_keys` lists them; empty
    /// in entries that were stored without them.
    pub qualified_keys: Vec<(String, Range)>,
}

#[verifier::ext_equal]
pub struct CacheEntryView {
    pub mtime_secs: u64,
    pub file_size: u64,
    pub content_hash: u64,
    pub file_data: FileView,
    pub qualified_keys: Seq<(Seq<char>, Range)>,
}

impl DeepView for FileCacheEntry {
    type V = CacheEntryView;

    open spec fn deep_view(&self) -> CacheEntryView {
        CacheEntryView {
            mtime_secs: self.mtime_secs,
            file_size: self.file_size,
            content_hash: self.content_hash,
            file_data: self.file_data.deep_view(),
            qualified_keys: self.qualified_keys.deep_view(),
        }
    }
}

/// Turns a cache entry into an indexing result. The supertypes, which the cache does not store,
/// are found again.
pub fn cache_entry_to_file_result(uri: &str, entry: &FileCacheEntry) -> (r: FileIndexResult)
    ensures
        r.uri@ == uri@,
        r.data.deep_view() == entry.file_data.deep_view(),
        r.supertypes.deep_view() == contributions::supertypes_of(entry.file_data.deep_view(), uri@),
        r.content_hash == entry.content_hash,
        r.error is None,
{
    let supertypes = contributions::derive_supertypes(uri, &entry.file_data);
    FileIndexResult {
        uri: uri.to_owned(),
        data: entry.file_data.replicate(),
        supertypes,
        content_hash: entry.content_hash,
        error: None,
    }
}

// ---------------------------------------------------------------------------
// Batches
// ---------------------------------------------------------------------------

/// What many files contribute, gathered.
pub struct LibraryBatch {
    pub files: Table<FileData>,
    pub hashes: Table<u64>,
    pub definitions: Table<Vec<Location>>,
    pub qualified: Table<Location>,
    pub packages: Table<Vec<String>>,
    pub subtypes: Table<Vec<Location>>,
    pub extensions: Table<Vec<ExtensionEntry>>,
    pub library_uris: Vec<String>,
}

#[verifier::ext_equal]
pub struct BatchView {
    pub files: Map<Seq<char>, FileView>,
    pub hashes: Map<Seq<char>, u64>,
    pub definitions: Map<Seq<char>, Seq<LocationView>>,
    pub qualified: Map<Seq<char>, LocationView>,
    pub packages: Map<Seq<char>, Seq<Seq<char>>>,
    pub subtypes: Map<Seq<char>, Seq<LocationView>>,
    pub extensions: Map<Seq<char>, Seq<ExtensionView>>,
    pub library_uris: Seq<Seq<char>>,
}

impl View for LibraryBatch {
    type V = BatchView;

    open spec fn view(&self) -> BatchView {
        BatchView {
            files: self.files@,
            hashes: self.hashes@,
            definitions: self.definitions@,
            qualified: self.qualified@,
            packages: self.packages@,
            subtypes: self.subtypes@,
            extensions: self.extensions@,
            library_uris: self.library_uris.deep_view(),
        }
    }
}

/// A batch that holds nothing.
pub open spec fn empty_batch() -> BatchView {
    BatchView {
        files: Map::empty(),
        hashes: Map::empty(),
        definitions: Map::empty(),
        qualified: Map::empty(),
        packages: Map::empty(),
        subtypes: Map::empty(),
        extensions: Map::empty(),
        library_uris: Seq::empty(),
    }
}

/// The qualified names of an entry: the stored ones, or those of the file's symbols where none
/// are stored.
pub open spec fn entry_keys(uri: Seq<char>, e: CacheEntryView) -> Seq<(Seq<char>, Range)> {
    if e.qualified_keys.len() > 0 {
        e.qualified_keys
    } else {
        contributions::qualified_keys(e.file_data, contributions::file_stem(uri))
    }
}

/// A batch that has taken in the cache entry of the file `path`. A file outside the workspace
/// belongs to a library.
pub open spec fn with_entry(
    b: BatchView,
    uri: Seq<char>,
    path: Seq<char>,
    e: CacheEntryView,
    workspace_root: Seq<char>,
) -> BatchView {
    let f = e.file_data;
    BatchView {
        files: b.files.insert(uri, f),
        hashes: b.hashes.insert(uri, e.content_hash),
        definitions: group::merged(b.definitions, contributions::definitions_of(f, uri)),
        qualified: group::overwritten(
            b.qualified,
            group::last_wins(contributions::located(entry_keys(uri, e), uri)),
        ),
        packages: match f.package {
            Some(pkg) => b.packages.insert(pkg, table::list_at(b.packages, pkg).push(uri)),
            None => b.packages,
        },
        subtypes: group::merged(
            b.subtypes,
            group::grouped(contributions::supertypes_of(f, uri), contributions::by_supertype()),
        ),
        extensions: group::merged(b.extensions, contributions::extensions_of(f, uri)),
        library_uris: if paths::below(path, workspace_root) {
            b.library_uris
        } else {
            b.library_uris.push(uri)
        },
    }
}

/// The files of a batch, each in the source set of its URI.
pub open spec fn all_classified(
    files: Map<Seq<char>, FileView>,
    source_paths: Seq<Seq<char>>,
) -> Map<Seq<char>, FileView> {
    Map::new(
        |k: Seq<char>| files.dom().contains(k),
        |k: Seq<char>| apply::classified(files[k], k, source_paths),
    )
}

/// `m` with the keys `keys` entered.
pub open spec fn with_members(m: Map<Seq<char>, ()>, keys: Seq<Seq<char>>) -> Map<Seq<char>, ()> {
    Map::new(|k: Seq<char>| m.dom().contains(k) || keys.contains(k), |k: Seq<char>| ())
}

/// An index that has taken in a batch.
pub open spec fn with_batch(v: IndexView, b: BatchView) -> IndexView {
    IndexView {
        files: group::overwritten(v.files, all_classified(b.files, v.source_paths_raw)),
        content_hashes: group::overwritten(v.content_hashes, b.hashes),
        definitions: group::merged(v.definitions, b.definitions),
        qualified: group::overwritten(v.qualified, b.qualified),
        packages: group::merged(v.packages, b.packages),
        subtypes: group::merged(v.subtypes, b.subtypes),
        extension_by_receiver: group::combined(
            v.extension_by_receiver,
            b.extensions,
            merge::replacing_files(),
        ),
        library_uris: with_members(v.library_uris, b.library_uris),
        ..v
    }
}

/// The batch of the entries `chunk`, of which `uris` gives the URIs; an entry without a URI is
/// left out.
pub open spec fn batch_of(
    chunk: Seq<(Seq<char>, CacheEntryView)>,
    uris: Seq<Option<Seq<char>>>,
    workspace_root: Seq<char>,
) -> BatchView
    decreases chunk.len(),
{
    if chunk.len() == 0 {
        empty_batch()
    } else {
        let b = batch_of(chunk.drop_last(), uris.drop_last(), workspace_root);
        match uris.last() {
            Some(uri) => with_entry(b, uri, chunk.last().0, chunk.last().1, workspace_root),
            None => b,
        }
    }
}

/// The paths of cache entries.
pub open spec fn chunk_paths(chunk: Seq<(Seq<char>, CacheEntryView)>) -> Seq<Seq<char>> {
    Seq::new(chunk.len(), |i: int| chunk[i].0)
}

/// The URIs of cache entries, as the system writes them for their paths.
pub(crate) fn uris_of_chunk(chunk: &Vec<(String, FileCacheEntry)>) -> (r: Vec<Option<String>>)
    ensures
        r@.len() == chunk@.len(),
        urls::urls_fit(chunk_paths(chunk.deep_view()), r.deep_view()),
{
    let ghost paths = chunk_paths(chunk.deep_view());
    let mut out: Vec<Option<String>> = Vec::new();
    let mut i: usize = 0;
    while i < chunk.len()
        invariant
            i <= chunk@.len(),
            out@.len() == i,
            paths == chunk_paths(chunk.deep_view()),
            forall|k: int| 0 <= k < i ==> urls::url_fits(paths[k], (#[trigger] out@[k]).deep_view()),
        decreases chunk@.len() - i,
    {
        assert(paths[i as int] == chunk@[i as int].0@);
        out.push(urls::url_of_path(chunk[i].0.as_str()));
        i += 1;
    }
    proof {
        let found = out.deep_view();
        assert forall|k: int| 0 <= k < found.len() implies urls::url_fits(
            paths[k],
            #[trigger] found[k],
        ) by {
            assert(found[k] == out@[k].deep_view());
        }
    }
    out
}

impl LibraryBatch {
    /// Every table of the batch is in order.
    pub open spec fn wf(&self) -> bool {
        &&& self.files.wf()
        &&& self.hashes.wf()
        &&& self.definitions.wf()
        &&& self.qualified.wf()
        &&& self.packages.wf()
        &&& self.subtypes.wf()
        &&& self.extensions.wf()
    }

    /// A batch that holds nothing, and has room for `n` library files.
    pub fn with_capacity(n: usize) -> (r: LibraryBatch)
        ensures
            r.wf(),
            r@ == empty_batch(),
    {
        let r = LibraryBatch {
            files: Table::new(),
            hashes: Table::new(),
            definitions: Table::new(),
            qualified: Table::new(),
            packages: Table::new(),
            subtypes: Table::new(),
            extensions: Table::new(),
            library_uris: Vec::with_capacity(n),
        };
        assert(r@ =~~= empty_batch());
        r
    }

    /// Takes in the cache entry of the file `path`.
    pub fn collect_entry(
        &mut self,
        uri: &str,
        path: &str,
        entry: &FileCacheEntry,
        workspace_root: &str,
    )
        requires
            old(self).wf(),
        ensures
            final(self).wf(),
            final(self)@ == with_entry(
                old(self)@,
                uri@,
                path@,
                entry.deep_view(),
                workspace_root@,
            ),
    {
        contributions::add_definitions(&mut self.definitions, &entry.file_data, uri);
        if entry.qualified_keys.len() > 0 {
            contributions::add_qualified(&mut self.qualified, &entry.qualified_keys, uri);
        } else {
            let stem = contributions::file_stem_from_uri(uri);
            let stem_ref: Option<&str> = match &stem {
                Some(s) => Some(s.as_str()),
                None => None,
            };
            let keys = contributions::build_qualified_keys(&entry.file_data, stem_ref);
            contributions::add_qualified(&mut self.qualified, &keys, uri);
        }
        match &entry.file_data.package {
            Some(pkg) => {
                self.packages.push(pkg.as_str(), uri.to_owned());
            },
            None => {},
        }
        let supertypes = contributions::derive_supertypes(uri, &entry.file_data);
        contributions::add_subtypes(&mut self.subtypes, &supertypes);
        contributions::add_extensions(&mut self.extensions, &entry.file_data, uri);
        self.files.insert(uri, entry.file_data.replicate());
        self.hashes.insert(uri, entry.content_hash);
        if !paths::is_below(path, workspace_root) {
            self.library_uris.push(uri.to_owned());
            assert(self.library_uris.deep_view() =~= old(self).library_uris.deep_view().push(uri@));
        }
    }

    /// Enters the batch into the index.
    pub fn flush_into(self, indexer: &mut Indexer)
        requires
            self.wf(),
            old(indexer).wf(),
        ensures
            final(indexer).wf(),
            final(indexer)@ == with_batch(old(indexer)@, self@),
    {
        merge::overwrite_all(&mut indexer.content_hashes, &self.hashes);
        let files = indexer.classify_all(&self.files);
        merge::overwrite_all(&mut indexer.files, &files);
        merge::extend_all(&mut indexer.definitions, &self.definitions);
        merge::overwrite_all(&mut indexer.qualified, &self.qualified);
        merge::extend_all(&mut indexer.packages, &self.packages);
        merge::extend_all(&mut indexer.subtypes, &self.subtypes);
        merge::replace_all_files(&mut indexer.extension_by_receiver, &self.extensions);
        add_members(&mut indexer.library_uris, &self.library_uris);
    }
}

/// Enters the keys `keys` into `t`.
pub(crate) fn add_members(t: &mut Table<()>, keys: &Vec<String>)
    requires
        old(t).wf(),
    ensures
        final(t).wf(),
        final(t)@ == with_members(old(t)@, keys.deep_view()),
{
    let ghost all = keys.deep_view();
    let mut i: usize = 0;
    assert(t@ =~= with_members(old(t)@, all.take(0)));
    while i < keys.len()
        invariant
            i <= keys@.len(),
            t.wf(),
            all == keys.deep_view(),
            t@ == with_members(old(t)@, all.take(i as int)),
        decreases keys@.len() - i,
    {
        t.insert(keys[i].as_str(), ());
        proof {
            let a = all.take(i as int);
            let b = all.take(i + 1);
            assert(all[i as int] == keys@[i as int]@);
            assert(b =~= a.push(all[i as int]));
            assert forall|k: Seq<char>| b.contains(k) == (a.contains(k) || k == all[i as int]) by {
                if a.contains(k) {
                    let j = choose|j: int| 0 <= j < a.len() && a[j] == k;
                    assert(b[j] == k);
                }
                assert(b[i as int] == all[i as int]);
                if b.contains(k) {
                    let j = choose|j: int| 0 <= j < b.len() && b[j] == k;
                    if j < i {
                        assert(a[j] == k);
                    }
                }
            }
            assert(t@ =~= with_members(old(t)@, b));
        }
        i += 1;
    }
    assert(all.take(all.len() as int) =~= all);
}

impl Indexer {
    /// The files of `files`, each in the source set of its URI.
    pub(crate) fn classify_all(&self, files: &Table<FileData>) -> (r: Table<FileData>)
        requires
            files.wf(),
        ensures
            r.wf(),
            r@ == all_classified(files@, self@.source_paths_raw),
    {
        let ghost source_paths = self@.source_paths_raw;
        let mut out: Table<FileData> = Table::new();
        let mut i: usize = 0;
        proof {
            files.lemma_order();
            group::lemma_first_keys(files@, files.order());
            assert(out@ =~= all_classified(
                group::first_keys(files@, files.order(), 0),
                source_paths,
            ));
        }
        while i < files.len()
            invariant
                i <= files.order().len(),
                files.wf(),
                out.wf(),
                source_paths == self@.source_paths_raw,
                out@ == all_classified(
                    group::first_keys(files@, files.order(), i as int),
                    source_paths,
                ),
            decreases files.order().len() - i,
        {
            let key = files.key_at(i);
            let data = self.with_classified_source_set(key, files.value_at(i).replicate());
            out.insert(key, data);
            proof {
                files.lemma_order();
                group::lemma_first_keys(files@, files.order());
                assert(out@ =~= all_classified(
                    group::first_keys(files@, files.order(), i + 1),
                    source_paths,
                ));
            }
            i += 1;
        }
        proof {
            files.lemma_order();
            group::lemma_first_keys(files@, files.order());
        }
        out
    }

    /// Enters the cache entries `chunk`, of which `uris` gives the URIs, into the index.
    pub fn restore_located_chunk(
        &mut self,
        chunk: &Vec<(String, FileCacheEntry)>,
        uris: &Vec<Option<String>>,
        workspace_root: &str,
    )
        requires
            old(self).wf(),
            chunk@.len() == uris@.len(),
        ensures
            final(self).wf(),
            final(self)@ == with_batch(
                old(self)@,
                batch_of(chunk.deep_view(), uris.deep_view(), workspace_root@),
            ),
    {
        let ghost all = chunk.deep_view();
        let ghost located = uris.deep_view();
        let mut batch = LibraryBatch::with_capacity(chunk.len());
        let mut i: usize = 0;
        while i < chunk.len()
            invariant
                i <= chunk@.len() == uris@.len(),
                all == chunk.deep_view(),
                located == uris.deep_view(),
                batch.wf(),
                batch@ == batch_of(all.take(i as int), located.take(i as int), workspace_root@),
            decreases chunk@.len() - i,
        {
            proof {
                assert(all.take(i + 1).drop_last() =~= all.take(i as int));
                assert(all.take(i + 1).last() == chunk@[i as int].deep_view());
                assert(located.take(i + 1).drop_last() =~= located.take(i as int));
                assert(located.take(i + 1).last() == uris@[i as int].deep_view());
            }
            match &uris[i] {
                Some(uri) => {
                    let row = &chunk[i];
                    batch.collect_entry(uri.as_str(), row.0.as_str(), &row.1, workspace_root);
                },
                None => {},
            }
            i += 1;
        }
        assert(all.take(all.len() as int) =~= all);
        assert(located.take(located.len() as int) =~= located);
        batch.flush_into(self);
    }

    /// Enters one chunk of a library cache, which lists entries by path, into the index. An
    /// entry whose path has no URL is left out.
    pub fn restore_library_chunk(
        &mut self,
        chunk: &Vec<(String, FileCacheEntry)>,
        workspace_root: &str,
    )
        requires
            old(self).wf(),
        ensures
            final(self).wf(),
            exists|uris: Seq<Option<Seq<char>>>|
                urls::urls_fit(chunk_paths(chunk.deep_view()), uris) && final(self)@ == with_batch(
                    old(self)@,
                    #[trigger] batch_of(chunk.deep_view(), uris, workspace_root@),
                ),
    {
        let uris = uris_of_chunk(chunk);
        self.restore_located_chunk(chunk, &uris, workspace_root);
        assert(self@ == with_batch(
            old(self)@,
            batch_of(chunk.deep_view(), uris.deep_view(), workspace_root@),
        ));
    }
}

} // verus!
