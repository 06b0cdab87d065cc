//! The write path of the index: entering parsed files, dropping what they entered before, and
//! rebuilding what is derived from the tables.
use vstd::prelude::*;
use vstd::string::*;

use crate::binding_discovery;
use crate::contributions;
use crate::contributions::{ContributionsView, FileContributions};
use crate::group;
use crate::index::{IndexView, Indexer};
use crate::merge;
use crate::paths;
use crate::text;
use crate::types::{FileData, FileIndexResult, FileView, Replicate, SourceSet};
use crate::urls;

verus! {

// ---------------------------------------------------------------------------
// Source sets
// ---------------------------------------------------------------------------

/// `path` with forward slashes.
pub open spec fn forward_slashes(path: Seq<char>) -> Seq<char> {
    text::replaced(path, "\\"@, "/"@)
}

/// Whether `uri` lies in a test source set: whether the path segment after the first `/src/`
/// names one. `testFixtures` is production code that other modules use.
pub open spec fn in_test_source_set(uri: Seq<char>) -> bool {
    match text::find_text(uri, "/src/"@) {
        Some(i) => {
            let segment = text::prefix_of(uri.skip(i + "/src/"@.len()), text::all_but('/'));
            segment != "testFixtures"@ && (text::starts_with(segment, "test"@)
                || text::starts_with(segment, "androidTest"@) || text::ends_with(segment, "Test"@))
        },
        None => false,
    }
}

/// Whether `uri` lies under one of the configured source paths.
pub open spec fn under_source_path(uri: Seq<char>, source_paths: Seq<Seq<char>>) -> bool {
    exists|i: int|
        0 <= i < source_paths.len() && text::contains_text(
            uri,
            forward_slashes(#[trigger] source_paths[i]),
        )
}

/// The source set of `uri`.
pub open spec fn source_set_of(uri: Seq<char>, source_paths: Seq<Seq<char>>) -> SourceSet {
    if under_source_path(uri, source_paths) {
        SourceSet::Library
    } else if in_test_source_set(uri) {
        SourceSet::Test
    } else {
        SourceSet::Main
    }
}

/// Whether `uri` lies in a test source set. Covers the plain sets (`test`, `androidTest`),
/// flavored variants (`testDemo`, `androidTestDemo`) and the sets of multiplatform targets
/// (`commonTest`, `jvmTest`).
pub fn is_test_source_set(uri: &str) -> (r: bool)
    ensures
        r == in_test_source_set(uri@),
{
    match text::find(uri, "/src/") {
        Some(i) => {
            let rest = text::skip(uri, i + "/src/".unicode_len());
            let segment = text::prefix_class(rest, text::CharClass::AllBut('/'));
            if text::same(segment, "testFixtures") {
                return false;
            }
            text::has_prefix(segment, "test") || text::has_prefix(segment, "androidTest")
                || text::has_suffix(segment, "Test")
        },
        None => false,
    }
}

/// The source set of `uri`.
pub fn classify_source_set(uri: &str, source_paths: &Vec<String>) -> (r: SourceSet)
    ensures
        r == source_set_of(uri@, source_paths.deep_view()),
{
    let ghost paths = source_paths.deep_view();
    let mut i: usize = 0;
    proof {
        reveal_strlit("\\");
    }
    while i < source_paths.len()
        invariant
            i <= source_paths@.len(),
            paths == source_paths.deep_view(),
            "\\"@.len() > 0,
            forall|k: int|
                0 <= k < i ==> !text::contains_text(uri@, forward_slashes(#[trigger] paths[k])),
        decreases source_paths@.len() - i,
    {
        assert(paths[i as int] == source_paths@[i as int]@);
        let normalized = text::replace(source_paths[i].as_str(), "\\", "/");
        if text::contains(uri, normalized.as_str()) {
            return SourceSet::Library;
        }
        i += 1;
    }
    if is_test_source_set(uri) {
        SourceSet::Test
    } else {
        SourceSet::Main
    }
}

/// A file that knows its source set.
pub open spec fn classified(f: FileView, uri: Seq<char>, source_paths: Seq<Seq<char>>) -> FileView {
    FileView { source_set: source_set_of(uri, source_paths), ..f }
}

// ---------------------------------------------------------------------------
// Paths
// ---------------------------------------------------------------------------

/// The configured source paths, relative ones taken from `workspace_root`.
pub fn resolve_source_paths(raw_paths: &Vec<String>, workspace_root: &str) -> (r: Vec<String>)
    ensures
        r@.len() == raw_paths@.len(),
        forall|i: int|
            0 <= i < r@.len() ==> (#[trigger] r@[i])@ == paths::joined(
                workspace_root@,
                raw_paths@[i]@,
            ),
{
    let mut out: Vec<String> = Vec::new();
    let mut i: usize = 0;
    while i < raw_paths.len()
        invariant
            i <= raw_paths@.len(),
            out@.len() == i,
            forall|k: int|
                0 <= k < i ==> (#[trigger] out@[k])@ == paths::joined(
                    workspace_root@,
                    raw_paths@[k]@,
                ),
        decreases raw_paths@.len() - i,
    {
        out.push(paths::join_path(workspace_root, raw_paths[i].as_str()));
        i += 1;
    }
    out
}

// ---------------------------------------------------------------------------
// Content hash
// ---------------------------------------------------------------------------

/// One step of the FNV-1a hash.
pub open spec fn fnv_step(h: u64, b: u8) -> u64 {
    (h ^ (b as u64)).wrapping_mul(0x0000_0100_0000_01b3u64)
}

/// The 64-bit FNV-1a hash of `bytes`.
pub open spec fn fnv(bytes: Seq<u8>) -> u64
    decreases bytes.len(),
{
    if bytes.len() == 0 {
        0xcbf2_9ce4_8422_2325u64
    } else {
        fnv_step(fnv(bytes.drop_last()), bytes.last())
    }
}

/// The 64-bit FNV-1a hash of a text's bytes.
pub fn hash_str(s: &str) -> (r: u64)
    ensures
        r == fnv(s.spec_bytes()),
{
    let bytes = s.as_bytes();
    let ghost all = bytes@;
    let mut h: u64 = 0xcbf2_9ce4_8422_2325;
    let mut i: usize = 0;
    assert(all.take(0) =~= Seq::empty());
    while i < bytes.len()
        invariant
            i <= bytes@.len(),
            all == bytes@,
            h == fnv(all.take(i as int)),
        decreases bytes@.len() - i,
    {
        let b: u8 = bytes[i];
        proof {
            assert(all.take(i + 1).drop_last() =~= all.take(i as int));
            assert(all.take(i + 1).last() == b);
        }
        h = (h ^ (b as u64)).wrapping_mul(0x0000_0100_0000_01b3);
        i += 1;
    }
    assert(all.take(all.len() as int) =~= all);
    h
}

// ---------------------------------------------------------------------------
// Entering contributions
// ---------------------------------------------------------------------------

/// An index that has taken in what a file contributes; what it holds already is not entered
/// again, and the file's extensions stand in place of those that it had.
pub open spec fn with_contributions(v: IndexView, c: ContributionsView) -> IndexView {
    IndexView {
        files: v.files.insert(c.uri, classified(c.file, c.uri, v.source_paths_raw)),
        content_hashes: v.content_hashes.insert(c.hash_key, c.content_hash),
        definitions: group::combined(v.definitions, c.definitions, group::append_new()),
        qualified: group::overwritten(v.qualified, c.qualified),
        packages: group::combined(v.packages, c.packages, group::append_new()),
        subtypes: group::combined(v.subtypes, c.subtypes, group::append_new()),
        extension_by_receiver: group::combined(
            v.extension_by_receiver,
            c.extensions,
            merge::replacing_files(),
        ),
        bare_names_dirty: true,
        ..v
    }
}

/// An index that has taken in what a file contributes, without a look at what it holds
/// already, with the file in the source set `set`.
pub open spec fn with_fresh(v: IndexView, c: ContributionsView, set: SourceSet) -> IndexView {
    IndexView {
        files: v.files.insert(c.uri, FileView { source_set: set, ..c.file }),
        content_hashes: v.content_hashes.insert(c.hash_key, c.content_hash),
        definitions: group::merged(v.definitions, c.definitions),
        qualified: group::overwritten(v.qualified, c.qualified),
        packages: group::merged(v.packages, c.packages),
        subtypes: group::merged(v.subtypes, c.subtypes),
        extension_by_receiver: group::merged(v.extension_by_receiver, c.extensions),
        ..v
    }
}

/// An index that has taken in what a file at `path` contributes, and that has a request to
/// discover generated bindings where the file imports one.
pub open spec fn with_fresh_file(
    v: IndexView,
    c: ContributionsView,
    path: Option<Seq<char>>,
) -> IndexView {
    binding_discovery::requested_for(
        with_fresh(v, c, source_set_of(c.uri, v.source_paths_raw)),
        path,
        c.file.imports,
    )
}

/// An index without what the file `uri` entered, as far as its stored data tells; the stored
/// data itself stays.
pub open spec fn without_stale(v: IndexView, uri: Seq<char>) -> IndexView {
    if v.files.dom().contains(uri) && urls::parsed_url(uri) is Some {
        let f = v.files[uri];
        IndexView {
            definitions: merge::kept_at(
                v.definitions,
                contributions::declared(f),
                merge::outside(uri),
            ),
            qualified: merge::without_keys(v.qualified, contributions::declared_keys(f, uri)),
            packages: match f.package {
                Some(pkg) => merge::kept_at(v.packages, seq![pkg], merge::other_names(uri)),
                None => v.packages,
            },
            subtypes: merge::all_kept(v.subtypes, merge::outside(uri)),
            extension_by_receiver: merge::all_kept(
                v.extension_by_receiver,
                merge::of_others(uri),
            ),
            ..v
        }
    } else {
        v
    }
}

/// An index in which the result of parsing a file stands in place of what the file entered
/// before.
pub open spec fn with_file_result(v: IndexView, r: FileIndexResult) -> IndexView {
    with_contributions(
        without_stale(v, r.uri@),
        contributions::contributions(
            r.data.deep_view(),
            r.uri@,
            r.content_hash,
            r.supertypes.deep_view(),
        ),
    )
}

impl Indexer {
    /// The source set of `uri`, under the configured source paths.
    pub fn source_set_for_uri(&self, uri: &str) -> (r: SourceSet)
        ensures
            r == source_set_of(uri@, self@.source_paths_raw),
    {
        classify_source_set(uri, &self.source_paths_raw)
    }

    /// `file_data` in the source set of its URI.
    pub fn with_classified_source_set(&self, uri: &str, file_data: FileData) -> (r: FileData)
        ensures
            r.deep_view() == classified(file_data.deep_view(), uri@, self@.source_paths_raw),
    {
        let mut file_data = file_data;
        let ghost before = file_data.deep_view();
        file_data.source_set = self.source_set_for_uri(uri);
        assert(file_data.deep_view() == classified(before, uri@, self@.source_paths_raw));
        file_data
    }

    /// Enters what a file contributes. What the tables hold already is not entered again.
    pub fn apply_contributions(&mut self, added: FileContributions)
        requires
            old(self).wf(),
            added.wf(),
        ensures
            final(self).wf(),
            final(self)@ == with_contributions(old(self)@, added.deep_view()),
    {
        let (uri_str, data) = added.file_data;
        let (hash_key, hash_val) = added.content_hash;
        let file_data = self.with_classified_source_set(uri_str.as_str(), data);
        self.content_hashes.insert(hash_key.as_str(), hash_val);
        self.files.insert(uri_str.as_str(), file_data);
        merge::extend_all_new(&mut self.definitions, &added.definitions);
        merge::overwrite_all(&mut self.qualified, &added.qualified);
        merge::extend_all_new(&mut self.packages, &added.packages);
        merge::extend_all_new(&mut self.subtypes, &added.subtypes);
        merge::replace_all_files(&mut self.extension_by_receiver, &added.extensions);
        self.bare_names_dirty = true;
    }

    /// Enters what a file at `path` contributes into tables that hold nothing from it, and
    /// requests discovery of generated bindings where the file imports one.
    pub fn enter_file_at(&mut self, added: FileContributions, path: Option<&str>)
        requires
            old(self).wf(),
            added.wf(),
        ensures
            final(self).wf(),
            final(self)@ == with_fresh_file(old(self)@, added.deep_view(), path.deep_view()),
    {
        let set = self.source_set_for_uri(added.file_data.0.as_str());
        let imports = added.file_data.1.imports.replicate();
        self.enter_fresh(added, set);
        self.enqueue_binding_discovery_at(path, &imports);
    }

    /// Enters what a file contributes into tables that hold nothing from it, and requests
    /// discovery of generated bindings where the file imports one; the path is whatever the
    /// system gives for the URI.
    pub fn apply_contributions_fresh(&mut self, added: FileContributions)
        requires
            old(self).wf(),
            added.wf(),
        ensures
            final(self).wf(),
            exists|path: Option<Seq<char>>|
                urls::path_fits(added.deep_view().uri, path) && final(self)@
                    == #[trigger] with_fresh_file(old(self)@, added.deep_view(), path),
    {
        let ghost a = added.deep_view();
        let path = urls::path_of_url(added.file_data.0.as_str());
        let ghost p = path.deep_view();
        match &path {
            Some(path) => {
                self.enter_file_at(added, Some(path.as_str()));
            },
            None => {
                self.enter_file_at(added, None);
            },
        }
        assert(self@ == with_fresh_file(old(self)@, a, p));
    }

    /// Enters what a file of the source set `set` contributes into tables that hold nothing
    /// from it.
    pub(crate) fn enter_fresh(&mut self, added: FileContributions, set: SourceSet)
        requires
            old(self).wf(),
            added.wf(),
        ensures
            final(self).wf(),
            final(self)@ == with_fresh(old(self)@, added.deep_view(), set),
    {
        let (uri_str, data) = added.file_data;
        let (hash_key, hash_val) = added.content_hash;
        let mut file_data = data;
        file_data.source_set = set;
        self.content_hashes.insert(hash_key.as_str(), hash_val);
        self.files.insert(uri_str.as_str(), file_data);
        merge::extend_all(&mut self.definitions, &added.definitions);
        merge::overwrite_all(&mut self.qualified, &added.qualified);
        merge::extend_all(&mut self.packages, &added.packages);
        merge::extend_all(&mut self.subtypes, &added.subtypes);
        merge::extend_all(&mut self.extension_by_receiver, &added.extensions);
    }

    /// Drops what the file `uri_str` entered. Does nothing where the file is not indexed or its
    /// URI cannot be read.
    pub fn remove_stale_for_uri(&mut self, uri_str: &str)
        requires
            old(self).wf(),
        ensures
            final(self).wf(),
            final(self)@ == without_stale(old(self)@, uri_str@),
    {
        let stale = match self.files.get(uri_str) {
            None => {
                return ;
            },
            Some(data) => contributions::stale_keys_for(uri_str, data),
        };
        if urls::parse_url(uri_str).is_none() {
            return ;
        }
        merge::drop_locations_at(&mut self.definitions, &stale.definition_names, uri_str);
        merge::remove_keys(&mut self.qualified, &stale.qualified_keys);
        match &stale.package {
            Some(pkg) => {
                match self.packages.row_of(pkg.as_str()) {
                    Some(row) => {
                        let kept = merge::drop_name(self.packages.value_at(row), uri_str);
                        self.packages.swap_value(row, kept);
                    },
                    None => {},
                }
                proof {
                    let keys = seq![pkg@];
                    assert(keys[0] == pkg@);
                    assert(self.packages@ =~= merge::kept_at(
                        old(self).packages@,
                        keys,
                        merge::other_names(uri_str@),
                    ));
                }
            },
            None => {},
        }
        merge::drop_locations_everywhere(&mut self.subtypes, uri_str);
        merge::drop_extensions_everywhere(&mut self.extension_by_receiver, uri_str);
    }

    /// Puts the result of parsing a file in place of what the file entered before.
    pub fn apply_file_result(&mut self, result: &FileIndexResult)
        requires
            old(self).wf(),
        ensures
            final(self).wf(),
            final(self)@ == with_file_result(old(self)@, *result),
    {
        self.remove_stale_for_uri(result.uri.as_str());
        let added = contributions::file_contributions(result);
        self.apply_contributions(added);
    }
}

} // verus!
