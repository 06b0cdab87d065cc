//! Taking whole workspaces and single files into the index.
use vstd::prelude::*;
use vstd::string::*;

use crate::apply;
use crate::binding_discovery;
use crate::contributions;
use crate::contributions::ContributionsView;
use crate::discover;
use crate::index::{IndexView, Indexer};
use crate::layouts::{LayoutFileData, LayoutView};
use crate::merge;
use crate::names;
use crate::paths;
use crate::sources_jar;
use crate::table::Table;
use crate::text;
use crate::types::{ExtensionEntry, ExtensionView, FileData, FileIndexResult, FileView, Replicate};
use crate::urls;

verus! {

// ---------------------------------------------------------------------------
// A whole workspace
// ---------------------------------------------------------------------------

/// The extensions that libraries declare.
pub open spec fn of_libraries(library_uris: Map<Seq<char>, ()>) -> spec_fn(ExtensionView) -> bool {
    |e: ExtensionView| library_uris.dom().contains(e.file_uri)
}

/// An index that has forgotten the files of the workspace. Compiled libraries, the extensions
/// that libraries declare and what is configured stay.
pub open spec fn reset(v: IndexView) -> IndexView {
    IndexView {
        files: Map::empty(),
        content_hashes: Map::empty(),
        definitions: Map::empty(),
        qualified: Map::empty(),
        packages: Map::empty(),
        subtypes: Map::empty(),
        extension_by_receiver: merge::all_kept(
            v.extension_by_receiver,
            of_libraries(v.library_uris),
        ),
        importable_fqns: Map::empty(),
        bare_name_cache: Seq::empty(),
        bare_names_dirty: true,
        last_completion: None,
        completion_cache: Map::empty(),
        sig_cache: Map::empty(),
        ..v
    }
}

fn keep_library_extensions(list: &Vec<ExtensionEntry>, library_uris: &Table<()>) -> (r: Vec<
    ExtensionEntry,
>)
    requires
        library_uris.wf(),
    ensures
        r.deep_view() == list.deep_view().filter(of_libraries(library_uris@)),
{
    let ghost all = list.deep_view();
    let ghost p = of_libraries(library_uris@);
    let mut out: Vec<ExtensionEntry> = Vec::new();
    let mut i: usize = 0;
    proof {
        reveal(Seq::filter);
        assert(out.deep_view() =~= all.take(0).filter(p));
    }
    while i < list.len()
        invariant
            i <= list@.len(),
            library_uris.wf(),
            all == list.deep_view(),
            p == of_libraries(library_uris@),
            out.deep_view() == all.take(i as int).filter(p),
        decreases list@.len() - i,
    {
        let ghost before = out.deep_view();
        proof {
            assert(all[i as int] == list@[i as int].deep_view());
            assert(all.take(i as int).push(all[i as int]) =~= all.take(i + 1));
            all.take(i as int).lemma_filter_push(all[i as int], p);
        }
        if library_uris.contains_key(list[i].file_uri.as_str()) {
            out.push(list[i].replicate());
            assert(out.deep_view() =~= before.push(all[i as int]));
        }
        i += 1;
    }
    assert(all.take(all.len() as int) =~= all);
    out
}

fn keep_all_library_extensions(t: &mut Table<Vec<ExtensionEntry>>, library_uris: &Table<()>)
    requires
        old(t).wf(),
        library_uris.wf(),
    ensures
        final(t).wf(),
        final(t)@ == merge::all_kept(old(t)@, of_libraries(library_uris@)),
{
    let ghost order = t.order();
    let ghost p = of_libraries(library_uris@);
    let ghost start = t@;
    let n: usize = t.len();
    let mut i: usize = 0;
    proof {
        t.lemma_order();
    }
    while i < n
        invariant
            i <= n == order.len(),
            t.wf(),
            t.order() == order,
            order.no_duplicates(),
            library_uris.wf(),
            p == of_libraries(library_uris@),
            t@.dom() == start.dom(),
            forall|k: int| 0 <= k < order.len() ==> start.dom().contains(#[trigger] order[k]),
            forall|k: int| 0 <= k < i ==> t@[#[trigger] order[k]] == start[order[k]].filter(p),
            forall|k: int| i <= k < n ==> t@[#[trigger] order[k]] == start[order[k]],
        decreases n - i,
    {
        let kept = keep_library_extensions(t.value_at(i), library_uris);
        t.swap_value(i, kept);
        assert(t@.dom() =~= start.dom());
        i += 1;
    }
    proof {
        assert forall|k: Seq<char>| start.dom().contains(k) implies #[trigger] t@[k]
            == start[k].filter(p) by {
            old(t).lemma_order();
            assert(order.contains(k));
            let j = choose|j: int| 0 <= j < order.len() && order[j] == k;
            assert(t@[order[j]] == start[order[j]].filter(p));
        }
        assert(t@ =~= merge::all_kept(start, p));
    }
}

/// What a parsed file contributes.
pub open spec fn contributed(r: FileIndexResult) -> ContributionsView {
    sources_jar::contributed(r)
}

/// An index that has taken in the first `n` files, which lie at `paths`.
pub open spec fn with_files(
    v: IndexView,
    files: Seq<FileIndexResult>,
    paths: Seq<Option<Seq<char>>>,
    n: int,
) -> IndexView
    decreases n,
{
    if n <= 0 || n > files.len() || n > paths.len() {
        v
    } else {
        apply::with_fresh_file(
            with_files(v, files, paths, n - 1),
            contributed(files[n - 1]),
            paths[n - 1],
        )
    }
}

/// An index of a workspace made of files, which lie at `paths`, in place of the one that it had.
pub open spec fn with_workspace(
    v: IndexView,
    files: Seq<FileIndexResult>,
    paths: Seq<Option<Seq<char>>>,
) -> IndexView {
    let w = with_files(reset(v), files, paths, files.len() as int);
    names::with_fresh_names(IndexView { bare_names_dirty: true, ..w })
}

impl Indexer {
    /// Forgets the files of the workspace.
    pub fn reset_index_state(&mut self)
        requires
            old(self).wf(),
        ensures
            final(self).wf(),
            final(self)@ == reset(old(self)@),
    {
        self.files.clear();
        self.content_hashes.clear();
        self.definitions.clear();
        self.qualified.clear();
        self.packages.clear();
        self.subtypes.clear();
        keep_all_library_extensions(&mut self.extension_by_receiver, &self.library_uris);
        self.importable_fqns.clear();
        self.bare_name_cache = Vec::new();
        self.bare_names_dirty = true;
        self.last_completion = None;
        self.completion_cache.clear();
        self.sig_cache.clear();
        assert(self@ =~~= reset(old(self)@));
    }

    /// Puts the files of a workspace, which lie at `paths`, in place of those that the index had.
    pub fn apply_workspace_files_at(
        &mut self,
        files: &Vec<FileIndexResult>,
        paths: &Vec<Option<String>>,
    )
        requires
            old(self).wf(),
            files@.len() == paths@.len(),
        ensures
            final(self).wf(),
            final(self)@ == with_workspace(old(self)@, files@, paths.deep_view()),
    {
        self.reset_index_state();
        let ghost start = self@;
        let ghost ps = paths.deep_view();
        let mut i: usize = 0;
        while i < files.len()
            invariant
                i <= files@.len() == paths@.len(),
                self.wf(),
                ps == paths.deep_view(),
                self@ == with_files(start, files@, ps, i as int),
            decreases files@.len() - i,
        {
            let added = contributions::file_contributions(&files[i]);
            assert(ps[i as int] == paths@[i as int].deep_view());
            match &paths[i] {
                Some(p) => {
                    self.enter_file_at(added, Some(p.as_str()));
                },
                None => {
                    self.enter_file_at(added, None);
                },
            }
            i += 1;
        }
        self.bare_names_dirty = true;
        self.rebuild_bare_name_cache();
    }

    /// Puts the files of a workspace in place of those that the index had; the paths are
    /// whatever the system gives for the URIs.
    pub fn apply_workspace_result(&mut self, files: &Vec<FileIndexResult>)
        requires
            old(self).wf(),
        ensures
            final(self).wf(),
            exists|paths: Seq<Option<Seq<char>>>|
                paths.len() == files@.len() && (forall|i: int|
                    0 <= i < files@.len() ==> urls::path_fits(
                        (#[trigger] files@[i]).uri@,
                        paths[i],
                    )) && final(self)@ == #[trigger] with_workspace(
                    old(self)@,
                    files@,
                    paths,
                ),
    {
        let mut found: Vec<Option<String>> = Vec::new();
        let mut i: usize = 0;
        while i < files.len()
            invariant
                i <= files@.len(),
                found@.len() == i,
                forall|k: int|
                    0 <= k < i ==> urls::path_fits(
                        (#[trigger] files@[k]).uri@,
                        found@[k].deep_view(),
                    ),
            decreases files@.len() - i,
        {
            found.push(urls::path_of_url(files[i].uri.as_str()));
            i += 1;
        }
        self.apply_workspace_files_at(files, &found);
        assert(self@ == with_workspace(old(self)@, files@, found.deep_view()));
    }
}

// ---------------------------------------------------------------------------
// A single file
// ---------------------------------------------------------------------------

/// Whether a URI is that of an XML file.
pub open spec fn xml_uri(uri: Seq<char>) -> bool {
    text::ends_with(uri, ".xml"@)
}

/// Whether a file has been indexed with this very content.
pub open spec fn indexed_with(v: IndexView, uri: Seq<char>, content: &str) -> bool {
    v.content_hashes.dom().contains(uri) && v.content_hashes[uri] == apply::fnv(
        content.spec_bytes(),
    )
}

/// The result of parsing a file.
pub open spec fn parse_result(
    v: IndexView,
    uri: Seq<char>,
    content: &str,
    data: FileView,
) -> ContributionsView {
    contributions::contributions(
        data,
        uri,
        apply::fnv(content.spec_bytes()),
        contributions::supertypes_of(data, uri),
    )
}

/// An index in which a file with new content, at `path`, stands in place of what it was before.
/// Answers that may depend on the file are forgotten.
pub open spec fn with_content(
    v: IndexView,
    uri: Seq<char>,
    content: &str,
    data: FileView,
    path: Option<Seq<char>>,
) -> IndexView {
    let cleared = IndexView {
        parse_count: v.parse_count.wrapping_add(1),
        completion_cache: v.completion_cache.remove(uri),
        last_completion: None,
        sig_cache: Map::empty(),
        ..v
    };
    let entered = apply::with_contributions(
        apply::without_stale(cleared, uri),
        parse_result(v, uri, content, data),
    );
    let asked = binding_discovery::requested_for(entered, path, data.imports);
    IndexView { bare_names_dirty: true, ..asked }
}

/// An index that has taken in a file at `path` that was read as a layout, where the file is one.
pub open spec fn with_layout_at(
    v: IndexView,
    uri: Seq<char>,
    path: Option<Seq<char>>,
    layout: Option<LayoutView>,
) -> IndexView {
    match (path, layout) {
        (Some(p), Some(l)) => if discover::layout_path(p) {
            IndexView { layouts: v.layouts.insert(uri, l), ..v }
        } else {
            v
        },
        _ => v,
    }
}

/// An index that has taken in a file with new content, at `path`: a layout, or a source file
/// whose content is not the one that it was indexed with.
pub open spec fn with_document(
    v: IndexView,
    uri: Seq<char>,
    content: &str,
    data: FileView,
    layout: Option<LayoutView>,
    path: Option<Seq<char>>,
) -> IndexView {
    if xml_uri(uri) {
        with_layout_at(v, uri, path, layout)
    } else if indexed_with(v, uri, content) {
        v
    } else {
        with_content(v, uri, content, data, path)
    }
}

/// What is stored of a source file that was indexed; none where nothing had to be done.
pub open spec fn stored_document(
    v: IndexView,
    uri: Seq<char>,
    content: &str,
    data: FileView,
) -> Option<FileView> {
    if xml_uri(uri) || indexed_with(v, uri, content) {
        None
    } else {
        Some(apply::classified(data, uri, v.source_paths_raw))
    }
}

impl Indexer {
    /// The result of parsing a file, whose parsed form is `data`.
    pub fn parse_file(uri: &str, content: &str, data: FileData) -> (r: FileIndexResult)
        ensures
            r.uri@ == uri@,
            r.data.deep_view() == data.deep_view(),
            r.supertypes.deep_view() == contributions::supertypes_of(data.deep_view(), uri@),
            r.content_hash == apply::fnv(content.spec_bytes()),
            r.error is None,
    {
        let supertypes = contributions::derive_supertypes(uri, &data);
        FileIndexResult {
            uri: uri.to_owned(),
            data,
            supertypes,
            content_hash: apply::hash_str(content),
            error: None,
        }
    }

    /// Whether a file has been indexed with this very content, so that it need not be parsed.
    pub fn is_indexed_with(&self, uri: &str, content: &str) -> (r: bool)
        requires
            self.wf(),
        ensures
            r == indexed_with(self@, uri@, content),
    {
        let hash: u64 = apply::hash_str(content);
        match self.content_hashes.get(uri) {
            Some(h) => *h == hash,
            None => false,
        }
    }

    /// Indexes a file at `path` with new content, whose parsed form is `data`. Hands out what is
    /// stored of it; none where nothing had to be done. Of XML files only layouts are indexed, as
    /// `layout` has them; of these nothing is handed out.
    pub fn index_content_at(
        &mut self,
        uri: &str,
        content: &str,
        data: FileData,
        layout: Option<LayoutFileData>,
        path: Option<&str>,
    ) -> (r: Option<FileData>)
        requires
            old(self).wf(),
        ensures
            final(self).wf(),
            final(self)@ == with_document(
                old(self)@,
                uri@,
                content,
                data.deep_view(),
                layout.deep_view(),
                path.deep_view(),
            ),
            r.deep_view() == stored_document(old(self)@, uri@, content, data.deep_view()),
    {
        if text::has_suffix(uri, ".xml") {
            self.index_layout_at(uri, path, layout);
            return None;
        }
        if self.is_indexed_with(uri, content) {
            return None;
        }
        self.parse_count = self.parse_count.wrapping_add(1);
        self.completion_cache.remove(uri);
        self.last_completion = None;
        self.sig_cache.clear();
        let result = Indexer::parse_file(uri, content, data);
        self.apply_file_result(&result);
        self.enqueue_binding_discovery_at(path, &result.data.imports);
        self.bare_names_dirty = true;
        Some(self.with_classified_source_set(uri, result.data))
    }

    /// Enters a file at `path` that was read as a layout, where the file is one.
    pub fn index_layout_at(&mut self, uri: &str, path: Option<&str>, layout: Option<LayoutFileData>)
        requires
            old(self).wf(),
        ensures
            final(self).wf(),
            final(self)@ == with_layout_at(
                old(self)@,
                uri@,
                path.deep_view(),
                layout.deep_view(),
            ),
    {
        if let Some(p) = path {
            if discover::is_layout_xml_path(p) {
                if let Some(l) = layout {
                    self.index_layout_content(uri, l);
                }
            }
        }
    }

    /// Indexes a file with new content, whose parsed form is `data`, or `layout` where it is a
    /// layout; the path is whatever the system gives for the URI.
    pub fn index_content(
        &mut self,
        uri: &str,
        content: &str,
        data: FileData,
        layout: Option<LayoutFileData>,
    ) -> (r: Option<FileData>)
        requires
            old(self).wf(),
        ensures
            final(self).wf(),
            exists|path: Option<Seq<char>>|
                urls::path_fits(uri@, path) && final(self)@ == #[trigger] with_document(
                    old(self)@,
                    uri@,
                    content,
                    data.deep_view(),
                    layout.deep_view(),
                    path,
                ),
            r.deep_view() == stored_document(old(self)@, uri@, content, data.deep_view()),
    {
        let path = urls::path_of_url(uri);
        let ghost p = path.deep_view();
        let ghost d = data.deep_view();
        let ghost l = layout.deep_view();
        let r = match &path {
            Some(path) => self.index_content_at(uri, content, data, layout, Some(path.as_str())),
            None => self.index_content_at(uri, content, data, layout, None),
        };
        assert(self@ == with_document(old(self)@, uri@, content, d, l, p));
        r
    }
}

} // verus!
