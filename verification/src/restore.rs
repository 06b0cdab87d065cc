//! Taking what was kept of an index back into it.
use vstd::prelude::*;
use vstd::string::*;

use crate::cache::{LayoutCacheEntry, LayoutEntryView};
use crate::contributions;
use crate::index::{IndexView, Indexer};
use crate::layouts::{BindingView, GeneratedBindingEntry, LayoutFileData};
use crate::library;
use crate::library::{CacheEntryView, FileCacheEntry};
use crate::names;
use crate::paths;
use crate::table::Table;
use crate::text;
use crate::types::Replicate;
use crate::urls;

verus! {

// ---------------------------------------------------------------------------
// Files of libraries
// ---------------------------------------------------------------------------

/// A file of a library cache: files of libraries, each with its path.
pub type ChunkView = Seq<(Seq<char>, CacheEntryView)>;

/// An index that has taken in the first `n` files of a library cache, of whose entries `uris`
/// gives the URIs.
pub open spec fn with_chunks(
    v: IndexView,
    chunks: Seq<ChunkView>,
    uris: Seq<Seq<Option<Seq<char>>>>,
    workspace_root: Seq<char>,
    n: int,
) -> IndexView
    decreases n,
{
    if n <= 0 || n > chunks.len() || n > uris.len() {
        v
    } else {
        library::with_batch(
            with_chunks(v, chunks, uris, workspace_root, n - 1),
            library::batch_of(chunks[n - 1], uris[n - 1], workspace_root),
        )
    }
}

/// Whether URIs are given for the entries of chunks.
pub open spec fn fits(chunks: Seq<ChunkView>, uris: Seq<Seq<Option<Seq<char>>>>) -> bool {
    &&& chunks.len() == uris.len()
    &&& forall|i: int|
        0 <= i < chunks.len() ==> (#[trigger] chunks[i]).len() == (#[trigger] uris[i]).len()
}

/// Whether the URIs given for the entries of chunks may be those of their paths.
pub open spec fn located(chunks: Seq<ChunkView>, uris: Seq<Seq<Option<Seq<char>>>>) -> bool {
    &&& chunks.len() == uris.len()
    &&& forall|i: int|
        0 <= i < uris.len() ==> urls::urls_fit(
            library::chunk_paths(chunks[i]),
            #[trigger] uris[i],
        )
}

/// An index that has taken in a library cache, of whose entries `uris` gives the URIs.
pub open spec fn with_library_cache(
    v: IndexView,
    chunks: Seq<ChunkView>,
    uris: Seq<Seq<Option<Seq<char>>>>,
    workspace_root: Seq<char>,
) -> IndexView {
    let w = with_chunks(v, chunks, uris, workspace_root, chunks.len() as int);
    names::with_fresh_names(IndexView { bare_names_dirty: true, ..w })
}

impl Indexer {
    /// Enters a library cache, of whose entries `uris` gives the URIs.
    pub fn restore_located_cache(
        &mut self,
        chunks: &Vec<Vec<(String, FileCacheEntry)>>,
        uris: &Vec<Vec<Option<String>>>,
        workspace_root: &str,
    )
        requires
            old(self).wf(),
            fits(chunks.deep_view(), uris.deep_view()),
        ensures
            final(self).wf(),
            final(self)@ == with_library_cache(
                old(self)@,
                chunks.deep_view(),
                uris.deep_view(),
                workspace_root@,
            ),
    {
        let ghost cs = chunks.deep_view();
        let ghost us = uris.deep_view();
        let mut i: usize = 0;
        while i < chunks.len()
            invariant
                i <= chunks@.len(),
                self.wf(),
                cs == chunks.deep_view(),
                us == uris.deep_view(),
                fits(cs, us),
                self@ == with_chunks(old(self)@, cs, us, workspace_root@, i as int),
            decreases chunks@.len() - i,
        {
            assert(us.len() == uris@.len());
            assert(cs[i as int] == chunks@[i as int].deep_view());
            assert(us[i as int] == uris@[i as int].deep_view());
            assert(cs[i as int].len() == us[i as int].len());
            self.restore_located_chunk(&chunks[i], &uris[i], workspace_root);
            i += 1;
        }
        self.bare_names_dirty = true;
        self.rebuild_bare_name_cache();
    }

    /// Enters a library cache; the URIs of its entries are whatever the system gives for their
    /// paths.
    pub fn restore_library_cache(
        &mut self,
        chunks: &Vec<Vec<(String, FileCacheEntry)>>,
        workspace_root: &str,
    )
        requires
            old(self).wf(),
        ensures
            final(self).wf(),
            exists|uris: Seq<Seq<Option<Seq<char>>>>|
                located(chunks.deep_view(), uris) && final(self)@ == #[trigger] with_library_cache(
                    old(self)@,
                    chunks.deep_view(),
                    uris,
                    workspace_root@,
                ),
    {
        let ghost cs = chunks.deep_view();
        let mut all: Vec<Vec<Option<String>>> = Vec::new();
        let mut i: usize = 0;
        while i < chunks.len()
            invariant
                i <= chunks@.len(),
                cs == chunks.deep_view(),
                all@.len() == i,
                forall|k: int|
                    0 <= k < i ==> urls::urls_fit(
                        library::chunk_paths(cs[k]),
                        (#[trigger] all@[k]).deep_view(),
                    ),
            decreases chunks@.len() - i,
        {
            assert(cs[i as int] == chunks@[i as int].deep_view());
            all.push(library::uris_of_chunk(&chunks[i]));
            i += 1;
        }
        let ghost us = all.deep_view();
        assert forall|k: int| 0 <= k < us.len() implies urls::urls_fit(
            library::chunk_paths(cs[k]),
            #[trigger] us[k],
        ) by {
            assert(us[k] == all@[k].deep_view());
        }
        assert(fits(cs, us)) by {
            assert forall|k: int| 0 <= k < cs.len() implies (#[trigger] cs[k]).len() == (
            #[trigger] us[k]).len() by {
                assert(library::chunk_paths(cs[k]).len() == cs[k].len());
            }
        }
        self.restore_located_cache(chunks, &all, workspace_root);
        assert(self@ == with_library_cache(old(self)@, cs, us, workspace_root@));
    }
}

// ---------------------------------------------------------------------------
// Layouts
// ---------------------------------------------------------------------------

/// What the system says of a file, zeros where it says nothing.
pub type Measured = (u64, u64);

/// What a cache holds of a layout that has not changed.
pub open spec fn kept_layout(
    cached: Option<Map<Seq<char>, LayoutEntryView>>,
    path: Seq<char>,
    seen: Measured,
) -> Option<LayoutEntryView> {
    match cached {
        Some(m) => if m.dom().contains(path) && m[path].mtime_secs == seen.0 && m[path].file_size
            == seen.1 {
            Some(m[path])
        } else {
            None
        },
        None => None,
    }
}

/// An index that has taken in those of the first `n` layouts that have not changed.
pub open spec fn with_layouts(
    v: IndexView,
    files: Seq<Seq<char>>,
    uris: Seq<Option<Seq<char>>>,
    seen: Seq<Measured>,
    cached: Option<Map<Seq<char>, LayoutEntryView>>,
    n: int,
) -> IndexView
    decreases n,
{
    if n <= 0 || n > files.len() || n > uris.len() || n > seen.len() {
        v
    } else {
        let w = with_layouts(v, files, uris, seen, cached, n - 1);
        match (uris[n - 1], kept_layout(cached, files[n - 1], seen[n - 1])) {
            (Some(uri), Some(e)) => IndexView { layouts: w.layouts.insert(uri, e.data), ..w },
            _ => w,
        }
    }
}

/// Those of the first `n` layouts that must be read, each with its URI.
pub open spec fn changed_layouts(
    files: Seq<Seq<char>>,
    uris: Seq<Option<Seq<char>>>,
    seen: Seq<Measured>,
    cached: Option<Map<Seq<char>, LayoutEntryView>>,
    n: int,
) -> Seq<(Seq<char>, Seq<char>)>
    decreases n,
{
    if n <= 0 || n > files.len() || n > uris.len() || n > seen.len() {
        Seq::empty()
    } else {
        let before = changed_layouts(files, uris, seen, cached, n - 1);
        match (uris[n - 1], kept_layout(cached, files[n - 1], seen[n - 1])) {
            (Some(uri), None) => before.push((files[n - 1], uri)),
            _ => before,
        }
    }
}

/// The layouts of a cache.
pub open spec fn layouts_of(cached: Option<&Table<LayoutCacheEntry>>) -> Option<
    Map<Seq<char>, LayoutEntryView>,
> {
    match cached {
        Some(t) => Some(t@),
        None => None,
    }
}

fn find_kept<'a>(cached: Option<&'a Table<LayoutCacheEntry>>, path: &str, seen: Measured) -> (r:
    Option<&'a LayoutCacheEntry>)
    requires
        match cached {
            Some(t) => t.wf(),
            None => true,
        },
    ensures
        match r {
            Some(e) => kept_layout(layouts_of(cached), path@, seen) == Some(e.deep_view()),
            None => kept_layout(layouts_of(cached), path@, seen) is None,
        },
{
    match cached {
        Some(t) => match t.get(path) {
            Some(e) => if e.mtime_secs == seen.0 && e.file_size == seen.1 {
                Some(e)
            } else {
                None
            },
            None => None,
        },
        None => None,
    }
}

impl Indexer {
    /// Enters the layouts that a cache holds and that have not changed; hands out those that
    /// must be read, each with its URI. `files` are the layouts of the workspace, `uris` their
    /// URIs, `seen` what the system says of them.
    pub fn index_workspace_layouts(
        &mut self,
        files: &Vec<String>,
        uris: &Vec<Option<String>>,
        seen: &Vec<Measured>,
        cached: Option<&Table<LayoutCacheEntry>>,
    ) -> (r: Vec<(String, String)>)
        requires
            old(self).wf(),
            files@.len() == uris@.len() == seen@.len(),
            match cached {
                Some(t) => t.wf(),
                None => true,
            },
        ensures
            final(self).wf(),
            final(self)@ == with_layouts(
                old(self)@,
                files.deep_view(),
                uris.deep_view(),
                seen@,
                layouts_of(cached),
                files@.len() as int,
            ),
            r.deep_view() == changed_layouts(
                files.deep_view(),
                uris.deep_view(),
                seen@,
                layouts_of(cached),
                files@.len() as int,
            ),
    {
        let ghost fs = files.deep_view();
        let ghost us = uris.deep_view();
        let ghost known = layouts_of(cached);
        let mut to_read: Vec<(String, String)> = Vec::new();
        let mut i: usize = 0;
        assert(to_read.deep_view() =~= changed_layouts(fs, us, seen@, known, 0));
        while i < files.len()
            invariant
                i <= files@.len() == uris@.len() == seen@.len(),
                self.wf(),
                match cached {
                    Some(t) => t.wf(),
                    None => true,
                },
                fs == files.deep_view(),
                us == uris.deep_view(),
                known == layouts_of(cached),
                self@ == with_layouts(old(self)@, fs, us, seen@, known, i as int),
                to_read.deep_view() == changed_layouts(fs, us, seen@, known, i as int),
            decreases files@.len() - i,
        {
            let path = files[i].as_str();
            let ghost b = to_read.deep_view();
            assert(fs[i as int] == path@);
            assert(us[i as int] == uris@[i as int].deep_view());
            if let Some(uri) = &uris[i] {
                match find_kept(cached, path, seen[i]) {
                    Some(e) => {
                        self.layouts.insert(uri.as_str(), e.data.replicate());
                    },
                    None => {
                        to_read.push((path.to_owned(), uri.clone()));
                        assert(to_read.deep_view() =~= b.push((path@, uri@)));
                    },
                }
            }
            i += 1;
        }
        to_read
    }

    /// Enters a layout, in place of what it was before.
    pub fn index_layout_content(&mut self, uri: &str, data: LayoutFileData)
        requires
            old(self).wf(),
        ensures
            final(self).wf(),
            final(self)@ == (IndexView {
                layouts: old(self)@.layouts.insert(uri@, data.deep_view()),
                ..old(self)@
            }),
    {
        self.layouts.insert(uri, data);
    }
}

// ---------------------------------------------------------------------------
// Generated bindings
// ---------------------------------------------------------------------------

/// An index that has taken in the generated bindings of the first `n` modules.
pub open spec fn with_bindings(
    v: IndexView,
    modules: Seq<(Seq<char>, Seq<BindingView>)>,
    n: int,
) -> IndexView
    decreases n,
{
    if n <= 0 || n > modules.len() {
        v
    } else {
        let w = with_bindings(v, modules, n - 1);
        IndexView {
            generated_bindings: w.generated_bindings.insert(
                paths::plain(modules[n - 1].0),
                modules[n - 1].1,
            ),
            ..w
        }
    }
}

/// The addresses of the files of bindings, as far as they can be read.
pub open spec fn binding_files(entries: Seq<BindingView>, n: int) -> Seq<Seq<char>>
    decreases n,
{
    if n <= 0 || n > entries.len() {
        Seq::empty()
    } else {
        let before = binding_files(entries, n - 1);
        match urls::parsed_url(entries[n - 1].file_uri) {
            Some(uri) => before.push(uri),
            None => before,
        }
    }
}

/// The addresses of the files of the bindings of the first `n` modules.
pub open spec fn module_files(modules: Seq<(Seq<char>, Seq<BindingView>)>, n: int) -> Seq<Seq<char>>
    decreases n,
{
    if n <= 0 || n > modules.len() {
        Seq::empty()
    } else {
        module_files(modules, n - 1) + binding_files(
            modules[n - 1].1,
            modules[n - 1].1.len() as int,
        )
    }
}

fn push_files(out: &mut Vec<String>, entries: &Vec<GeneratedBindingEntry>)
    ensures
        final(out).deep_view() == old(out).deep_view() + binding_files(
            entries.deep_view(),
            entries@.len() as int,
        ),
{
    let ghost start = out.deep_view();
    let ghost all = entries.deep_view();
    let mut i: usize = 0;
    assert(start + binding_files(all, 0) =~= start);
    while i < entries.len()
        invariant
            i <= entries@.len(),
            all == entries.deep_view(),
            out.deep_view() == start + binding_files(all, i as int),
        decreases entries@.len() - i,
    {
        let ghost before = out.deep_view();
        assert(all[i as int] == entries@[i as int].deep_view());
        if let Some(uri) = urls::parse_url(entries[i].file_uri.as_str()) {
            let ghost u = uri@;
            out.push(uri);
            proof {
                assert(out.deep_view() =~= before.push(u));
                assert(before.push(u) =~= start + binding_files(all, i as int).push(u));
            }
        }
        i += 1;
    }
}

impl Indexer {
    /// Enters the generated bindings that a cache holds, by module; hands out the addresses of
    /// their files, which must be indexed.
    pub fn restore_generated_bindings_from_cache(
        &mut self,
        cached: &Vec<(String, Vec<GeneratedBindingEntry>)>,
    ) -> (r: Vec<String>)
        requires
            old(self).wf(),
        ensures
            final(self).wf(),
            final(self)@ == with_bindings(old(self)@, cached.deep_view(), cached@.len() as int),
            r.deep_view() == module_files(cached.deep_view(), cached@.len() as int),
    {
        let ghost all = cached.deep_view();
        let mut out: Vec<String> = Vec::new();
        let mut i: usize = 0;
        assert(out.deep_view() =~= module_files(all, 0));
        while i < cached.len()
            invariant
                i <= cached@.len(),
                self.wf(),
                all == cached.deep_view(),
                self@ == with_bindings(old(self)@, all, i as int),
                out.deep_view() == module_files(all, i as int),
            decreases cached@.len() - i,
        {
            let module = &cached[i];
            assert(all[i as int] == module.deep_view());
            let key = paths::plain_path(module.0.as_str());
            self.generated_bindings.insert(key.as_str(), module.1.replicate());
            push_files(&mut out, &module.1);
            i += 1;
        }
        out
    }
}

// ---------------------------------------------------------------------------
// Types worth knowing in advance
// ---------------------------------------------------------------------------

/// Whether a line is one of a comment.
pub open spec fn comment_line(line: Seq<char>) -> bool {
    text::starts_with(text::trimmed_start(line), "//"@) || text::starts_with(
        text::trimmed_start(line),
        "*"@,
    )
}

/// The types that follow colons in a text, in order.
pub open spec fn types_in(s: Seq<char>) -> Seq<Seq<char>>
    decreases s.len(),
{
    match text::index_of(s, ':') {
        Some(i) => if 0 <= i < s.len() {
            let rest = s.skip(i + 1);
            let name = text::ident_of(text::trimmed_start(rest));
            if text::upper_start(name) {
                seq![name] + types_in(rest)
            } else {
                types_in(rest)
            }
        } else {
            Seq::empty()
        },
        None => Seq::empty(),
    }
}

/// The types that follow colons in lines that are not of comments.
pub open spec fn types_in_lines(lines: Seq<Seq<char>>) -> Seq<Seq<char>>
    decreases lines.len(),
{
    if lines.len() == 0 {
        Seq::empty()
    } else {
        let before = types_in_lines(lines.drop_last());
        if comment_line(lines.last()) {
            before
        } else {
            before + types_in(text::trimmed_start(lines.last()))
        }
    }
}

/// A list without the items that occur in it before.
pub open spec fn distinct(s: Seq<Seq<char>>) -> Seq<Seq<char>>
    decreases s.len(),
{
    if s.len() == 0 {
        Seq::empty()
    } else {
        let before = distinct(s.drop_last());
        if before.contains(s.last()) {
            before
        } else {
            before.push(s.last())
        }
    }
}

proof fn lemma_distinct_push(s: Seq<Seq<char>>, x: Seq<char>)
    ensures
        distinct(s.push(x)) == (if distinct(s).contains(x) {
            distinct(s)
        } else {
            distinct(s).push(x)
        }),
{
    assert(s.push(x).drop_last() =~= s);
}

fn push_types(out: &mut Vec<String>, line: &str, Ghost(so_far): Ghost<Seq<Seq<char>>>)
    requires
        old(out).deep_view() == distinct(so_far),
    ensures
        final(out).deep_view() == distinct(so_far + types_in(line@)),
{
    let n: usize = line.unicode_len();
    let mut from: usize = 0;
    let ghost mut done = so_far;
    assert(line@.skip(0) =~= line@);
    assert(done + types_in(line@) =~= so_far + types_in(line@));
    while from < n
        invariant
            from <= n == line@.len(),
            out.deep_view() == distinct(done),
            done + types_in(line@.skip(from as int)) == so_far + types_in(line@),
        decreases n - from,
    {
        let here = text::skip(line, from);
        match text::find_char(here, ':') {
            Some(i) => {
                let ghost s = here@;
                assert(i < s.len());
                let rest = text::skip(here, i + 1);
                let name = text::ident_prefix(text::trim_start(rest));
                proof {
                    assert(rest@ =~= line@.skip(from + i + 1));
                }
                if text::starts_with_uppercase(name) {
                    let ghost before = out.deep_view();
                    if !contributions::contains_name(out, name) {
                        out.push(name.to_owned());
                        assert(out.deep_view() =~= before.push(name@));
                    }
                    proof {
                        lemma_distinct_push(done, name@);
                        assert(done + (seq![name@] + types_in(rest@)) =~= done.push(name@)
                            + types_in(rest@));
                        done = done.push(name@);
                    }
                }
                from = from + i + 1;
            },
            None => {
                proof {
                    assert(types_in(here@) =~= Seq::empty());
                    assert(types_in(line@.skip(n as int)) =~= Seq::empty());
                }
                from = n;
            },
        }
    }
    proof {
        assert(line@.skip(from as int).len() == 0);
        assert(types_in(line@.skip(from as int)) =~= Seq::empty());
        assert(done + types_in(line@.skip(from as int)) =~= done);
    }
}

/// The types that a file's declarations name, each once, in the order in which they occur.
pub fn declared_type_names(lines: &Vec<String>) -> (r: Vec<String>)
    ensures
        r.deep_view() == distinct(types_in_lines(lines.deep_view())),
{
    let ghost all = lines.deep_view();
    let mut out: Vec<String> = Vec::new();
    let mut i: usize = 0;
    assert(types_in_lines(all.take(0)) =~= Seq::empty());
    assert(out.deep_view() =~= distinct(types_in_lines(all.take(0))));
    while i < lines.len()
        invariant
            i <= lines@.len(),
            all == lines.deep_view(),
            out.deep_view() == distinct(types_in_lines(all.take(i as int))),
        decreases lines@.len() - i,
    {
        let t = text::trim_start(lines[i].as_str());
        proof {
            assert(all.take(i + 1).drop_last() =~= all.take(i as int));
            assert(all.take(i + 1).last() == lines@[i as int]@);
        }
        if !text::has_prefix(t, "//") && !text::has_prefix(t, "*") {
            push_types(&mut out, t, Ghost(types_in_lines(all.take(i as int))));
        }
        i += 1;
    }
    assert(all.take(all.len() as int) =~= all);
    out
}

/// No type is listed twice.
pub proof fn law_declared_types_are_distinct(s: Seq<Seq<char>>)
    ensures
        distinct(s).no_duplicates(),
    decreases s.len(),
{
    if s.len() > 0 {
        law_declared_types_are_distinct(s.drop_last());
        let before = distinct(s.drop_last());
        if !before.contains(s.last()) {
            assert forall|i: int, j: int|
                0 <= i < before.push(s.last()).len() && 0 <= j < before.push(s.last()).len() && i
                    != j implies before.push(s.last())[i] != before.push(s.last())[j] by {
                if i < before.len() && j < before.len() {
                    assert(before[i] != before[j]);
                }
            }
        }
    }
}

} // verus!
