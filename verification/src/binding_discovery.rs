//! Finding the view binding classes that the build of an Android module generates.
use vstd::multiset::Multiset;
use vstd::prelude::*;
use vstd::string::*;

use crate::index::{IndexView, Indexer};
use crate::layouts::{BindingView, GeneratedBindingEntry, LayoutFileData, LayoutView};
use crate::lists;
use crate::naming;
use crate::paths;
use crate::sorting;
use crate::table::Table;
use crate::text;
use crate::text::CharClass;
use crate::types::{ImportEntry, ImportView, Replicate};
use crate::urls;

verus! {

// ---------------------------------------------------------------------------
// Paths
// ---------------------------------------------------------------------------

/// The path up to the first component `name`, which must not come first.
pub open spec fn root_above(path: Seq<char>, name: Seq<char>) -> Option<Seq<char>> {
    match paths::position_of(paths::components(path), name) {
        Some(i) => if i > 0 {
            Some(paths::assembled(paths::components(path).take(i)))
        } else {
            None
        },
        None => None,
    }
}

fn path_above(path: &str, name: &str) -> (r: Option<String>)
    ensures
        r.deep_view() == root_above(path@, name@),
{
    let c = paths::components_of(path);
    match paths::find_component(&c, name) {
        Some(i) => if i > 0 {
            Some(paths::assemble(&c, i))
        } else {
            None
        },
        None => None,
    }
}

/// The module that a generated file belongs to: what stands above its `build` directory.
pub fn module_root_for_generated_file(path: &str) -> (r: Option<String>)
    ensures
        r.deep_view() == root_above(path@, "build"@),
{
    path_above(path, "build")
}

/// The module that a source file belongs to: what stands above its `src` directory.
pub fn module_root_for_source_file(path: &str) -> (r: Option<String>)
    ensures
        r.deep_view() == root_above(path@, "src"@),
{
    path_above(path, "src")
}

/// Whether a path names a Java file of a binding class.
pub open spec fn binding_java(path: Seq<char>) -> bool {
    match paths::base_name(path) {
        Some(name) => text::ends_with(name, "Binding.java"@),
        None => false,
    }
}

/// Whether a path names a Java file of a binding class.
pub fn is_binding_java_filename(path: &str) -> (r: bool)
    ensures
        r == binding_java(path@),
{
    match paths::file_name(path) {
        Some(name) => text::has_suffix(name.as_str(), "Binding.java"),
        None => false,
    }
}

/// Whether a change of the file can be a change of a generated binding: its name says so, and
/// it stands below both a `build` and a `databinding` directory.
pub open spec fn watched_binding(path: Seq<char>) -> bool {
    &&& binding_java(path)
    &&& paths::position_of(paths::components(path), "build"@) is Some
    &&& paths::position_of(paths::components(path), "databinding"@) is Some
}

/// Whether a change of the file can be a change of a generated binding.
pub fn is_generated_binding_watcher_path(path: &str) -> (r: bool)
    ensures
        r == watched_binding(path@),
{
    if !is_binding_java_filename(path) {
        return false;
    }
    let c = paths::components_of(path);
    paths::find_component(&c, "build").is_some() && paths::find_component(
        &c,
        "databinding",
    ).is_some()
}

// ---------------------------------------------------------------------------
// Packages
// ---------------------------------------------------------------------------

/// How many lines of a Java file are searched for its package.
pub const PACKAGE_LINES: usize = 30;

/// The package that a line declares.
pub open spec fn package_on(line: Seq<char>) -> Option<Seq<char>> {
    match text::prefix_stripped(text::trimmed(line), "package "@) {
        Some(rest) => {
            let name = text::trimmed(text::without_suffix_of(rest, text::only(';')));
            if name.len() > 0 {
                Some(name)
            } else {
                None
            }
        },
        None => None,
    }
}

/// Whether a line declares a package.
pub open spec fn declares_package() -> spec_fn(Seq<char>) -> bool {
    |line: Seq<char>| package_on(line) is Some
}

/// The lines that are searched for the package of a Java file.
pub open spec fn head_of(content: Seq<char>) -> Seq<Seq<char>> {
    let all = text::lines_of(content);
    if all.len() > PACKAGE_LINES {
        all.take(PACKAGE_LINES as int)
    } else {
        all
    }
}

/// The package of a Java file: the first that one of its first lines declares.
pub open spec fn java_package(content: Seq<char>) -> Option<Seq<char>> {
    match lists::find_where(head_of(content), declares_package()) {
        Some(line) => package_on(line),
        None => None,
    }
}

/// The package that a line declares.
fn package_in_line(line: &str) -> (r: Option<String>)
    ensures
        r.deep_view() == package_on(line@),
{
    match text::strip_prefix(text::trim(line), "package ") {
        Some(rest) => {
            let name = text::trim(text::trim_end_class(rest, CharClass::Only(';')));
            if name.is_empty() {
                None
            } else {
                Some(name.to_owned())
            }
        },
        None => None,
    }
}

/// The package of a Java file: the first that one of its first lines declares.
pub fn package_from_java_source(content: &str) -> (r: Option<String>)
    ensures
        r.deep_view() == java_package(content@),
{
    let lines = text::lines(content);
    let ghost head = head_of(content@);
    let ghost p = declares_package();
    let mut i: usize = 0;
    while i < lines.len() && i < PACKAGE_LINES
        invariant
            i <= lines@.len(),
            i <= PACKAGE_LINES,
            lines.deep_view() == text::lines_of(content@),
            head == head_of(content@),
            p == declares_package(),
            forall|k: int| 0 <= k < i ==> !p(#[trigger] head[k]),
        decreases lines@.len() - i,
    {
        assert(head[i as int] == lines@[i as int]@);
        let found = package_in_line(lines[i]);
        if found.is_some() {
            proof {
                lists::lemma_first(head, p, i as int);
            }
            return found;
        }
        i += 1;
    }
    proof {
        lists::lemma_no_first(head, p);
    }
    None
}

/// Whether a package is one that binding classes are generated into.
pub fn is_databinding_package(package_name: &str) -> (r: bool)
    ensures
        r == text::ends_with(package_name@, ".databinding"@),
{
    text::has_suffix(package_name, ".databinding")
}

/// The binding class that a Java file declares: named after the file, where the file's package
/// is one that binding classes are generated into and the file has a URI.
pub open spec fn binding_of(
    path: Seq<char>,
    content: Seq<char>,
    modified_at_secs: u64,
    file_uri: Option<Seq<char>>,
) -> Option<BindingView> {
    match (java_package(content), paths::stem(path), file_uri) {
        (Some(package), Some(class_name), Some(file_uri)) => if text::ends_with(
            package,
            ".databinding"@,
        ) {
            Some(BindingView { class_name, file_uri, modified_at_secs })
        } else {
            None
        },
        _ => None,
    }
}

/// The binding class that a Java file with the given URI declares.
pub fn binding_entry(
    path: &str,
    content: &str,
    modified_at_secs: u64,
    file_uri: Option<String>,
) -> (r: Option<GeneratedBindingEntry>)
    ensures
        r.deep_view() == binding_of(path@, content@, modified_at_secs, file_uri.deep_view()),
{
    match (package_from_java_source(content), paths::file_stem(path), file_uri) {
        (Some(package), Some(class_name), Some(file_uri)) => {
            if is_databinding_package(package.as_str()) {
                Some(GeneratedBindingEntry { class_name, file_uri, modified_at_secs })
            } else {
                None
            }
        },
        _ => None,
    }
}

/// The binding class that a Java file declares, with whatever URI the system gives the file.
pub fn read_binding_java_metadata(path: &str, content: &str, modified_at_secs: u64) -> (r: Option<
    GeneratedBindingEntry,
>)
    ensures
        exists|uri: Option<Seq<char>>|
            urls::url_fits(path@, uri) && r.deep_view() == #[trigger] binding_of(
                path@,
                content@,
                modified_at_secs,
                uri,
            ),
{
    let uri = urls::url_of_path(path);
    let ghost u = uri.deep_view();
    let r = binding_entry(path, content, modified_at_secs, uri);
    assert(r.deep_view() == binding_of(path@, content@, modified_at_secs, u));
    r
}

// ---------------------------------------------------------------------------
// The newest binding of each class
// ---------------------------------------------------------------------------

/// Whether the entry at `k` was changed later than every earlier one of its class, and no
/// earlier than any other.
pub open spec fn newest_at(c: Seq<BindingView>, k: int) -> bool {
    &&& forall|j: int|
        #![trigger c[j]]
        0 <= j < c.len() && c[j].class_name == c[k].class_name ==> c[j].modified_at_secs
            <= c[k].modified_at_secs
    &&& forall|j: int|
        #![trigger c[j]]
        0 <= j < k && c[j].class_name == c[k].class_name ==> c[j].modified_at_secs
            < c[k].modified_at_secs
}

/// Whether an entry is the newest of its class, the first found among the equally new.
pub open spec fn is_newest(c: Seq<BindingView>, e: BindingView) -> bool {
    exists|k: int| 0 <= k < c.len() && #[trigger] c[k] == e && newest_at(c, k)
}

/// Whether one of the entries is of the class.
pub open spec fn has_class(r: Seq<BindingView>, class_name: Seq<char>) -> bool {
    exists|i: int| 0 <= i < r.len() && (#[trigger] r[i]).class_name == class_name
}

/// Whether `r` holds of each class in `c` the newest entry, the first found among the equally
/// new, and nothing else.
#[verifier::opaque]
pub open spec fn newest_of(c: Seq<BindingView>, r: Seq<BindingView>) -> bool {
    &&& forall|i: int| 0 <= i < r.len() ==> is_newest(c, #[trigger] r[i])
    &&& forall|i: int, j: int|
        #![trigger r[i], r[j]]
        0 <= i < j < r.len() ==> r[i].class_name != r[j].class_name
    &&& forall|k: int| 0 <= k < c.len() ==> has_class(r, (#[trigger] c[k]).class_name)
}

proof fn lemma_newest_push(c: Seq<BindingView>, r: Seq<BindingView>, e: BindingView, at: Option<int>)
    requires
        newest_of(c, r),
        match at {
            Some(i) => 0 <= i < r.len() && r[i].class_name == e.class_name,
            None => forall|i: int| 0 <= i < r.len() ==> (#[trigger] r[i]).class_name != e.class_name,
        },
    ensures
        newest_of(
            c.push(e),
            match at {
                Some(i) => if r[i].modified_at_secs >= e.modified_at_secs {
                    r
                } else {
                    r.update(i, e)
                },
                None => r.push(e),
            },
        ),
{
    reveal(newest_of);
    let d = c.push(e);
    let n = c.len() as int;
    let s = match at {
        Some(i) => if r[i].modified_at_secs >= e.modified_at_secs {
            r
        } else {
            r.update(i, e)
        },
        None => r.push(e),
    };
    assert forall|i: int| 0 <= i < s.len() implies is_newest(d, #[trigger] s[i]) by {
        let fresh = match at {
            Some(j) => j == i && r[j].modified_at_secs < e.modified_at_secs,
            None => i == r.len(),
        };
        if fresh {
            assert(d[n] == s[i]);
            assert forall|j: int| #![trigger d[j]] 0 <= j < n && d[j].class_name
                == e.class_name implies d[j].modified_at_secs < e.modified_at_secs by {
                assert(d[j] == c[j]);
                lemma_newest_bound(c, r, j, at);
            }
            assert(newest_at(d, n));
        } else {
            assert(s[i] == r[i]);
            assert(is_newest(c, r[i]));
            let k = choose|k: int| 0 <= k < c.len() && #[trigger] c[k] == r[i] && newest_at(c, k);
            assert(d[k] == c[k]);
            assert forall|j: int| #![trigger d[j]] 0 <= j < d.len() && d[j].class_name
                == d[k].class_name implies d[j].modified_at_secs <= d[k].modified_at_secs by {
                if j < n {
                    assert(d[j] == c[j]);
                } else {
                    match at {
                        Some(i0) => {
                            assert(i == i0 || r[i].class_name != r[i0].class_name);
                        },
                        None => {},
                    }
                }
            }
            assert forall|j: int| #![trigger d[j]] 0 <= j < k && d[j].class_name
                == d[k].class_name implies d[j].modified_at_secs < d[k].modified_at_secs by {
                assert(d[j] == c[j]);
            }
            assert(newest_at(d, k));
        }
    }
    assert forall|k: int| 0 <= k < d.len() implies has_class(s, (#[trigger] d[k]).class_name) by {
        if k < n {
            assert(d[k] == c[k]);
            assert(has_class(r, c[k].class_name));
            let i = choose|i: int| 0 <= i < r.len() && (#[trigger] r[i]).class_name == c[k].class_name;
            assert(s[i].class_name == r[i].class_name);
        } else {
            match at {
                Some(i) => {
                    assert(s[i].class_name == e.class_name);
                },
                None => {
                    assert(s[r.len() as int] == e);
                },
            }
        }
    }
    assert forall|i: int, j: int| #![trigger s[i], s[j]] 0 <= i < j < s.len() implies s[i].class_name
        != s[j].class_name by {
        match at {
            Some(k) => {
                assert(s[i].class_name == r[i].class_name);
                assert(s[j].class_name == r[j].class_name);
            },
            None => {},
        }
    }
}

/// Where `r` holds the newest entries, an entry is no newer than the one of its class there.
proof fn lemma_newest_bound(c: Seq<BindingView>, r: Seq<BindingView>, j: int, at: Option<int>)
    requires
        newest_of(c, r),
        0 <= j < c.len(),
        match at {
            Some(i) => 0 <= i < r.len() && r[i].class_name == c[j].class_name,
            None => true,
        },
    ensures
        match at {
            Some(i) => c[j].modified_at_secs <= r[i].modified_at_secs,
            None => has_class(r, c[j].class_name),
        },
{
    reveal(newest_of);
    assert(has_class(r, c[j].class_name));
    match at {
        Some(i) => {
            assert(is_newest(c, r[i]));
        },
        None => {},
    }
}

/// Of each class the entry changed last.
pub fn newest_bindings(found: Vec<GeneratedBindingEntry>) -> (r: Vec<GeneratedBindingEntry>)
    ensures
        newest_of(found.deep_view(), r.deep_view()),
{
    let ghost c = found.deep_view();
    let mut out: Vec<GeneratedBindingEntry> = Vec::new();
    let mut i: usize = 0;
    assert(newest_of(c.take(0), out.deep_view())) by {
        reveal(newest_of);
    }
    while i < found.len()
        invariant
            i <= found@.len(),
            c == found.deep_view(),
            newest_of(c.take(i as int), out.deep_view()),
        decreases found@.len() - i,
    {
        let e = &found[i];
        let ghost before = out.deep_view();
        let mut j: usize = 0;
        while j < out.len() && !text::same(out[j].class_name.as_str(), e.class_name.as_str())
            invariant
                j <= out@.len(),
                before == out.deep_view(),
                forall|k: int|
                    0 <= k < j ==> (#[trigger] before[k]).class_name != e.class_name@,
            ensures
                j < out@.len() ==> before[j as int].class_name == e.class_name@,
            decreases out@.len() - j,
        {
            assert(before[j as int] == out@[j as int].deep_view());
            j += 1;
        }
        proof {
            assert(c[i as int] == e.deep_view());
            assert(c.take(i as int).push(e.deep_view()) =~= c.take(i + 1));
            if j < out@.len() {
                assert(before[j as int] == out@[j as int].deep_view());
            }
            lemma_newest_push(
                c.take(i as int),
                before,
                e.deep_view(),
                if j < out@.len() {
                    Some(j as int)
                } else {
                    None
                },
            );
        }
        if j == out.len() {
            out.push(e.replicate());
            assert(out.deep_view() =~= before.push(e.deep_view()));
        } else if out[j].modified_at_secs < e.modified_at_secs {
            out.set(j, e.replicate());
            assert(out.deep_view() =~= before.update(j as int, e.deep_view()));
        }
        i += 1;
    }
    assert(c.take(c.len() as int) =~= c);
    out
}

// ---------------------------------------------------------------------------
// Imports
// ---------------------------------------------------------------------------

proof fn lemma_newest_in(
    c: Seq<BindingView>,
    a: Seq<BindingView>,
    b: Seq<BindingView>,
    e: BindingView,
)
    requires
        newest_of(c, a),
        newest_of(c, b),
        a.contains(e),
    ensures
        b.contains(e),
{
    reveal(newest_of);
    let i = choose|i: int| 0 <= i < a.len() && a[i] == e;
    assert(is_newest(c, a[i]));
    let k = choose|k: int| 0 <= k < c.len() && #[trigger] c[k] == e && newest_at(c, k);
    assert(has_class(b, c[k].class_name));
    let j = choose|j: int| 0 <= j < b.len() && (#[trigger] b[j]).class_name == c[k].class_name;
    assert(is_newest(c, b[j]));
    let m = choose|m: int| 0 <= m < c.len() && #[trigger] c[m] == b[j] && newest_at(c, m);
    assert(m == k) by {
        assert(c[m].class_name == c[k].class_name);
    }
}

/// Which bindings of a module are known is fixed by those that were found: finding them again
/// changes nothing.
pub proof fn law_newest_bindings_are_fixed(
    c: Seq<BindingView>,
    a: Seq<BindingView>,
    b: Seq<BindingView>,
    e: BindingView,
)
    requires
        newest_of(c, a),
        newest_of(c, b),
    ensures
        a.contains(e) == b.contains(e),
{
    if a.contains(e) {
        lemma_newest_in(c, a, b, e);
    }
    if b.contains(e) {
        lemma_newest_in(c, b, a, e);
    }
}

/// Whether an import path names a generated binding class: its last segment ends in `Binding`
/// and the one before is `databinding`.
pub open spec fn names_binding(import_path: Seq<char>) -> bool {
    let segments = text::parts(import_path, '.');
    &&& text::ends_with(import_path, "Binding"@)
    &&& segments.len() >= 2
    &&& segments[segments.len() - 2] == "databinding"@
}

/// Whether an import path names a generated binding class.
pub fn import_triggers_binding_discovery(import_path: &str) -> (r: bool)
    ensures
        r == names_binding(import_path@),
{
    if !text::has_suffix(import_path, "Binding") {
        return false;
    }
    let segments = text::split(import_path, '.');
    if segments.len() < 2 {
        return false;
    }
    let at: usize = segments.len() - 2;
    assert(text::parts(import_path@, '.')[at as int] == segments@[at as int]@);
    text::same(segments[at], "databinding")
}

/// Whether an import names a generated binding class.
pub open spec fn binding_import(i: ImportView) -> bool {
    !i.is_star && names_binding(i.full_path)
}

/// Whether one of the imports names a generated binding class.
pub open spec fn imports_binding(imports: Seq<ImportView>) -> bool {
    exists|i: int| 0 <= i < imports.len() && binding_import(#[trigger] imports[i])
}

/// Whether one of the imports names a generated binding class.
pub fn file_imports_trigger_binding_discovery(imports: &Vec<ImportEntry>) -> (r: bool)
    ensures
        r == imports_binding(imports.deep_view()),
{
    let ghost all = imports.deep_view();
    let mut i: usize = 0;
    while i < imports.len()
        invariant
            i <= imports@.len(),
            all == imports.deep_view(),
            forall|k: int| 0 <= k < i ==> !binding_import(#[trigger] all[k]),
        decreases imports@.len() - i,
    {
        assert(all[i as int] == imports@[i as int].deep_view());
        if !imports[i].is_star && import_triggers_binding_discovery(imports[i].full_path.as_str()) {
            return true;
        }
        i += 1;
    }
    false
}

// ---------------------------------------------------------------------------
// Requests
// ---------------------------------------------------------------------------

/// Requests to discover the generated bindings of a module, as they wait for the worker.
pub struct BindingDiscoveryHandle {
    /// Whether there is a worker.
    pub enabled: bool,
    /// Modules whose request has not been finished.
    pub in_flight: Table<()>,
    /// Modules whose request waits, the next one first.
    pub queue: Vec<String>,
}

#[verifier::ext_equal]
pub struct HandleView {
    pub enabled: bool,
    pub in_flight: Map<Seq<char>, ()>,
    pub queue: Seq<Seq<char>>,
}

impl View for BindingDiscoveryHandle {
    type V = HandleView;

    open spec fn view(&self) -> HandleView {
        HandleView {
            enabled: self.enabled,
            in_flight: self.in_flight@,
            queue: self.queue.deep_view(),
        }
    }
}

/// A handle that drops every request, or, with a worker, one that has none yet.
pub open spec fn idle_handle(enabled: bool) -> HandleView {
    HandleView { enabled, in_flight: Map::empty(), queue: Seq::empty() }
}

/// A request joins the queue, unless there is no worker or the module's request is in flight.
pub open spec fn with_request(h: HandleView, module_root: Seq<char>) -> HandleView {
    if !h.enabled || h.in_flight.dom().contains(module_root) {
        h
    } else {
        HandleView {
            enabled: h.enabled,
            in_flight: h.in_flight.insert(module_root, ()),
            queue: h.queue.push(module_root),
        }
    }
}

impl BindingDiscoveryHandle {
    pub open spec fn wf(&self) -> bool {
        self.in_flight.wf()
    }

    /// A handle that drops every request.
    pub fn noop() -> (r: BindingDiscoveryHandle)
        ensures
            r.wf(),
            r@ == idle_handle(false),
    {
        let r = BindingDiscoveryHandle {
            enabled: false,
            in_flight: Table::new(),
            queue: Vec::new(),
        };
        assert(r@ =~~= idle_handle(false));
        r
    }

    /// A handle whose requests a worker takes.
    pub fn with_worker() -> (r: BindingDiscoveryHandle)
        ensures
            r.wf(),
            r@ == idle_handle(true),
    {
        let r = BindingDiscoveryHandle { enabled: true, in_flight: Table::new(), queue: Vec::new() };
        assert(r@ =~~= idle_handle(true));
        r
    }

    /// Requests discovery for a module. Requests for one module are joined while one of them
    /// is in flight.
    pub fn request(&mut self, module_root: &str)
        requires
            old(self).wf(),
        ensures
            final(self).wf(),
            final(self)@ == with_request(old(self)@, module_root@),
    {
        if !self.enabled || self.in_flight.contains_key(module_root) {
            return;
        }
        let ghost before = self.queue.deep_view();
        self.in_flight.insert(module_root, ());
        self.queue.push(module_root.to_owned());
        assert(self.queue.deep_view() =~= before.push(module_root@));
    }

    /// Takes the request that has waited longest.
    pub fn take_request(&mut self) -> (r: Option<String>)
        requires
            old(self).wf(),
        ensures
            final(self).wf(),
            old(self)@.queue.len() == 0 ==> r is None && final(self)@ == old(self)@,
            old(self)@.queue.len() > 0 ==> r.deep_view() == Some(old(self)@.queue[0])
                && final(self)@ == (HandleView { queue: old(self)@.queue.skip(1), ..old(self)@ }),
    {
        if self.queue.len() == 0 {
            return None;
        }
        let ghost before = self.queue.deep_view();
        let root = self.queue.remove(0);
        assert(root@ == before[0]);
        assert(self.queue.deep_view() =~= before.skip(1));
        Some(root)
    }

    /// Marks a module's request as finished, so that the module can be requested again.
    pub fn finish(&mut self, module_root: &str)
        requires
            old(self).wf(),
        ensures
            final(self).wf(),
            final(self)@ == (HandleView {
                in_flight: old(self)@.in_flight.remove(module_root@),
                ..old(self)@
            }),
    {
        self.in_flight.remove(module_root);
    }

    /// Forgets which requests are in flight.
    pub fn clear(&mut self)
        requires
            old(self).wf(),
        ensures
            final(self).wf(),
            final(self)@ == (HandleView { in_flight: Map::empty(), ..old(self)@ }),
    {
        self.in_flight.clear();
    }
}

/// A second request for a module, while the first is in flight, changes nothing.
pub proof fn law_requests_are_joined(h: HandleView, module_root: Seq<char>)
    ensures
        with_request(with_request(h, module_root), module_root) == with_request(h, module_root),
{
}

/// Whether the queue holds each module once, and only modules in flight.
pub open spec fn queue_in_flight(h: HandleView) -> bool {
    &&& h.queue.no_duplicates()
    &&& forall|i: int| 0 <= i < h.queue.len() ==> h.in_flight.dom().contains(#[trigger] h.queue[i])
}

/// However requests come, the queue holds each module once.
pub proof fn law_queue_without_duplicates(h: HandleView, module_root: Seq<char>)
    requires
        queue_in_flight(h),
    ensures
        queue_in_flight(with_request(h, module_root)),
{
    let g = with_request(h, module_root);
    if h.enabled && !h.in_flight.dom().contains(module_root) {
        assert forall|i: int| 0 <= i < g.queue.len() implies g.in_flight.dom().contains(
            #[trigger] g.queue[i],
        ) by {
            if i < h.queue.len() {
                assert(g.queue[i] == h.queue[i]);
            }
        }
        assert forall|i: int, j: int|
            0 <= i < g.queue.len() && 0 <= j < g.queue.len() && i != j implies g.queue[i]
            != g.queue[j] by {
            if i < h.queue.len() {
                assert(h.in_flight.dom().contains(h.queue[i]));
            }
            if j < h.queue.len() {
                assert(h.in_flight.dom().contains(h.queue[j]));
            }
        }
    }
}

// ---------------------------------------------------------------------------
// The index
// ---------------------------------------------------------------------------

/// The request that a file with these imports at this path makes.
pub open spec fn requested_for(
    v: IndexView,
    path: Option<Seq<char>>,
    imports: Seq<ImportView>,
) -> IndexView {
    match path {
        Some(p) => match root_above(p, "src"@) {
            Some(root) => if imports_binding(imports) {
                IndexView { binding_discovery: with_request(v.binding_discovery, root), ..v }
            } else {
                v
            },
            None => v,
        },
        None => v,
    }
}

/// Whether a layout is a variant of `layout_name` in the module.
pub open spec fn variant_of(module_root: Seq<char>, layout_name: Seq<char>) -> spec_fn(
    LayoutView,
) -> bool {
    |l: LayoutView|
        paths::components(l.module_root) == paths::components(module_root) && l.layout_name
            == layout_name
}

/// The values of a table's rows, in their order.
pub open spec fn row_values<V>(m: Map<Seq<char>, V>, keys: Seq<Seq<char>>) -> Seq<V> {
    keys.map_values(|k: Seq<char>| m[k])
}

/// Whether `keys` lists every key of `m` once.
pub open spec fn lists_keys<V>(m: Map<Seq<char>, V>, keys: Seq<Seq<char>>) -> bool {
    &&& keys.no_duplicates()
    &&& forall|k: Seq<char>| #[trigger] keys.contains(k) == m.dom().contains(k)
}

/// Whether no layout has a qualifier that comes before that of an earlier one. The default
/// variant, which has none, comes first.
pub open spec fn by_qualifier(l: Seq<LayoutView>) -> bool {
    forall|i: int, j: int|
        0 <= i < j < l.len() ==> !sorting::text_before(
            (#[trigger] l[j]).variant_qualifier,
            (#[trigger] l[i]).variant_qualifier,
        )
}

/// Whether `l` holds the variants of a layout in a module, sorted by their qualifiers.
pub open spec fn variants_listed(
    layouts: Map<Seq<char>, LayoutView>,
    module_root: Seq<char>,
    layout_name: Seq<char>,
    l: Seq<LayoutView>,
) -> bool {
    &&& by_qualifier(l)
    &&& exists|keys: Seq<Seq<char>>| #[trigger]
        lists_keys(layouts, keys) && l.to_multiset() == row_values(layouts, keys).filter(
            variant_of(module_root, layout_name),
        ).to_multiset()
}

/// Whether `l` holds the layouts that a binding class was generated for.
pub open spec fn layouts_listed(
    layouts: Map<Seq<char>, LayoutView>,
    module_root: Seq<char>,
    class_name: Seq<char>,
    l: Seq<LayoutView>,
) -> bool {
    match naming::layout_of_class(class_name) {
        Some(name) => variants_listed(layouts, module_root, name, l),
        None => l.len() == 0,
    }
}

/// Whether a file declares one of the generated bindings of a module.
pub open spec fn declares_binding(entries: Seq<BindingView>, uri: Seq<char>) -> bool {
    exists|i: int| 0 <= i < entries.len() && (#[trigger] entries[i]).file_uri == uri
}

fn holds_uri(entries: &Vec<GeneratedBindingEntry>, uri: &str) -> (r: bool)
    ensures
        r == declares_binding(entries.deep_view(), uri@),
{
    let ghost all = entries.deep_view();
    let mut i: usize = 0;
    while i < entries.len()
        invariant
            i <= entries@.len(),
            all == entries.deep_view(),
            forall|k: int| 0 <= k < i ==> (#[trigger] all[k]).file_uri != uri@,
        decreases entries@.len() - i,
    {
        assert(all[i as int] == entries@[i as int].deep_view());
        if text::same(entries[i].file_uri.as_str(), uri) {
            return true;
        }
        i += 1;
    }
    false
}

/// Enters a layout into a list sorted by qualifier, after those it does not come before.
fn insert_variant(list: &mut Vec<LayoutFileData>, data: LayoutFileData)
    requires
        by_qualifier(old(list).deep_view()),
    ensures
        by_qualifier(final(list).deep_view()),
        final(list).deep_view().to_multiset() == old(list).deep_view().to_multiset().insert(
            data.deep_view(),
        ),
{
    let ghost before = list.deep_view();
    let ghost item = data.deep_view();
    let mut i: usize = 0;
    while i < list.len() && !sorting::comes_before(
        data.variant_qualifier.as_str(),
        list[i].variant_qualifier.as_str(),
    )
        invariant
            i <= list@.len(),
            before == list.deep_view(),
            item == data.deep_view(),
            forall|k: int|
                0 <= k < i ==> !sorting::text_before(
                    item.variant_qualifier,
                    (#[trigger] before[k]).variant_qualifier,
                ),
        ensures
            i < list@.len() ==> sorting::text_before(
                item.variant_qualifier,
                before[i as int].variant_qualifier,
            ),
        decreases list@.len() - i,
    {
        assert(before[i as int] == list@[i as int].deep_view());
        i += 1;
    }
    proof {
        if i < list@.len() {
            assert(before[i as int] == list@[i as int].deep_view());
        }
    }
    list.insert(i, data);
    proof {
        let after = list.deep_view();
        assert(after =~= before.insert(i as int, item));
        lists::lemma_insert_counts(before, i as int, item);
        assert forall|a: int, b: int| 0 <= a < b < after.len() implies !sorting::text_before(
            (#[trigger] after[b]).variant_qualifier,
            (#[trigger] after[a]).variant_qualifier,
        ) by {
            if b < i {
                assert(after[a] == before[a] && after[b] == before[b]);
            } else if b == i {
                assert(after[a] == before[a]);
            } else if a < i {
                assert(after[a] == before[a] && after[b] == before[b - 1]);
            } else if a > i {
                assert(after[a] == before[a - 1] && after[b] == before[b - 1]);
            } else {
                // `item` comes before the layout that it displaced, which does not come after
                // the later ones.
                let q = before[i as int].variant_qualifier;
                let x = before[b - 1].variant_qualifier;
                if sorting::text_before(x, item.variant_qualifier) {
                    sorting::lemma_before_transitive(x, item.variant_qualifier, q);
                    if b - 1 == i {
                        sorting::lemma_before_irreflexive(x);
                    }
                }
            }
        }
    }
}

impl Indexer {
    /// Puts a handle in the place of the one the index had.
    pub fn set_binding_discovery_handle(&mut self, handle: BindingDiscoveryHandle)
        requires
            old(self).wf(),
            handle.wf(),
        ensures
            final(self).wf(),
            final(self)@ == (IndexView { binding_discovery: handle@, ..old(self)@ }),
    {
        self.binding_discovery = handle;
    }

    /// Requests discovery of the generated bindings of a module.
    pub fn request_generated_binding_discovery(&mut self, module_root: &str)
        requires
            old(self).wf(),
        ensures
            final(self).wf(),
            final(self)@ == (IndexView {
                binding_discovery: with_request(old(self)@.binding_discovery, module_root@),
                ..old(self)@
            }),
    {
        self.binding_discovery.request(module_root);
    }

    /// Requests discovery for the module of a file at `path`, where the file imports a
    /// generated binding class.
    pub fn enqueue_binding_discovery_at(&mut self, path: Option<&str>, imports: &Vec<ImportEntry>)
        requires
            old(self).wf(),
        ensures
            final(self).wf(),
            final(self)@ == requested_for(old(self)@, path.deep_view(), imports.deep_view()),
    {
        if !file_imports_trigger_binding_discovery(imports) {
            return;
        }
        if let Some(path) = path {
            if let Some(root) = module_root_for_source_file(path) {
                self.request_generated_binding_discovery(root.as_str());
            }
        }
    }

    /// Requests discovery for the module of a file, where the file imports a generated binding
    /// class; the path is whatever the system gives for the URI.
    pub fn maybe_enqueue_binding_discovery_for_file(
        &mut self,
        uri: &str,
        imports: &Vec<ImportEntry>,
    )
        requires
            old(self).wf(),
        ensures
            final(self).wf(),
            exists|path: Option<Seq<char>>|
                urls::path_fits(uri@, path) && final(self)@ == #[trigger] requested_for(
                    old(self)@,
                    path,
                    imports.deep_view(),
                ),
    {
        let path = urls::path_of_url(uri);
        let ghost p = path.deep_view();
        match path {
            Some(path) => {
                self.enqueue_binding_discovery_at(Some(path.as_str()), imports);
            },
            None => {
                self.enqueue_binding_discovery_at(None, imports);
            },
        }
        assert(self@ == requested_for(old(self)@, p, imports.deep_view()));
    }

    /// Records the generated bindings of a module, in place of those known so far.
    pub fn set_generated_bindings(&mut self, module_root: &str, found: Vec<GeneratedBindingEntry>)
        requires
            old(self).wf(),
        ensures
            final(self).wf(),
            exists|newest: Seq<BindingView>| #[trigger]
                newest_of(found.deep_view(), newest) && final(self)@ == (IndexView {
                    generated_bindings: old(self)@.generated_bindings.insert(
                        paths::plain(module_root@),
                        newest,
                    ),
                    ..old(self)@
                }),
    {
        let entries = newest_bindings(found);
        let key = paths::plain_path(module_root);
        assert(newest_of(found.deep_view(), entries.deep_view()));
        self.generated_bindings.insert(key.as_str(), entries);
    }

    /// The layouts that a binding class of a module was generated for, the default variant
    /// first.
    pub fn layouts_for_binding_class(&self, class_name: &str, module_root: &str) -> (r: Vec<
        LayoutFileData,
    >)
        requires
            self.wf(),
        ensures
            layouts_listed(self@.layouts, module_root@, class_name@, r.deep_view()),
    {
        let mut out: Vec<LayoutFileData> = Vec::new();
        let layout_name = match naming::layout_name_for_binding_class(class_name) {
            Some(name) => name,
            None => {
                return out;
            },
        };
        let ghost keys = self.layouts.order();
        let ghost all = row_values(self@.layouts, keys);
        let ghost p = variant_of(module_root@, layout_name@);
        proof {
            self.layouts.lemma_order();
            assert forall|k: Seq<char>| #[trigger] keys.contains(k) == self@.layouts.dom().contains(
                k,
            ) by {}
            reveal(Seq::filter);
            assert(out.deep_view() =~= Seq::empty());
            assert(all.take(0).filter(p) =~= Seq::empty());
        }
        let mut i: usize = 0;
        while i < self.layouts.len()
            invariant
                self.wf(),
                i <= keys.len(),
                keys == self.layouts.order(),
                all == row_values(self@.layouts, keys),
                p == variant_of(module_root@, layout_name@),
                by_qualifier(out.deep_view()),
                out.deep_view().to_multiset() == all.take(i as int).filter(p).to_multiset(),
            decreases keys.len() - i,
        {
            let data = self.layouts.value_at(i);
            proof {
                assert(all[i as int] == data.deep_view());
                assert(all.take(i as int).push(data.deep_view()) =~= all.take(i + 1));
                all.take(i as int).lemma_filter_push(data.deep_view(), p);
                all.take(i as int).filter(p).to_multiset_ensures();
            }
            if paths::same_path(data.module_root.as_str(), module_root) && text::same(
                data.layout_name.as_str(),
                layout_name.as_str(),
            ) {
                insert_variant(&mut out, data.replicate());
            }
            i += 1;
        }
        proof {
            assert(all.take(all.len() as int) =~= all);
            assert(lists_keys(self@.layouts, keys));
        }
        out
    }

    /// Whether a file is known to declare a generated binding class.
    pub fn is_generated_binding_uri(&self, uri: &str) -> (r: bool)
        requires
            self.wf(),
        ensures
            r == exists|root: Seq<char>| #[trigger]
                self@.generated_bindings.dom().contains(root) && declares_binding(
                    self@.generated_bindings[root],
                    uri@,
                ),
    {
        let ghost keys = self.generated_bindings.order();
        let ghost m = self@.generated_bindings;
        proof {
            self.generated_bindings.lemma_order();
        }
        let mut i: usize = 0;
        while i < self.generated_bindings.len()
            invariant
                self.wf(),
                i <= keys.len(),
                keys == self.generated_bindings.order(),
                m == self@.generated_bindings,
                forall|k: int| 0 <= k < i ==> !declares_binding(m[#[trigger] keys[k]], uri@),
            decreases keys.len() - i,
        {
            if holds_uri(self.generated_bindings.value_at(i), uri) {
                assert(m.dom().contains(keys[i as int]));
                return true;
            }
            i += 1;
        }
        assert forall|root: Seq<char>| #[trigger] m.dom().contains(
            root,
        ) implies !declares_binding(m[root], uri@) by {
            let k = choose|k: int| 0 <= k < keys.len() && keys[k] == root;
            assert(keys.contains(root));
        }
        false
    }
}

} // verus!
