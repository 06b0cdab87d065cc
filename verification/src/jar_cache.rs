//! Symbols of compiled libraries that were read before: they are kept for as long as a library
//! does not change.
use vstd::prelude::*;
use vstd::string::*;

use crate::jar::{SidecarSymbol, SidecarView};
use crate::jar_index;
use crate::jar_index::Known;
use crate::sources_jar::{JarFingerprint, Source};
use crate::table::Table;
use crate::types::Replicate;

verus! {

/// The symbols of a library, in the state of the fingerprint.
#[derive(Debug, PartialEq, Eq)]
pub struct JarCacheEntry {
    pub fingerprint: JarFingerprint,
    pub symbols: Vec<SidecarSymbol>,
}

#[verifier::ext_equal]
pub struct JarCacheView {
    pub fingerprint: JarFingerprint,
    pub symbols: Seq<SidecarView>,
}

impl DeepView for JarCacheEntry {
    type V = JarCacheView;

    open spec fn deep_view(&self) -> JarCacheView {
        JarCacheView { fingerprint: self.fingerprint, symbols: self.symbols.deep_view() }
    }
}

/// Libraries by path.
pub type JarCache = Map<Seq<char>, JarCacheView>;

/// The symbols that are kept of a library, where its file is still the one that they were read
/// from.
pub open spec fn kept_symbols(cache: JarCache, jar: Source) -> Option<Seq<SidecarView>> {
    if cache.dom().contains(jar.0) && jar.1 == Some(cache[jar.0].fingerprint) {
        Some(cache[jar.0].symbols)
    } else {
        None
    }
}

/// The symbols of each of some libraries that need not be read anew.
pub open spec fn known(cache: JarCache, jars: Seq<Source>) -> Known {
    jars.map_values(|jar: Source| kept_symbols(cache, jar))
}

/// The cache with what reading the first `n` libraries gave. A library whose state cannot be
/// told is not kept.
pub open spec fn with_read(
    cache: JarCache,
    jars: Seq<Source>,
    lists: Seq<Seq<SidecarView>>,
    n: int,
) -> JarCache
    decreases n,
{
    if n <= 0 || n > jars.len() || n > lists.len() {
        cache
    } else {
        let before = with_read(cache, jars, lists, n - 1);
        match jars[n - 1].1 {
            Some(fingerprint) => before.insert(
                jars[n - 1].0,
                JarCacheView { fingerprint, symbols: lists[n - 1] },
            ),
            None => before,
        }
    }
}

/// Whether one of the first `n` libraries is one that is kept.
pub open spec fn keeps_one(jars: Seq<Source>, n: int) -> bool {
    exists|i: int| 0 <= i < n && (#[trigger] jars[i]).1 is Some
}

/// The symbols of each of some libraries that need not be read anew.
pub fn known_symbols(
    cache: &Table<JarCacheEntry>,
    jars: &Vec<(String, Option<JarFingerprint>)>,
) -> (r: Vec<Option<Vec<SidecarSymbol>>>)
    requires
        cache.wf(),
    ensures
        r.deep_view() == known(cache@, jars.deep_view()),
{
    let ghost all = jars.deep_view();
    let mut out: Vec<Option<Vec<SidecarSymbol>>> = Vec::new();
    let mut i: usize = 0;
    while i < jars.len()
        invariant
            i <= jars@.len(),
            cache.wf(),
            all == jars.deep_view(),
            out@.len() == i,
            forall|k: int|
                0 <= k < i ==> (#[trigger] out@[k]).deep_view() == kept_symbols(cache@, all[k]),
        decreases jars@.len() - i,
    {
        assert(all[i as int] == jars@[i as int].deep_view());
        let mut symbols: Option<Vec<SidecarSymbol>> = None;
        if let Some(entry) = cache.get(jars[i].0.as_str()) {
            if let Some(fingerprint) = jars[i].1 {
                if entry.fingerprint == fingerprint {
                    symbols = Some(entry.symbols.replicate());
                }
            }
        }
        out.push(symbols);
        i += 1;
    }
    assert(out.deep_view() =~= known(cache@, all));
    out
}

/// Keeps what reading libraries gave; hands out whether the cache has changed.
pub fn keep_read(
    cache: &mut Table<JarCacheEntry>,
    jars: &Vec<(String, Option<JarFingerprint>)>,
    lists: &Vec<Vec<SidecarSymbol>>,
) -> (r: bool)
    requires
        old(cache).wf(),
    ensures
        final(cache).wf(),
        final(cache)@ == with_read(
            old(cache)@,
            jars.deep_view(),
            lists.deep_view(),
            jar_index::pairs(jars@.len() as int, lists@.len() as int),
        ),
        r == keeps_one(
            jars.deep_view(),
            jar_index::pairs(jars@.len() as int, lists@.len() as int),
        ),
{
    let ghost all = jars.deep_view();
    let ghost read = lists.deep_view();
    let mut dirty = false;
    let mut i: usize = 0;
    while i < jars.len() && i < lists.len()
        invariant
            i <= jars@.len(),
            i <= lists@.len(),
            cache.wf(),
            all == jars.deep_view(),
            read == lists.deep_view(),
            cache@ == with_read(old(cache)@, all, read, i as int),
            dirty == keeps_one(all, i as int),
        decreases jars@.len() - i,
    {
        proof {
            assert(all[i as int] == jars@[i as int].deep_view());
            assert(read[i as int] == lists@[i as int].deep_view());
        }
        if let Some(fingerprint) = jars[i].1 {
            let entry = JarCacheEntry { fingerprint, symbols: lists[i].replicate() };
            cache.insert(jars[i].0.as_str(), entry);
            dirty = true;
            assert(all[i as int].1 is Some);
        }
        i += 1;
    }
    dirty
}

/// What was read of a library is known for as long as its file does not change.
pub proof fn law_read_symbols_are_known(
    cache: JarCache,
    jars: Seq<Source>,
    lists: Seq<Seq<SidecarView>>,
    i: int,
    n: int,
)
    requires
        0 <= i < n <= jars.len(),
        n <= lists.len(),
        jars[i].1 is Some,
        forall|j: int| i < j < n ==> (#[trigger] jars[j]).0 != jars[i].0,
    ensures
        kept_symbols(with_read(cache, jars, lists, n), jars[i]) == Some(lists[i]),
        forall|state: Option<JarFingerprint>|
            state != jars[i].1 ==> #[trigger] kept_symbols(
                with_read(cache, jars, lists, n),
                (jars[i].0, state),
            ) is None,
    decreases n,
{
    if n - 1 > i {
        law_read_symbols_are_known(cache, jars, lists, i, n - 1);
        assert(jars[n - 1].0 != jars[i].0);
    }
}

} // verus!
