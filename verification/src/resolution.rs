//! Finding a symbol, and saying of it what its user sees.
use vstd::prelude::*;
use vstd::string::*;

use crate::lists;
use crate::lookup;
use crate::sig;
use crate::text;
use crate::type_subst;
use crate::types::{
    FileData, FileView, Location, LocationView, Range, SymbolEntry, SymbolKind, SymbolView,
};

verus! {

// ---------------------------------------------------------------------------
// What an index answers
// ---------------------------------------------------------------------------

/// Everything that can be read from an index.
pub struct ReadView {
    /// Where a name is declared.
    pub definitions: spec_fn(Seq<char>) -> Option<Seq<LocationView>>,
    /// What is known of a file.
    pub file: spec_fn(Seq<char>) -> Option<FileView>,
    /// Where a name, with a qualifier, is declared that a file uses; with a view to searching the
    /// sources as well, or by the index alone.
    pub locations: spec_fn(Seq<char>, Option<Seq<char>>, Seq<char>, bool) -> Seq<LocationView>,
    /// The type of a variable of a file that is declared without one.
    pub var_type: spec_fn(Seq<char>, Seq<char>) -> Option<Seq<char>>,
    /// Where a qualified name is declared.
    pub qualified: spec_fn(Seq<char>) -> Seq<LocationView>,
}

/// What resolution reads from an index.
pub trait IndexRead {
    /// Everything that can be read.
    spec fn seen(&self) -> ReadView;

    /// The tables that answer are in order.
    spec fn ready(&self) -> bool;

    fn get_definitions(&self, name: &str) -> (r: Option<Vec<Location>>)
        requires
            self.ready(),
        ensures
            r.deep_view() == (self.seen().definitions)(name@),
    ;

    fn get_file_data(&self, uri: &str) -> (r: Option<&FileData>)
        requires
            self.ready(),
        ensures
            match r {
                Some(d) => (self.seen().file)(uri@) == Some(d.deep_view()),
                None => (self.seen().file)(uri@) is None,
            },
    ;

    fn resolve_locations(
        &self,
        name: &str,
        qualifier: Option<&str>,
        from_uri: &str,
        allow_rg: bool,
    ) -> (r: Vec<Location>)
        requires
            self.ready(),
        ensures
            r.deep_view() == (self.seen().locations)(
                name@,
                qualifier.deep_view(),
                from_uri@,
                allow_rg,
            ),
    ;

    fn infer_variable_type_for(&self, name: &str, uri: &str) -> (r: Option<String>)
        requires
            self.ready(),
        ensures
            r.deep_view() == (self.seen().var_type)(name@, uri@),
    ;

    fn qualified_definition_locations(&self, fqn: &str) -> (r: Vec<Location>)
        requires
            self.ready(),
        ensures
            r.deep_view() == (self.seen().qualified)(fqn@),
    ;
}

/// Where a name is declared that a file uses, where sources may be searched.
pub fn find_definition_qualified<I: IndexRead>(
    index: &I,
    name: &str,
    qualifier: Option<&str>,
    from_uri: &str,
) -> (r: Vec<Location>)
    requires
        index.ready(),
    ensures
        r.deep_view() == (index.seen().locations)(
            name@,
            qualifier.deep_view(),
            from_uri@,
            true,
        ),
{
    index.resolve_locations(name, qualifier, from_uri, true)
}

// ---------------------------------------------------------------------------
// Options
// ---------------------------------------------------------------------------

/// What resolution may do, and what it shall find out.
#[derive(Clone, Copy, Debug, PartialEq, Eq, Structural)]
pub struct ResolveOptions {
    pub allow_rg: bool,
    pub include_doc: bool,
    pub apply_subst: bool,
    /// Whether the stored one-line signature is wanted rather than the declaration's text.
    pub prefer_cached_detail: bool,
}

impl ResolveOptions {
    /// For hovering: the whole declaration, with documentation.
    pub fn hover() -> (r: Self)
        ensures
            r == (ResolveOptions {
                allow_rg: true,
                include_doc: true,
                apply_subst: true,
                prefer_cached_detail: false,
            }),
    {
        ResolveOptions {
            allow_rg: true,
            include_doc: true,
            apply_subst: true,
            prefer_cached_detail: false,
        }
    }

    /// For completion: quickly, on one line, with documentation.
    pub fn completion() -> (r: Self)
        ensures
            r == (ResolveOptions {
                allow_rg: false,
                include_doc: true,
                apply_subst: true,
                prefer_cached_detail: true,
            }),
    {
        ResolveOptions {
            allow_rg: false,
            include_doc: true,
            apply_subst: true,
            prefer_cached_detail: true,
        }
    }

    /// For going to a definition: no more than the place.
    pub fn goto_def() -> (r: Self)
        ensures
            r == (ResolveOptions {
                allow_rg: true,
                include_doc: false,
                apply_subst: false,
                prefer_cached_detail: false,
            }),
    {
        ResolveOptions {
            allow_rg: true,
            include_doc: false,
            apply_subst: false,
            prefer_cached_detail: false,
        }
    }
}

// ---------------------------------------------------------------------------
// Symbols in a file
// ---------------------------------------------------------------------------

/// Whether a symbol's name stands in the range.
pub open spec fn at_range(range: Range) -> spec_fn(SymbolView) -> bool {
    |s: SymbolView| s.selection_range == range
}

/// The symbol at a location: the one in its range, else the first of the name.
pub open spec fn entry_at(f: FileView, l: LocationView, name: Seq<char>) -> Option<SymbolView> {
    match lists::find_where(f.symbols, at_range(l.range)) {
        Some(s) => Some(s),
        None => lists::find_where(f.symbols, lookup::symbol_is(name)),
    }
}

/// The symbol at a location: the one in its range, else the first of the name.
pub fn find_symbol_entry<'a>(data: &'a FileData, location: &Location, name: &str) -> (r: Option<
    &'a SymbolEntry,
>)
    ensures
        match r {
            Some(s) => entry_at(data.deep_view(), location.deep_view(), name@) == Some(
                s.deep_view(),
            ),
            None => entry_at(data.deep_view(), location.deep_view(), name@) is None,
        },
{
    let ghost all = data.symbols.deep_view();
    let ghost p = at_range(location.range);
    let mut i: usize = 0;
    while i < data.symbols.len()
        invariant
            i <= data.symbols@.len(),
            all == data.symbols.deep_view(),
            p == at_range(location.range),
            forall|k: int| 0 <= k < i ==> !p(#[trigger] all[k]),
        decreases data.symbols@.len() - i,
    {
        assert(all[i as int] == data.symbols@[i as int].deep_view());
        if data.symbols[i].selection_range == location.range {
            proof {
                lists::lemma_first(all, p, i as int);
            }
            return Some(&data.symbols[i]);
        }
        i += 1;
    }
    proof {
        lists::lemma_no_first(all, p);
    }
    lookup::symbol_named(&data.symbols, name)
}

/// The type that the text of a property's declaration names, where it begins with a capital.
pub open spec fn property_type(detail: Seq<char>) -> Seq<char> {
    match text::index_of(detail, ':') {
        Some(i) => {
            let name = text::ident_of(text::trimmed_start(detail.skip(i + 1)));
            if text::upper_start(name) {
                name
            } else {
                Seq::empty()
            }
        },
        None => Seq::empty(),
    }
}

/// The type that the text of a property's declaration names, where it begins with a capital;
/// nothing otherwise.
pub fn extract_property_type_name<'a>(detail: &'a str) -> (r: &'a str)
    ensures
        r@ == property_type(detail@),
{
    match text::find_char(detail, ':') {
        Some(i) => {
            let n: usize = detail.unicode_len();
            assert(i < n);
            let name = text::ident_prefix(text::trim_start(text::skip(detail, i + 1)));
            if text::starts_with_uppercase(name) {
                return name;
            }
        },
        None => {},
    }
    proof {
        reveal_strlit("");
        assert(""@ =~= Seq::<char>::empty());
    }
    ""
}

/// Properties and variables.
pub open spec fn is_value(k: SymbolKind) -> bool {
    k == SymbolKind::Property || k == SymbolKind::Variable
}

/// The text of a symbol's declaration. Properties and variables show the stored one-line
/// signature, since the text of theirs may run into what follows.
pub open spec fn canonical(s: SymbolView, f: FileView, prefer_cached: bool) -> Seq<char> {
    let full = sig::signature(f.lines, s.selection_range.start.line as int);
    if (prefer_cached || is_value(s.kind)) && s.detail.len() > 0 {
        s.detail
    } else if full.len() > 0 {
        full
    } else {
        s.detail
    }
}

/// The text of a symbol's declaration.
pub fn extract_canonical_signature(entry: &SymbolEntry, data: &FileData, prefer_cached: bool) -> (r:
    String)
    ensures
        r@ == canonical(entry.deep_view(), data.deep_view(), prefer_cached),
{
    if (prefer_cached || entry.kind == SymbolKind::Property || entry.kind == SymbolKind::Variable)
        && !entry.detail.as_str().is_empty() {
        return entry.detail.clone();
    }
    let full = sig::collect_signature(&data.lines, entry.selection_start() as usize);
    if !full.as_str().is_empty() {
        full
    } else {
        entry.detail.clone()
    }
}

/// Where a property's name begins in the text of its declaration.
pub open spec fn name_position(raw: Seq<char>, name: Seq<char>) -> Option<int> {
    match text::find_text(raw, " "@ + name) {
        Some(i) => Some(i + 1),
        None => if text::starts_with(raw, name) {
            Some(0)
        } else {
            None
        },
    }
}

/// The declaration of a property with its inferred type in the place of its initializer.
pub open spec fn augmented(
    raw: Seq<char>,
    name: Seq<char>,
    kind: SymbolKind,
    inferred: Seq<char>,
) -> Seq<char> {
    match name_position(raw, name) {
        Some(i) => raw.take(i + name.len()) + ": "@ + inferred,
        None => (if kind == SymbolKind::Variable {
            "var "@
        } else {
            "val "@
        }) + name + ": "@ + inferred,
    }
}

/// The declaration of a property with its inferred type in the place of its initializer.
pub fn augment_property_sig(raw: &str, name: &str, kind: SymbolKind, inferred: &str) -> (r: String)
    ensures
        r@ == augmented(raw@, name@, kind, inferred@),
{
    let needle = text::concat(" ", name);
    let n: usize = name.unicode_len();
    let mut out = String::new();
    let at: Option<usize> = match text::find(raw, needle.as_str()) {
        Some(i) => {
            proof {
                reveal_strlit(" ");
                text::lemma_find_text_bounds(raw@, needle@);
            }
            Some(i + 1)
        },
        None => if text::has_prefix(raw, name) {
            Some(0)
        } else {
            None
        },
    };
    match at {
        Some(i) => {
            out.append(text::take(raw, i + n));
        },
        None => {
            if kind == SymbolKind::Variable {
                out.append("var ");
            } else {
                out.append("val ");
            }
            out.append(name);
        },
    }
    out.append(": ");
    out.append(inferred);
    proof {
        assert(out@ =~= augmented(raw@, name@, kind, inferred@));
    }
    out
}

/// A type or signature with each identifier replaced by what stands for it.
pub fn apply_subst(sig: &str, subst: &Vec<(String, String)>) -> (r: String)
    ensures
        r@ == type_subst::substituted(sig@, subst.deep_view()),
{
    type_subst::apply_type_subst(sig, subst)
}

} // verus!
