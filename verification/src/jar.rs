//! Symbols of compiled libraries, as the tool that reads class files reports them.
use vstd::prelude::*;
use vstd::string::*;

use crate::brackets;
use crate::columns;
use crate::contributions;
use crate::group;
use crate::index::{IndexView, Indexer};
use crate::merge;
use crate::table::Table;
use crate::text;
use crate::text::CharClass;
use crate::types;
use crate::types::{
    FileData, FileView, Location, LocationView, Position, Range, Replicate, SourceSet, SymbolEntry,
    SymbolKind, SymbolView, Visibility,
};
use crate::unicode;
use crate::urls;

verus! {

// ---------------------------------------------------------------------------
// What is reported
// ---------------------------------------------------------------------------

/// A symbol of a compiled library.
#[derive(Debug, PartialEq, Eq)]
pub struct SidecarSymbol {
    pub name: String,
    /// `class`, `interface`, `object`, `typealias`, `fun`, `val` or `var`.
    pub kind: String,
    /// The class that declares the symbol; for a top-level symbol, the one that the compiler
    /// made for its file.
    pub container: String,
    /// The signature.
    pub detail: String,
    pub doc: String,
    pub type_params: Vec<String>,
    pub extension_receiver_type: String,
    pub trailing_lambda: bool,
    pub deprecated: bool,
    /// The package, empty where it is not known.
    pub pkg: String,
    pub top_level: bool,
    /// Simple names of the supertypes.
    pub supers: Vec<String>,
}

#[verifier::ext_equal]
pub struct SidecarView {
    pub name: Seq<char>,
    pub kind: Seq<char>,
    pub container: Seq<char>,
    pub detail: Seq<char>,
    pub doc: Seq<char>,
    pub type_params: Seq<Seq<char>>,
    pub extension_receiver_type: Seq<char>,
    pub trailing_lambda: bool,
    pub deprecated: bool,
    pub pkg: Seq<char>,
    pub top_level: bool,
    pub supers: Seq<Seq<char>>,
}

impl DeepView for SidecarSymbol {
    type V = SidecarView;

    open spec fn deep_view(&self) -> SidecarView {
        SidecarView {
            name: self.name@,
            kind: self.kind@,
            container: self.container@,
            detail: self.detail@,
            doc: self.doc@,
            type_params: self.type_params.deep_view(),
            extension_receiver_type: self.extension_receiver_type@,
            trailing_lambda: self.trailing_lambda,
            deprecated: self.deprecated,
            pkg: self.pkg@,
            top_level: self.top_level,
            supers: self.supers.deep_view(),
        }
    }
}

impl Replicate for SidecarSymbol {
    fn replicate(&self) -> (r: Self) {
        SidecarSymbol {
            name: self.name.clone(),
            kind: self.kind.clone(),
            container: self.container.clone(),
            detail: self.detail.clone(),
            doc: self.doc.clone(),
            type_params: self.type_params.replicate(),
            extension_receiver_type: self.extension_receiver_type.clone(),
            trailing_lambda: self.trailing_lambda,
            deprecated: self.deprecated,
            pkg: self.pkg.clone(),
            top_level: self.top_level,
            supers: self.supers.replicate(),
        }
    }
}

/// The kind that a report's word names.
pub open spec fn kind_named(kind: Seq<char>) -> SymbolKind {
    if kind == "class"@ || kind == "typealias"@ {
        SymbolKind::Class
    } else if kind == "interface"@ {
        SymbolKind::Interface
    } else if kind == "object"@ {
        SymbolKind::Object
    } else if kind == "fun"@ {
        SymbolKind::Function
    } else if kind == "val"@ {
        SymbolKind::Property
    } else if kind == "var"@ {
        SymbolKind::Variable
    } else {
        SymbolKind::Null
    }
}

/// The kind that a report's word names.
pub fn kind_str_to_lsp(kind: &str) -> (r: SymbolKind)
    ensures
        r == kind_named(kind@),
{
    if text::same(kind, "class") || text::same(kind, "typealias") {
        SymbolKind::Class
    } else if text::same(kind, "interface") {
        SymbolKind::Interface
    } else if text::same(kind, "object") {
        SymbolKind::Object
    } else if text::same(kind, "fun") {
        SymbolKind::Function
    } else if text::same(kind, "val") {
        SymbolKind::Property
    } else if text::same(kind, "var") {
        SymbolKind::Variable
    } else {
        SymbolKind::Null
    }
}

// ---------------------------------------------------------------------------
// Parameters
// ---------------------------------------------------------------------------

/// Where the parameter list of a declaration opens: at the first parenthesis that follows a name,
/// or the type parameters of a name, outside of all brackets. What follows the word `fun` after a
/// space is a receiver, and a property has no list. None where a type or a value begins before.
/// `i` characters were read, `d` brackets are open, `named` tells whether a name was read last,
/// and `quoted` whether one is being read between backticks.
pub open spec fn list_open(s: Seq<char>, i: int, d: nat, named: bool, quoted: bool) -> Option<int>
    decreases s.len() - i,
{
    if i < 0 || i >= s.len() {
        None
    } else if quoted {
        list_open(s, i + 1, d, named || d == 0, s[i] != '`')
    } else if s[i] == '`' {
        list_open(s, i + 1, d, named, true)
    } else if s[i] == '(' && d == 0 && named {
        Some(i)
    } else if s[i] == '(' || s[i] == '<' {
        list_open(s, i + 1, d + 1, named, false)
    } else if s[i] == ')' || (s[i] == '>' && !(i > 0 && s[i - 1] == '-')) {
        list_open(
            s,
            i + 1,
            if d == 0 {
                0
            } else {
                (d - 1) as nat
            },
            named,
            false,
        )
    } else if d > 0 {
        list_open(s, i + 1, d, named, false)
    } else if s[i] == ':' || s[i] == '=' {
        None
    } else if unicode::whitespace(s[i]) {
        let word = text::last_ident_of(s.take(i));
        if word == "val"@ || word == "var"@ {
            None
        } else {
            list_open(s, i + 1, 0, named && word != "fun"@, false)
        }
    } else {
        list_open(s, i + 1, 0, text::id_char(s[i]), false)
    }
}

/// The text of the parameter list of a signature.
pub open spec fn params_text(detail: Seq<char>) -> Seq<char> {
    match list_open(detail, 0, 0, false, false) {
        Some(open) => match brackets::close_after(detail, open + 1, 0) {
            Some(close) => text::trimmed(detail.subrange(open + 1, close)),
            None => Seq::empty(),
        },
        None => Seq::empty(),
    }
}

fn find_list(s: &str) -> (r: Option<usize>)
    ensures
        match r {
            Some(p) => list_open(s@, 0, 0, false, false) == Some(p as int) && p < s@.len(),
            None => list_open(s@, 0, 0, false, false) is None,
        },
{
    let c = text::chars_of(s);
    let n: usize = c.len();
    let mut d: usize = 0;
    let mut named: bool = false;
    let mut quoted: bool = false;
    let mut i: usize = 0;
    while i < n
        invariant
            c@ == s@,
            n == c@.len(),
            d <= i <= n,
            list_open(s@, 0, 0, false, false) == list_open(s@, i as int, d as nat, named, quoted),
        decreases n - i,
    {
        let k: char = c[i];
        if quoted {
            named = named || d == 0;
            quoted = k != '`';
        } else if k == '`' {
            quoted = true;
        } else if k == '(' && d == 0 && named {
            return Some(i);
        } else if k == '(' || k == '<' {
            d += 1;
        } else if k == ')' || (k == '>' && !(i > 0 && c[i - 1] == '-')) {
            if d > 0 {
                d -= 1;
            }
        } else if d == 0 {
            if k == ':' || k == '=' {
                return None;
            }
            if k.is_whitespace() {
                let word = text::last_ident_in(text::take(s, i));
                if text::same(word, "val") || text::same(word, "var") {
                    return None;
                }
                named = named && !text::same(word, "fun");
            } else {
                named = text::is_id_char(k);
            }
        }
        i += 1;
    }
    None
}

/// A count, as far as a byte holds it.
pub open spec fn capped(n: nat) -> u8 {
    if n < 255 {
        n as u8
    } else {
        255u8
    }
}

/// Whether a parameter has no default.
pub open spec fn no_default() -> spec_fn(Seq<char>) -> bool {
    |p: Seq<char>| text::index_of(p, '=') is None
}

/// The parameters of a signature: their text, how many must be given and how many there are.
pub open spec fn params_info(detail: Seq<char>) -> (Seq<char>, (u8, u8)) {
    let inner = params_text(detail);
    if inner.len() == 0 {
        (Seq::empty(), (0u8, 0u8))
    } else {
        let parts = brackets::split_top(inner);
        (inner, (capped(parts.filter(no_default()).len()), capped(parts.len())))
    }
}

fn cap(n: usize) -> (r: u8)
    ensures
        r == capped(n as nat),
{
    if n < 255 {
        n as u8
    } else {
        255
    }
}

fn count_required(parts: &Vec<&str>) -> (r: usize)
    ensures
        r == parts.deep_view().filter(no_default()).len(),
{
    let ghost all = parts.deep_view();
    let ghost p = no_default();
    let mut n: usize = 0;
    let mut i: usize = 0;
    proof {
        reveal(Seq::filter);
        assert(all.take(0).filter(p) =~= Seq::empty());
    }
    while i < parts.len()
        invariant
            i <= parts@.len(),
            n <= i,
            all == parts.deep_view(),
            p == no_default(),
            n == all.take(i as int).filter(p).len(),
        decreases parts@.len() - i,
    {
        proof {
            assert(all[i as int] == parts@[i as int]@);
            assert(all.take(i as int).push(all[i as int]) =~= all.take(i + 1));
            all.take(i as int).lemma_filter_push(all[i as int], p);
        }
        if text::find_char(parts[i], '=').is_none() {
            n += 1;
        }
        i += 1;
    }
    assert(all.take(all.len() as int) =~= all);
    n
}

/// The parameters of a signature: their text, how many must be given and how many there are.
pub fn params_from_detail(detail: &str) -> (r: (String, (u8, u8)))
    ensures
        (r.0@, r.1) == params_info(detail@),
{
    let open: usize = match find_list(detail) {
        Some(i) => i,
        None => {
            return (String::new(), (0, 0));
        },
    };
    let n: usize = detail.unicode_len();
    assert(open < n);
    let close: usize = match brackets::closing_paren(detail, open + 1) {
        Some(i) => i,
        None => {
            return (String::new(), (0, 0));
        },
    };
    let inner = text::trim(text::slice(detail, open + 1, close));
    if inner.is_empty() {
        return (String::new(), (0, 0));
    }
    let parts = brackets::split_params_at_depth_zero(inner);
    assert(parts.deep_view().len() == parts@.len());
    (inner.to_owned(), (cap(count_required(&parts)), cap(parts.len())))
}

// ---------------------------------------------------------------------------
// A library as a file
// ---------------------------------------------------------------------------

/// Where the `i`-th symbol of a library stands: on a line of its own.
pub open spec fn line_range(i: int, name: Seq<char>) -> Range {
    Range {
        start: Position { line: i as u32, character: 0 },
        end: Position { line: i as u32, character: columns::byte_len(name) as u32 },
    }
}

/// The `i`-th symbol of a library as the index stores it.
pub open spec fn jar_symbol(s: SidecarView, i: int) -> SymbolView {
    SymbolView {
        name: s.name,
        kind: kind_named(s.kind),
        visibility: Visibility::Public,
        range: line_range(i, s.name),
        selection_range: line_range(i, s.name),
        detail: s.detail,
        container: if s.container.len() == 0 {
            None
        } else {
            Some(s.container)
        },
        params: params_info(s.detail).0,
        param_counts: params_info(s.detail).1,
        type_params: s.type_params,
        extension_receiver: text::prefix_of(s.extension_receiver_type, text::all_but('<')),
        extension_receiver_type: s.extension_receiver_type,
        doc: s.doc,
        trailing_lambda: s.trailing_lambda,
        deprecated: s.deprecated,
        nullable: false,
    }
}

/// The symbols of a library as the index stores them.
pub open spec fn jar_symbols(syms: Seq<SidecarView>) -> Seq<SymbolView> {
    syms.map(|i: int, s: SidecarView| jar_symbol(s, i))
}

/// The supertypes of the first `n` symbols, each with the symbol's line.
pub open spec fn jar_supers(syms: Seq<SidecarView>, n: int) -> Seq<
    (u32, Seq<char>, Seq<Seq<char>>),
>
    decreases n,
{
    if n <= 0 || n > syms.len() {
        Seq::empty()
    } else {
        jar_supers(syms, n - 1) + syms[n - 1].supers.map_values(
            |name: Seq<char>| ((n - 1) as u32, name, Seq::<Seq<char>>::empty()),
        )
    }
}

/// What ends the dotted name of a type.
pub open spec fn name_class() -> spec_fn(char) -> bool {
    |c: char| c != '(' && c != ':' && c != '<' && c != ' '
}

/// The package that the signature of a type names: what stands before the last dot of its
/// qualified name, where a capital follows the dot.
pub open spec fn package_in(s: SymbolView) -> Option<Seq<char>> {
    if s.kind == SymbolKind::Class || s.kind == SymbolKind::Interface || s.kind
        == SymbolKind::Object {
        let from = match text::index_of(s.detail, ' ') {
            Some(i) => i + 1,
            None => 0,
        };
        let fqn = text::prefix_of(s.detail.skip(from), name_class());
        match text::rindex_of(fqn, '.') {
            Some(dot) => if dot > 0 && dot + 1 < fqn.len() && 'A' <= fqn[dot + 1] <= 'Z' {
                Some(fqn.take(dot))
            } else {
                None
            },
            None => None,
        }
    } else {
        None
    }
}

/// The package that the first of some signatures names that names one.
pub open spec fn first_package(symbols: Seq<SymbolView>) -> Option<Seq<char>>
    decreases symbols.len(),
{
    if symbols.len() == 0 {
        None
    } else {
        match package_in(symbols[0]) {
            Some(p) => Some(p),
            None => first_package(symbols.skip(1)),
        }
    }
}

/// A library as a file: each symbol on the line of its number, which shows its signature.
pub open spec fn jar_file(syms: Seq<SidecarView>) -> FileView {
    FileView {
        symbols: jar_symbols(syms),
        lines: syms.map_values(|s: SidecarView| s.detail),
        package: first_package(jar_symbols(syms)),
        supers: jar_supers(syms, syms.len() as int),
        source_set: SourceSet::Library,
        ..types::empty_file()
    }
}

fn name_len(c: &str) -> (r: usize)
    ensures
        r == text::span(c@, name_class()),
{
    let k = text::chars_of(c);
    let n: usize = k.len();
    let ghost p = name_class();
    let mut i: usize = 0;
    while i < n && k[i] != '(' && k[i] != ':' && k[i] != '<' && k[i] != ' '
        invariant
            k@ == c@,
            n == k@.len(),
            i <= n,
            p == name_class(),
            forall|j: int| 0 <= j < i ==> p(#[trigger] c@[j]),
        ensures
            i < n ==> !p(c@[i as int]),
        decreases n - i,
    {
        i += 1;
    }
    proof {
        text::lemma_span_unique(c@, p, i as int);
    }
    i
}

fn package_of_symbol(s: &SymbolEntry) -> (r: Option<String>)
    ensures
        r.deep_view() == package_in(s.deep_view()),
{
    if !(s.kind == SymbolKind::Class || s.kind == SymbolKind::Interface || s.kind
        == SymbolKind::Object) {
        return None;
    }
    let detail = s.detail.as_str();
    let len: usize = detail.unicode_len();
    let from: usize = match text::find_char(detail, ' ') {
        Some(i) => {
            assert(i < len);
            i + 1
        },
        None => 0,
    };
    let rest = text::skip(detail, from);
    proof {
        text::lemma_span(rest@, name_class());
    }
    let fqn = text::take(rest, name_len(rest));
    let n: usize = fqn.unicode_len();
    match text::rfind_char(fqn, '.') {
        Some(dot) => {
            assert(dot < n);
            if dot > 0 && dot + 1 < n {
                let k = fqn.get_char(dot + 1);
                if 'A' <= k && k <= 'Z' {
                    return Some(text::take(fqn, dot).to_owned());
                }
            }
            None
        },
        None => None,
    }
}

fn package_of_symbols(symbols: &Vec<SymbolEntry>) -> (r: Option<String>)
    ensures
        r.deep_view() == first_package(symbols.deep_view()),
{
    let ghost all = symbols.deep_view();
    let mut i: usize = 0;
    assert(all.skip(0) =~= all);
    while i < symbols.len()
        invariant
            i <= symbols@.len(),
            all == symbols.deep_view(),
            first_package(all) == first_package(all.skip(i as int)),
        decreases symbols@.len() - i,
    {
        proof {
            assert(all.skip(i as int)[0] == symbols@[i as int].deep_view());
            assert(all.skip(i as int).skip(1) =~= all.skip(i + 1));
        }
        if let Some(p) = package_of_symbol(&symbols[i]) {
            return Some(p);
        }
        i += 1;
    }
    assert(all.skip(i as int).len() == 0);
    None
}

fn symbol_of(s: &SidecarSymbol, i: usize) -> (r: SymbolEntry)
    ensures
        r.deep_view() == jar_symbol(s.deep_view(), i as int),
{
    let len: usize = s.name.as_str().unicode_len();
    assert(s.name@.take(len as int) =~= s.name@);
    let width: usize = columns::byte_offset(s.name.as_str(), len);
    let range = Range {
        start: Position { line: i as u32, character: 0 },
        end: Position { line: i as u32, character: width as u32 },
    };
    let (params, param_counts) = params_from_detail(s.detail.as_str());
    SymbolEntry {
        name: s.name.clone(),
        kind: kind_str_to_lsp(s.kind.as_str()),
        visibility: Visibility::Public,
        range,
        selection_range: range,
        detail: s.detail.clone(),
        container: if s.container.as_str().is_empty() {
            None
        } else {
            Some(s.container.clone())
        },
        params,
        param_counts,
        type_params: s.type_params.replicate(),
        extension_receiver: text::prefix_class(
            s.extension_receiver_type.as_str(),
            CharClass::AllBut('<'),
        ).to_owned(),
        extension_receiver_type: s.extension_receiver_type.clone(),
        doc: s.doc.clone(),
        trailing_lambda: s.trailing_lambda,
        deprecated: s.deprecated,
        nullable: false,
    }
}

fn push_supers(out: &mut Vec<(u32, String, Vec<String>)>, supers: &Vec<String>, line: u32)
    ensures
        final(out).deep_view() == old(out).deep_view() + supers.deep_view().map_values(
            |name: Seq<char>| (line, name, Seq::<Seq<char>>::empty()),
        ),
{
    let ghost all = supers.deep_view();
    let ghost start = out.deep_view();
    let ghost f = |name: Seq<char>| (line, name, Seq::<Seq<char>>::empty());
    let mut i: usize = 0;
    assert(start + all.take(0).map_values(f) =~= start);
    while i < supers.len()
        invariant
            i <= supers@.len(),
            all == supers.deep_view(),
            f == (|name: Seq<char>| (line, name, Seq::<Seq<char>>::empty())),
            out.deep_view() == start + all.take(i as int).map_values(f),
        decreases supers@.len() - i,
    {
        let ghost before = out.deep_view();
        let none: Vec<String> = Vec::new();
        proof {
            assert(none.deep_view() =~= Seq::<Seq<char>>::empty());
            assert(all[i as int] == supers@[i as int]@);
        }
        out.push((line, supers[i].clone(), none));
        proof {
            assert(out.deep_view() =~= before.push(f(all[i as int])));
            assert(all.take(i + 1).map_values(f) =~= all.take(i as int).map_values(f).push(
                f(all[i as int]),
            ));
            assert(before.push(f(all[i as int])) =~= start + all.take(i + 1).map_values(f));
        }
        i += 1;
    }
    assert(all.take(all.len() as int) =~= all);
}

/// A library as a file.
pub fn jar_file_data(sidecar_symbols: &Vec<SidecarSymbol>) -> (r: FileData)
    ensures
        r.deep_view() == jar_file(sidecar_symbols.deep_view()),
{
    let ghost syms = sidecar_symbols.deep_view();
    let mut symbols: Vec<SymbolEntry> = Vec::new();
    let mut lines: Vec<String> = Vec::new();
    let mut supers: Vec<(u32, String, Vec<String>)> = Vec::new();
    let mut i: usize = 0;
    assert(supers.deep_view() =~= jar_supers(syms, 0));
    while i < sidecar_symbols.len()
        invariant
            i <= sidecar_symbols@.len(),
            syms == sidecar_symbols.deep_view(),
            symbols@.len() == i,
            lines@.len() == i,
            forall|k: int|
                0 <= k < i ==> (#[trigger] symbols@[k]).deep_view() == jar_symbol(syms[k], k),
            forall|k: int| 0 <= k < i ==> (#[trigger] lines@[k])@ == syms[k].detail,
            supers.deep_view() == jar_supers(syms, i as int),
        decreases sidecar_symbols@.len() - i,
    {
        let s = &sidecar_symbols[i];
        assert(syms[i as int] == s.deep_view());
        symbols.push(symbol_of(s, i));
        lines.push(s.detail.clone());
        push_supers(&mut supers, &s.supers, i as u32);
        i += 1;
    }
    assert(symbols.deep_view() =~= jar_symbols(syms));
    assert(lines.deep_view() =~= syms.map_values(|s: SidecarView| s.detail));
    let package = package_of_symbols(&symbols);
    let mut data = FileData::default();
    data.symbols = symbols;
    data.lines = lines;
    data.package = package;
    data.supers = supers;
    data.source_set = SourceSet::Library;
    assert(data.deep_view() =~= jar_file(syms));
    data
}

// ---------------------------------------------------------------------------
// Entering a library
// ---------------------------------------------------------------------------

/// The qualified name of a symbol: under its own package, else under the library's; a member's
/// with the class that declares it.
pub open spec fn jar_key(s: SidecarView, package: Option<Seq<char>>) -> Option<Seq<char>> {
    let pkg = if s.pkg.len() > 0 {
        Some(s.pkg)
    } else {
        package
    };
    match pkg {
        Some(p) => Some(
            if s.top_level || s.container.len() == 0 {
                p + "."@ + s.name
            } else {
                p + "."@ + s.container + "."@ + s.name
            },
        ),
        None => None,
    }
}

/// The qualified names of the first `n` symbols of a library, and where they are declared.
pub open spec fn jar_keys(
    syms: Seq<SidecarView>,
    package: Option<Seq<char>>,
    uri: Seq<char>,
    n: int,
) -> Seq<(Seq<char>, LocationView)>
    decreases n,
{
    if n <= 0 || n > syms.len() {
        Seq::empty()
    } else {
        let before = jar_keys(syms, package, uri, n - 1);
        match jar_key(syms[n - 1], package) {
            Some(key) => before.push(
                (key, LocationView { uri, range: line_range(n - 1, syms[n - 1].name) }),
            ),
            None => before,
        }
    }
}

/// An index that has taken in the symbols of a library.
pub open spec fn with_jar(v: IndexView, uri: Seq<char>, syms: Seq<SidecarView>) -> IndexView {
    let f = jar_file(syms);
    IndexView {
        jar_definitions: group::merged(
            v.jar_definitions,
            contributions::definitions_of(f, uri),
        ),
        jar_uri_to_defs: v.jar_uri_to_defs.insert(
            uri,
            syms.map_values(|s: SidecarView| s.name),
        ),
        jar_symbol_packages: v.jar_symbol_packages.insert(
            uri,
            syms.map_values(|s: SidecarView| s.pkg),
        ),
        qualified: group::overwritten(
            v.qualified,
            group::last_wins(jar_keys(syms, f.package, uri, syms.len() as int)),
        ),
        extension_by_receiver: group::merged(
            v.extension_by_receiver,
            contributions::extensions_of(f, uri),
        ),
        jar_files: v.jar_files.insert(uri, f),
        library_uris: v.library_uris.insert(uri, ()),
        ..v
    }
}

/// `m`, whose lists at the keys of `keys` keep the items of `p`, without those that keep none.
pub open spec fn pruned_at<B>(
    m: Map<Seq<char>, Seq<B>>,
    keys: Seq<Seq<char>>,
    p: spec_fn(B) -> bool,
) -> Map<Seq<char>, Seq<B>> {
    Map::new(
        |k: Seq<char>| m.dom().contains(k) && !(keys.contains(k) && m[k].filter(p).len() == 0),
        |k: Seq<char>|
            if keys.contains(k) {
                m[k].filter(p)
            } else {
                m[k]
            },
    )
}

/// An index without what it knows of a library; extensions and qualified names stay.
pub open spec fn without_jar(v: IndexView, uri: Seq<char>) -> IndexView {
    let cleared = if v.jar_uri_to_defs.dom().contains(uri) {
        IndexView {
            jar_uri_to_defs: v.jar_uri_to_defs.remove(uri),
            jar_definitions: pruned_at(
                v.jar_definitions,
                v.jar_uri_to_defs[uri],
                merge::outside(uri),
            ),
            ..v
        }
    } else {
        v
    };
    IndexView { jar_files: v.jar_files.remove(uri), ..cleared }
}

/// The URI of a library.
pub open spec fn jar_uri(path: Seq<char>) -> Option<Seq<char>> {
    urls::parsed_url("jar:file://"@ + path)
}

/// An index in which the symbols of a library stand in place of those that it had.
pub open spec fn with_library(v: IndexView, path: Seq<char>, syms: Seq<SidecarView>) -> IndexView {
    if syms.len() == 0 {
        v
    } else {
        match jar_uri(path) {
            Some(uri) => with_jar(without_jar(v, uri), uri, syms),
            None => v,
        }
    }
}

/// How many symbols are entered for a library.
pub open spec fn entered(path: Seq<char>, syms: Seq<SidecarView>) -> nat {
    if jar_uri(path) is Some {
        syms.len()
    } else {
        0
    }
}

fn key_of(s: &SidecarSymbol, package: &Option<String>) -> (r: Option<String>)
    ensures
        r.deep_view() == jar_key(s.deep_view(), package.deep_view()),
{
    let pkg = if !s.pkg.as_str().is_empty() {
        s.pkg.as_str()
    } else {
        match package {
            Some(p) => p.as_str(),
            None => {
                return None;
            },
        }
    };
    let mut key = text::concat(pkg, ".");
    if !s.top_level && !s.container.as_str().is_empty() {
        key.append(s.container.as_str());
        key.append(".");
    }
    key.append(s.name.as_str());
    Some(key)
}

fn enter_keys(
    t: &mut Table<Location>,
    syms: &Vec<SidecarSymbol>,
    data: &FileData,
    uri: &str,
)
    requires
        old(t).wf(),
        data.deep_view() == jar_file(syms.deep_view()),
    ensures
        final(t).wf(),
        final(t)@ == group::overwritten(
            old(t)@,
            group::last_wins(
                jar_keys(
                    syms.deep_view(),
                    data.deep_view().package,
                    uri@,
                    syms.deep_view().len() as int,
                ),
            ),
        ),
{
    let ghost all = syms.deep_view();
    let ghost package = data.deep_view().package;
    let mut i: usize = 0;
    proof {
        assert(group::last_wins(jar_keys(all, package, uri@, 0)) =~= Map::empty());
        assert(t@ =~= group::overwritten(t@, Map::empty()));
        assert(data.deep_view().symbols.len() == all.len());
        assert(data.symbols@.len() == all.len());
    }
    while i < syms.len()
        invariant
            i <= syms@.len() == data.symbols@.len(),
            t.wf(),
            all == syms.deep_view(),
            data.deep_view() == jar_file(all),
            package == data.deep_view().package,
            t@ == group::overwritten(
                old(t)@,
                group::last_wins(jar_keys(all, package, uri@, i as int)),
            ),
        decreases syms@.len() - i,
    {
        let s = &syms[i];
        let ghost before = jar_keys(all, package, uri@, i as int);
        proof {
            assert(all[i as int] == s.deep_view());
            assert(data.deep_view().symbols[i as int] == data.symbols@[i as int].deep_view());
            assert(data.deep_view().symbols[i as int] == jar_symbol(all[i as int], i as int));
        }
        if let Some(key) = key_of(s, &data.package) {
            let place = Location { uri: uri.to_owned(), range: data.symbols[i].range };
            let ghost pair = (key@, place.deep_view());
            proof {
                group::lemma_overwritten_insert(
                    old(t)@,
                    group::last_wins(before),
                    key@,
                    place.deep_view(),
                );
                assert(before.push(pair).drop_last() =~= before);
                assert(jar_keys(all, package, uri@, i + 1) == before.push(pair));
            }
            t.insert(key.as_str(), place);
        }
        i += 1;
    }
}

fn names_of(syms: &Vec<SidecarSymbol>) -> (r: Vec<String>)
    ensures
        r.deep_view() == syms.deep_view().map_values(|s: SidecarView| s.name),
{
    let ghost all = syms.deep_view();
    let mut out: Vec<String> = Vec::new();
    let mut i: usize = 0;
    while i < syms.len()
        invariant
            i <= syms@.len(),
            all == syms.deep_view(),
            out@.len() == i,
            forall|k: int| 0 <= k < i ==> (#[trigger] out@[k])@ == all[k].name,
        decreases syms@.len() - i,
    {
        assert(all[i as int] == syms@[i as int].deep_view());
        out.push(syms[i].name.clone());
        i += 1;
    }
    assert(out.deep_view() =~= all.map_values(|s: SidecarView| s.name));
    out
}

fn packages_of(syms: &Vec<SidecarSymbol>) -> (r: Vec<String>)
    ensures
        r.deep_view() == syms.deep_view().map_values(|s: SidecarView| s.pkg),
{
    let ghost all = syms.deep_view();
    let mut out: Vec<String> = Vec::new();
    let mut i: usize = 0;
    while i < syms.len()
        invariant
            i <= syms@.len(),
            all == syms.deep_view(),
            out@.len() == i,
            forall|k: int| 0 <= k < i ==> (#[trigger] out@[k])@ == all[k].pkg,
        decreases syms@.len() - i,
    {
        assert(all[i as int] == syms@[i as int].deep_view());
        out.push(syms[i].pkg.clone());
        i += 1;
    }
    assert(out.deep_view() =~= all.map_values(|s: SidecarView| s.pkg));
    out
}

proof fn lemma_pruned_push<B>(
    m: Map<Seq<char>, Seq<B>>,
    keys: Seq<Seq<char>>,
    k: Seq<char>,
    p: spec_fn(B) -> bool,
)
    ensures
        ({
            let before = pruned_at(m, keys, p);
            let next = pruned_at(m, keys.push(k), p);
            if !before.dom().contains(k) {
                next == before
            } else if before[k].filter(p).len() == 0 {
                next == before.remove(k)
            } else {
                next == before.insert(k, before[k].filter(p))
            }
        }),
{
    let more = keys.push(k);
    let before = pruned_at(m, keys, p);
    let next = pruned_at(m, more, p);
    assert forall|x: Seq<char>| more.contains(x) == (keys.contains(x) || x == k) by {
        if keys.contains(x) {
            let j = choose|j: int| 0 <= j < keys.len() && keys[j] == x;
            assert(more[j] == x);
        }
        assert(more[keys.len() as int] == k);
        if more.contains(x) {
            let j = choose|j: int| 0 <= j < more.len() && more[j] == x;
            if j < keys.len() {
                assert(keys[j] == x);
            }
        }
    }
    if m.dom().contains(k) {
        merge::lemma_filter_twice(m[k], p);
    }
    if !before.dom().contains(k) {
        assert(next =~= before);
    } else if before[k].filter(p).len() == 0 {
        assert(next =~= before.remove(k));
    } else {
        assert(next =~= before.insert(k, before[k].filter(p)));
    }
}

fn prune(t: &mut Table<Vec<Location>>, names: &Vec<String>, uri: &str)
    requires
        old(t).wf(),
    ensures
        final(t).wf(),
        final(t)@ == pruned_at(old(t)@, names.deep_view(), merge::outside(uri@)),
{
    let ghost all = names.deep_view();
    let ghost p = merge::outside(uri@);
    let mut i: usize = 0;
    assert(t@ =~= pruned_at(old(t)@, all.take(0), p));
    while i < names.len()
        invariant
            i <= names@.len(),
            t.wf(),
            all == names.deep_view(),
            p == merge::outside(uri@),
            t@ == pruned_at(old(t)@, all.take(i as int), p),
        decreases names@.len() - i,
    {
        let name = names[i].as_str();
        proof {
            assert(all[i as int] == name@);
            assert(all.take(i as int).push(name@) =~= all.take(i + 1));
            lemma_pruned_push(old(t)@, all.take(i as int), name@, p);
        }
        if let Some(row) = t.row_of(name) {
            let kept = merge::drop_locations(t.value_at(row), uri);
            assert(kept.deep_view().len() == kept@.len());
            if kept.len() == 0 {
                t.remove(name);
            } else {
                t.swap_value(row, kept);
            }
        }
        i += 1;
    }
    assert(all.take(all.len() as int) =~= all);
}

impl Indexer {
    /// Enters the symbols of the library `uri`; hands out how many there are.
    pub fn build_jar_file_data(&mut self, uri: &str, sidecar_symbols: &Vec<SidecarSymbol>) -> (r:
        usize)
        requires
            old(self).wf(),
        ensures
            final(self).wf(),
            final(self)@ == with_jar(old(self)@, uri@, sidecar_symbols.deep_view()),
            r == sidecar_symbols@.len(),
    {
        let data = jar_file_data(sidecar_symbols);
        contributions::add_definitions(&mut self.jar_definitions, &data, uri);
        self.jar_uri_to_defs.insert(uri, names_of(sidecar_symbols));
        self.jar_symbol_packages.insert(uri, packages_of(sidecar_symbols));
        enter_keys(&mut self.qualified, sidecar_symbols, &data, uri);
        contributions::add_extensions(&mut self.extension_by_receiver, &data, uri);
        self.jar_files.insert(uri, data);
        self.library_uris.insert(uri, ());
        sidecar_symbols.len()
    }

    /// Puts the symbols of the library at `path` in place of those that it had; hands out how
    /// many are entered. A library without symbols changes nothing.
    pub fn populate_from_symbols(&mut self, path: &str, sidecar_symbols: &Vec<SidecarSymbol>) -> (r:
        usize)
        requires
            old(self).wf(),
        ensures
            final(self).wf(),
            final(self)@ == with_library(old(self)@, path@, sidecar_symbols.deep_view()),
            r == entered(path@, sidecar_symbols.deep_view()),
    {
        assert(sidecar_symbols.deep_view().len() == sidecar_symbols@.len());
        if sidecar_symbols.len() == 0 {
            return 0;
        }
        let address = text::concat("jar:file://", path);
        let uri = match urls::parse_url(address.as_str()) {
            Some(u) => u,
            None => {
                return 0;
            },
        };
        if let Some(names) = self.jar_uri_to_defs.remove(uri.as_str()) {
            prune(&mut self.jar_definitions, &names, uri.as_str());
        }
        self.jar_files.remove(uri.as_str());
        assert(self@ =~= without_jar(old(self)@, uri@));
        self.build_jar_file_data(uri.as_str(), sidecar_symbols)
    }
}

} // verus!
