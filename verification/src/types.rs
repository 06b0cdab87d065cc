//! The data that the index stores: positions, symbols, files and what they contribute.
use vstd::prelude::*;
use vstd::string::*;

use crate::text;

verus! {

// ---------------------------------------------------------------------------
// Copies
// ---------------------------------------------------------------------------

/// Types whose values can be copied so that the copy means the same.
pub trait Replicate: DeepView + Sized {
    fn replicate(&self) -> (r: Self)
        ensures
            r.deep_view() == self.deep_view(),
    ;
}

impl Replicate for String {
    fn replicate(&self) -> (r: Self) {
        self.clone()
    }
}

impl Replicate for u32 {
    fn replicate(&self) -> (r: Self) {
        *self
    }
}

impl Replicate for u64 {
    fn replicate(&self) -> (r: Self) {
        *self
    }
}

impl<T: Replicate> Replicate for Vec<T> {
    fn replicate(&self) -> (r: Self) {
        let mut out: Vec<T> = Vec::new();
        let mut i: usize = 0;
        while i < self.len()
            invariant
                i <= self@.len(),
                out@.len() == i,
                forall|k: int| 0 <= k < i ==> (#[trigger] out@[k]).deep_view() == self@[k].deep_view(),
            decreases self@.len() - i,
        {
            out.push(self[i].replicate());
            i += 1;
        }
        assert(out.deep_view() =~= self.deep_view());
        out
    }
}

impl<T: Replicate> Replicate for Option<T> {
    fn replicate(&self) -> (r: Self) {
        match self {
            Some(v) => Some(v.replicate()),
            None => None,
        }
    }
}

impl<A: Replicate, B: Replicate> Replicate for (A, B) {
    fn replicate(&self) -> (r: Self) {
        (self.0.replicate(), self.1.replicate())
    }
}

impl<A: Replicate, B: Replicate, C: Replicate> Replicate for (A, B, C) {
    fn replicate(&self) -> (r: Self) {
        (self.0.replicate(), self.1.replicate(), self.2.replicate())
    }
}

/// Types whose values can be compared by what they mean.
pub trait Alike: DeepView + Sized {
    fn alike(&self, other: &Self) -> (r: bool)
        ensures
            r == (self.deep_view() == other.deep_view()),
    ;
}

impl Alike for String {
    fn alike(&self, other: &Self) -> (r: bool) {
        text::same(self.as_str(), other.as_str())
    }
}

impl Alike for Location {
    fn alike(&self, other: &Self) -> (r: bool) {
        text::same(self.uri.as_str(), other.uri.as_str()) && self.range == other.range
    }
}

// ---------------------------------------------------------------------------
// Positions
// ---------------------------------------------------------------------------

/// A line and a UTF-16 column, both counted from zero.
#[derive(Clone, Copy, Debug, PartialEq, Eq, Structural)]
pub struct Position {
    pub line: u32,
    pub character: u32,
}

/// A stretch of text from `start` up to `end`.
#[derive(Clone, Copy, Debug, PartialEq, Eq, Structural)]
pub struct Range {
    pub start: Position,
    pub end: Position,
}

impl Default for Range {
    fn default() -> (r: Self)
        ensures
            r == (Range {
                start: Position { line: 0, character: 0 },
                end: Position { line: 0, character: 0 },
            }),
    {
        Range { start: Position { line: 0, character: 0 }, end: Position { line: 0, character: 0 } }
    }
}

impl DeepView for Range {
    type V = Range;

    open spec fn deep_view(&self) -> Range {
        *self
    }
}

impl Replicate for Range {
    fn replicate(&self) -> (r: Self) {
        *self
    }
}

/// A cursor: a line and a UTF-16 column.
#[derive(Clone, Copy, Debug, PartialEq, Eq, Structural)]
pub struct CursorPos {
    pub line: usize,
    pub utf16_col: usize,
}

/// A stretch of text in a document.
#[derive(Debug, PartialEq, Eq)]
pub struct Location {
    pub uri: String,
    pub range: Range,
}

#[verifier::ext_equal]
pub struct LocationView {
    pub uri: Seq<char>,
    pub range: Range,
}

impl DeepView for Location {
    type V = LocationView;

    open spec fn deep_view(&self) -> LocationView {
        LocationView { uri: self.uri@, range: self.range }
    }
}

impl Replicate for Location {
    fn replicate(&self) -> (r: Self) {
        Location { uri: self.uri.clone(), range: self.range }
    }
}

// ---------------------------------------------------------------------------
// Symbols
// ---------------------------------------------------------------------------

/// What kind of declaration a symbol is.
#[derive(Clone, Copy, Debug, PartialEq, Eq, Structural)]
pub enum SymbolKind {
    File,
    Module,
    Namespace,
    Package,
    Class,
    Method,
    Property,
    Field,
    Constructor,
    Enum,
    Interface,
    Function,
    Variable,
    Constant,
    Text,
    Number,
    Boolean,
    Array,
    Object,
    Key,
    Null,
    EnumMember,
    Struct,
    Event,
    Operator,
    TypeParameter,
}

impl DeepView for SymbolKind {
    type V = SymbolKind;

    open spec fn deep_view(&self) -> SymbolKind {
        *self
    }
}

/// The kinds that declare a type.
pub open spec fn class_like(k: SymbolKind) -> bool {
    k == SymbolKind::Class || k == SymbolKind::Interface || k == SymbolKind::Struct || k
        == SymbolKind::Enum || k == SymbolKind::Object
}

/// Whether symbols of kind `k` declare a type.
pub fn is_class_like(k: SymbolKind) -> (r: bool)
    ensures
        r == class_like(k),
{
    k == SymbolKind::Class || k == SymbolKind::Interface || k == SymbolKind::Struct || k
        == SymbolKind::Enum || k == SymbolKind::Object
}

/// Who may use a symbol.
#[derive(Clone, Copy, Debug, PartialEq, Eq, Structural)]
pub enum Visibility {
    Public,
    Protected,
    Internal,
    Private,
}

/// Whether a symbol can be used from outside the module that declares it.
pub open spec fn visible_outside(v: Visibility) -> bool {
    v != Visibility::Private && v != Visibility::Internal
}

/// Which part of a build a file belongs to.
#[derive(Clone, Copy, Debug, PartialEq, Eq, Structural)]
pub enum SourceSet {
    Main,
    Test,
    Library,
}

/// A declaration found in a file.
#[derive(Debug, PartialEq, Eq)]
pub struct SymbolEntry {
    pub name: String,
    pub kind: SymbolKind,
    pub visibility: Visibility,
    pub range: Range,
    pub selection_range: Range,
    pub detail: String,
    pub container: Option<String>,
    pub params: String,
    pub param_counts: (u8, u8),
    pub type_params: Vec<String>,
    pub extension_receiver: String,
    pub extension_receiver_type: String,
    pub doc: String,
    pub trailing_lambda: bool,
    pub deprecated: bool,
    pub nullable: bool,
}

#[verifier::ext_equal]
pub struct SymbolView {
    pub name: Seq<char>,
    pub kind: SymbolKind,
    pub visibility: Visibility,
    pub range: Range,
    pub selection_range: Range,
    pub detail: Seq<char>,
    pub container: Option<Seq<char>>,
    pub params: Seq<char>,
    pub param_counts: (u8, u8),
    pub type_params: Seq<Seq<char>>,
    pub extension_receiver: Seq<char>,
    pub extension_receiver_type: Seq<char>,
    pub doc: Seq<char>,
    pub trailing_lambda: bool,
    pub deprecated: bool,
    pub nullable: bool,
}

impl DeepView for SymbolEntry {
    type V = SymbolView;

    open spec fn deep_view(&self) -> SymbolView {
        SymbolView {
            name: self.name@,
            kind: self.kind,
            visibility: self.visibility,
            range: self.range,
            selection_range: self.selection_range,
            detail: self.detail@,
            container: self.container.deep_view(),
            params: self.params@,
            param_counts: self.param_counts,
            type_params: self.type_params.deep_view(),
            extension_receiver: self.extension_receiver@,
            extension_receiver_type: self.extension_receiver_type@,
            doc: self.doc@,
            trailing_lambda: self.trailing_lambda,
            deprecated: self.deprecated,
            nullable: self.nullable,
        }
    }
}

impl Replicate for SymbolEntry {
    fn replicate(&self) -> (r: Self) {
        SymbolEntry {
            name: self.name.clone(),
            kind: self.kind,
            visibility: self.visibility,
            range: self.range,
            selection_range: self.selection_range,
            detail: self.detail.clone(),
            container: self.container.replicate(),
            params: self.params.clone(),
            param_counts: self.param_counts,
            type_params: self.type_params.replicate(),
            extension_receiver: self.extension_receiver.clone(),
            extension_receiver_type: self.extension_receiver_type.clone(),
            doc: self.doc.clone(),
            trailing_lambda: self.trailing_lambda,
            deprecated: self.deprecated,
            nullable: self.nullable,
        }
    }
}

impl SymbolEntry {
    /// The line on which the symbol's name stands.
    pub fn selection_start(&self) -> (r: u32)
        ensures
            r == self.selection_range.start.line,
    {
        self.selection_range.start.line
    }
}

/// An import of a file.
#[derive(Debug, PartialEq, Eq)]
pub struct ImportEntry {
    pub full_path: String,
    pub local_name: String,
    pub is_star: bool,
}

#[verifier::ext_equal]
pub struct ImportView {
    pub full_path: Seq<char>,
    pub local_name: Seq<char>,
    pub is_star: bool,
}

impl DeepView for ImportEntry {
    type V = ImportView;

    open spec fn deep_view(&self) -> ImportView {
        ImportView {
            full_path: self.full_path@,
            local_name: self.local_name@,
            is_star: self.is_star,
        }
    }
}

impl Replicate for ImportEntry {
    fn replicate(&self) -> (r: Self) {
        ImportEntry {
            full_path: self.full_path.clone(),
            local_name: self.local_name.clone(),
            is_star: self.is_star,
        }
    }
}

/// An extension function or property, listed under the type it extends.
#[derive(Debug, PartialEq, Eq)]
pub struct ExtensionEntry {
    pub file_uri: String,
    pub name: String,
    pub kind: SymbolKind,
    pub detail: String,
    pub visibility: Visibility,
    pub package: Option<String>,
    pub trailing_lambda: bool,
    pub deprecated: bool,
}

#[verifier::ext_equal]
pub struct ExtensionView {
    pub file_uri: Seq<char>,
    pub name: Seq<char>,
    pub kind: SymbolKind,
    pub detail: Seq<char>,
    pub visibility: Visibility,
    pub package: Option<Seq<char>>,
    pub trailing_lambda: bool,
    pub deprecated: bool,
}

impl DeepView for ExtensionEntry {
    type V = ExtensionView;

    open spec fn deep_view(&self) -> ExtensionView {
        ExtensionView {
            file_uri: self.file_uri@,
            name: self.name@,
            kind: self.kind,
            detail: self.detail@,
            visibility: self.visibility,
            package: self.package.deep_view(),
            trailing_lambda: self.trailing_lambda,
            deprecated: self.deprecated,
        }
    }
}

impl Replicate for ExtensionEntry {
    fn replicate(&self) -> (r: Self) {
        ExtensionEntry {
            file_uri: self.file_uri.clone(),
            name: self.name.clone(),
            kind: self.kind,
            detail: self.detail.clone(),
            visibility: self.visibility,
            package: self.package.replicate(),
            trailing_lambda: self.trailing_lambda,
            deprecated: self.deprecated,
        }
    }
}

// ---------------------------------------------------------------------------
// Files
// ---------------------------------------------------------------------------

/// What parsing one file yields.
#[derive(Debug, PartialEq, Eq)]
pub struct FileData {
    pub symbols: Vec<SymbolEntry>,
    pub imports: Vec<ImportEntry>,
    pub package: Option<String>,
    pub lines: Vec<String>,
    pub source_set: SourceSet,
    pub declared_names: Vec<String>,
    /// Line of a class, name of a supertype, type arguments given to it.
    pub supers: Vec<(u32, String, Vec<String>)>,
    pub rhs_types: Vec<(String, String)>,
    pub method_call_rhs: Vec<(String, String, String)>,
    pub field_access_rhs: Vec<(String, String, String)>,
    pub type_annotations: Vec<(String, String)>,
    pub syntax_errors: Vec<String>,
}

#[verifier::ext_equal]
pub struct FileView {
    pub symbols: Seq<SymbolView>,
    pub imports: Seq<ImportView>,
    pub package: Option<Seq<char>>,
    pub lines: Seq<Seq<char>>,
    pub source_set: SourceSet,
    pub declared_names: Seq<Seq<char>>,
    pub supers: Seq<(u32, Seq<char>, Seq<Seq<char>>)>,
    pub rhs_types: Seq<(Seq<char>, Seq<char>)>,
    pub method_call_rhs: Seq<(Seq<char>, Seq<char>, Seq<char>)>,
    pub field_access_rhs: Seq<(Seq<char>, Seq<char>, Seq<char>)>,
    pub type_annotations: Seq<(Seq<char>, Seq<char>)>,
    pub syntax_errors: Seq<Seq<char>>,
}

impl DeepView for FileData {
    type V = FileView;

    open spec fn deep_view(&self) -> FileView {
        FileView {
            symbols: self.symbols.deep_view(),
            imports: self.imports.deep_view(),
            package: self.package.deep_view(),
            lines: self.lines.deep_view(),
            source_set: self.source_set,
            declared_names: self.declared_names.deep_view(),
            supers: self.supers.deep_view(),
            rhs_types: self.rhs_types.deep_view(),
            method_call_rhs: self.method_call_rhs.deep_view(),
            field_access_rhs: self.field_access_rhs.deep_view(),
            type_annotations: self.type_annotations.deep_view(),
            syntax_errors: self.syntax_errors.deep_view(),
        }
    }
}

impl Replicate for FileData {
    fn replicate(&self) -> (r: Self) {
        FileData {
            symbols: self.symbols.replicate(),
            imports: self.imports.replicate(),
            package: self.package.replicate(),
            lines: self.lines.replicate(),
            source_set: self.source_set,
            declared_names: self.declared_names.replicate(),
            supers: self.supers.replicate(),
            rhs_types: self.rhs_types.replicate(),
            method_call_rhs: self.method_call_rhs.replicate(),
            field_access_rhs: self.field_access_rhs.replicate(),
            type_annotations: self.type_annotations.replicate(),
            syntax_errors: self.syntax_errors.replicate(),
        }
    }
}

/// The view of a file in which nothing was found.
pub open spec fn empty_file() -> FileView {
    FileView {
        symbols: Seq::empty(),
        imports: Seq::empty(),
        package: None,
        lines: Seq::empty(),
        source_set: SourceSet::Main,
        declared_names: Seq::empty(),
        supers: Seq::empty(),
        rhs_types: Seq::empty(),
        method_call_rhs: Seq::empty(),
        field_access_rhs: Seq::empty(),
        type_annotations: Seq::empty(),
        syntax_errors: Seq::empty(),
    }
}

impl Default for FileData {
    fn default() -> (r: Self)
        ensures
            r.deep_view() == empty_file(),
    {
        let r = FileData {
            symbols: Vec::new(),
            imports: Vec::new(),
            package: None,
            lines: Vec::new(),
            source_set: SourceSet::Main,
            declared_names: Vec::new(),
            supers: Vec::new(),
            rhs_types: Vec::new(),
            method_call_rhs: Vec::new(),
            field_access_rhs: Vec::new(),
            type_annotations: Vec::new(),
            syntax_errors: Vec::new(),
        };
        assert(r.deep_view() =~~= empty_file());
        r
    }
}

/// Whether a symbol is a type whose declaration spans the line.
pub open spec fn type_spans(s: SymbolView, line: u32) -> bool {
    class_like(s.kind) && s.range.start.line <= line <= s.range.end.line
}

/// Among the first `n` symbols, the position of the type declaration around `line` that spans
/// the fewest lines; the earliest of those that span equally many.
pub open spec fn innermost_type(symbols: Seq<SymbolView>, line: u32, n: int) -> Option<int>
    decreases n,
{
    if n <= 0 || n > symbols.len() {
        None
    } else {
        let before = innermost_type(symbols, line, n - 1);
        let s = symbols[n - 1];
        if !type_spans(s, line) {
            before
        } else {
            match before {
                Some(b) => {
                    let o = symbols[b];
                    if s.range.end.line - s.range.start.line < o.range.end.line
                        - o.range.start.line {
                        Some(n - 1)
                    } else {
                        before
                    }
                },
                None => Some(n - 1),
            }
        }
    }
}

/// The name of the innermost type declared around `line`.
pub open spec fn containing_class(f: FileView, line: u32) -> Option<Seq<char>> {
    match innermost_type(f.symbols, line, f.symbols.len() as int) {
        Some(i) => Some(f.symbols[i].name),
        None => None,
    }
}

impl FileData {
    /// The name of the innermost type declared around `line`.
    pub fn containing_class_at(&self, line: u32) -> (r: Option<String>)
        ensures
            r.deep_view() == containing_class(self.deep_view(), line),
    {
        let ghost v = self.deep_view().symbols;
        let mut best: Option<usize> = None;
        let mut i: usize = 0;
        while i < self.symbols.len()
            invariant
                i <= self.symbols@.len() == v.len(),
                v == self.deep_view().symbols,
                match best {
                    Some(b) => b < i && innermost_type(v, line, i as int) == Some(b as int)
                        && type_spans(v[b as int], line),
                    None => innermost_type(v, line, i as int) is None,
                },
            decreases self.symbols@.len() - i,
        {
            let s = &self.symbols[i];
            assert(v[i as int] == s.deep_view());
            if is_class_like(s.kind) && s.range.start.line <= line && line <= s.range.end.line {
                match best {
                    Some(b) => {
                        let o = &self.symbols[b];
                        assert(v[b as int] == o.deep_view());
                        if s.range.end.line - s.range.start.line < o.range.end.line
                            - o.range.start.line {
                            best = Some(i);
                        }
                    },
                    None => {
                        best = Some(i);
                    },
                }
            }
            i += 1;
        }
        match best {
            Some(b) => {
                assert(v[b as int] == self.symbols@[b as int].deep_view());
                Some(self.symbols[b].name.clone())
            },
            None => None,
        }
    }
}

/// A parsed file, ready to be indexed.
#[derive(Debug, PartialEq, Eq)]
pub struct FileIndexResult {
    pub uri: String,
    pub data: FileData,
    /// Name of a supertype, location of the class that extends it.
    pub supertypes: Vec<(String, Location)>,
    pub content_hash: u64,
    pub error: Option<String>,
}

#[verifier::ext_equal]
pub struct ResultView {
    pub uri: Seq<char>,
    pub data: FileView,
    pub supertypes: Seq<(Seq<char>, LocationView)>,
    pub content_hash: u64,
    pub error: Option<Seq<char>>,
}

impl DeepView for FileIndexResult {
    type V = ResultView;

    open spec fn deep_view(&self) -> ResultView {
        ResultView {
            uri: self.uri@,
            data: self.data.deep_view(),
            supertypes: self.supertypes.deep_view(),
            content_hash: self.content_hash,
            error: self.error.deep_view(),
        }
    }
}

} // verus!
