//! The symbol index: every table of it, and what each means.
use vstd::prelude::*;
use vstd::string::*;

use crate::binding_discovery;
use crate::binding_discovery::{BindingDiscoveryHandle, HandleView};
use crate::layouts::{BindingView, GeneratedBindingEntry, LayoutFileData, LayoutView};
use crate::table::Table;
use crate::types::{
    ExtensionEntry, ExtensionView, FileData, FileView, Location, LocationView,
};

verus! {

/// The index of a workspace and of the libraries it uses.
pub struct Indexer {
    /// What parsing each file yielded, by URI.
    pub files: Table<FileData>,
    /// Hash of the content that each file was parsed from, by URI.
    pub content_hashes: Table<u64>,
    /// Where each name is declared.
    pub definitions: Table<Vec<Location>>,
    /// Where each qualified name is declared.
    pub qualified: Table<Location>,
    /// URIs of the files of each package.
    pub packages: Table<Vec<String>>,
    /// Classes that extend each supertype.
    pub subtypes: Table<Vec<Location>>,
    /// Extensions of each receiver type.
    pub extension_by_receiver: Table<Vec<ExtensionEntry>>,
    /// URIs of the files that belong to libraries.
    pub library_uris: Table<()>,
    /// Symbols of each compiled library, by URI.
    pub jar_files: Table<FileData>,
    /// Where compiled libraries declare each name.
    pub jar_definitions: Table<Vec<Location>>,
    /// Names that each compiled library declares.
    pub jar_uri_to_defs: Table<Vec<String>>,
    /// Package of each symbol of a compiled library, in the order of its symbols.
    pub jar_symbol_packages: Table<Vec<String>>,
    /// Source paths as they are configured.
    pub source_paths_raw: Vec<String>,
    /// Every declared name, sorted.
    pub bare_name_cache: Vec<String>,
    /// Whether `bare_name_cache` may be out of date.
    pub bare_names_dirty: bool,
    /// Qualified names that each simple name can be imported as.
    pub importable_fqns: Table<Vec<String>>,
    /// Key of the completion answered last.
    pub last_completion: Option<String>,
    /// Counts the changes that make answered completions stale.
    pub completion_epoch: u64,
    /// Completion labels of each file.
    pub completion_cache: Table<Vec<String>>,
    /// Signatures found so far.
    pub sig_cache: Table<String>,
    /// How many times a file was parsed.
    pub parse_count: u64,
    /// Text of the files open in an editor, by URI.
    pub live_lines: Table<Vec<String>>,
    /// Layout files, by URI.
    pub layouts: Table<LayoutFileData>,
    /// Generated binding classes of each module, by the module's root.
    pub generated_bindings: Table<Vec<GeneratedBindingEntry>>,
    /// Requests to discover generated bindings.
    pub binding_discovery: BindingDiscoveryHandle,
}

/// What an index means.
#[verifier::ext_equal]
pub struct IndexView {
    pub files: Map<Seq<char>, FileView>,
    pub content_hashes: Map<Seq<char>, u64>,
    pub definitions: Map<Seq<char>, Seq<LocationView>>,
    pub qualified: Map<Seq<char>, LocationView>,
    pub packages: Map<Seq<char>, Seq<Seq<char>>>,
    pub subtypes: Map<Seq<char>, Seq<LocationView>>,
    pub extension_by_receiver: Map<Seq<char>, Seq<ExtensionView>>,
    pub library_uris: Map<Seq<char>, ()>,
    pub jar_files: Map<Seq<char>, FileView>,
    pub jar_definitions: Map<Seq<char>, Seq<LocationView>>,
    pub jar_uri_to_defs: Map<Seq<char>, Seq<Seq<char>>>,
    pub jar_symbol_packages: Map<Seq<char>, Seq<Seq<char>>>,
    pub source_paths_raw: Seq<Seq<char>>,
    pub bare_name_cache: Seq<Seq<char>>,
    pub bare_names_dirty: bool,
    pub importable_fqns: Map<Seq<char>, Seq<Seq<char>>>,
    pub last_completion: Option<Seq<char>>,
    pub completion_epoch: u64,
    pub completion_cache: Map<Seq<char>, Seq<Seq<char>>>,
    pub sig_cache: Map<Seq<char>, Seq<char>>,
    pub parse_count: u64,
    pub live_lines: Map<Seq<char>, Seq<Seq<char>>>,
    pub layouts: Map<Seq<char>, LayoutView>,
    pub generated_bindings: Map<Seq<char>, Seq<BindingView>>,
    pub binding_discovery: HandleView,
}

impl View for Indexer {
    type V = IndexView;

    open spec fn view(&self) -> IndexView {
        IndexView {
            files: self.files@,
            content_hashes: self.content_hashes@,
            definitions: self.definitions@,
            qualified: self.qualified@,
            packages: self.packages@,
            subtypes: self.subtypes@,
            extension_by_receiver: self.extension_by_receiver@,
            library_uris: self.library_uris@,
            jar_files: self.jar_files@,
            jar_definitions: self.jar_definitions@,
            jar_uri_to_defs: self.jar_uri_to_defs@,
            jar_symbol_packages: self.jar_symbol_packages@,
            source_paths_raw: self.source_paths_raw.deep_view(),
            bare_name_cache: self.bare_name_cache.deep_view(),
            bare_names_dirty: self.bare_names_dirty,
            importable_fqns: self.importable_fqns@,
            last_completion: self.last_completion.deep_view(),
            completion_epoch: self.completion_epoch,
            completion_cache: self.completion_cache@,
            sig_cache: self.sig_cache@,
            parse_count: self.parse_count,
            live_lines: self.live_lines@,
            layouts: self.layouts@,
            generated_bindings: self.generated_bindings@,
            binding_discovery: self.binding_discovery@,
        }
    }
}

/// The view of an index that holds nothing.
pub open spec fn empty_index() -> IndexView {
    IndexView {
        files: Map::empty(),
        content_hashes: Map::empty(),
        definitions: Map::empty(),
        qualified: Map::empty(),
        packages: Map::empty(),
        subtypes: Map::empty(),
        extension_by_receiver: Map::empty(),
        library_uris: Map::empty(),
        jar_files: Map::empty(),
        jar_definitions: Map::empty(),
        jar_uri_to_defs: Map::empty(),
        jar_symbol_packages: Map::empty(),
        source_paths_raw: Seq::empty(),
        bare_name_cache: Seq::empty(),
        bare_names_dirty: false,
        importable_fqns: Map::empty(),
        last_completion: None,
        completion_epoch: 0,
        completion_cache: Map::empty(),
        sig_cache: Map::empty(),
        parse_count: 0,
        live_lines: Map::empty(),
        layouts: Map::empty(),
        generated_bindings: Map::empty(),
        binding_discovery: binding_discovery::idle_handle(false),
    }
}

impl Indexer {
    /// Every table of the index is in order.
    pub open spec fn wf(&self) -> bool {
        &&& self.files.wf()
        &&& self.content_hashes.wf()
        &&& self.definitions.wf()
        &&& self.qualified.wf()
        &&& self.packages.wf()
        &&& self.subtypes.wf()
        &&& self.extension_by_receiver.wf()
        &&& self.library_uris.wf()
        &&& self.jar_files.wf()
        &&& self.jar_definitions.wf()
        &&& self.jar_uri_to_defs.wf()
        &&& self.jar_symbol_packages.wf()
        &&& self.importable_fqns.wf()
        &&& self.completion_cache.wf()
        &&& self.sig_cache.wf()
        &&& self.live_lines.wf()
        &&& self.layouts.wf()
        &&& self.generated_bindings.wf()
        &&& self.binding_discovery.wf()
    }

    /// An index that holds nothing.
    pub fn new() -> (r: Indexer)
        ensures
            r.wf(),
            r@ == empty_index(),
    {
        let r = Indexer {
            files: Table::new(),
            content_hashes: Table::new(),
            definitions: Table::new(),
            qualified: Table::new(),
            packages: Table::new(),
            subtypes: Table::new(),
            extension_by_receiver: Table::new(),
            library_uris: Table::new(),
            jar_files: Table::new(),
            jar_definitions: Table::new(),
            jar_uri_to_defs: Table::new(),
            jar_symbol_packages: Table::new(),
            source_paths_raw: Vec::new(),
            bare_name_cache: Vec::new(),
            bare_names_dirty: false,
            importable_fqns: Table::new(),
            last_completion: None,
            completion_epoch: 0,
            completion_cache: Table::new(),
            sig_cache: Table::new(),
            parse_count: 0,
            live_lines: Table::new(),
            layouts: Table::new(),
            generated_bindings: Table::new(),
            binding_discovery: BindingDiscoveryHandle::noop(),
        };
        assert(r@ =~~= empty_index());
        r
    }
}

} // verus!
