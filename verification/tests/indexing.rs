//! What the index holds after files were entered.
use kmp_index::apply::{classify_source_set, hash_str, is_test_source_set, resolve_source_paths};
use kmp_index::contributions::{
    build_qualified_keys, derive_supertypes, file_contributions, file_stem_from_uri, join_dot,
    stale_keys_for, strip_library_private_symbols,
};
use kmp_index::hierarchy::walk_class_hierarchy;
use kmp_index::index::Indexer;
use kmp_index::library::{cache_entry_to_file_result, FileCacheEntry, LibraryBatch};
use kmp_index::names::build_bare_names;
use kmp_index::resolution::find_definition_qualified;
use kmp_index::table::Table;
use kmp_index::text::last_ident_in;
use kmp_index::types::{
    FileData, FileIndexResult, ImportEntry, Location, Position, Range, SourceSet, SymbolEntry,
    SymbolKind, Visibility,
};
use kmp_index::workspace::FixedWorkspace;

fn uri(path: &str) -> String {
    format!("file:///test{path}")
}

fn span(line: u32, from: u32, to: u32) -> Range {
    Range {
        start: Position { line, character: from },
        end: Position { line, character: to },
    }
}

fn symbol(name: &str, kind: SymbolKind, line: u32) -> SymbolEntry {
    let range = span(line, 0, name.len() as u32);
    SymbolEntry {
        name: name.to_string(),
        kind,
        visibility: Visibility::Public,
        range,
        selection_range: range,
        detail: String::new(),
        container: None,
        params: String::new(),
        param_counts: (0, 0),
        type_params: vec![],
        extension_receiver: String::new(),
        extension_receiver_type: String::new(),
        doc: String::new(),
        trailing_lambda: false,
        deprecated: false,
        nullable: false,
    }
}

fn class(name: &str, line: u32) -> SymbolEntry {
    symbol(name, SymbolKind::Class, line)
}

fn method(name: &str, container: &str, line: u32) -> SymbolEntry {
    SymbolEntry {
        container: Some(container.to_string()),
        ..symbol(name, SymbolKind::Function, line)
    }
}

/// What parsing `content` yields, given its declarations.
fn parsed(
    content: &str,
    package: Option<&str>,
    symbols: Vec<SymbolEntry>,
    supers: &[(u32, &str)],
) -> FileData {
    FileData {
        symbols,
        package: package.map(String::from),
        lines: content.lines().map(String::from).collect(),
        supers: supers
            .iter()
            .map(|(l, n)| (*l, n.to_string(), vec![]))
            .collect(),
        ..FileData::default()
    }
}

fn enter(
    idx: &mut Indexer,
    u: &str,
    content: &str,
    package: Option<&str>,
    symbols: Vec<SymbolEntry>,
    supers: &[(u32, &str)],
) {
    idx.index_content(u, content, parsed(content, package, symbols, supers), None);
}

#[test]
fn symbol_found_after_indexing() {
    let u = uri("/t.kt");
    let mut idx = Indexer::new();
    enter(&mut idx, &u, "class MyViewModel", None, vec![class("MyViewModel", 0)], &[]);
    assert!(!idx.resolve_symbol_no_rg("MyViewModel", &u).is_empty());
}

#[test]
fn data_class_single_definition() {
    let u = uri("/t.kt");
    let mut idx = Indexer::new();
    enter(
        &mut idx,
        &u,
        "data class Foo(val x: Int)",
        None,
        vec![class("Foo", 0), symbol("x", SymbolKind::Property, 0)],
        &[],
    );
    assert_eq!(idx.resolve_symbol_no_rg("Foo", &u).len(), 1);
}

#[test]
fn stale_removed_on_reindex() {
    let u = uri("/t.kt");
    let mut idx = Indexer::new();
    enter(&mut idx, &u, "class OldName", None, vec![class("OldName", 0)], &[]);
    enter(&mut idx, &u, "class NewName", None, vec![class("NewName", 0)], &[]);
    assert!(
        idx.resolve_symbol_no_rg("OldName", &u).is_empty(),
        "stale entry not removed"
    );
    assert!(!idx.resolve_symbol_no_rg("NewName", &u).is_empty());
}

#[test]
fn qualified_index_populated() {
    let u = uri("/t.kt");
    let mut idx = Indexer::new();
    enter(
        &mut idx,
        &u,
        "package com.example\nclass Foo",
        Some("com.example"),
        vec![class("Foo", 1)],
        &[],
    );
    assert!(idx.qualified.contains_key("com.example.Foo"));
}

#[test]
fn qualified_removed_on_reindex() {
    let u = uri("/t.kt");
    let mut idx = Indexer::new();
    let pkg = Some("com.example");
    enter(&mut idx, &u, "package com.example\nclass OldName", pkg, vec![class("OldName", 1)], &[]);
    enter(&mut idx, &u, "package com.example\nclass NewName", pkg, vec![class("NewName", 1)], &[]);
    assert!(
        !idx.qualified.contains_key("com.example.OldName"),
        "stale qualified entry"
    );
    assert!(idx.qualified.contains_key("com.example.NewName"));
}

#[test]
fn packages_map_populated() {
    let u = uri("/t.kt");
    let mut idx = Indexer::new();
    enter(
        &mut idx,
        &u,
        "package com.example\nclass Foo",
        Some("com.example"),
        vec![class("Foo", 1)],
        &[],
    );
    let uris = idx.packages.get("com.example").unwrap();
    assert!(uris.contains(&u));
}

#[test]
fn index_same_content_parses_only_once() {
    let u = uri("/Dedup.kt");
    let mut idx = Indexer::new();
    let src = "package com.test\nclass Dedup";
    for _ in 0..50 {
        enter(&mut idx, &u, src, Some("com.test"), vec![class("Dedup", 1)], &[]);
    }
    assert_eq!(idx.parse_count, 1, "identical content should be taken in once");
}

#[test]
fn index_changed_content_reparses() {
    let u = uri("/Changed.kt");
    let mut idx = Indexer::new();
    enter(&mut idx, &u, "class A", None, vec![class("A", 0)], &[]);
    enter(&mut idx, &u, "class A", None, vec![class("A", 0)], &[]);
    enter(&mut idx, &u, "class B", None, vec![class("B", 0)], &[]);
    enter(&mut idx, &u, "class B", None, vec![class("B", 0)], &[]);
    assert_eq!(idx.parse_count, 2);
}

#[test]
fn nested_class_qualified_key() {
    let u = uri("/AccountContract.kt");
    let mut idx = Indexer::new();
    enter(
        &mut idx,
        &u,
        "package com.example\nclass AccountContract {\n  sealed class State\n  sealed class Event\n}",
        Some("com.example"),
        vec![class("AccountContract", 1), class("State", 2), class("Event", 3)],
        &[],
    );
    assert!(
        idx.qualified.contains_key("com.example.State"),
        "primary qualified key missing"
    );
    assert!(
        idx.qualified.contains_key("com.example.AccountContract.State"),
        "nested qualified key missing"
    );
}

const BAR: &str = "package com.example\nopen class Bar {\n  open fun doIt() {}\n}\n";

fn enter_bar(idx: &mut Indexer) -> String {
    let u = uri("/Bar.kt");
    enter(
        idx,
        &u,
        BAR,
        Some("com.example"),
        vec![class("Bar", 1), method("doIt", "Bar", 2)],
        &[],
    );
    u
}

#[test]
fn super_resolution_chain() {
    let foo_src = "package com.example\nclass Foo @Inject constructor(\n  private val a: A,\n  private val b: B,\n) : Bar() {\n  override fun doIt() {\nsuper.doIt()\n  }\n}";
    let mut idx = Indexer::new();
    enter_bar(&mut idx);
    let foo_uri = uri("/Foo.kt");
    enter(
        &mut idx,
        &foo_uri,
        foo_src,
        Some("com.example"),
        vec![class("Foo", 1), method("doIt", "Foo", 5)],
        &[(1, "Bar")],
    );
    let class_name = idx.enclosing_class_at(&foo_uri, 6, None);
    assert_eq!(class_name.as_deref(), Some("Foo"), "enclosing class");
    let locs = idx.definitions.get("Foo").unwrap();
    assert!(!locs.is_empty(), "Foo must be in definitions");
    let file = idx.files.get(&locs[0].uri).unwrap();
    let start_line = locs[0].range.start.line;
    assert!(file.supers.iter().any(|(l, n, _)| *l == start_line && n == "Bar"));
    assert!(!find_definition_qualified(&idx, "Bar", None, &foo_uri).is_empty());
}

#[test]
fn debug_super_chain() {
    let mut idx = Indexer::new();
    enter_bar(&mut idx);
    let foo_uri = uri("/Foo.kt");
    let foo_src = "package com.example\nimport com.example.Bar\nclass Foo : Bar() {\n  override fun doIt() {\n    super.doIt()\n  }\n}";
    let mut data = parsed(
        foo_src,
        Some("com.example"),
        vec![class("Foo", 2), method("doIt", "Foo", 3)],
        &[(2, "Bar")],
    );
    data.imports.push(ImportEntry {
        full_path: "com.example.Bar".to_string(),
        local_name: "Bar".to_string(),
        is_star: false,
    });
    idx.index_content(&foo_uri, foo_src, data, None);
    assert!(
        !find_definition_qualified(&idx, "Bar", None, &foo_uri).is_empty(),
        "Bar should resolve via same-package or import"
    );
}

#[test]
fn goto_super_resolves_to_parent_class() {
    let mut idx = Indexer::new();
    let bar_uri = uri("/Bar.kt");
    enter(
        &mut idx,
        &bar_uri,
        "package com.example\nopen class Bar\n",
        Some("com.example"),
        vec![class("Bar", 1)],
        &[],
    );
    let foo_uri = uri("/Foo.kt");
    enter(
        &mut idx,
        &foo_uri,
        "package com.example\nclass Foo : Bar() {\n  fun test() {\n    super.toString()\n  }\n}",
        Some("com.example"),
        vec![class("Foo", 1), method("test", "Foo", 2)],
        &[(1, "Bar")],
    );
    let enclosing = idx.enclosing_class_at(&foo_uri, 3, None);
    assert_eq!(enclosing.as_deref(), Some("Foo"), "enclosing class");
    let locs = find_definition_qualified(&idx, "Bar", None, &foo_uri);
    assert!(!locs.is_empty(), "super should resolve to Bar");
    assert_eq!(locs[0].uri, bar_uri, "resolved to wrong file");
}

#[test]
fn goto_this_resolves_to_enclosing_class() {
    let u = uri("/MyClass.kt");
    let mut idx = Indexer::new();
    enter(
        &mut idx,
        &u,
        "package com.example\nclass MyClass {\n  fun test() {\n    this.toString()\n  }\n}",
        Some("com.example"),
        vec![class("MyClass", 1), method("test", "MyClass", 2)],
        &[],
    );
    let enclosing = idx.enclosing_class_at(&u, 3, None);
    assert_eq!(enclosing.as_deref(), Some("MyClass"));
    let locs = find_definition_qualified(&idx, "MyClass", None, &u);
    assert!(!locs.is_empty(), "this should resolve to MyClass");
    assert_eq!(locs[0].uri, u);
}

/// A class of `com.example` on line 1 with a method, and what it extends.
fn enter_example(idx: &mut Indexer, path: &str, src: &str, member: (&str, u32), extends: Option<&str>) {
    let name = path.trim_start_matches('/').trim_end_matches(".kt");
    let supers: Vec<(u32, &str)> = extends.iter().map(|s| (1, *s)).collect();
    let symbols = vec![class(name, 1), method(member.0, name, member.1)];
    enter(idx, &uri(path), src, Some("com.example"), symbols, &supers);
}

#[test]
fn goto_super_method_resolves_in_parent() {
    let bar_src = "package com.example\nopen class Bar {\n  open fun onCleared() {}\n}\n";
    let foo_src = "package com.example\nclass Foo : Bar() {\n  override fun onCleared() {\n    super.onCleared()\n  }\n}";
    let mut idx = Indexer::new();
    enter_example(&mut idx, "/Bar.kt", bar_src, ("onCleared", 2), None);
    enter_example(&mut idx, "/Foo.kt", foo_src, ("onCleared", 2), Some("Bar"));
    let locs = find_definition_qualified(&idx, "onCleared", Some("super"), &uri("/Foo.kt"));
    assert!(!locs.is_empty(), "super.onCleared should resolve");
    assert_eq!(locs[0].uri, uri("/Bar.kt"), "super.onCleared should resolve to Bar.kt, not Foo.kt");
}

#[test]
fn goto_super_method_no_fallthrough_to_override() {
    let foo_src = "package com.example\nclass Foo : Base() {\n  override fun doWork() {\n    super.doWork()\n  }\n}";
    let mut idx = Indexer::new();
    enter_example(&mut idx, "/Foo.kt", foo_src, ("doWork", 2), Some("Base"));
    let foo_uri = uri("/Foo.kt");
    for loc in find_definition_qualified(&idx, "doWork", Some("super"), &foo_uri) {
        assert_ne!(loc.uri, foo_uri, "super.doWork must not resolve to overriding file");
    }
}

#[test]
fn goto_super_method_multiline_constructor() {
    let bar_src = "package com.example\nopen class Bar {\n  open fun doWork() {}\n}\n";
    let foo_src = "package com.example\nclass Foo @Inject constructor(\n  private val dep: String,\n) : Bar() {\n  override fun doWork() {\nsuper.doWork()\n  }\n}";
    let mut idx = Indexer::new();
    enter_example(&mut idx, "/Bar.kt", bar_src, ("doWork", 2), None);
    enter_example(&mut idx, "/Foo.kt", foo_src, ("doWork", 4), Some("Bar"));
    let locs = find_definition_qualified(&idx, "doWork", Some("super"), &uri("/Foo.kt"));
    assert!(!locs.is_empty(), "super.doWork should resolve");
    assert_eq!(locs[0].uri, uri("/Bar.kt"), "should resolve to Bar.kt");
}

#[test]
fn subtypes_index_basic() {
    let mut idx = Indexer::new();
    let iface_uri = uri("/IAnimal.kt");
    enter(
        &mut idx,
        &iface_uri,
        "interface IAnimal {\n    fun speak(): String\n}",
        None,
        vec![symbol("IAnimal", SymbolKind::Interface, 0), method("speak", "IAnimal", 1)],
        &[],
    );
    let dog_uri = uri("/Dog.kt");
    enter(
        &mut idx,
        &dog_uri,
        "class Dog : IAnimal {\n    override fun speak() = \"woof\"\n}",
        None,
        vec![class("Dog", 0), method("speak", "Dog", 1)],
        &[(0, "IAnimal")],
    );
    let cat_uri = uri("/Cat.kt");
    enter(
        &mut idx,
        &cat_uri,
        "class Cat : IAnimal {\n    override fun speak() = \"meow\"\n}",
        None,
        vec![class("Cat", 0), method("speak", "Cat", 1)],
        &[(0, "IAnimal")],
    );
    let subs = idx.subtypes.get("IAnimal").expect("should have subtypes for IAnimal");
    let sub_uris: Vec<_> = subs.iter().map(|l| l.uri.clone()).collect();
    assert!(sub_uris.contains(&dog_uri), "Dog should be a subtype");
    assert!(sub_uris.contains(&cat_uri), "Cat should be a subtype");
    assert_eq!(subs.len(), 2);
}

#[test]
fn subtypes_index_multiple_supertypes() {
    let mut idx = Indexer::new();
    let iface = |n: &str| vec![symbol(n, SymbolKind::Interface, 0)];
    enter(&mut idx, &uri("/A.kt"), "interface Flyable", None, iface("Flyable"), &[]);
    enter(&mut idx, &uri("/B.kt"), "interface Swimmable", None, iface("Swimmable"), &[]);
    enter(
        &mut idx,
        &uri("/Duck.kt"),
        "class Duck : Flyable, Swimmable {\n}",
        None,
        vec![class("Duck", 0)],
        &[(0, "Flyable"), (0, "Swimmable")],
    );
    assert_eq!(idx.subtypes.get("Flyable").expect("Flyable subtypes").len(), 1);
    assert_eq!(idx.subtypes.get("Swimmable").expect("Swimmable subtypes").len(), 1);
}

#[test]
fn subtypes_index_reindex_cleans_stale() {
    let mut idx = Indexer::new();
    let u = uri("/Dog.kt");
    enter(&mut idx, &u, "class Dog : IAnimal {}", None, vec![class("Dog", 0)], &[(0, "IAnimal")]);
    assert!(idx.subtypes.get("IAnimal").is_some());
    enter(&mut idx, &u, "class Dog {}", None, vec![class("Dog", 0)], &[]);
    let empty = idx.subtypes.get("IAnimal").map(|s| s.is_empty()).unwrap_or(true);
    assert!(empty, "stale subtype entry should be removed on re-index");
}

#[test]
fn subtypes_no_false_positive_across_classes() {
    let mut idx = Indexer::new();
    enter(
        &mut idx,
        &uri("/multi.kt"),
        "class Foo : Alpha {\n}\nclass Bar : Beta {\n}",
        None,
        vec![class("Foo", 0), class("Bar", 2)],
        &[(0, "Alpha"), (2, "Beta")],
    );
    let alpha = idx.subtypes.get("Alpha").unwrap();
    let beta = idx.subtypes.get("Beta").unwrap();
    assert_eq!(alpha.len(), 1, "Alpha should have exactly 1 subtype (Foo)");
    assert_eq!(beta.len(), 1, "Beta should have exactly 1 subtype (Bar)");
    let file = idx.files.get(&alpha[0].uri).unwrap();
    let names: Vec<_> = file
        .symbols
        .iter()
        .filter(|s| s.selection_range == alpha[0].range)
        .map(|s| s.name.as_str())
        .collect();
    assert_eq!(names, vec!["Foo"]);
}

#[test]
fn subtypes_survive_cache_roundtrip() {
    let u = uri("/Dog.kt");
    let content = "class Dog : IAnimal {\n    fun bark() {}\n}";
    let data = || {
        parsed(
            content,
            None,
            vec![class("Dog", 0), method("bark", "Dog", 1)],
            &[(0, "IAnimal")],
        )
    };
    let mut idx1 = Indexer::new();
    idx1.index_content(&u, content, data(), None);
    assert!(idx1.subtypes.get("IAnimal").is_some());
    let entry = FileCacheEntry {
        mtime_secs: 0,
        file_size: 0,
        content_hash: 42,
        file_data: data(),
        qualified_keys: vec![],
    };
    let result = cache_entry_to_file_result(&u, &entry);
    let mut idx2 = Indexer::new();
    idx2.apply_file_result(&result);
    let subs = idx2.subtypes.get("IAnimal").expect("subtypes should be populated");
    assert_eq!(subs.len(), 1);
}

/// The names of the classes that the index holds as subtypes of a class.
fn subtype_names(idx: &Indexer, name: &str) -> Vec<String> {
    let subs = idx.subtypes.get(name).expect("should have subtypes");
    subs.iter()
        .filter_map(|l| {
            idx.files.get(&l.uri).and_then(|f| {
                f.symbols
                    .iter()
                    .find(|s| s.selection_range == l.range)
                    .map(|s| s.name.clone())
            })
        })
        .collect()
}

/// Enters a file of one class, given the class and what it extends.
fn enter_class(
    idx: &mut Indexer,
    path: &str,
    content: &str,
    package: Option<&str>,
    declared: SymbolEntry,
    extends: Option<&str>,
) {
    let line = declared.selection_range.start.line;
    let supers: Vec<(u32, &str)> = extends.iter().map(|s| (line, *s)).collect();
    enter(idx, &uri(path), content, package, vec![declared], &supers);
}

#[test]
fn subtypes_sealed_class_inner_objects() {
    let mut idx = Indexer::new();
    enter(
        &mut idx,
        &uri("/StoreState.kt"),
        "sealed class StoreState {\nobject Uninitialized : StoreState()\ndata class Ready(val data: String) : StoreState()\ndata class Error(val msg: String) : StoreState()\n}",
        None,
        vec![
            class("StoreState", 0),
            symbol("Uninitialized", SymbolKind::Object, 1),
            class("Ready", 2),
            class("Error", 3),
        ],
        &[(1, "StoreState"), (2, "StoreState"), (3, "StoreState")],
    );
    let names = subtype_names(&idx, "StoreState");
    assert!(names.contains(&"Uninitialized".to_string()), "got {names:?}");
    assert!(names.contains(&"Ready".to_string()), "got {names:?}");
    assert!(names.contains(&"Error".to_string()), "got {names:?}");
    assert_eq!(idx.subtypes.get("StoreState").unwrap().len(), 3);
}

#[test]
fn subtypes_generic_supertype() {
    let mut idx = Indexer::new();
    let loader = symbol("ILoader", SymbolKind::Interface, 0);
    enter_class(&mut idx, "/ILoader.kt", "interface ILoader<out T>", None, loader, None);
    let content = "abstract class BaseLoader<T> : ILoader<T>";
    let data = FileData {
        supers: vec![(0, "ILoader".to_string(), vec!["T".to_string()])],
        ..parsed(content, None, vec![class("BaseLoader", 0)], &[])
    };
    idx.index_content(&uri("/BaseLoader.kt"), content, data, None);
    let content = "class StringLoader : BaseLoader<String>()";
    let data = FileData {
        supers: vec![(0, "BaseLoader".to_string(), vec!["String".to_string()])],
        ..parsed(content, None, vec![class("StringLoader", 0)], &[])
    };
    idx.index_content(&uri("/StringLoader.kt"), content, data, None);
    assert_eq!(
        idx.subtypes.get("ILoader").expect("ILoader subtypes").len(),
        1,
        "ILoader should have 1 direct subtype (BaseLoader)"
    );
    assert_eq!(
        idx.subtypes.get("BaseLoader").expect("BaseLoader subtypes").len(),
        1,
        "BaseLoader should have 1 direct subtype (StringLoader)"
    );
}

#[test]
fn subtypes_constructor_with_params() {
    let mut idx = Indexer::new();
    enter_class(&mut idx, "/Bar.kt", "open class Bar(val x: Int)", None, class("Bar", 0), None);
    enter(
        &mut idx,
        &uri("/Foo.kt"),
        "class Foo(val x: Int) : Bar(x) {\n    fun doStuff() {}\n}",
        None,
        vec![class("Foo", 0), method("doStuff", "Foo", 1)],
        &[(0, "Bar")],
    );
    assert_eq!(idx.subtypes.get("Bar").expect("Bar subtypes").len(), 1);
}

#[test]
fn subtypes_sealed_generic() {
    let mut idx = Indexer::new();
    let content = "sealed class StoreState<out T> {\nobject Uninitialized : StoreState<Nothing>()\ndata class Ready<out T>(val data: T) : StoreState<T>()\ndata class Error(val error: Throwable) : StoreState<Nothing>()\n}";
    let symbols = vec![
        class("StoreState", 0),
        symbol("Uninitialized", SymbolKind::Object, 1),
        class("Ready", 2),
        class("Error", 3),
    ];
    let store_state = |line: u32, arg: &str| (line, "StoreState".to_string(), vec![arg.to_string()]);
    let data = FileData {
        supers: vec![store_state(1, "Nothing"), store_state(2, "T"), store_state(3, "Nothing")],
        ..parsed(content, None, symbols, &[])
    };
    idx.index_content(&uri("/State.kt"), content, data, None);
    let names = subtype_names(&idx, "StoreState");
    assert!(names.contains(&"Uninitialized".to_string()), "got {names:?}");
    assert!(names.contains(&"Ready".to_string()), "got {names:?}");
    assert!(names.contains(&"Error".to_string()), "got {names:?}");
    assert_eq!(idx.subtypes.get("StoreState").unwrap().len(), 3);
}

#[test]
fn subtypes_transitive_chain_realistic() {
    let mut idx = Indexer::new();
    enter(
        &mut idx,
        &uri("/ISimpleLoadDataInteractor.kt"),
        "interface ISimpleLoadDataInteractor<out T> {\nsuspend fun loadData(): T\n}",
        None,
        vec![
            symbol("ISimpleLoadDataInteractor", SymbolKind::Interface, 0),
            method("loadData", "ISimpleLoadDataInteractor", 1),
        ],
        &[],
    );
    enter(
        &mut idx,
        &uri("/SimpleLoadDataInteractor.kt"),
        "abstract class SimpleLoadDataInteractor<out T>(\nprivate val dispatcher: String\n) : ISimpleLoadDataInteractor<T> {\noverride suspend fun loadData(): T = withContext(dispatcher) { doLoad() }\nprotected abstract suspend fun doLoad(): T\n}",
        None,
        vec![
            class("SimpleLoadDataInteractor", 0),
            method("loadData", "SimpleLoadDataInteractor", 3),
            method("doLoad", "SimpleLoadDataInteractor", 4),
        ],
        &[(0, "ISimpleLoadDataInteractor")],
    );
    enter_class(
        &mut idx,
        "/ContactLoader.kt",
        "class ContactAddressInteractor(\ndispatcher: String\n) : SimpleLoadDataInteractor<String>(dispatcher) {\noverride suspend fun doLoad(): String = \"contacts\"\n}",
        None,
        class("ContactAddressInteractor", 0),
        Some("SimpleLoadDataInteractor"),
    );
    enter_class(
        &mut idx,
        "/BalanceLoader.kt",
        "class BalanceInteractor(\ndispatcher: String,\nprivate val repo: String\n) : SimpleLoadDataInteractor<Int>(dispatcher) {\noverride suspend fun doLoad(): Int = 42\n}",
        None,
        class("BalanceInteractor", 0),
        Some("SimpleLoadDataInteractor"),
    );
    let direct = idx.subtypes.get("ISimpleLoadDataInteractor").expect("direct subtypes");
    assert_eq!(direct.len(), 1, "should have 1 direct subtype (SimpleLoadDataInteractor)");
    let base_subs = idx.subtypes.get("SimpleLoadDataInteractor").expect("subtypes");
    assert_eq!(base_subs.len(), 2, "should have 2 direct subtypes");
}

#[test]
fn subtypes_multiline_constructor() {
    let mut idx = Indexer::new();
    enter_class(&mut idx, "/Base.kt", "open class Base", None, class("Base", 0), None);
    enter(
        &mut idx,
        &uri("/Sub.kt"),
        "class Sub(\nval x: Int,\nval y: String\n) : Base() {\nfun doStuff() {}\n}",
        None,
        vec![class("Sub", 0), method("doStuff", "Sub", 4)],
        &[(0, "Base")],
    );
    assert_eq!(idx.subtypes.get("Base").expect("Base subtypes").len(), 1);
}

#[test]
fn subtypes_annotation_with_braces() {
    let mut idx = Indexer::new();
    enter(
        &mut idx,
        &uri("/Mod.kt"),
        "@Module\n@Provides({Foo::class, Bar::class})\nclass FooModule : BaseModule() {\nfun provide() {}\n}",
        None,
        vec![class("FooModule", 2), method("provide", "FooModule", 3)],
        &[(2, "BaseModule")],
    );
    let subs = idx.subtypes.get("BaseModule").expect("BaseModule should have subtypes");
    assert_eq!(subs.len(), 1);
}

#[test]
fn real_sealed_interface_store_state() {
    let mut idx = Indexer::new();
    enter(
        &mut idx,
        &uri("/StoreState.kt"),
        "package cz.moneta.smartbanka.common.mvi.store\n\nsealed interface StoreState<out S> : BusinessState {\n  data object Uninitialized : StoreState<Nothing>\n  data class Ready<S>(val state: S) : StoreState<S>\n\n  fun readyOrNull(): S? {\nreturn when (this) {\n  is Ready -> this.state\n  Uninitialized -> null\n}\n  }\n}",
        Some("cz.moneta.smartbanka.common.mvi.store"),
        vec![
            symbol("StoreState", SymbolKind::Interface, 2),
            symbol("Uninitialized", SymbolKind::Object, 3),
            class("Ready", 4),
            method("readyOrNull", "StoreState", 6),
        ],
        &[(2, "BusinessState"), (3, "StoreState"), (4, "StoreState")],
    );
    let names = subtype_names(&idx, "StoreState");
    assert!(names.contains(&"Uninitialized".to_string()), "Uninitialized missing: {names:?}");
    assert!(names.contains(&"Ready".to_string()), "Ready missing: {names:?}");
    assert_eq!(idx.subtypes.get("StoreState").unwrap().len(), 2);
}

#[test]
fn real_isimpleloaddatainteractor_chain() {
    let mut idx = Indexer::new();
    let product = Some("cz.moneta.smartbanka.shared_logic.product");
    let goldcard = Some("cz.moneta.smartbanka.feature.gold_conversion.model.goldcard");
    enter_class(
        &mut idx,
        "/IInteractor.kt",
        "package cz.moneta.smartbanka.shared_logic.product\ninterface IInteractor<Output>",
        product,
        symbol("IInteractor", SymbolKind::Interface, 1),
        None,
    );
    enter_class(
        &mut idx,
        "/ISimpleLoadDataInteractor.kt",
        "package cz.moneta.smartbanka.shared_logic.product\ninterface ISimpleLoadDataInteractor<Output> : IInteractor<Output> {\n  suspend fun loadData(): Output\n}",
        product,
        symbol("ISimpleLoadDataInteractor", SymbolKind::Interface, 1),
        Some("IInteractor"),
    );
    enter_class(
        &mut idx,
        "/ContactAddressInteractor.kt",
        "package cz.moneta.smartbanka.feature.gold_conversion.model.goldcard\ninternal class ContactAddressInteractor @Inject constructor(\n  private val repo: IGoldConversionRepository,\n) : ISimpleLoadDataInteractor<PersonalAddress> {\n  override suspend fun loadData(): PersonalAddress =\nrequireNotNull(repo.contactAddressSetup().contactAddress)\n}",
        goldcard,
        class("ContactAddressInteractor", 1),
        Some("ISimpleLoadDataInteractor"),
    );
    enter_class(
        &mut idx,
        "/PermanentAddressInteractor.kt",
        "package cz.moneta.smartbanka.feature.gold_conversion.model.goldcard\ninternal class PermanentAddressInteractor @Inject constructor(\n  private val repo: IGoldConversionRepository,\n) : ISimpleLoadDataInteractor<PersonalAddress> {\n  override suspend fun loadData(): PersonalAddress =\nrequireNotNull(repo.permanentAddressSetup().permanentAddress)\n}",
        goldcard,
        class("PermanentAddressInteractor", 1),
        Some("ISimpleLoadDataInteractor"),
    );
    let subs = idx.subtypes.get("ISimpleLoadDataInteractor").expect("subtypes");
    assert_eq!(subs.len(), 2, "should find both interactors");
    let above = idx.subtypes.get("IInteractor").expect("IInteractor should have subtypes");
    assert_eq!(above.len(), 1, "ISimpleLoadDataInteractor is subtype of IInteractor");
}

fn make_result(u: &str, pkg: &str, sym: &str, content: &str) -> FileIndexResult {
    Indexer::parse_file(u, content, parsed(content, Some(pkg), vec![class(sym, 1)], &[]))
}

#[test]
fn file_contributions_definitions() {
    let result = make_result(
        "file:///pkg/Foo.kt",
        "com.example",
        "Foo",
        "package com.example\nclass Foo",
    );
    let contrib = file_contributions(&result);
    assert!(
        contrib.definitions.contains_key("Foo"),
        "should have Foo in definitions"
    );
    let locs = contrib.definitions.get("Foo").unwrap();
    assert_eq!(locs.len(), 1);
    assert_eq!(locs[0].uri.as_str(), "file:///pkg/Foo.kt");
}

#[test]
fn file_contributions_qualified_both_keys() {
    let result = make_result(
        "file:///pkg/Foo.kt",
        "com.example",
        "Bar",
        "package com.example\nclass Bar",
    );
    let contrib = file_contributions(&result);
    assert!(
        contrib.qualified.contains_key("com.example.Bar"),
        "pkg.Sym key missing"
    );
    assert!(
        contrib.qualified.contains_key("com.example.Foo.Bar"),
        "pkg.Stem.Sym key missing"
    );
}

#[test]
fn file_contributions_qualified_stem_same_as_sym_no_alias() {
    let result = make_result(
        "file:///pkg/Foo.kt",
        "com.example",
        "Foo",
        "package com.example\nclass Foo",
    );
    let contrib = file_contributions(&result);
    assert!(
        contrib.qualified.contains_key("com.example.Foo"),
        "pkg.Sym key missing"
    );
    assert!(
        !contrib.qualified.contains_key("com.example.Foo.Foo"),
        "alias should not appear when stem == sym"
    );
}

#[test]
fn stale_keys_includes_both_qualified_aliases() {
    let data = parsed("", Some("com.example"), vec![class("Bar", 0)], &[]);
    let stale = stale_keys_for("file:///pkg/Foo.kt", &data);
    assert!(
        stale.qualified_keys.contains(&"com.example.Bar".to_string()),
        "pkg.Sym missing"
    );
    assert!(
        stale.qualified_keys.contains(&"com.example.Foo.Bar".to_string()),
        "pkg.Stem.Sym missing"
    );
}

#[test]
fn stale_keys_stem_equals_sym_no_alias() {
    let data = parsed("", Some("com.example"), vec![class("Foo", 0)], &[]);
    let stale = stale_keys_for("file:///pkg/Foo.kt", &data);
    assert!(stale.qualified_keys.contains(&"com.example.Foo".to_string()));
    assert!(!stale.qualified_keys.contains(&"com.example.Foo.Foo".to_string()));
    assert_eq!(stale.definition_names, vec!["Foo".to_string()]);
    assert_eq!(stale.package, Some("com.example".to_string()));
}

#[test]
fn build_bare_names_sorted_deduped() {
    let mut defs: Table<Vec<Location>> = Table::new();
    defs.insert("Zebra", vec![]);
    defs.insert("Apple", vec![]);
    defs.insert("Apple", vec![]);
    let names = build_bare_names(&defs);
    assert_eq!(names, vec!["Apple", "Zebra"]);
}

#[test]
fn last_ident_in_simple() {
    assert_eq!(last_ident_in("foo.barBaz"), "barBaz");
}

#[test]
fn last_ident_in_whole_string() {
    assert_eq!(last_ident_in("identifier"), "identifier");
}

#[test]
fn last_ident_in_empty() {
    assert_eq!(last_ident_in(""), "");
}

#[test]
fn last_ident_in_no_ident() {
    assert_eq!(last_ident_in("foo.bar("), "");
}

#[test]
fn last_ident_in_with_spaces() {
    assert_eq!(last_ident_in("  someIdent"), "someIdent");
}

#[test]
fn find_definition_qualified_default_resolves_via_index() {
    let at = span(3, 0, 3);
    let target = Location { uri: "file:///workspace/src/Foo.kt".to_string(), range: at };
    let workspace = FixedWorkspace::new().with_definition("Foo", target);
    let result = find_definition_qualified(&workspace, "Foo", None, "file:///workspace/src/Bar.kt");
    let expected = Location { uri: "file:///workspace/src/Foo.kt".to_string(), range: at };
    assert_eq!(result, vec![expected]);
}

#[test]
fn find_definition_qualified_returns_empty_when_unknown() {
    let workspace = FixedWorkspace::new();
    let result =
        find_definition_qualified(&workspace, "Unknown", None, "file:///workspace/src/Bar.kt");
    assert!(result.is_empty());
}

// Beyond single files

#[test]
fn indexing_the_same_file_twice_changes_no_table() {
    let u = uri("/Foo.kt");
    let result = make_result(&u, "com.example", "Foo", "package com.example\nclass Foo");
    let mut idx = Indexer::new();
    idx.apply_file_result(&result);
    idx.apply_file_result(&result);
    assert_eq!(idx.definitions.get("Foo").unwrap().len(), 1);
    assert_eq!(idx.packages.get("com.example").unwrap(), &vec![u]);
    assert_eq!(idx.qualified.len(), 1);
}

#[test]
fn other_files_keep_their_declarations() {
    let mut idx = Indexer::new();
    let (a, b) = (uri("/A.kt"), uri("/B.kt"));
    enter(&mut idx, &a, "class Same", None, vec![class("Same", 0)], &[]);
    enter(&mut idx, &b, "class Same", None, vec![class("Same", 0)], &[]);
    enter(&mut idx, &a, "class Other", None, vec![class("Other", 0)], &[]);
    let left = idx.definitions.get("Same").unwrap();
    assert_eq!(left.len(), 1);
    assert_eq!(left[0].uri, b);
}

#[test]
fn a_workspace_takes_the_place_of_the_one_before() {
    let mut idx = Indexer::new();
    enter(&mut idx, &uri("/Old.kt"), "class Old", None, vec![class("Old", 0)], &[]);
    let files = vec![
        make_result(&uri("/A.kt"), "p", "A", "package p\nclass A"),
        make_result(&uri("/B.kt"), "p", "B", "package p\nclass B"),
    ];
    idx.apply_workspace_result(&files);
    assert!(!idx.definitions.contains_key("Old"));
    assert_eq!(idx.files.len(), 2);
    assert_eq!(idx.packages.get("p").unwrap(), &vec![uri("/A.kt"), uri("/B.kt")]);
    assert_eq!(idx.bare_name_cache, vec!["A", "B"]);
}

#[test]
fn layout_files_are_not_source_files() {
    let mut idx = Indexer::new();
    let u = uri("/res/layout/main.xml");
    assert!(idx.index_content(&u, "<a/>", FileData::default(), None).is_none());
    assert_eq!(idx.files.len(), 0);
}

#[test]
fn extensions_are_listed_by_receiver() {
    let mut idx = Indexer::new();
    let u = uri("/Ext.kt");
    let ext = |name: &str| SymbolEntry {
        extension_receiver: "String".to_string(),
        ..symbol(name, SymbolKind::Function, 0)
    };
    enter(&mut idx, &u, "fun String.shout() {}", None, vec![ext("shout")], &[]);
    assert_eq!(idx.extension_by_receiver.get("String").unwrap()[0].name, "shout");
    enter(&mut idx, &u, "fun String.whisper() {}", None, vec![ext("whisper")], &[]);
    let names: Vec<_> = idx
        .extension_by_receiver
        .get("String")
        .unwrap()
        .iter()
        .map(|e| e.name.as_str())
        .collect();
    assert_eq!(names, vec!["whisper"]);
}

#[test]
fn source_sets_of_uris() {
    assert!(is_test_source_set("file:///p/src/test/java/A.kt"));
    assert!(is_test_source_set("file:///p/src/androidTest/java/A.kt"));
    assert!(!is_test_source_set("file:///p/src/main/java/A.kt"));
    assert_eq!(
        classify_source_set("file:///p/src/main/java/A.kt", &vec![]),
        SourceSet::Main
    );
    assert_eq!(
        classify_source_set("file:///p/src/test/java/A.kt", &vec![]),
        SourceSet::Test
    );
}

#[test]
fn source_paths_below_the_workspace() {
    let raw = vec!["lib".to_string(), "/abs/src".to_string()];
    let paths = resolve_source_paths(&raw, "/ws");
    assert_eq!(paths, vec!["/ws/lib", "/abs/src"]);
}

#[test]
fn content_hashes() {
    assert_eq!(hash_str(""), 0xcbf29ce484222325);
    assert_eq!(hash_str("a"), 0xaf63dc4c8601ec8c);
    assert_ne!(hash_str("class A"), hash_str("class B"));
}

#[test]
fn stems_and_dots() {
    assert_eq!(file_stem_from_uri("file:///a/b/Foo.kt").as_deref(), Some("Foo"));
    assert_eq!(join_dot("a.b", "C"), "a.b.C");
}

#[test]
fn qualified_keys_of_members() {
    let data = parsed("", Some("p"), vec![class("A", 0)], &[]);
    let keys: Vec<String> = build_qualified_keys(&data, Some("Stem")).into_iter().map(|k| k.0).collect();
    assert_eq!(keys, vec!["p.A", "p.Stem.A"]);
}

#[test]
fn supertypes_by_line() {
    let data = parsed("", None, vec![class("A", 3)], &[(3, "B"), (4, "C")]);
    let supers = derive_supertypes("file:///A.kt", &data);
    assert_eq!(supers.len(), 1);
    assert_eq!(supers[0].0, "B");
    assert_eq!(supers[0].1.range, span(3, 0, 1));
}

#[test]
fn private_symbols_of_libraries_are_dropped() {
    let hidden = SymbolEntry { visibility: Visibility::Private, ..class("Hidden", 0) };
    let data = parsed("", None, vec![class("Shown", 0), hidden], &[]);
    let result = Indexer::parse_file("file:///lib/A.kt", "x", data);
    let kept = strip_library_private_symbols(vec![result], &vec!["file:///lib/A.kt".to_string()]);
    let names: Vec<_> = kept[0].data.symbols.iter().map(|s| s.name.as_str()).collect();
    assert_eq!(names, vec!["Shown"]);
}

#[test]
fn libraries_are_entered_in_one_go() {
    let data = parsed("class A : B", Some("p"), vec![class("A", 0)], &[(0, "B")]);
    let entry = FileCacheEntry {
        mtime_secs: 1,
        file_size: 2,
        content_hash: 3,
        file_data: data,
        qualified_keys: vec![("p.A".to_string(), span(0, 0, 1))],
    };
    let mut batch = LibraryBatch::with_capacity(1);
    batch.collect_entry("file:///lib/A.kt", "/lib/A.kt", &entry, "/ws");
    let mut idx = Indexer::new();
    batch.flush_into(&mut idx);
    assert!(idx.library_uris.contains_key("file:///lib/A.kt"));
    assert_eq!(idx.definitions.get("A").unwrap().len(), 1);
    assert!(idx.qualified.contains_key("p.A"));
    assert_eq!(idx.subtypes.get("B").unwrap().len(), 1);
    assert_eq!(idx.content_hashes.get("file:///lib/A.kt"), Some(&3));
}

#[test]
fn cached_hashes_are_kept() {
    let entry = FileCacheEntry {
        mtime_secs: 0,
        file_size: 0,
        content_hash: 7,
        file_data: FileData::default(),
        qualified_keys: vec![],
    };
    assert_eq!(cache_entry_to_file_result("file:///A.kt", &entry).content_hash, 7);
}

#[test]
fn names_can_be_imported_from_every_package() {
    let mut idx = Indexer::new();
    let pkg = |p| Some(p);
    enter(&mut idx, &uri("/a/A.kt"), "package a\nclass A", pkg("a"), vec![class("A", 1)], &[]);
    enter(&mut idx, &uri("/b/A.kt"), "package b\nclass A", pkg("b"), vec![class("A", 1)], &[]);
    idx.ensure_bare_names_fresh();
    idx.rebuild_importable_fqns();
    let fqns = idx.importable_fqns.get("A").unwrap();
    assert!(fqns.contains(&"a.A".to_string()));
    assert!(fqns.contains(&"b.A".to_string()));
    assert_eq!(idx.bare_name_cache, vec!["A"]);
}

#[test]
fn hierarchies_end_where_classes_meet_again() {
    let mut idx = Indexer::new();
    let (a, b) = (uri("/A.kt"), uri("/B.kt"));
    enter(&mut idx, &a, "class A : B", None, vec![class("A", 0)], &[(0, "B")]);
    enter(&mut idx, &b, "class B : A", None, vec![class("B", 0)], &[(0, "A")]);
    let line: Vec<_> = walk_class_hierarchy(&idx, &a, "A", 0)
        .into_iter()
        .map(|c| c.name)
        .collect();
    assert_eq!(line, vec!["B", "A"]);
}

#[test]
fn hierarchies_carry_type_arguments() {
    let mut idx = Indexer::new();
    let (a, b) = (uri("/A.kt"), uri("/B.kt"));
    let mut data = parsed("class A : B<String>", None, vec![class("A", 0)], &[]);
    data.supers.push((0, "B".to_string(), vec!["String".to_string()]));
    idx.index_content(&a, "class A : B<String>", data, None);
    let generic = SymbolEntry { type_params: vec!["T".to_string()], ..class("B", 0) };
    enter(&mut idx, &b, "class B<T>", None, vec![generic], &[]);
    let line = walk_class_hierarchy(&idx, &a, "A", 0);
    assert_eq!(line.len(), 2);
    assert_eq!(line[0].name, "B");
    assert_eq!(line[0].substitution, vec![("T".to_string(), "String".to_string())]);
}
