//! Compiled libraries, and libraries that come with sources.
use kmp_index::contributions::file_contributions;
use kmp_index::gradle::{
    gradle_cache_root, is_library_file, is_library_name, is_older, is_sources_jar,
    parse_jar_meta, scan_gradle_jars, scan_gradle_jars_split, scan_gradle_sources_jars,
    version_key, VersionPart,
};
use kmp_index::index::Indexer;
use kmp_index::jar::{jar_file_data, kind_str_to_lsp, params_from_detail, SidecarSymbol};
use kmp_index::jar_cache::{keep_read, known_symbols, JarCacheEntry};
use kmp_index::jar_index::missed_jars;
use kmp_index::sources_jar::{
    parse_jar_entries, parse_missed_sources_jars, partition_sources_jars, sources_cache_dirty,
    sources_entry_uri, JarFingerprint, ParsedJarEntries, SourcesJarEntry,
};
use kmp_index::table::Table;
use kmp_index::types::{
    FileData, FileIndexResult, ImportEntry, Location, Range, SourceSet, SymbolEntry, SymbolKind,
    Visibility,
};

fn names(list: &[&str]) -> Vec<String> {
    list.iter().map(|s| s.to_string()).collect()
}

fn jar_symbol(name: &str, container: &str, pkg: &str, top_level: bool) -> SidecarSymbol {
    SidecarSymbol {
        name: name.into(),
        kind: "fun".into(),
        container: container.into(),
        detail: format!("fun {name}()"),
        doc: String::new(),
        type_params: vec![],
        extension_receiver_type: String::new(),
        trailing_lambda: false,
        deprecated: false,
        pkg: pkg.into(),
        top_level,
        supers: vec![],
    }
}

fn class(name: &str) -> SymbolEntry {
    SymbolEntry {
        name: name.to_string(),
        kind: SymbolKind::Class,
        visibility: Visibility::Public,
        range: Range::default(),
        selection_range: Range::default(),
        detail: String::new(),
        container: None,
        params: String::new(),
        param_counts: (0, 0),
        type_params: vec![],
        extension_receiver: String::new(),
        extension_receiver_type: String::new(),
        doc: String::new(),
        trailing_lambda: false,
        deprecated: false,
        nullable: false,
    }
}

#[test]
fn jar_symbol_resolved_via_import() {
    let jar_uri = "jar:file:///lib/lifecycle-viewmodel.jar!/".to_string();
    let caller_uri = "file:///test/workspace/src/main/kotlin/MyViewModel.kt";
    let mut idx = Indexer::new();
    let at = || Location { uri: jar_uri.clone(), range: Range::default() };
    idx.qualified.insert("androidx.lifecycle.ViewModel", at());
    idx.jar_definitions.insert("ViewModel", vec![at()]);
    let viewmodel = SymbolEntry {
        detail: "class androidx.lifecycle.ViewModel".into(),
        doc: "A ViewModel class".into(),
        ..class("ViewModel")
    };
    idx.jar_files.insert(
        &jar_uri,
        FileData {
            symbols: vec![viewmodel],
            source_set: SourceSet::Library,
            package: Some("androidx.lifecycle".into()),
            ..FileData::default()
        },
    );
    let content = "package com.example\nimport androidx.lifecycle.ViewModel\n\nclass MyViewModel : ViewModel() {\n}\n";
    let data = FileData {
        symbols: vec![class("MyViewModel")],
        package: Some("com.example".into()),
        imports: vec![ImportEntry {
            full_path: "androidx.lifecycle.ViewModel".into(),
            local_name: "ViewModel".into(),
            is_star: false,
        }],
        lines: content.lines().map(String::from).collect(),
        ..FileData::default()
    };
    idx.index_content(caller_uri, content, data, None);
    let locs = idx.resolve_symbol_no_rg("ViewModel", caller_uri);
    assert!(!locs.is_empty(), "ViewModel imported from JAR must resolve");
    assert_eq!(locs[0].uri, jar_uri, "Resolved URI must be the JAR URI");
}

#[test]
fn jar_declaration_scope_returns_package_for_top_level_symbol() {
    let mut idx = Indexer::new();
    idx.populate_from_symbols(
        "/fake/runtime.jar",
        &vec![jar_symbol("remember", "ComposablesKt", "androidx.compose.runtime", true)],
    );
    assert_eq!(
        idx.jar_declaration_scope("remember"),
        Some(("androidx.compose.runtime".to_string(), None)),
        "top-level JAR fun must report its package with no container"
    );
    assert!(
        idx.jar_declaration_scope("notAJarSymbol").is_none(),
        "workspace-only / unknown names must return None"
    );
}

#[test]
fn jar_declaration_scope_returns_container_for_member_symbol() {
    let mut idx = Indexer::new();
    idx.populate_from_symbols(
        "/fake/ui.jar",
        &vec![jar_symbol("padding", "Modifier", "androidx.compose.ui", false)],
    );
    assert_eq!(
        idx.jar_declaration_scope("padding"),
        Some((
            "androidx.compose.ui".to_string(),
            Some("Modifier".to_string())
        )),
        "member JAR fun must report its package and declaring container"
    );
}

// Compiled libraries

#[test]
fn libraries_are_entered_and_replaced() {
    let mut idx = Indexer::new();
    let path = "/fake/ui.jar";
    let n = idx.populate_from_symbols(
        path,
        &vec![jar_symbol("padding", "Modifier", "p", false), jar_symbol("size", "", "p", true)],
    );
    assert_eq!(n, 2);
    let uri = "jar:file:///fake/ui.jar";
    assert_eq!(idx.jar_definitions.get("padding").unwrap()[0].uri, uri);
    assert!(idx.qualified.contains_key("p.Modifier.padding"));
    assert!(idx.qualified.contains_key("p.size"));
    assert_eq!(idx.jar_uri_to_defs.get(uri).unwrap(), &names(&["padding", "size"]));
    idx.populate_from_symbols(path, &vec![jar_symbol("size", "", "p", true)]);
    assert!(!idx.jar_definitions.contains_key("padding"));
    assert_eq!(idx.jar_definitions.get("size").unwrap().len(), 1);
    assert_eq!(idx.jar_files.get(uri).unwrap().symbols.len(), 1);
}

#[test]
fn kinds_of_reported_symbols() {
    assert_eq!(kind_str_to_lsp("class"), SymbolKind::Class);
    assert_eq!(kind_str_to_lsp("interface"), SymbolKind::Interface);
    assert_eq!(kind_str_to_lsp("object"), SymbolKind::Object);
    assert_eq!(kind_str_to_lsp("fun"), SymbolKind::Function);
    assert_eq!(kind_str_to_lsp("val"), SymbolKind::Property);
    assert_eq!(kind_str_to_lsp("var"), SymbolKind::Variable);
    assert_eq!(kind_str_to_lsp("?"), SymbolKind::Null);
}

#[test]
fn parameters_of_reported_symbols() {
    assert_eq!(
        params_from_detail("fun f(a: Int, b: Map<K, V> = x)"),
        ("a: Int, b: Map<K, V> = x".to_string(), (1, 2))
    );
    assert_eq!(params_from_detail("fun f()"), (String::new(), (0, 0)));
    assert_eq!(
        params_from_detail("fun WindowInsets(left: Int, top: Int = 0): WindowInsets"),
        ("left: Int, top: Int = 0".to_string(), (1, 2))
    );
    assert_eq!(
        params_from_detail("fun com.example.Repository.loadData(path: String): Any"),
        ("path: String".to_string(), (1, 1))
    );
    assert_eq!(
        params_from_detail("fun run(block: () -> Unit, times: Int = 1)"),
        ("block: () -> Unit, times: Int = 1".to_string(), (1, 2))
    );
}

#[test]
fn parameters_follow_the_declared_name() {
    let none = (String::new(), (0, 0));
    assert_eq!(params_from_detail("val onClick: (Int) -> Unit"), none);
    assert_eq!(params_from_detail("var size: Size = Size(1, 2)"), none);
    assert_eq!(params_from_detail("typealias Handler = (Int) -> Unit"), none);
    assert_eq!(params_from_detail("object Main : Base(1)"), none);
    assert_eq!(params_from_detail("class androidx.lifecycle.ViewModel"), none);
    assert_eq!(
        params_from_detail("fun (() -> Unit).run(times: Int)"),
        ("times: Int".to_string(), (1, 1))
    );
    assert_eq!(
        params_from_detail("fun <T>(() -> T).again(times: Int, last: T)"),
        ("times: Int, last: T".to_string(), (2, 2))
    );
    assert_eq!(
        params_from_detail("fun <K, V> Map<K, (V) -> Unit>.each(key: K): Unit"),
        ("key: K".to_string(), (1, 1))
    );
    assert_eq!(
        params_from_detail("class Box<T : (Int) -> Unit>(val value: T)"),
        ("val value: T".to_string(), (1, 1))
    );
    assert_eq!(params_from_detail("fun f (x: Int)"), ("x: Int".to_string(), (1, 1)));
    assert_eq!(params_from_detail("fun f <T> (x: T)"), ("x: T".to_string(), (1, 1)));
    assert_eq!(params_from_detail("class Box (val value: Int)").0, "val value: Int");
    assert_eq!(params_from_detail("val (() -> Unit).size (Int)"), none);
    assert_eq!(params_from_detail("val x by lazy(mode)"), none);
    assert_eq!(
        params_from_detail("fun `a (b)`(x: Int)"),
        ("x: Int".to_string(), (1, 1))
    );
}

#[test]
fn symbols_stand_on_lines_of_their_own() {
    let data = jar_file_data(&vec![jar_symbol("a", "", "p", true), jar_symbol("b", "", "p", true)]);
    assert_eq!(data.source_set, SourceSet::Library);
    assert_eq!(data.lines, names(&["fun a()", "fun b()"]));
    assert_eq!(data.symbols[1].selection_range.start.line, 1);
}

#[test]
fn libraries_without_an_answer_stay_out() {
    let paths = names(&["/a.jar", "/b.jar"]);
    let known = vec![Some(vec![jar_symbol("a", "", "p", true)]), None];
    assert_eq!(missed_jars(&paths, &known), vec!["/b.jar"]);
    let mut idx = Indexer::new();
    assert_eq!(idx.index_jars(&paths, &known, &None), 1);
    assert!(idx.jar_definitions.contains_key("a"));
    let answers = Some(vec![vec![jar_symbol("b", "", "p", true)]]);
    assert_eq!(idx.index_jars(&paths, &known, &answers), 2);
    assert!(idx.jar_definitions.contains_key("b"));
}

// Gradle's cache

#[test]
fn indexing_libraries_replaces_those_from_before() {
    let mut idx = Indexer::new();
    let first = vec![Some(vec![jar_symbol("a", "", "p", true)])];
    assert_eq!(idx.index_jars(&names(&["/a.jar"]), &first, &None), 1);
    let second = vec![Some(vec![jar_symbol("b", "", "p", true)])];
    assert_eq!(idx.index_jars(&names(&["/b.jar"]), &second, &None), 1);
    assert!(!idx.jar_definitions.contains_key("a"));
    assert_eq!(idx.jar_files.len(), 1);
    assert_eq!(idx.index_jars(&vec![], &vec![], &None), 0);
    assert!(idx.jar_definitions.contains_key("b"));
}

#[test]
fn read_symbols_are_kept_until_a_library_changes() {
    let mut cache: Table<JarCacheEntry> = Table::new();
    let jars = vec![
        ("/a.jar".to_string(), Some(print_of(1))),
        ("/b.jar".to_string(), None),
    ];
    assert_eq!(known_symbols(&cache, &jars), vec![None, None]);
    let read = vec![
        vec![jar_symbol("a", "", "p", true)],
        vec![jar_symbol("b", "", "p", true)],
    ];
    assert!(keep_read(&mut cache, &jars, &read));
    let known = known_symbols(&cache, &jars);
    assert_eq!(known, vec![Some(vec![jar_symbol("a", "", "p", true)]), None]);
    let later = vec![("/a.jar".to_string(), Some(print_of(2)))];
    assert_eq!(known_symbols(&cache, &later), vec![None]);
    let unknown = vec![("/a.jar".to_string(), None)];
    assert_eq!(known_symbols(&cache, &unknown), vec![None]);
    assert!(!keep_read(&mut cache, &unknown, &read));
    assert!(!keep_read(&mut cache, &jars, &vec![]));
}

#[test]
fn the_directory_of_downloaded_libraries() {
    let set = gradle_cache_root(Some("/g"), "/home/u/.gradle");
    assert!(set.starts_with("/g/caches"), "{set}");
    let unset = gradle_cache_root(None, "/home/u/.gradle");
    assert!(unset.starts_with("/home/u/.gradle/caches"), "{unset}");
}

#[test]
fn names_of_libraries() {
    assert!(is_library_name("a-1.0.jar"));
    assert!(is_library_name("a-1.0.aar"));
    assert!(!is_library_name("a-1.0.pom"));
    assert!(is_sources_jar("/x/a-1.0-sources.jar"));
    assert!(!is_sources_jar("/x/a-1.0.jar"));
}

#[test]
fn versions_are_compared_by_numbers() {
    assert_eq!(version_key("1.10").len(), 2);
    assert!(matches!(version_key("1.10")[1], VersionPart::Number(10)));
    assert!(is_older(&version_key("1.9"), &version_key("1.10")));
    assert!(!is_older(&version_key("1.10"), &version_key("1.9")));
    assert!(!is_older(&version_key("1.10"), &version_key("1.10")));
}

fn cached(group: &str, artifact: &str, version: &str, suffix: &str) -> String {
    format!("/g/caches/modules-2/files-2.1/{group}/{artifact}/{version}/abc/{artifact}-{version}{suffix}.jar")
}

#[test]
fn where_a_library_lies() {
    let path = cached("com.x", "lib", "1.2", "");
    let meta = parse_jar_meta(&path).unwrap();
    assert_eq!(meta.group, "com.x");
    assert_eq!(meta.artifact, "lib");
    assert_eq!(meta.path, path);
    assert!(parse_jar_meta("lib.jar").is_none());
}

#[test]
fn the_newest_of_each_library_counts() {
    let old = cached("com.x", "lib", "1.9", "");
    let new = cached("com.x", "lib", "1.10", "");
    let other = cached("com.y", "lib", "1.0", "");
    let sources = cached("com.x", "lib", "1.10", "-sources");
    let all = vec![old, new.clone(), other.clone(), sources.clone()];
    let (jars, with_sources) = scan_gradle_jars_split(&all);
    assert_eq!(jars, vec![new.clone(), other.clone()]);
    assert_eq!(with_sources, vec![sources.clone()]);
    assert_eq!(scan_gradle_jars(&all), vec![new, other]);
    assert_eq!(scan_gradle_sources_jars(&all), vec![sources]);
}

#[test]
fn documentation_is_no_library() {
    let docs = cached("com.x", "lib", "2.0", "-javadoc");
    let sources = cached("com.x", "lib", "1.0", "-sources");
    let pom = cached("com.x", "lib", "2.0", "").replace(".jar", ".pom");
    let (jars, with_sources) = scan_gradle_jars_split(&vec![docs.clone(), sources.clone(), pom]);
    assert!(jars.is_empty());
    assert_eq!(with_sources, vec![sources.clone()]);
    assert!(is_library_file(&sources));
    assert!(!is_library_file(&docs));
}

// Libraries with sources

fn print_of(n: u64) -> JarFingerprint {
    JarFingerprint { mtime_secs: n, mtime_nanos: 0, file_size: n }
}

fn result(uri: &str, name: &str) -> FileIndexResult {
    let data = FileData { symbols: vec![class(name)], ..FileData::default() };
    Indexer::parse_file(uri, "class", data)
}

#[test]
fn sources_are_kept_until_they_change() {
    let path = "/x/a-sources.jar";
    let mut cache: Table<SourcesJarEntry> = Table::new();
    let sources = vec![(path.to_string(), Some(print_of(1)))];
    let partition = partition_sources_jars(&cache, &sources);
    assert_eq!(partition.missed.len(), 1);
    assert!(sources_cache_dirty(false, &partition));
    let uri = sources_entry_uri(path, "p/A.kt").unwrap();
    let parsed = vec![Some(ParsedJarEntries { results: vec![result(&uri, "A")], complete: true })];
    let mut idx = Indexer::new();
    assert_eq!(idx.index_sources_jars(&mut cache, partition, &parsed), 1);
    assert!(idx.definitions.contains_key("A"));
    assert!(idx.library_uris.contains_key(&uri));
    let again = partition_sources_jars(&cache, &sources);
    assert_eq!(again.cache_hits, 1);
    assert!(again.missed.is_empty());
    assert_eq!(again.contributions.len(), 1);
    assert!(!sources_cache_dirty(false, &again));
    let changed = vec![(path.to_string(), Some(print_of(2)))];
    assert_eq!(partition_sources_jars(&cache, &changed).missed.len(), 1);
}

#[test]
fn sources_entered_twice_count_once() {
    let path = "/x/a-sources.jar";
    let a = sources_entry_uri(path, "p/A.kt").unwrap();
    let b = sources_entry_uri(path, "p/B.kt").unwrap();
    let of = |uri: &str| {
        let data = FileData {
            symbols: vec![
                class("Same"),
                SymbolEntry { extension_receiver: "Int".to_string(), ..class("twice") },
            ],
            package: Some("p".to_string()),
            ..FileData::default()
        };
        file_contributions(&Indexer::parse_file(uri, "class", data))
    };
    let mut idx = Indexer::new();
    idx.index_content("file:///w/C.kt", "class", FileData {
        symbols: vec![class("Same")],
        ..FileData::default()
    }, None);
    for _ in 0..2 {
        let epoch = idx.completion_epoch;
        assert_eq!(idx.apply_sources_contributions(vec![of(&a), of(&b)]), 4);
        assert_eq!(idx.definitions.get("Same").unwrap().len(), 3);
        assert_eq!(idx.definitions.get("twice").unwrap().len(), 2);
        assert_eq!(idx.packages.get("p").unwrap(), &vec![a.clone(), b.clone()]);
        assert_eq!(idx.extension_by_receiver.get("Int").unwrap().len(), 2);
        assert_eq!(idx.qualified.get("p.Same").unwrap().uri, b);
        assert_eq!(idx.library_uris.len(), 2);
        assert_eq!(idx.files.len(), 3);
        assert!(idx.bare_names_dirty);
        assert_eq!(idx.completion_epoch, epoch + 1);
    }
}

#[test]
fn what_is_left_of_a_file_goes_the_second_time() {
    let uri = sources_entry_uri("/x/a-sources.jar", "p/A.kt").unwrap();
    let mut idx = Indexer::new();
    let stale = Location { uri: uri.clone(), range: Range::default() };
    idx.definitions.insert("A", vec![stale]);
    let added = || vec![file_contributions(&result(&uri, "A"))];
    idx.apply_sources_contributions(added());
    assert_eq!(idx.definitions.get("A").unwrap().len(), 2);
    for _ in 0..2 {
        idx.apply_sources_contributions(added());
        assert_eq!(idx.definitions.get("A").unwrap().len(), 1);
    }
}

#[test]
fn sources_that_were_not_all_read_are_not_kept() {
    let path = "/x/a-sources.jar";
    let mut cache: Table<SourcesJarEntry> = Table::new();
    let missed = vec![(path.to_string(), print_of(1))];
    let uri = sources_entry_uri(path, "p/A.kt").unwrap();
    let parsed = vec![Some(ParsedJarEntries { results: vec![result(&uri, "A")], complete: false })];
    let added = parse_missed_sources_jars(&mut cache, &missed, &parsed);
    assert_eq!(added.len(), 1);
    assert!(!cache.contains_key(path));
}

#[test]
fn chunks_of_entries_are_gathered() {
    let good = result("file:///a/A.kt", "A");
    let bad = FileIndexResult { error: Some("no".to_string()), ..result("file:///a/B.kt", "B") };
    let whole = parse_jar_entries(vec![Some(vec![good, bad])]);
    assert!(whole.complete);
    assert_eq!(whole.results.len(), 1);
    let broken = parse_jar_entries(vec![None, Some(vec![result("file:///a/A.kt", "A")])]);
    assert!(!broken.complete);
}

#[test]
fn addresses_of_entries() {
    let uri = sources_entry_uri("/x/a-sources.jar", "p/A.kt").unwrap();
    assert!(uri.starts_with("jar:"), "{uri}");
    assert!(uri.ends_with("p/A.kt"), "{uri}");
}
