//! What is kept between runs, and when it may be used.
use kmp_index::cache::{
    accept_cache, accept_manifest, library_cache_is_fresh, library_chunk, library_chunk_count,
    may_replace, sample_entries_fresh, sample_positions, sampled_chunks, sampled_paths, save_step,
    strip_library_file_data, usable_entries, FileStat, IndexCache, LibraryManifest, SaveAction,
    SaveState, CACHE_VERSION, LIBRARY_CHUNK_SIZE,
};
use kmp_index::cache_paths::{
    digest_name, digits_of, library_chunk_path, library_chunks_dir, library_manifest_path,
    status_cache_path, workspace_cache_path, xdg_cache_base,
};
use kmp_index::index::Indexer;
use kmp_index::library::{cache_entry_to_file_result, FileCacheEntry};
use kmp_index::source_paths::{
    index_source_paths, plan_scan, try_cache_hit, uris_of_paths, SourceAction, SourceEvent,
    SourcePathScan, SourceState,
};
use kmp_index::table::Table;
use kmp_index::types::{FileData, Range, SymbolEntry, SymbolKind, Visibility};

fn uri(path: &str) -> String {
    format!("file:///test{path}")
}

fn class(name: &str) -> SymbolEntry {
    SymbolEntry {
        name: name.to_string(),
        kind: SymbolKind::Class,
        visibility: Visibility::Public,
        range: Range::default(),
        selection_range: Range::default(),
        detail: String::new(),
        container: None,
        params: String::new(),
        param_counts: (0, 0),
        type_params: vec![],
        extension_receiver: String::new(),
        extension_receiver_type: String::new(),
        doc: String::new(),
        trailing_lambda: false,
        deprecated: false,
        nullable: false,
    }
}

fn entry_of(data: FileData, content_hash: u64) -> FileCacheEntry {
    FileCacheEntry {
        mtime_secs: 0,
        file_size: 0,
        content_hash,
        file_data: data,
        qualified_keys: vec![],
    }
}

fn dummy() -> FileCacheEntry {
    entry_of(FileData::default(), 0)
}

fn chunk_of(keys: &[&str]) -> IndexCache {
    let mut entries: Table<FileCacheEntry> = Table::new();
    for k in keys {
        entries.insert(k, dummy());
    }
    IndexCache {
        version: CACHE_VERSION,
        complete_scan: true,
        entries,
        layouts: Table::new(),
        generated_bindings: Table::new(),
    }
}

#[test]
fn cache_entry_to_file_result_supertypes_extracted() {
    let u = uri("/Cat.kt");
    let mut data = FileData {
        lines: vec![
            "class Cat : IAnimal {".into(),
            "    fun meow() {}".into(),
            "}".into(),
        ],
        ..FileData::default()
    };
    data.symbols.push(class("Cat"));
    data.supers.push((0, "IAnimal".into(), vec![]));
    let entry = FileCacheEntry { mtime_secs: 100, ..entry_of(data, 42) };
    let result = cache_entry_to_file_result(&u, &entry);
    let super_names: Vec<&str> = result.supertypes.iter().map(|(n, _)| n.as_str()).collect();
    assert!(
        super_names.contains(&"IAnimal"),
        "IAnimal missing from supertypes: {super_names:?}",
    );
}

#[test]
fn cache_entry_to_file_result_preserves_hash() {
    let u = uri("/Foo.kt");
    let mut data = FileData { lines: vec!["class Foo".into()], ..FileData::default() };
    data.symbols.push(class("Foo"));
    let result = cache_entry_to_file_result(&u, &entry_of(data, 0xdeadbeef));
    assert_eq!(result.content_hash, 0xdeadbeef);
}

#[test]
fn workspace_cache_path_stable() {
    let p1 = workspace_cache_path("/tmp/x", "/tmp/x/my_project");
    let p2 = workspace_cache_path("/tmp/x", "/tmp/x/my_project");
    assert_eq!(p1, p2);
}

#[test]
fn workspace_cache_path_differs_for_different_roots() {
    let p1 = workspace_cache_path("/tmp/x", "/tmp/x/project_a");
    let p2 = workspace_cache_path("/tmp/x", "/tmp/x/project_b");
    assert_ne!(p1, p2);
}

fn indexed_at(path: &str, name: &str) -> Indexer {
    let mut idx = Indexer::new();
    let content = format!("package com.example\nclass {name}");
    let data = FileData {
        symbols: vec![class(name)],
        package: Some("com.example".to_string()),
        lines: content.lines().map(String::from).collect(),
        ..FileData::default()
    };
    idx.index_content(&format!("file://{path}"), &content, data, None);
    idx
}

fn stats_of(path: &str) -> Vec<FileStat> {
    vec![FileStat {
        uri: format!("file://{path}"),
        path: path.to_string(),
        mtime_secs: 5,
        file_size: 6,
    }]
}

#[test]
fn save_and_load_cache_roundtrip() {
    let path = "/tmp/ws/RoundtripClass.kt";
    let idx = indexed_at(path, "RoundtripClass");
    assert_eq!(idx.files_to_keep(false), vec![format!("file://{path}")]);
    let cache = idx.build_cache(&stats_of(path), &vec![], true);
    assert_eq!(cache.version, CACHE_VERSION);
    assert!(cache.complete_scan);
    assert!(cache.is_usable());
    let entry = cache.entries.get(path).expect("entry should be present");
    assert!(entry.file_data.symbols.iter().any(|s| s.name == "RoundtripClass"));
    assert_eq!((entry.mtime_secs, entry.file_size), (5, 6));
}

#[test]
fn a_kept_cache_is_accepted() {
    let path = "/tmp/ws/Kept.kt";
    let mut idx = indexed_at(path, "Kept");
    idx.library_uris.insert("file:///lib/L.kt", ());
    idx.files.insert("file:///lib/L.kt", FileData::default());
    let mut stats = stats_of(path);
    stats.push(FileStat {
        uri: "file:///lib/L.kt".to_string(),
        path: "/lib/L.kt".to_string(),
        mtime_secs: 1,
        file_size: 1,
    });
    let cache = accept_cache(idx.build_cache(&stats, &vec![], false)).unwrap();
    assert!(!cache.complete_scan);
    assert_eq!(cache.entries.len(), 1);
    assert!(cache.entries.contains_key(path));
    let older = IndexCache { version: CACHE_VERSION - 1, ..cache };
    assert!(accept_cache(older).is_none());
}

#[test]
fn a_kept_file_comes_back_as_it_was() {
    let path = "/tmp/ws/Kept.kt";
    let idx = indexed_at(path, "Kept");
    let cache = idx.build_cache(&stats_of(path), &vec![], true);
    let entry = cache.entries.get(path).unwrap();
    let result = cache_entry_to_file_result(&format!("file://{path}"), entry);
    let indexed = idx.files.get(&format!("file://{path}")).unwrap();
    assert_eq!(result.data, *indexed);
    assert_eq!(Some(&result.content_hash), idx.content_hashes.get(&format!("file://{path}")));
    let keys: Vec<&str> = entry.qualified_keys.iter().map(|k| k.0.as_str()).collect();
    assert_eq!(keys, vec!["com.example.Kept"]);
}

#[test]
fn files_to_keep_have_paths() {
    let mut idx = indexed_at("/tmp/ws/With%20Space.kt", "Spaced");
    let kept = vec![(
        "file:///tmp/ws/With%20Space.kt".to_string(),
        Some("/tmp/ws/With Space.kt".to_string()),
    )];
    assert_eq!(idx.paths_to_keep(false), kept);
    assert!(idx.paths_to_keep(true).is_empty());
    assert!(idx.layout_paths().is_empty());
    idx.files.insert("no url", FileData::default());
    assert_eq!(idx.paths_to_keep(false)[1], ("no url".to_string(), None));
}

#[test]
fn paths_and_urls_tell_the_same() {
    let path = "/home/u/.gradle/caches/lib-1.0+2/A_b.kt".to_string();
    let files = vec![path.clone(), "/tmp/B.kt".to_string(), "src/C.kt".to_string(), String::new()];
    let urls = uris_of_paths(&files);
    let plain = |p: &str| Some(format!("file://{p}"));
    assert_eq!(urls, vec![plain(&path), plain("/tmp/B.kt"), None, None]);
    let mut idx = Indexer::new();
    for url in urls.iter().flatten() {
        idx.files.insert(url, FileData::default());
    }
    let back: Vec<Option<String>> = idx.paths_to_keep(false).into_iter().map(|p| p.1).collect();
    assert_eq!(back, vec![Some(path), Some("/tmp/B.kt".to_string())]);
}

#[test]
fn entries_of_a_chunk_stand_under_their_own_urls() {
    let named = |name: &str| {
        let data = FileData { symbols: vec![class(name)], ..FileData::default() };
        entry_of(data, 1)
    };
    let chunk = || {
        vec![
            ("/lib/A.kt".to_string(), named("A")),
            ("/lib/B.kt".to_string(), named("B")),
            ("not/absolute.kt".to_string(), named("C")),
        ]
    };
    let mut idx = Indexer::new();
    idx.restore_library_chunk(&chunk(), "/ws");
    assert_eq!(idx.definitions.get("A").unwrap()[0].uri, "file:///lib/A.kt");
    assert_eq!(idx.definitions.get("B").unwrap()[0].uri, "file:///lib/B.kt");
    assert!(!idx.definitions.contains_key("C"));
    let mut whole = Indexer::new();
    let second = vec![("/lib/D.kt".to_string(), named("D"))];
    whole.restore_library_cache(&vec![chunk(), second], "/ws");
    assert_eq!(whole.files.len(), 3);
    assert_eq!(whole.definitions.get("B").unwrap()[0].uri, "file:///lib/B.kt");
    assert_eq!(whole.definitions.get("D").unwrap()[0].uri, "file:///lib/D.kt");
}

#[test]
fn ambient_save_does_not_clobber_populated_cache() {
    let path = "/tmp/ws/KeepMeClass.kt";
    let full = indexed_at(path, "KeepMeClass").build_cache(&stats_of(path), &vec![], true);
    let empty = Indexer::new().build_cache(&vec![], &vec![], true);
    assert!(empty.entries.len() < full.entries.len());
    assert!(!may_replace(Some(100), 20, false));
}

#[test]
fn authoritative_save_may_shrink_cache() {
    assert!(may_replace(Some(100), 20, true));
    assert!(may_replace(None, 20, false));
    assert!(may_replace(Some(20), 100, false));
}

#[test]
fn library_manifest_roundtrip() {
    let manifest = LibraryManifest { version: CACHE_VERSION, chunk_count: 2 };
    assert_eq!(accept_manifest(&manifest, true), Some(2));
}

#[test]
fn load_library_chunk_version_mismatch_returns_none() {
    let cache = IndexCache { version: 0, ..chunk_of(&[]) };
    assert!(!cache.is_usable());
    assert!(usable_entries(cache).is_none(), "version-mismatched chunk");
    assert_eq!(usable_entries(chunk_of(&["/lib/A.kt"])).unwrap().len(), 1);
}

#[test]
fn save_library_cache_zero_files_writes_empty_manifest() {
    let idx = Indexer::new();
    let entries = idx.collect_library_entries(&vec![]);
    let count = library_chunk_count(entries.len());
    assert_eq!(count, 0, "chunk_count should be 0 for empty library");
    let manifest = LibraryManifest { version: CACHE_VERSION, chunk_count: count };
    assert_eq!(accept_manifest(&manifest, false), Some(0));
}

#[test]
fn library_manifest_version_mismatch_returns_none() {
    let manifest = LibraryManifest { version: 0, chunk_count: 1 };
    assert_eq!(accept_manifest(&manifest, true), None);
}

#[test]
fn library_manifest_absurd_chunk_count_rejected() {
    let manifest = LibraryManifest { version: CACHE_VERSION, chunk_count: u32::MAX };
    assert_eq!(accept_manifest(&manifest, true), None);
}

#[test]
fn library_manifest_missing_chunk0_rejected() {
    let manifest = LibraryManifest { version: CACHE_VERSION, chunk_count: 2 };
    assert_eq!(accept_manifest(&manifest, false), None);
}

#[test]
fn library_cache_is_fresh_empty_cache() {
    let none: Table<FileCacheEntry> = Table::new();
    let samples = vec![sample_entries_fresh(&none, 50, &vec![])];
    assert!(library_cache_is_fresh(Some(10), &vec![Some(5)], &samples));
}

// Freshness

#[test]
fn a_changed_directory_makes_a_cache_stale() {
    assert!(!library_cache_is_fresh(Some(10), &vec![Some(11)], &vec![true]));
    assert!(!library_cache_is_fresh(Some(10), &vec![Some(5)], &vec![false]));
    assert!(!library_cache_is_fresh(None, &vec![], &vec![]));
}

#[test]
fn samples_are_compared_with_the_files() {
    let mut chunk: Table<FileCacheEntry> = Table::new();
    chunk.insert("/a.kt", FileCacheEntry { mtime_secs: 3, file_size: 4, ..dummy() });
    assert_eq!(sampled_paths(&chunk, 50), vec!["/a.kt"]);
    assert!(sample_entries_fresh(&chunk, 50, &vec![Some((Some(3), 4))]));
    assert!(!sample_entries_fresh(&chunk, 50, &vec![Some((Some(9), 4))]));
    assert!(!sample_entries_fresh(&chunk, 50, &vec![None]));
}

#[test]
fn samples_are_spread() {
    assert_eq!(sample_positions(0, 5).len(), 0);
    assert_eq!(sample_positions(3, 5), vec![0, 1, 2]);
    assert!(sample_positions(100, 5).len() >= 5);
    assert_eq!(sampled_chunks(1), vec![(0, 128)]);
    assert_eq!(sampled_chunks(2), vec![(0, 128), (1, 128)]);
    assert_eq!(sampled_chunks(3), vec![(0, 128), (2, 64), (1, 64)]);
    assert_eq!(sampled_chunks(9), vec![(0, 128), (8, 64), (4, 64)]);
    for chunks in 0..12 {
        let entries: usize = sampled_chunks(chunks).iter().map(|(_, limit)| limit).sum();
        assert!(entries <= 256, "{chunks} chunks");
    }
}

// Chunks

#[test]
fn chunks_hold_all_entries() {
    let entries: Vec<(String, FileCacheEntry)> = (0..LIBRARY_CHUNK_SIZE + 1)
        .map(|i| (format!("/lib/F{i}.kt"), dummy()))
        .collect();
    assert_eq!(library_chunk_count(entries.len()), 2);
    assert_eq!(library_chunk(&entries, 0).entries.len(), LIBRARY_CHUNK_SIZE);
    assert_eq!(library_chunk(&entries, 1).entries.len(), 1);
}

#[test]
fn library_files_lose_their_text() {
    let data = FileData { lines: vec!["class A".to_string()], ..FileData::default() };
    assert!(strip_library_file_data(&data).lines.is_empty());
}

#[test]
fn only_library_files_go_into_the_library_cache() {
    let mut idx = indexed_at("/lib/A.kt", "A");
    idx.library_uris.insert("file:///lib/A.kt", ());
    assert!(idx.files_to_keep(false).is_empty());
    assert_eq!(idx.files_to_keep(true), vec!["file:///lib/A.kt"]);
    let entries = idx.collect_library_entries(&stats_of("/lib/A.kt"));
    assert_eq!(entries[0].0, "/lib/A.kt");
}

#[test]
fn the_manifest_is_written_last() {
    let (s, a) = save_step(SaveState::Start, 2, true);
    assert!(matches!(a, SaveAction::RemoveManifest));
    let (s, a) = save_step(s, 2, true);
    assert!(matches!(a, SaveAction::WriteChunk(0)));
    let (s, a) = save_step(s, 2, true);
    assert!(matches!(a, SaveAction::WriteChunk(1)));
    let (s, a) = save_step(s, 2, true);
    assert!(matches!(a, SaveAction::WriteManifest(ref m) if m.chunk_count == 2));
    let (s, a) = save_step(s, 2, true);
    assert!(matches!(a, SaveAction::Stop));
    assert!(matches!(s, SaveState::Saved));
}

#[test]
fn a_chunk_that_cannot_be_written_stops_the_save() {
    let (s, _) = save_step(SaveState::Start, 2, true);
    let (s, _) = save_step(s, 2, true);
    let (s, a) = save_step(s, 2, false);
    assert!(matches!(a, SaveAction::Stop));
    assert!(matches!(s, SaveState::Failed));
}

// Paths

#[test]
fn cache_directories() {
    assert_eq!(xdg_cache_base(Some("/cache"), Some("/home/u")), "/cache");
    assert_eq!(xdg_cache_base(None, Some("/home/u")), "/home/u/.cache");
    assert!(status_cache_path("/cache").starts_with("/cache/"));
}

#[test]
fn digests_are_written_in_hexadecimal() {
    assert_eq!(digest_name(&vec![0x00, 0x0f, 0xa5, 0xff, 0x10, 1, 2, 3, 4]), "000fa5ff10010203");
}

#[test]
fn digests_of_roots() {
    let p = workspace_cache_path("/cache", "/project");
    assert!(p.contains("ea0135bca5e3bd81"), "{p}");
    assert_ne!(p, workspace_cache_path("/cache", "/projects"));
}

#[test]
fn the_order_of_source_paths_does_not_matter() {
    let ab = vec!["/a".to_string(), "/b".to_string()];
    let ba = vec!["/b".to_string(), "/a".to_string()];
    assert_eq!(library_chunks_dir("/c", &ab), library_chunks_dir("/c", &ba));
    assert_ne!(
        library_chunks_dir("/c", &ab),
        library_chunks_dir("/c", &vec!["/a".to_string()])
    );
}

#[test]
fn chunk_files() {
    assert_eq!(digits_of(0), "0");
    assert_eq!(digits_of(1203), "1203");
    assert_eq!(library_chunk_path("/d", 0), "/d/chunk-0000.bin");
    assert_eq!(library_chunk_path("/d", 12345), "/d/chunk-12345.bin");
    assert!(library_manifest_path("/d").starts_with("/d/manifest"));
}

// Source paths

#[test]
fn unchanged_files_come_from_the_cache() {
    let mut cache: Table<FileCacheEntry> = Table::new();
    cache.insert("/lib/A.kt", FileCacheEntry { mtime_secs: 1, file_size: 2, ..dummy() });
    assert!(try_cache_hit(Some(&cache), "/lib/A.kt", Some((Some(1), 2))).is_some());
    assert!(try_cache_hit(Some(&cache), "/lib/A.kt", Some((Some(1), 3))).is_none());
    assert!(try_cache_hit(Some(&cache), "/lib/B.kt", Some((Some(1), 2))).is_none());
    assert!(try_cache_hit(None, "/lib/A.kt", Some((Some(1), 2))).is_none());
}

#[test]
fn a_scan_parses_what_the_cache_does_not_have() {
    let mut cache: Table<FileCacheEntry> = Table::new();
    let data = FileData { symbols: vec![class("A")], ..FileData::default() };
    cache.insert("/lib/A.kt", FileCacheEntry { mtime_secs: 1, file_size: 2, ..entry_of(data, 9) });
    let files = vec!["/lib/A.kt".to_string(), "/lib/B.kt".to_string()];
    let uris = vec![Some("file:///lib/A.kt".to_string()), Some("file:///lib/B.kt".to_string())];
    let seen = vec![Some((Some(1), 2)), Some((Some(1), 2))];
    let plan = plan_scan(&files, &uris, &seen, Some(&cache), "/ws");
    assert_eq!(plan.hits.len(), 1);
    assert_eq!(plan.to_parse.len(), 1);
    let mut scan = SourcePathScan::new();
    let parsed = Indexer::parse_file(
        "file:///lib/B.kt",
        "class B",
        FileData { symbols: vec![class("B")], ..FileData::default() },
    );
    scan.take_in(plan, vec![parsed]);
    let mut idx = Indexer::new();
    idx.apply_source_path_scan(scan);
    assert!(idx.definitions.contains_key("A"));
    assert!(idx.definitions.contains_key("B"));
    assert!(idx.library_uris.contains_key("file:///lib/A.kt"));
}

#[test]
fn fresh_caches_are_restored_whole() {
    let (s, a) = index_source_paths(SourceState::Start, SourceEvent::Begin(true));
    assert!(matches!(a, SourceAction::LoadManifest));
    let (s, a) = index_source_paths(s, SourceEvent::Manifest(Some(2)));
    assert!(matches!(a, SourceAction::LoadChunk(0)));
    let (s, a) = index_source_paths(s, SourceEvent::Chunk(true));
    assert!(matches!(a, SourceAction::CheckFreshness));
    let (s, a) = index_source_paths(s, SourceEvent::Fresh(true));
    assert!(matches!(a, SourceAction::LoadChunk(1)));
    let (s, a) = index_source_paths(s, SourceEvent::Chunk(true));
    assert!(matches!(a, SourceAction::RestoreChunks(2)));
    assert!(matches!(s, SourceState::Finished));
}

#[test]
fn without_a_cache_everything_is_scanned() {
    let (s, _) = index_source_paths(SourceState::Start, SourceEvent::Begin(true));
    let (s, a) = index_source_paths(s, SourceEvent::Manifest(None));
    assert!(matches!(a, SourceAction::Scan(_)));
    let (s, a) = index_source_paths(s, SourceEvent::Scanned(true));
    assert!(matches!(a, SourceAction::ApplyScan));
    assert!(matches!(s, SourceState::Finished));
}

#[test]
fn a_scan_for_another_workspace_is_dropped() {
    let (s, _) = index_source_paths(SourceState::Start, SourceEvent::Begin(true));
    let (s, _) = index_source_paths(s, SourceEvent::Manifest(None));
    let (s, a) = index_source_paths(s, SourceEvent::Scanned(false));
    assert!(matches!(a, SourceAction::Stop));
    assert!(matches!(s, SourceState::Finished));
}
