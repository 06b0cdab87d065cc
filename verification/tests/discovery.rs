//! Which files of a workspace count.
use kmp_index::discover::{
    enters_dir, excluded_dir_names, find_layout_files, find_source_files,
    find_source_files_newer_than, find_source_files_unconstrained, has_extension,
    is_layout_xml_path, layout_search_args, lies_in_excluded_dir, newer_search_args,
    printed_paths, source_extensions, source_search_args, unconstrained_search_args,
    warm_discover_files, warm_window,
};
use kmp_index::ignore_rules::{relative_to, IgnoreMatcher};

fn names(list: &[&str]) -> Vec<String> {
    list.iter().map(|s| s.to_string()).collect()
}

/// What a walk below `root` comes by, given every file there is.
fn walk(files: &[&str], root: &str, matcher: Option<&IgnoreMatcher>) -> Vec<String> {
    files
        .iter()
        .filter(|f| {
            let inner = &f[root.len() + 1..];
            let mut dir = root.to_string();
            let parts: Vec<&str> = inner.split('/').collect();
            parts[..parts.len() - 1].iter().all(|p| {
                dir = format!("{dir}/{p}");
                enters_dir(&dir, root, matcher)
            })
        })
        .map(|f| f.to_string())
        .collect()
}

#[test]
fn ignore_matcher_bare_pattern_matches_any_depth() {
    let m = IgnoreMatcher::new(vec!["bazel-*".into()], "/workspace");
    assert!(m.matches("bazel-bin/foo.kt"));
    assert!(m.matches("sub/bazel-out/bar.kt"));
    assert!(!m.matches("src/main.kt"));
}

#[test]
fn ignore_matcher_path_pattern_matches_relative() {
    let m = IgnoreMatcher::new(vec!["third-party/**".into()], "/workspace");
    assert!(m.matches("third-party/lib/Foo.kt"));
    assert!(!m.matches("src/third-party-util.kt"));
}

#[test]
fn ignore_matcher_absolute_path_normalized() {
    let m = IgnoreMatcher::new(vec!["/workspace/bazel-bin/**".into()], "/workspace");
    assert!(m.matches("bazel-bin/foo.kt"));
    assert!(!m.matches("src/main.kt"));
}

#[test]
fn ignore_matcher_absolute_outside_root_skipped() {
    let m = IgnoreMatcher::new(vec!["/other/path/**".into()], "/workspace");
    assert!(!m.matches("src/main.kt"));
}

#[test]
fn ignore_matcher_empty_patterns() {
    let m = IgnoreMatcher::new(vec![], "/workspace");
    assert!(m.is_empty());
    assert!(!m.matches("src/main.kt"));
}

#[test]
fn patterns_that_are_no_globs_are_skipped() {
    let m = IgnoreMatcher::new(vec!["[".into(), "gen".into()], "/workspace");
    assert!(m.matches("gen/A.kt"));
    assert!(!m.matches("src/A.kt"));
}

#[test]
fn find_source_files_empty_dir() {
    let paths = find_source_files(None, &walk(&[], "/tmp/w", None), "/tmp/w", None);
    assert!(paths.is_empty(), "expected no files in empty dir, got: {paths:?}");
}

#[test]
fn find_source_files_finds_kt() {
    let walked = walk(&["/tmp/w/Foo.kt", "/tmp/w/Bar.txt"], "/tmp/w", None);
    let paths = find_source_files(None, &walked, "/tmp/w", None);
    assert_eq!(paths, vec!["/tmp/w/Foo.kt"]);
}

#[test]
fn find_source_files_finds_java() {
    let walked = walk(&["/tmp/w/Hello.java"], "/tmp/w", None);
    let paths = find_source_files(None, &walked, "/tmp/w", None);
    assert_eq!(paths, vec!["/tmp/w/Hello.java"]);
}

#[test]
fn find_source_files_respects_ignore_matcher() {
    let matcher = IgnoreMatcher::new(vec!["generated/**".to_owned()], "/tmp/w");
    let walked = walk(
        &["/tmp/w/generated/Gen.kt", "/tmp/w/Keep.kt"],
        "/tmp/w",
        Some(&matcher),
    );
    let paths = find_source_files(None, &walked, "/tmp/w", Some(&matcher));
    assert_eq!(paths, vec!["/tmp/w/Keep.kt"]);
}

#[test]
fn find_source_files_unconstrained_includes_build_dir() {
    let walked = names(&["/tmp/w/build/Generated.kt"]);
    let paths = find_source_files_unconstrained(None, &walked);
    assert_eq!(paths, vec!["/tmp/w/build/Generated.kt"]);
}

#[test]
fn warm_discover_files_returns_cached_existing_files() {
    let cached = names(&["/tmp/w/Main.kt"]);
    let paths = warm_discover_files(&cached, &vec![true], "/tmp/w", None, &vec![]);
    assert_eq!(paths, vec!["/tmp/w/Main.kt"]);
}

#[test]
fn warm_discover_files_skips_deleted_files() {
    let cached = names(&["/tmp/w/Deleted.kt"]);
    let paths = warm_discover_files(&cached, &vec![false], "/tmp/w", None, &vec![]);
    assert!(paths.is_empty());
}

#[test]
fn a_warm_start_heeds_new_patterns_and_new_files() {
    let matcher = IgnoreMatcher::new(names(&["gen"]), "/ws");
    let cached = names(&["/ws/A.kt", "/ws/gen/B.kt", "/ws/C.kt"]);
    let found = warm_discover_files(
        &cached,
        &vec![true, true, false],
        "/ws",
        Some(&matcher),
        &names(&["/ws/A.kt", "/ws/D.kt"]),
    );
    assert_eq!(found, vec!["/ws/A.kt", "/ws/D.kt"]);
}

#[test]
fn find_layout_files_discovers_layout_variants() {
    let walked = walk(
        &[
            "/tmp/w/app/src/main/res/layout/foo_bar.xml",
            "/tmp/w/app/src/main/res/layout-land/foo_bar.xml",
            "/tmp/w/app/src/main/res/layouts_backup/ignored.xml",
            "/tmp/w/notes.xml",
        ],
        "/tmp/w",
        None,
    );
    let paths = find_layout_files(None, &walked, "/tmp/w", None);
    assert_eq!(
        paths,
        vec![
            "/tmp/w/app/src/main/res/layout/foo_bar.xml",
            "/tmp/w/app/src/main/res/layout-land/foo_bar.xml",
        ]
    );
}

#[test]
fn find_source_files_still_excludes_build_dir_with_layout_discovery() {
    let walked = walk(&["/tmp/w/build/generated/layout/foo.xml"], "/tmp/w", None);
    assert!(find_source_files(None, &walked, "/tmp/w", None).is_empty());
    assert!(find_layout_files(None, &walked, "/tmp/w", None).is_empty());
    let every_file = names(&[
        "/tmp/w/build/generated/layout/foo.xml",
        "/tmp/w/build/generated/res/layout/foo.xml",
        "/tmp/w/build/generated/Foo.kt",
    ]);
    assert!(find_source_files(None, &every_file, "/tmp/w", None).is_empty());
    assert!(find_layout_files(None, &every_file, "/tmp/w", None).is_empty());
}

#[test]
fn files_in_excluded_directories_do_not_count() {
    let files = names(&[
        "/build/w/A.kt",
        "/build/w/app/target/B.kt",
        "/build/w/.gradle/C.kt",
        "/build/w/Generated/D.swift",
        "/build/w/targets/E.java",
        "/build/w/build",
    ]);
    let kept = vec!["/build/w/A.kt", "/build/w/targets/E.java"];
    assert_eq!(find_source_files(None, &files, "/build/w", None), kept);
    assert_eq!(find_source_files(Some(&files.join("\n")), &vec![], "/build/w", None), kept);
    assert!(lies_in_excluded_dir("/w/a/DerivedData/b/C.swift", "/w"));
    assert!(!lies_in_excluded_dir("/w/a/C.swift", "/w"));
    assert!(!lies_in_excluded_dir("/other/build/C.swift", "/w"));
}

#[test]
fn what_the_search_tool_prints_is_held_to_the_patterns() {
    let matcher = IgnoreMatcher::new(names(&["gen"]), "/w");
    let printed = "/w/gen/A.kt\n/w/B.kt\n/w/notes.txt\n";
    assert_eq!(find_source_files(Some(printed), &vec![], "/w", Some(&matcher)), vec!["/w/B.kt"]);
    let layouts = "/w/gen/res/layout/a.xml\n/w/app/res/layout/b.xml\n/w/build/res/layout/c.xml\n";
    assert_eq!(
        find_layout_files(Some(layouts), &vec![], "/w", Some(&matcher)),
        vec!["/w/app/res/layout/b.xml"]
    );
}

#[test]
fn patterns_with_backslashes_leave_the_rest_alone() {
    let matcher = IgnoreMatcher::new(names(&["a\\b", "gen"]), "/w");
    assert!(!enters_dir("/w/build", "/w", Some(&matcher)));
    assert!(!enters_dir("/w/gen", "/w", Some(&matcher)));
    let files = names(&["/w/build/A.kt", "/w/gen/B.kt", "/w/C.kt", "/w/d.txt"]);
    assert_eq!(find_source_files(None, &files, "/w", Some(&matcher)), vec!["/w/C.kt"]);
}

#[test]
fn patterns_with_too_many_braces_match_nothing() {
    let deep = format!("{}x{}", "{".repeat(300), "}".repeat(300));
    let m = IgnoreMatcher::new(vec![deep, "{gen,out}".into()], "/w");
    assert!(!m.matches("x"));
    assert!(m.matches("out/A.kt"));
    let flat = format!("{}x", "{a,b}".repeat(300));
    let m = IgnoreMatcher::new(vec![format!("a/{flat}")], "/w");
    assert!(m.matches(&format!("a/{}x", "ab".repeat(150))));
    let classes = format!("a/{}", "[{]".repeat(300));
    let m = IgnoreMatcher::new(vec![classes], "/w");
    assert!(m.matches(&format!("a/{}", "{".repeat(300))));
    assert!(!m.matches("a/x"));
    let mixed = format!("a/{}[!]x]", "{b,c}".repeat(300));
    let m = IgnoreMatcher::new(vec![mixed], "/w");
    assert!(m.matches(&format!("a/{}y", "b".repeat(300))));
    assert!(!m.matches(&format!("a/{}]", "b".repeat(300))));
    let deep_beside_class = format!("[a]{}x{}", "{".repeat(300), "}".repeat(300));
    assert!(!IgnoreMatcher::new(vec![deep_beside_class], "/w").matches("ax"));
    let huge = format!("{}x{}", "{".repeat(100_000), "}".repeat(100_000));
    assert!(!IgnoreMatcher::new(vec![huge], "/w").matches("x"));
}

// Beyond walks

#[test]
fn what_the_search_tool_prints() {
    assert_eq!(printed_paths("/a.kt\n\n/b.kt\n"), vec!["/a.kt", "/b.kt"]);
    let found = find_source_files(Some("/w/a.kt\n"), &vec![], "/w", None);
    assert_eq!(found, vec!["/w/a.kt"]);
    let newer = find_source_files_newer_than(Some("/w/a.kt\n/w/build/b.kt\n"), "/w", None);
    assert_eq!(newer, vec!["/w/a.kt"]);
    assert!(find_source_files_newer_than(None, "/w", None).is_empty());
}

#[test]
fn what_the_search_tool_is_asked() {
    let args = source_search_args("/w", None);
    assert!(args.contains(&"kt".to_string()));
    assert!(args.contains(&"build".to_string()));
    let matcher = IgnoreMatcher::new(vec!["gen".to_string()], "/w");
    assert!(source_search_args("/w", Some(&matcher)).len() > args.len());
    assert!(unconstrained_search_args("/w").contains(&"/w".to_string()));
    assert!(layout_search_args("/w", None).contains(&"xml".to_string()));
    let newer = newer_search_args("/w", 90, None);
    assert!(newer.iter().any(|a| a.contains("90")), "{newer:?}");
}

#[test]
fn extensions() {
    assert_eq!(source_extensions(), vec!["kt", "kts", "java", "swift"]);
    assert!(has_extension("/a/B.kts", &source_extensions()));
    assert!(!has_extension("/a/B.ktx", &source_extensions()));
    assert!(excluded_dir_names().contains(&"build".to_string()));
}

#[test]
fn directories_that_are_walked() {
    assert!(enters_dir("/w/src", "/w", None));
    assert!(!enters_dir("/w/build", "/w", None));
    assert!(!enters_dir("/w/.git", "/w", None));
}

#[test]
fn layouts_lie_in_resource_directories() {
    assert!(is_layout_xml_path("/w/res/layout/a.xml"));
    assert!(is_layout_xml_path("/w/res/layout-land/a.xml"));
    assert!(!is_layout_xml_path("/w/res/layouts/a.xml"));
    assert!(!is_layout_xml_path("/w/layout/a.xml"));
    assert!(!is_layout_xml_path("/w/res/layout/a.kt"));
}

#[test]
fn paths_below_a_root() {
    assert_eq!(relative_to("/w/a/b.kt", "/w"), "a/b.kt");
    assert_eq!(relative_to("/x/b.kt", "/w"), "/x/b.kt");
}

#[test]
fn files_changed_since_the_cache_was_written() {
    let cached = names(&["/w/A.kt"]);
    let newer = names(&["/w/A.kt", "/w/B.kt"]);
    let paths = warm_discover_files(&cached, &vec![true], "/w", None, &newer);
    assert_eq!(paths, vec!["/w/A.kt", "/w/B.kt"]);
    assert_eq!(warm_window(None), None);
    assert!(warm_window(Some(10)).unwrap() >= 10);
}
