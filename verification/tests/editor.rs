//! What is found at positions of open files.
use kmp_index::columns::{before_column, byte_offset, utf16_col_to_byte, utf16_col_to_char, utf16_count};
use kmp_index::cst::LiveDoc;
use kmp_index::deps::FixedDeps;
use kmp_index::index::Indexer;
use kmp_index::live::{
    live_doc_or_parse, live_doc_or_parse_at, live_doc_or_parse_with_cache, offset_of, parse_at,
    LiveTrees,
};
use kmp_index::queries::{
    cursor_node_at, live_doc_for_scope_query, name_shadowed_by_local_declaration_with_cache,
    variable_type_at_from_cst,
};
use kmp_index::scope::{
    callee_to_qualifier, enclosing_class_in_text, extract_class_decl_name,
    find_enclosing_call_name, scan_lambda_params_in_lines, should_collect_lambda_param,
    word_and_qualifier_in, word_and_range_in,
};
use kmp_index::syntax::{lang_for_path, parse_live, Language};
use kmp_index::types::{CursorPos, FileData, Position};

fn lines_of(src: &str) -> Vec<String> {
    src.lines().map(String::from).collect()
}

fn at(line: u32, character: u32) -> Position {
    Position { line, character }
}

fn tree(src: &str) -> LiveDoc {
    parse_live(src, Language::Kotlin).unwrap()
}

fn word(line: &str, col: u32) -> Option<(String, Option<String>)> {
    word_and_qualifier_in(&lines_of(line), at(0, col))
}

fn pair(word: &str, qualifier: Option<&str>) -> Option<(String, Option<String>)> {
    Some((word.to_string(), qualifier.map(String::from)))
}

// Words

#[test]
fn words_and_what_qualifies_them() {
    assert_eq!(word("val x = foo.bar", 13), pair("bar", Some("foo")));
    assert_eq!(word("val x = foo.bar", 9), pair("foo", None));
    assert_eq!(word("a + b", 2), None);
    assert_eq!(word("copy(name = 1)", 6), pair("name", None));
    assert_eq!(word("User(name = 1)", 6), pair("name", Some("User")));
    assert_eq!(word("User(name == 1)", 6), pair("name", None));
}

#[test]
fn words_beside_the_cursor() {
    assert_eq!(word("foo ", 3), pair("foo", None));
    assert_eq!(word("", 0), None);
    assert_eq!(word_and_qualifier_in(&vec![], at(0, 0)), None);
}

#[test]
fn words_after_wide_characters() {
    let line = "\u{1F600}name";
    let (word, range) = word_and_range_in(&lines_of(line), at(0, 3)).unwrap();
    assert_eq!(word, "name");
    assert_eq!((range.start.character, range.end.character), (2, 6));
}

#[test]
fn calls_round_a_place() {
    let lines = lines_of("Outer(\n  a,\n  b");
    assert_eq!(find_enclosing_call_name(&lines, 2, 2).as_deref(), Some("Outer"));
    assert_eq!(callee_to_qualifier("a.b.User").as_deref(), Some("User"));
    assert_eq!(callee_to_qualifier("make"), None);
}

// Columns

#[test]
fn columns_in_units_of_sixteen_bits() {
    let line = "a\u{1F600}b";
    assert_eq!(utf16_count(line), 4);
    assert_eq!(utf16_col_to_char(line, 3), 2);
    assert_eq!(utf16_col_to_byte(line, 3), 5);
    assert_eq!(utf16_col_to_byte(line, 99), 6);
    assert_eq!(byte_offset(line, 2), 5);
    assert_eq!(before_column(line, 1), "a");
}

// Types round a line

#[test]
fn names_of_declared_types() {
    assert_eq!(extract_class_decl_name("class Foo {").as_deref(), Some("Foo"));
    assert_eq!(extract_class_decl_name("data class Foo(val x: Int)").as_deref(), Some("Foo"));
    assert_eq!(extract_class_decl_name("sealed interface Foo<T> :").as_deref(), Some("Foo"));
    assert_eq!(extract_class_decl_name("private object Foo").as_deref(), Some("Foo"));
    assert_eq!(extract_class_decl_name("@Inject class Foo").as_deref(), Some("Foo"));
    assert_eq!(extract_class_decl_name("fun foo()"), None);
}

#[test]
fn types_round_a_row_by_text() {
    let lines = lines_of("class A {\n  class B {\n    val x = 1\n  }\n  val y = 2\n}");
    assert_eq!(enclosing_class_in_text(&lines, 2).as_deref(), Some("B"));
    assert_eq!(enclosing_class_in_text(&lines, 4).as_deref(), Some("A"));
    assert_eq!(enclosing_class_in_text(&lines, 0), None);
}

fn open(content: &str) -> (Indexer, String) {
    let uri = "file:///t.kt".to_string();
    let mut idx = Indexer::new();
    idx.live_lines.insert(&uri, lines_of(content));
    (idx, uri)
}

#[test]
fn types_round_a_row_by_tree() {
    let src = "class A {\n  @Ann\n  class B {\n    val x = 1\n  }\n  val y = 2\n}";
    let (idx, uri) = open(src);
    let doc = tree(src);
    assert_eq!(idx.enclosing_class_at_with_cache(&uri, 3, Some(&doc)).as_deref(), Some("B"));
    assert_eq!(idx.enclosing_class_at_with_cache(&uri, 5, Some(&doc)).as_deref(), Some("A"));
    assert_eq!(idx.enclosing_class_at_with_cache(&uri, 0, Some(&doc)), None);
}

// Lambda parameters

#[test]
fn parameters_of_open_lambdas_by_text() {
    let lines = lines_of("items.forEach { item ->\n  other.map { a, b ->\n    a");
    assert_eq!(scan_lambda_params_in_lines(&lines, 2, 5), vec!["a", "b", "item"]);
    let closed = lines_of("items.forEach { item -> x }\n y");
    assert!(scan_lambda_params_in_lines(&closed, 1, 2).is_empty());
    assert!(should_collect_lambda_param("item", &vec![]));
    assert!(!should_collect_lambda_param("_", &vec![]));
    assert!(!should_collect_lambda_param("item", &vec!["item".to_string()]));
}

#[test]
fn closed_lambdas_on_the_line_are_out_of_scope() {
    let lines = vec!["run { a -> f { b -> b }; { c -> { d -> d } }; x".to_string()];
    let end = lines[0].len();
    assert_eq!(scan_lambda_params_in_lines(&lines, 0, end), vec!["a"]);
    assert_eq!(scan_lambda_params_in_lines(&lines, 0, 20), vec!["b", "a"]);
}

#[test]
fn parameters_of_open_lambdas_by_tree() {
    let src = "fun f() {\n  items.forEach { item ->\n    other.map { a, b ->\n      a\n    }\n  }\n}";
    let (idx, uri) = open(src);
    let doc = tree(src);
    let mut found = idx.lambda_params_at_col_with_cache(&uri, 3, 6, Some(&doc));
    found.sort();
    assert_eq!(found, vec!["a", "b", "item"]);
    let by_text = idx.lambda_params_at_col_with_cache(&uri, 3, 6, None);
    assert_eq!(by_text.len(), 3);
    assert!(idx.is_lambda_param_with_cache("item", "      item", &uri, 3, Some(&doc)));
    assert!(!idx.is_lambda_param_with_cache("Item", "      Item", &uri, 3, Some(&doc)));
    assert!(!idx.is_lambda_param_with_cache("other", "      other", &uri, 3, Some(&doc)));
}

#[test]
fn where_a_lambda_parameter_is_declared() {
    let (idx, uri) = open("items.forEach { item ->\n  item\n}");
    let found = idx.find_lambda_param_decl(&uri, "item", 1).unwrap();
    assert_eq!(found.range.start, at(0, 14));
    assert_eq!(found.range.end, at(0, 15));
    assert!(idx.find_lambda_param_decl(&uri, "other", 1).is_none());
}

// Local declarations

const LOCALS: &str = "class C {\n  val field: Field = Field()\n  fun f(param: Param) {\n    val local: Local = Local()\n    val (first, second) = pair\n    for (i in list) {\n      i\n    }\n    println(field)\n  }\n}";

#[test]
fn types_of_visible_variables() {
    let doc = tree(LOCALS);
    let found = |name: &str| variable_type_at_from_cst(Some(&doc), name, at(8, 4));
    assert_eq!(found("local").as_deref(), Some("Local"));
    assert_eq!(found("param").as_deref(), Some("Param"));
    assert_eq!(found("field").as_deref(), Some("Field"));
    assert_eq!(found("unknown"), None);
    assert_eq!(variable_type_at_from_cst(None, "local", at(8, 4)), None);
    assert_eq!(
        variable_type_at_from_cst(Some(&doc), "local", at(3, 0)),
        None,
        "not declared yet"
    );
}

#[test]
fn locals_hide_what_is_outside() {
    let doc = tree(LOCALS);
    let hidden = |name: &str| name_shadowed_by_local_declaration_with_cache(Some(&doc), 8, 4, name);
    assert!(hidden("local"));
    assert!(hidden("param"));
    assert!(hidden("first"));
    assert!(hidden("second"));
    assert!(hidden("i"));
    assert!(!hidden("field"));
    assert!(!hidden("println"));
}

#[test]
fn matched_names_hide_too() {
    let src = "fun f() {\n  when (val x = g()) {\n    else -> x\n  }\n}";
    let doc = tree(src);
    assert!(name_shadowed_by_local_declaration_with_cache(Some(&doc), 2, 12, "x"));
}

// `it`, `this` and named parameters, through the index

#[test]
fn lambda_parameters_of_an_indexed_file() {
    let src = "class C {\n  fun f() {\n    users.forEach { it }\n    this\n  }\n}";
    let (mut idx, uri) = open(src);
    let data = FileData { lines: lines_of(src), ..FileData::default() };
    idx.index_content(&uri, src, data, None);
    let doc = tree(src);
    let deps = FixedDeps::new().with_var(&uri, "users", "List<User>");
    let it = idx.infer_lambda_param_type_at_with_cache("it", &uri, at(2, 20), Some(&doc), None, &deps);
    assert_eq!(it.as_deref(), Some("User"));
    let this = idx.infer_lambda_param_type_at_with_cache("this", &uri, at(3, 4), Some(&doc), None, &deps);
    assert_eq!(this.as_deref(), Some("C"));
    let by_place = idx.infer_lambda_param_type_at_with_cache(
        "this",
        &uri,
        at(3, 4),
        Some(&doc),
        Some("Param".to_string()),
        &deps,
    );
    assert_eq!(by_place.as_deref(), Some("Param"));
    let unknown = idx.infer_lambda_param_type_at_with_cache("it", "file:///u.kt", at(0, 0), None, None, &deps);
    assert_eq!(unknown, None);
}

// Trees

#[test]
fn languages_by_extension() {
    assert!(matches!(lang_for_path("/a/B.kt"), Some(Language::Kotlin)));
    assert!(matches!(lang_for_path("/a/B.java"), Some(Language::Java)));
    assert!(matches!(lang_for_path("/a/B.swift"), Some(Language::Swift)));
    assert!(parse_at("/a/B.kt", "class B").is_some());
}

#[test]
fn trees_of_three_languages() {
    let kinds = |d: &LiveDoc| d.nodes.iter().map(|n| n.kind.clone()).collect::<Vec<_>>();
    let kotlin = parse_live("class A", Language::Kotlin).unwrap();
    assert_eq!(kotlin.nodes[0].kind, "source_file");
    assert!(kinds(&kotlin).contains(&"class_declaration".to_string()));
    let java = parse_live("class A {}", Language::Java).unwrap();
    assert_eq!(java.nodes[0].kind, "program");
    assert!(kinds(&java).contains(&"class_declaration".to_string()));
    let swift = parse_live("class A {}", Language::Swift).unwrap();
    assert!(kinds(&swift).contains(&"class_declaration".to_string()));
}

#[test]
fn nodes_count_characters() {
    let doc = tree("val s = \"\u{e9}\"\nclass A");
    let class = doc.nodes.iter().find(|n| n.kind == "class_declaration").unwrap();
    assert_eq!(class.start, 12);
    assert_eq!(class.row, 1);
    assert_eq!(offset_of("ab\ncd", 1, 1), 4);
    assert_eq!(offset_of("ab", 5, 0), 2);
}

#[test]
fn the_smallest_node_at_a_position() {
    let doc = tree("class A {\n  val name = 1\n}");
    let cursor = cursor_node_at(Some(&doc), CursorPos { line: 1, utf16_col: 7 }).unwrap();
    assert_eq!(doc.text_of(cursor.node), "name");
    assert!(cursor_node_at(None, CursorPos { line: 0, utf16_col: 0 }).is_none());
}

#[test]
fn closed_files_are_parsed_for_one_request() {
    let (u, v, w) = ("file:///A.kt", "file:///B.kt", "file:///C.kt");
    let mut trees = LiveTrees::new();
    let mut request = LiveTrees::new();
    live_doc_or_parse_with_cache(&mut trees, &mut request, u, Some("class A"), false);
    assert!(trees.live_doc(u).is_none());
    assert!(live_doc_for_scope_query(&trees, &request, u).is_some());
    live_doc_or_parse_with_cache(&mut trees, &mut request, v, Some("class B"), true);
    assert!(trees.live_doc(v).is_some());
    live_doc_or_parse_with_cache(&mut trees, &mut request, w, None, true);
    assert!(live_doc_for_scope_query(&trees, &request, w).is_none());
    let alone = live_doc_or_parse(&mut trees, w, Some("class C"), false);
    assert!(trees.live_doc(w).is_none());
    assert!(alone.live_doc(w).is_some());
}

#[test]
fn the_path_of_a_document_tells_its_language() {
    let mut trees = LiveTrees::new();
    trees.store_live_tree("file:///A.txt", "class A");
    assert!(trees.live_doc("file:///A.txt").is_none());
    trees.store_live_tree("file:///A.kt?version=1", "class A");
    assert!(trees.live_doc("file:///A.kt?version=1").is_some());
    trees.store_live_tree("no url.kt", "class A");
    assert!(trees.live_doc("no url.kt").is_none());
    let mut request = LiveTrees::new();
    live_doc_or_parse_at(&mut trees, &mut request, "u", Some("/A.java"), Some("class A {}"), false);
    assert!(request.live_doc("u").is_some());
    live_doc_or_parse_at(&mut trees, &mut request, "v", None, Some("class A {}"), false);
    assert!(request.live_doc("v").is_none());
}

#[test]
fn open_files_are_parsed_again() {
    let mut trees = LiveTrees::new();
    trees.store_live_tree_at("u", "/A.kt", "class A");
    trees.store_live_tree_at("u", "/A.kt", "class B");
    assert_eq!(trees.live_doc("u").unwrap().text, "class B");
    trees.remove_live_tree("u");
    assert!(trees.live_doc("u").is_none());
    let (idx, uri) = open("a\nb");
    assert_eq!(idx.known_content(&uri).as_deref(), Some("a\nb"));
    assert!(idx.is_open(&uri));
    assert_eq!(idx.known_content("x"), None);
}

#[test]
fn words_of_open_files() {
    let (idx, uri) = open("foo.bar");
    assert_eq!(idx.word_at(&uri, at(0, 5)).as_deref(), Some("bar"));
    assert_eq!(idx.word_and_qualifier_at(&uri, at(0, 5)), pair("bar", Some("foo")));
    assert_eq!(idx.word_and_range_at(&uri, at(0, 5)).unwrap().1.start, at(0, 4));
    assert_eq!(idx.word_at("x", at(0, 0)), None);
}

#[test]
fn quotes_that_the_parser_has_no_room_for() {
    let strings = |n: usize| format!("val x = listOf({})", vec!["\"a\""; n].join(", "));
    assert!(parse_live(&strings(512), Language::Kotlin).is_some());
    assert!(parse_live(&strings(513), Language::Kotlin).is_none());
    assert!(parse_live(&strings(513), Language::Java).is_some());
    let nested = "\"${".repeat(1024);
    assert!(parse_live(&nested, Language::Kotlin).is_some());
    assert!(parse_live(&"\"${".repeat(1100), Language::Kotlin).is_none());
}

#[test]
fn texts_beyond_ascii_are_parsed() {
    let src = "class \u{c4}rger { val gr\u{fc}n = \"\u{20ac}\" }";
    for lang in [Language::Kotlin, Language::Swift, Language::Java] {
        let doc = parse_live(src, lang).unwrap();
        assert_eq!(doc.text, src);
        assert!(!doc.nodes.is_empty());
    }
}
