//! What is shown of a symbol.
use kmp_index::doc::{extract_doc_comment, format_doc_comment};
use kmp_index::enrich::{
    build_subst_map, build_type_param_subst, cross_file_type_subst, enrich_at_line,
    enrich_at_location, resolve_symbol_info, SubstitutionContext,
};
use kmp_index::index::Indexer;
use kmp_index::on_demand::{
    missing_for_hierarchy, missing_for_places, missing_for_subst_map,
    missing_for_type_param_subst, needs_search, next_to_index, resolve_searched,
    resolve_searched_symbol_info,
};
use kmp_index::resolution::{
    apply_subst, augment_property_sig, extract_canonical_signature, extract_property_type_name,
    find_symbol_entry, ResolveOptions,
};
use kmp_index::sorting::{comes_before, sorted_names};
use kmp_index::table::Table;
use kmp_index::text;
use kmp_index::type_subst::{
    apply_type_subst, extract_collection_element_type, first_concrete_type_arg_str,
    is_generic_param,
};
use kmp_index::types::{
    FileData, Location, Position, Range, SymbolEntry, SymbolKind, Visibility,
};
use kmp_index::workspace::variable_type_in_file;

fn names(list: &[&str]) -> Vec<String> {
    list.iter().map(|s| s.to_string()).collect()
}

fn span(line: u32, end: u32) -> Range {
    Range {
        start: Position { line, character: 0 },
        end: Position { line: end, character: 40 },
    }
}

fn symbol(name: &str, kind: SymbolKind, line: u32, end: u32) -> SymbolEntry {
    SymbolEntry {
        name: name.to_string(),
        kind,
        visibility: Visibility::Public,
        range: span(line, end),
        selection_range: span(line, line),
        detail: String::new(),
        container: None,
        params: String::new(),
        param_counts: (0, 0),
        type_params: vec![],
        extension_receiver: String::new(),
        extension_receiver_type: String::new(),
        doc: String::new(),
        trailing_lambda: false,
        deprecated: false,
        nullable: false,
    }
}

const BASE: &str = "file:///Base.kt";
const CHILD: &str = "file:///Child.kt";

/// `Base<T>` with a member that speaks of `T`, and `Child : Base<User>`.
fn family() -> Indexer {
    let mut idx = Indexer::new();
    let base = "/** What is kept. */\nclass Base<T> {\n  fun load(): T\n}";
    let data = FileData {
        symbols: vec![
            SymbolEntry { type_params: names(&["T"]), ..symbol("Base", SymbolKind::Class, 1, 3) },
            SymbolEntry {
                container: Some("Base".to_string()),
                detail: "fun load(): T".to_string(),
                ..symbol("load", SymbolKind::Function, 2, 2)
            },
        ],
        lines: base.lines().map(String::from).collect(),
        ..FileData::default()
    };
    idx.index_content(BASE, base, data, None);
    let child = "class Child : Base<User> {\n  val x = 1\n}";
    let data = FileData {
        symbols: vec![symbol("Child", SymbolKind::Class, 0, 2)],
        supers: vec![(0, "Base".to_string(), names(&["User"]))],
        lines: child.lines().map(String::from).collect(),
        ..FileData::default()
    };
    idx.index_content(CHILD, child, data, None);
    idx
}

fn load_location() -> Location {
    Location { uri: BASE.to_string(), range: span(2, 2) }
}

#[test]
fn type_parameters_become_what_the_caller_gives() {
    let idx = family();
    let subst = build_type_param_subst(&idx, BASE, 2, CHILD, Some(1));
    assert_eq!(subst, vec![("T".to_string(), "User".to_string())]);
    assert_eq!(
        cross_file_type_subst(&idx, BASE, 2, CHILD, Some(1), "fun load(): T"),
        "fun load(): User"
    );
    assert_eq!(build_subst_map(&idx, CHILD, 1), vec![("T".to_string(), "User".to_string())]);
}

#[test]
fn without_a_line_the_first_class_that_inherits_counts() {
    let mut idx = family();
    let user = vec![("T".to_string(), "User".to_string())];
    assert_eq!(build_type_param_subst(&idx, BASE, 2, CHILD, None), user);
    assert_eq!(
        cross_file_type_subst(&idx, BASE, 2, CHILD, None, "fun load(): T"),
        "fun load(): User"
    );
    let many = "file:///Many.kt";
    let text = "class Plain\nclass Orders : Base<Order>\nclass Users : Base<User>";
    let data = FileData {
        symbols: vec![
            symbol("Plain", SymbolKind::Class, 0, 0),
            symbol("Orders", SymbolKind::Class, 1, 1),
            symbol("Users", SymbolKind::Class, 2, 2),
        ],
        supers: vec![
            (1, "Base".to_string(), names(&["Order"])),
            (2, "Base".to_string(), names(&["User"])),
        ],
        lines: text.lines().map(String::from).collect(),
        ..FileData::default()
    };
    idx.index_content(many, text, data, None);
    let order = vec![("T".to_string(), "Order".to_string())];
    assert_eq!(build_type_param_subst(&idx, BASE, 2, many, None), order);
    assert_eq!(build_type_param_subst(&idx, BASE, 2, many, Some(2)), user);
    assert!(build_type_param_subst(&idx, BASE, 2, many, Some(0)).is_empty());
    let none: Vec<String> = vec![];
    assert_eq!(missing_for_type_param_subst(&idx, BASE, 2, many, None), none);
    idx.files.remove(BASE);
    assert_eq!(missing_for_type_param_subst(&idx, BASE, 2, many, None), vec![BASE]);
}

#[test]
fn files_that_a_hierarchy_misses() {
    let mut idx = family();
    let none: Vec<String> = vec![];
    assert_eq!(missing_for_hierarchy(&idx, CHILD, "Child", 0), none);
    assert_eq!(missing_for_type_param_subst(&idx, BASE, 2, CHILD, Some(1)), none);
    let base = idx.files.remove(BASE).unwrap();
    assert_eq!(missing_for_hierarchy(&idx, CHILD, "Child", 0), vec![BASE]);
    assert_eq!(missing_for_subst_map(&idx, CHILD, 1), vec![BASE]);
    assert_eq!(missing_for_type_param_subst(&idx, BASE, 2, CHILD, Some(1)), vec![BASE]);
    assert!(build_type_param_subst(&idx, BASE, 2, CHILD, Some(1)).is_empty());
    assert!(idx.wants_indexing(BASE));
    idx.files.insert(BASE, base);
    assert!(!idx.wants_indexing(BASE));
    assert!(!idx.wants_indexing("no url"));
    assert_eq!(
        build_type_param_subst(&idx, BASE, 2, CHILD, Some(1)),
        vec![("T".to_string(), "User".to_string())]
    );
    let child = idx.files.remove(CHILD).unwrap();
    assert_eq!(missing_for_type_param_subst(&idx, BASE, 2, CHILD, Some(1)), vec![CHILD]);
    assert_eq!(missing_for_hierarchy(&idx, CHILD, "Child", 0), vec![CHILD]);
    idx.files.insert(CHILD, child);
    assert_eq!(missing_for_type_param_subst(&idx, BASE, 2, BASE, Some(2)), none);
}

#[test]
fn files_are_indexed_one_after_the_other() {
    let missing = names(&["file:///A.kt", "file:///B.kt"]);
    assert_eq!(next_to_index(&missing, &vec![]), Some("file:///A.kt".to_string()));
    let tried = names(&["file:///A.kt"]);
    assert_eq!(next_to_index(&missing, &tried), Some("file:///B.kt".to_string()));
    assert_eq!(next_to_index(&missing, &missing), None);
}

#[test]
fn places_that_a_search_finds() {
    let mut idx = family();
    let found = vec![Location { uri: "file:///New.kt".to_string(), range: span(0, 0) }];
    assert!(needs_search(&idx, "New", None, CHILD, true));
    assert!(!needs_search(&idx, "New", None, CHILD, false));
    assert!(!needs_search(&idx, "Base", None, CHILD, true));
    assert_eq!(resolve_searched(&idx, "New", None, CHILD, true, &found), found);
    assert!(resolve_searched(&idx, "New", None, CHILD, false, &found).is_empty());
    assert_eq!(resolve_searched(&idx, "Base", None, CHILD, true, &found)[0].uri, BASE);
    assert_eq!(missing_for_places(&idx, &found), vec!["file:///New.kt"]);
    let own = SubstitutionContext::Own;
    let options = ResolveOptions::hover();
    let info = resolve_searched_symbol_info(&idx, "New", None, CHILD, &found, &own, &options);
    assert!(info.is_none());
    let data = FileData {
        symbols: vec![symbol("New", SymbolKind::Class, 0, 0)],
        lines: names(&["class New"]),
        ..FileData::default()
    };
    idx.index_content("file:///New.kt", "class New", data, None);
    assert!(missing_for_places(&idx, &found).is_empty());
    let info = resolve_searched_symbol_info(&idx, "New", None, CHILD, &found, &own, &options);
    assert_eq!(info.unwrap().signature.trim(), "class New");
}

#[test]
fn symbols_as_another_file_sees_them() {
    let idx = family();
    let ctx = SubstitutionContext::CrossFile { calling_uri: CHILD, cursor_line: Some(1) };
    let shown = enrich_at_location(&idx, &load_location(), "load", &ctx, &ResolveOptions::hover())
        .unwrap();
    assert_eq!(shown.signature.trim(), "fun load(): User");
    assert_eq!(shown.raw_signature.trim(), "fun load(): T");
    let own = SubstitutionContext::Own;
    let plain = enrich_at_location(&idx, &load_location(), "load", &own, &ResolveOptions::hover())
        .unwrap();
    assert_eq!(plain.signature.trim(), "fun load(): T");
    let known = vec![("T".to_string(), "Int".to_string())];
    let given = SubstitutionContext::Precomputed(&known);
    let shown = enrich_at_location(&idx, &load_location(), "load", &given, &ResolveOptions::hover())
        .unwrap();
    assert_eq!(shown.signature.trim(), "fun load(): Int");
}

#[test]
fn symbols_by_name_and_by_place() {
    let idx = family();
    let own = SubstitutionContext::Own;
    let found = resolve_symbol_info(&idx, "Base", None, CHILD, &own, &ResolveOptions::hover())
        .unwrap();
    assert_eq!(found.location.uri, BASE);
    assert!(found.doc.contains("What is kept."), "{}", found.doc);
    assert!(resolve_symbol_info(&idx, "Nothing", None, CHILD, &own, &ResolveOptions::hover()).is_none());
    let there = enrich_at_line(&idx, BASE, 2, 6, &own, &ResolveOptions::hover()).unwrap();
    assert_eq!(there.name, "load");
    assert!(enrich_at_line(&idx, BASE, 0, 0, &own, &ResolveOptions::hover()).is_none());
}

#[test]
fn going_to_a_definition_needs_no_signature_of_others() {
    let idx = family();
    let ctx = SubstitutionContext::CrossFile { calling_uri: CHILD, cursor_line: Some(1) };
    let found = enrich_at_location(&idx, &load_location(), "load", &ctx, &ResolveOptions::goto_def())
        .unwrap();
    assert!(found.subst.is_empty());
    assert!(found.doc.is_empty());
}

#[test]
fn entries_by_place_or_name() {
    let data = FileData {
        symbols: vec![symbol("a", SymbolKind::Function, 0, 0), symbol("b", SymbolKind::Function, 1, 1)],
        ..FileData::default()
    };
    let here = Location { uri: BASE.to_string(), range: span(1, 1) };
    assert_eq!(find_symbol_entry(&data, &here, "b").unwrap().name, "b");
    let elsewhere = Location { uri: BASE.to_string(), range: span(9, 9) };
    assert_eq!(find_symbol_entry(&data, &elsewhere, "a").unwrap().name, "a");
    assert!(find_symbol_entry(&data, &elsewhere, "c").is_none());
}

#[test]
fn signatures() {
    let data = FileData { lines: names(&["fun f(a: Int): String {"]), ..FileData::default() };
    let f = SymbolEntry {
        detail: "fun f(…)".to_string(),
        ..symbol("f", SymbolKind::Function, 0, 0)
    };
    assert_eq!(extract_canonical_signature(&f, &data, false), "fun f(a: Int): String");
    assert_eq!(extract_canonical_signature(&f, &data, true), "fun f(…)");
}

#[test]
fn types_of_properties() {
    assert_eq!(extract_property_type_name("val x: Foo<Int> = y"), "Foo");
    assert_eq!(extract_property_type_name("val x = 1"), "");
    assert_eq!(augment_property_sig("val x = make()", "x", SymbolKind::Property, "Foo"), "val x: Foo = make()");
    assert_eq!(augment_property_sig("val x: Bar", "x", SymbolKind::Property, "Foo"), "val x: Bar");
    assert_eq!(augment_property_sig("fun x()", "x", SymbolKind::Function, "Foo"), "fun x()");
}

#[test]
fn parameters_are_replaced_as_whole_words() {
    let subst = vec![("T".to_string(), "User".to_string())];
    assert_eq!(apply_subst("fun f(t: T): Map<T, Type>", &subst), "fun f(t: User): Map<User, Type>");
    assert_eq!(apply_subst("fun f()", &vec![]), "fun f()");
    assert_eq!(apply_type_subst("List<T>?", &subst), "List<User>?");
    assert_eq!(apply_type_subst("List<T>?", &vec![]), "List<T>?");
}

#[test]
fn types_inside_types() {
    assert!(is_generic_param("T"));
    assert!(!is_generic_param("User"));
    assert_eq!(extract_collection_element_type("List<User>").as_deref(), Some("User"));
    assert_eq!(extract_collection_element_type("User"), None);
    assert_eq!(first_concrete_type_arg_str("Box<User>").as_deref(), Some("User"));
}

#[test]
fn types_of_variables_that_a_file_knows() {
    let data = FileData {
        type_annotations: vec![("a".to_string(), "Foo".to_string())],
        ..FileData::default()
    };
    assert_eq!(variable_type_in_file(&data, "a").as_deref(), Some("Foo"));
    assert_eq!(variable_type_in_file(&data, "b"), None);
}

// Doc comments

#[test]
fn doc_comments_lose_their_stars() {
    assert_eq!(format_doc_comment("/** One. */"), "One.");
    let raw = "/**\n * One.\n * Two.\n */";
    let shown = format_doc_comment(raw);
    assert!(shown.contains("One."), "{shown}");
    assert!(shown.contains("Two."), "{shown}");
    assert!(!shown.contains('*'), "{shown}");
}

#[test]
fn doc_comments_stand_above_annotations() {
    let lines = names(&["/** One. */", "@Inject", "class A"]);
    assert!(extract_doc_comment(&lines, 2).unwrap().contains("One."));
    assert!(extract_doc_comment(&names(&["val x = 1", "class A"]), 1).is_none());
}

// Tables and texts

#[test]
fn tables() {
    let mut t: Table<Vec<String>> = Table::new();
    t.push("a", "1".to_string());
    t.push("a", "2".to_string());
    t.push("b", "3".to_string());
    assert_eq!(t.get("a").unwrap(), &names(&["1", "2"]));
    assert_eq!(t.len(), 2);
    assert!(t.contains_key("b"));
    assert_eq!(t.remove("a").unwrap(), names(&["1", "2"]));
    assert!(t.get("a").is_none());
    assert_eq!(t.get("b").unwrap(), &names(&["3"]));
    t.insert("b", vec![]);
    assert!(t.get("b").unwrap().is_empty());
    t.clear();
    assert_eq!(t.len(), 0);
}

#[test]
fn names_are_sorted_by_their_bytes() {
    assert!(comes_before("A", "a"));
    assert!(comes_before("a", "ab"));
    assert!(!comes_before("a", "a"));
    assert!(comes_before("z", "\u{e9}"));
    assert_eq!(sorted_names(&names(&["b", "a", "B", "a"])), names(&["B", "a", "b"]));
}

#[test]
fn characters() {
    assert!(text::is_id_char('\u{e9}'));
    assert!(text::is_id_char('_'));
    assert!(text::is_id_char('7'));
    assert!(!text::is_id_char('-'));
    assert_eq!(text::trim("\u{a0} a\t"), "a");
    assert!(text::starts_with_uppercase("\u{c9}t"));
    assert!(text::starts_with_lowercase("\u{e9}t"));
    assert_eq!(text::ident_prefix("ab_1.c"), "ab_1");
    assert_eq!(text::last_segment("a.b.C"), "C");
    assert_eq!(text::replace("a-b-c", "-", "+"), "a+b+c");
    assert_eq!(text::split("a,b,", ','), vec!["a", "b", ""]);
    assert_eq!(text::words(" a  b "), vec!["a", "b"]);
    assert_eq!(text::lines("a\r\nb\n"), vec!["a", "b"]);
}
