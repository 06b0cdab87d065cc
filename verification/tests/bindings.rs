//! Layouts and the binding classes that are generated for them.
use kmp_index::binding_discovery::{
    binding_entry, file_imports_trigger_binding_discovery, import_triggers_binding_discovery,
    is_binding_java_filename, is_databinding_package, is_generated_binding_watcher_path,
    module_root_for_generated_file, module_root_for_source_file, newest_bindings,
    package_from_java_source, read_binding_java_metadata, BindingDiscoveryHandle,
};
use kmp_index::binding_field_type::{
    binding_field_name_to_id, binding_field_type, consensus_tag_type,
    field_type_from_layout_variants, include_field_type_from_variants, java_field_type_from_detail,
    leaf_tag_name, root_field_type_from_variants, short_type_name, view_id_field_type_from_variants,
};
use kmp_index::cache::LayoutCacheEntry;
use kmp_index::index::Indexer;
use kmp_index::layouts::{GeneratedBindingEntry, LayoutFileData, LayoutInclude, ViewIdEntry};
use kmp_index::naming::{
    binding_class_name_for_layout, layout_name_for_binding_class, pascal_case_to_snake_case,
    snake_case_to_pascal_case,
};
use kmp_index::restore::declared_type_names;
use kmp_index::table::Table;
use kmp_index::types::{FileData, ImportEntry};

const MODULE: &str = "/ws/app";

fn view(id: &str, tag: &str) -> ViewIdEntry {
    ViewIdEntry { id: id.to_string(), tag_name: tag.to_string() }
}

fn layout(name: &str, variant: &str, root: &str, views: Vec<ViewIdEntry>) -> LayoutFileData {
    LayoutFileData {
        layout_name: name.to_string(),
        module_root: MODULE.to_string(),
        variant_qualifier: variant.to_string(),
        root_tag: root.to_string(),
        view_ids: views,
        includes: vec![],
    }
}

fn binding(class: &str, uri: &str, secs: u64) -> GeneratedBindingEntry {
    GeneratedBindingEntry {
        class_name: class.to_string(),
        file_uri: uri.to_string(),
        modified_at_secs: secs,
    }
}

fn import(path: &str) -> ImportEntry {
    ImportEntry {
        full_path: path.to_string(),
        local_name: path.rsplit('.').next().unwrap().to_string(),
        is_star: false,
    }
}

// Names

#[test]
fn layouts_and_classes_name_each_other() {
    assert_eq!(snake_case_to_pascal_case("item_user_row"), "ItemUserRow");
    assert_eq!(pascal_case_to_snake_case("ItemUserRow"), "item_user_row");
    assert_eq!(binding_class_name_for_layout("item_user_row"), "ItemUserRowBinding");
    assert_eq!(
        layout_name_for_binding_class("ItemUserRowBinding").as_deref(),
        Some("item_user_row")
    );
    assert_eq!(layout_name_for_binding_class("ItemUserRow"), None);
}

#[test]
fn names_beyond_ascii() {
    for layout in ["foo_bar", "foo2_bar", "a1b2_c3", "step_2"] {
        let class = binding_class_name_for_layout(layout);
        let back = layout_name_for_binding_class(&class);
        assert_eq!(back.as_deref() == Some(layout), layout != "step_2", "{class}");
    }
    assert_eq!(snake_case_to_pascal_case("\u{e9}tat_a"), "\u{c9}tatA");
    assert_eq!(pascal_case_to_snake_case("\u{c9}tatA"), "\u{e9}tat_a");
}

#[test]
fn names_of_types() {
    assert_eq!(short_type_name("android.widget.TextView"), "TextView");
    assert_eq!(leaf_tag_name("com.x.Fancy"), "Fancy");
    assert_eq!(binding_field_name_to_id("userName"), "user_name");
}

// Paths

#[test]
fn modules_of_files() {
    assert_eq!(
        module_root_for_source_file("/ws/app/src/main/java/A.kt").as_deref(),
        Some("/ws/app")
    );
    assert_eq!(
        module_root_for_generated_file("/ws/app/build/generated/x/ABinding.java").as_deref(),
        Some("/ws/app")
    );
    assert_eq!(module_root_for_source_file("/ws/A.kt"), None);
    assert!(is_binding_java_filename("/x/ABinding.java"));
    assert!(!is_binding_java_filename("/x/A.java"));
    assert!(!is_generated_binding_watcher_path("/ws/app/src/ABinding.java"));
}

#[test]
fn packages_of_generated_files() {
    let content = "// Generated\npackage com.x.databinding;\n\npublic final class ABinding {}";
    assert_eq!(package_from_java_source(content).as_deref(), Some("com.x.databinding"));
    assert!(is_databinding_package("com.x.databinding"));
    assert!(!is_databinding_package("com.x"));
    assert_eq!(package_from_java_source("class A {}"), None);
}

#[test]
fn generated_classes() {
    let content = "package com.x.databinding;\nclass ABinding {}";
    let path = "/ws/app/build/generated/ABinding.java";
    let entry = binding_entry(path, content, 7, Some("file:///a".to_string())).unwrap();
    assert_eq!((entry.class_name.as_str(), entry.modified_at_secs), ("ABinding", 7));
    assert!(binding_entry(path, content, 7, None).is_none());
    assert!(binding_entry(path, "package com.x;", 7, Some("file:///a".to_string())).is_none());
    let found = read_binding_java_metadata(path, content, 7).unwrap();
    assert_eq!(found.file_uri, "file:///ws/app/build/generated/ABinding.java");
}

#[test]
fn the_newest_of_each_class_counts() {
    let found = newest_bindings(vec![
        binding("A", "old", 1),
        binding("B", "b", 1),
        binding("A", "new", 2),
    ]);
    assert_eq!(found.len(), 2);
    assert!(found.iter().any(|e| e.class_name == "A" && e.file_uri == "new"));
    assert!(found.iter().any(|e| e.class_name == "B"));
}

#[test]
fn finding_bindings_again_changes_nothing() {
    let found = || vec![binding("A", "x", 2), binding("A", "y", 2), binding("B", "b", 1)];
    let once = newest_bindings(found());
    let mut idx = Indexer::new();
    idx.set_generated_bindings(MODULE, found());
    idx.set_generated_bindings(MODULE, found());
    let known = idx.generated_bindings.get(MODULE).unwrap();
    assert_eq!(known.len(), 2);
    assert!(once.iter().all(|e| known.contains(e)));
    assert!(known.iter().any(|e| e.file_uri == "x"));
}

// Discovery

#[test]
fn imports_that_ask_for_discovery() {
    assert!(import_triggers_binding_discovery("com.x.databinding.ItemBinding"));
    assert!(!import_triggers_binding_discovery("com.x.Item"));
    assert!(file_imports_trigger_binding_discovery(&vec![
        import("a.B"),
        import("com.x.databinding.ItemBinding"),
    ]));
    assert!(!file_imports_trigger_binding_discovery(&vec![import("a.B")]));
}

#[test]
fn requests_for_one_module_are_joined() {
    let mut handle = BindingDiscoveryHandle::with_worker();
    handle.request("/m");
    handle.request("/m");
    handle.request("/n");
    assert_eq!(handle.take_request().as_deref(), Some("/m"));
    handle.request("/m");
    assert_eq!(handle.take_request().as_deref(), Some("/n"));
    assert_eq!(handle.take_request(), None);
    handle.finish("/m");
    handle.request("/m");
    assert_eq!(handle.take_request().as_deref(), Some("/m"));
}

#[test]
fn without_a_worker_nothing_is_queued() {
    let mut handle = BindingDiscoveryHandle::noop();
    handle.request("/m");
    assert_eq!(handle.take_request(), None);
}

#[test]
fn files_that_import_bindings_ask_for_their_module() {
    let mut idx = Indexer::new();
    idx.set_binding_discovery_handle(BindingDiscoveryHandle::with_worker());
    let uri = "file:///ws/app/src/main/java/A.kt";
    let data = FileData {
        imports: vec![import("com.x.databinding.ItemBinding")],
        ..FileData::default()
    };
    idx.index_content(uri, "import com.x.databinding.ItemBinding", data, None);
    assert_eq!(idx.binding_discovery.take_request().as_deref(), Some("/ws/app"));
    idx.binding_discovery.clear();
    assert_eq!(idx.binding_discovery.take_request(), None);
}

#[test]
fn bindings_from_a_cache() {
    let mut idx = Indexer::new();
    idx.set_binding_discovery_handle(BindingDiscoveryHandle::with_worker());
    let cached = vec![(MODULE.to_string(), vec![binding("ABinding", "file:///a", 1)])];
    idx.restore_generated_bindings_from_cache(&cached);
    assert!(idx.generated_binding_discovered(MODULE, "ABinding"));
    assert!(idx.is_generated_binding_uri("file:///a"));
    assert!(!idx.is_generated_binding_uri("file:///b"));
}

// Layouts

#[test]
fn variants_of_a_layout_agree_on_types() {
    let both = vec![
        layout("item", "", "LinearLayout", vec![view("name", "TextView")]),
        layout("item", "land", "LinearLayout", vec![view("name", "TextView")]),
    ];
    assert_eq!(
        view_id_field_type_from_variants(&both, "name").as_deref(),
        Some("TextView")
    );
    assert_eq!(root_field_type_from_variants(&both).as_deref(), Some("LinearLayout"));
    let split = vec![
        layout("item", "", "LinearLayout", vec![view("name", "TextView")]),
        layout("item", "land", "FrameLayout", vec![view("name", "Button")]),
    ];
    assert_eq!(view_id_field_type_from_variants(&split, "name").as_deref(), Some("View"));
    assert_eq!(root_field_type_from_variants(&split).as_deref(), Some("View"));
    assert_eq!(view_id_field_type_from_variants(&both, "other"), None);
}

#[test]
fn tags_that_agree() {
    let tags = |l: &[&str]| l.iter().map(|s| s.to_string()).collect::<Vec<_>>();
    assert_eq!(consensus_tag_type(&tags(&["B", "B"])).as_deref(), Some("B"));
    assert_eq!(consensus_tag_type(&tags(&["B", "C"])).as_deref(), Some("View"));
    assert_eq!(consensus_tag_type(&tags(&[])), None);
}

#[test]
fn included_layouts_have_bindings() {
    let mut outer = layout("outer", "", "LinearLayout", vec![]);
    outer.includes.push(LayoutInclude {
        id: Some("tool_bar".to_string()),
        included_layout_name: "my_toolbar".to_string(),
    });
    assert_eq!(
        include_field_type_from_variants(&vec![outer], "toolBar").as_deref(),
        Some("MyToolbarBinding")
    );
}

#[test]
fn fields_of_binding_classes() {
    let mut idx = Indexer::new();
    let uri = "file:///ws/app/src/main/res/layout/item_row.xml";
    let data = layout("item_row", "", "LinearLayout", vec![view("user_name", "TextView")]);
    idx.index_layout_content(uri, data);
    assert_eq!(
        field_type_from_layout_variants(&idx, MODULE, "item_row", "userName").as_deref(),
        Some("TextView")
    );
    assert_eq!(
        field_type_from_layout_variants(&idx, MODULE, "item_row", "root").as_deref(),
        Some("LinearLayout")
    );
    assert!(idx.layout_exists_for_binding(MODULE, "item_row"));
    assert_eq!(idx.layouts_for_binding_class("ItemRowBinding", MODULE).len(), 1);
    let source = "file:///ws/app/src/main/java/A.kt";
    assert_eq!(
        binding_field_type(&idx, Some(source), "ItemRowBinding", "userName").as_deref(),
        Some("TextView")
    );
    assert_eq!(binding_field_type(&idx, Some(source), "ItemRowBinding", "other"), None);
}

#[test]
fn layouts_are_entered_as_documents() {
    let mut idx = Indexer::new();
    let uri = "file:///ws/app/src/main/res/layout/item_row.xml";
    let item_row = || layout("item_row", "", "LinearLayout", vec![view("user_name", "TextView")]);
    let stored = idx.index_content(uri, "<LinearLayout/>", FileData::default(), Some(item_row()));
    assert!(stored.is_none());
    assert!(idx.layouts.contains_key(uri));
    assert!(!idx.files.contains_key(uri));
    assert!(idx.layout_exists_for_binding(MODULE, "item_row"));
    let strings = "file:///ws/app/src/main/res/values/strings.xml";
    assert!(idx.index_content(strings, "<r/>", FileData::default(), Some(item_row())).is_none());
    assert!(!idx.layouts.contains_key(strings));
    assert!(!idx.files.contains_key(strings));
}

#[test]
fn java_fields() {
    assert_eq!(
        java_field_type_from_detail("public final TextView userName", "userName").as_deref(),
        Some("TextView")
    );
    assert_eq!(java_field_type_from_detail("public final TextView userName", "x"), None);
}

#[test]
fn unchanged_layouts_come_from_the_cache() {
    let mut cached: Table<LayoutCacheEntry> = Table::new();
    let path = "/ws/app/src/main/res/layout/item.xml";
    cached.insert(
        path,
        LayoutCacheEntry {
            mtime_secs: 1,
            file_size: 2,
            data: layout("item", "", "LinearLayout", vec![]),
        },
    );
    let files = vec![path.to_string(), "/ws/app/src/main/res/layout/new.xml".to_string()];
    let uris = vec![Some("file:///item".to_string()), Some("file:///new".to_string())];
    let mut idx = Indexer::new();
    let left = idx.index_workspace_layouts(&files, &uris, &vec![(1, 2), (1, 2)], Some(&cached));
    assert_eq!(left.len(), 1);
    assert!(idx.layouts.contains_key("file:///item"));
    assert!(!idx.layouts.contains_key("file:///new"));
}

#[test]
fn types_that_a_file_names() {
    let lines = vec![
        "val a: Repo".to_string(),
        "val b: Repo = Repo()".to_string(),
        "val c: Service".to_string(),
    ];
    assert_eq!(declared_type_names(&lines), vec!["Repo", "Service"]);
}
