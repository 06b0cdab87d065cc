//! The types of view binding fields: read from the layout first, else from the generated class.
use vstd::prelude::*;
use vstd::string::*;

use crate::binding_discovery;
use crate::index::{IndexView, Indexer};
use crate::layouts::{
    BindingView, GeneratedBindingEntry, IncludeView, LayoutFileData, LayoutView, ViewIdView,
};
use crate::lists;
use crate::naming;
use crate::paths;
use crate::text;
use crate::text::CharClass;
use crate::types::{FileData, FileView, ImportView, SymbolKind, SymbolView};
use crate::urls;

verus! {

// ---------------------------------------------------------------------------
// Names of types
// ---------------------------------------------------------------------------

/// Whether a word of a Java field declaration can be its type: it is no modifier and no
/// annotation, and does not end the declaration.
pub open spec fn type_word() -> spec_fn(Seq<char>) -> bool {
    |w: Seq<char>|
        w != "public"@ && w != "private"@ && w != "protected"@ && w != "final"@ && w != "static"@
            && !text::starts_with(w, "@"@) && !text::ends_with(w, ";"@)
}

fn is_type_word(w: &str) -> (r: bool)
    ensures
        r == type_word()(w@),
{
    !text::same(w, "public") && !text::same(w, "private") && !text::same(w, "protected")
        && !text::same(w, "final") && !text::same(w, "static") && !text::has_prefix(w, "@")
        && !text::has_suffix(w, ";")
}

/// The type in the declaration of a Java field: the last word before the field's name that can
/// be one.
pub open spec fn java_field_type(detail: Seq<char>, field_name: Seq<char>) -> Option<Seq<char>> {
    match text::suffix_stripped(
        text::without_suffix_of(text::trimmed(detail), text::only(';')),
        field_name,
    ) {
        Some(head) => {
            let words = text::words_of(text::trimmed(head)).filter(type_word());
            if words.len() > 0 {
                Some(words.last())
            } else {
                None
            }
        },
        None => None,
    }
}

/// The type in the declaration of a Java field.
pub fn java_field_type_from_detail(detail: &str, field_name: &str) -> (r: Option<String>)
    ensures
        r.deep_view() == java_field_type(detail@, field_name@),
{
    let whole = text::trim_end_class(text::trim(detail), CharClass::Only(';'));
    let head = match text::strip_suffix(whole, field_name) {
        Some(head) => text::trim(head),
        None => {
            return None;
        },
    };
    let words = text::words(head);
    let ghost all = words.deep_view();
    let ghost p = type_word();
    let mut last: Option<&str> = None;
    let mut i: usize = 0;
    proof {
        reveal(Seq::filter);
        assert(all.take(0).filter(p) =~= Seq::empty());
    }
    while i < words.len()
        invariant
            i <= words@.len(),
            all == words.deep_view(),
            p == type_word(),
            match last {
                Some(w) => all.take(i as int).filter(p).len() > 0 && all.take(i as int).filter(
                    p,
                ).last() == w@,
                None => all.take(i as int).filter(p).len() == 0,
            },
        decreases words@.len() - i,
    {
        let w = words[i];
        proof {
            assert(all[i as int] == w@);
            assert(all.take(i as int).push(w@) =~= all.take(i + 1));
            all.take(i as int).lemma_filter_push(w@, p);
        }
        if is_type_word(w) {
            last = Some(w);
        }
        i += 1;
    }
    assert(all.take(all.len() as int) =~= all);
    match last {
        Some(w) => Some(w.to_owned()),
        None => None,
    }
}

/// A type's name without its package.
pub fn short_type_name(full_name: &str) -> (r: String)
    ensures
        r@ == text::last_segment_of(text::trimmed(full_name@)),
{
    text::last_segment(text::trim(full_name)).to_owned()
}

/// The name of a view's class, as a layout's tag gives it.
pub fn leaf_tag_name(tag_name: &str) -> (r: String)
    ensures
        r@ == leaf_of(tag_name@),
{
    short_type_name(tag_name)
}

/// The name of a view's class, as a layout's tag gives it.
pub open spec fn leaf_of(tag_name: Seq<char>) -> Seq<char> {
    text::last_segment_of(text::trimmed(tag_name))
}

// ---------------------------------------------------------------------------
// Layouts
// ---------------------------------------------------------------------------

/// The id that a binding field is generated from: `userName` is generated from `user_name`.
pub fn binding_field_name_to_id(field_name: &str) -> (r: String)
    ensures
        r@ == naming::snake(field_name@),
{
    naming::pascal_case_to_snake_case(field_name)
}

/// Whether an id, as the layout spells it, is the one looked up.
pub open spec fn id_matches(id: Seq<char>, lookup: Seq<char>) -> bool {
    id == lookup || naming::snake(id) == lookup
}

/// Whether an id, as the layout spells it, is the one looked up.
pub fn view_id_matches_lookup(id: &str, lookup: &str) -> (r: bool)
    ensures
        r == id_matches(id@, lookup@),
{
    text::same(id, lookup) || text::same(
        naming::pascal_case_to_snake_case(id).as_str(),
        lookup,
    )
}

/// The type that variants agree on; `View` where they differ.
pub open spec fn agreed_type(tags: Seq<Seq<char>>) -> Option<Seq<char>> {
    if tags.len() == 0 {
        None
    } else if forall|i: int| 0 <= i < tags.len() ==> #[trigger] tags[i] == tags[0] {
        Some(tags[0])
    } else {
        Some("View"@)
    }
}

/// The type that variants agree on; `View` where they differ.
pub fn consensus_tag_type(tag_names: &Vec<String>) -> (r: Option<String>)
    ensures
        r.deep_view() == agreed_type(tag_names.deep_view()),
{
    let ghost all = tag_names.deep_view();
    if tag_names.len() == 0 {
        return None;
    }
    let first = tag_names[0].as_str();
    let mut i: usize = 0;
    assert(all[0] == first@);
    while i < tag_names.len()
        invariant
            0 < tag_names@.len(),
            i <= tag_names@.len(),
            all == tag_names.deep_view(),
            first@ == all[0],
            forall|k: int| 0 <= k < i ==> #[trigger] all[k] == all[0],
        decreases tag_names@.len() - i,
    {
        assert(all[i as int] == tag_names@[i as int]@);
        if !text::same(tag_names[i].as_str(), first) {
            return Some("View".to_owned());
        }
        i += 1;
    }
    Some(first.to_owned())
}

/// The classes of the outermost views.
pub open spec fn root_tags(layouts: Seq<LayoutView>) -> Seq<Seq<char>> {
    layouts.map_values(|l: LayoutView| leaf_of(l.root_tag))
}

/// The type of the `root` field of a binding.
pub fn root_field_type_from_variants(layouts: &Vec<LayoutFileData>) -> (r: Option<String>)
    ensures
        r.deep_view() == agreed_type(root_tags(layouts.deep_view())),
{
    let ghost all = layouts.deep_view();
    let mut tags: Vec<String> = Vec::new();
    let mut i: usize = 0;
    while i < layouts.len()
        invariant
            i <= layouts@.len(),
            all == layouts.deep_view(),
            tags.deep_view() == root_tags(all.take(i as int)),
        decreases layouts@.len() - i,
    {
        let ghost before = tags.deep_view();
        let tag = leaf_tag_name(layouts[i].root_tag.as_str());
        proof {
            assert(all[i as int] == layouts@[i as int].deep_view());
            assert(root_tags(all.take(i + 1)) =~= root_tags(all.take(i as int)).push(tag@));
        }
        tags.push(tag);
        assert(tags.deep_view() =~= root_tags(all.take(i + 1)));
        i += 1;
    }
    assert(all.take(all.len() as int) =~= all);
    consensus_tag_type(&tags)
}

/// The classes of the views that have the id in one variant.
pub open spec fn tags_in(ids: Seq<ViewIdView>, lookup: Seq<char>) -> Seq<Seq<char>>
    decreases ids.len(),
{
    if ids.len() == 0 {
        Seq::empty()
    } else {
        let before = tags_in(ids.drop_last(), lookup);
        if id_matches(ids.last().id, lookup) {
            before.push(leaf_of(ids.last().tag_name))
        } else {
            before
        }
    }
}

/// The classes of the views that have the id, over all variants.
pub open spec fn view_tags(layouts: Seq<LayoutView>, lookup: Seq<char>) -> Seq<Seq<char>>
    decreases layouts.len(),
{
    if layouts.len() == 0 {
        Seq::empty()
    } else {
        view_tags(layouts.drop_last(), lookup) + tags_in(layouts.last().view_ids, lookup)
    }
}

/// The type of the field generated from a view's id.
pub fn view_id_field_type_from_variants(layouts: &Vec<LayoutFileData>, field_name: &str) -> (r:
    Option<String>)
    ensures
        r.deep_view() == agreed_type(view_tags(layouts.deep_view(), naming::snake(field_name@))),
{
    let lookup = binding_field_name_to_id(field_name);
    let ghost all = layouts.deep_view();
    let mut tags: Vec<String> = Vec::new();
    let mut i: usize = 0;
    while i < layouts.len()
        invariant
            i <= layouts@.len(),
            all == layouts.deep_view(),
            tags.deep_view() == view_tags(all.take(i as int), lookup@),
        decreases layouts@.len() - i,
    {
        let ids = &layouts[i].view_ids;
        let ghost v = ids.deep_view();
        let ghost start = tags.deep_view();
        let mut j: usize = 0;
        assert(start + tags_in(v.take(0), lookup@) =~= start);
        while j < ids.len()
            invariant
                j <= ids@.len(),
                v == ids.deep_view(),
                tags.deep_view() == start + tags_in(v.take(j as int), lookup@),
            decreases ids@.len() - j,
        {
            let ghost before = tags.deep_view();
            proof {
                assert(v.take(j + 1).drop_last() =~= v.take(j as int));
                assert(v.take(j + 1).last() == ids@[j as int].deep_view());
            }
            if view_id_matches_lookup(ids[j].id.as_str(), lookup.as_str()) {
                let tag = leaf_tag_name(ids[j].tag_name.as_str());
                let ghost t = tag@;
                tags.push(tag);
                assert(tags.deep_view() =~= before.push(t));
                assert(before.push(t) =~= start + tags_in(v.take(j as int), lookup@).push(t));
            }
            j += 1;
        }
        proof {
            assert(v.take(v.len() as int) =~= v);
            assert(all.take(i + 1).drop_last() =~= all.take(i as int));
            assert(all.take(i + 1).last() == layouts@[i as int].deep_view());
        }
        i += 1;
    }
    assert(all.take(all.len() as int) =~= all);
    consensus_tag_type(&tags)
}

/// Whether an include has the id.
pub open spec fn include_with(lookup: Seq<char>) -> spec_fn(IncludeView) -> bool {
    |i: IncludeView|
        match i.id {
            Some(id) => id_matches(id, lookup),
            None => false,
        }
}

/// Whether a layout has an include with the id.
pub open spec fn includes_with(lookup: Seq<char>) -> spec_fn(LayoutView) -> bool {
    |l: LayoutView| lists::find_where(l.includes, include_with(lookup)) is Some
}

/// The binding class of the layout that is taken in under the id.
pub open spec fn include_type(layouts: Seq<LayoutView>, lookup: Seq<char>) -> Option<Seq<char>> {
    match lists::find_where(layouts, includes_with(lookup)) {
        Some(l) => match lists::find_where(l.includes, include_with(lookup)) {
            Some(i) => Some(naming::binding_class(i.included_layout_name)),
            None => None,
        },
        None => None,
    }
}

/// The type of the field generated from an include's id.
pub fn include_field_type_from_variants(layouts: &Vec<LayoutFileData>, field_name: &str) -> (r:
    Option<String>)
    ensures
        r.deep_view() == include_type(layouts.deep_view(), naming::snake(field_name@)),
{
    let lookup = binding_field_name_to_id(field_name);
    let ghost all = layouts.deep_view();
    let ghost p = includes_with(lookup@);
    let ghost q = include_with(lookup@);
    let mut i: usize = 0;
    while i < layouts.len()
        invariant
            i <= layouts@.len(),
            all == layouts.deep_view(),
            lookup@ == naming::snake(field_name@),
            p == includes_with(lookup@),
            q == include_with(lookup@),
            forall|k: int| 0 <= k < i ==> !p(#[trigger] all[k]),
        decreases layouts@.len() - i,
    {
        let includes = &layouts[i].includes;
        let ghost v = includes.deep_view();
        assert(all[i as int] == layouts@[i as int].deep_view());
        let mut j: usize = 0;
        while j < includes.len()
            invariant
                i < layouts@.len(),
                j <= includes@.len(),
                all == layouts.deep_view(),
                all[i as int].includes == v,
                v == includes.deep_view(),
                lookup@ == naming::snake(field_name@),
                p == includes_with(lookup@),
                q == include_with(lookup@),
                forall|k: int| 0 <= k < i ==> !p(#[trigger] all[k]),
                forall|k: int| 0 <= k < j ==> !q(#[trigger] v[k]),
            decreases includes@.len() - j,
        {
            assert(v[j as int] == includes@[j as int].deep_view());
            if let Some(id) = &includes[j].id {
                if view_id_matches_lookup(id.as_str(), lookup.as_str()) {
                    proof {
                        lists::lemma_first(v, q, j as int);
                        lists::lemma_first(all, p, i as int);
                    }
                    return Some(
                        naming::binding_class_name_for_layout(
                            includes[j].included_layout_name.as_str(),
                        ),
                    );
                }
            }
            j += 1;
        }
        proof {
            lists::lemma_no_first(v, q);
        }
        i += 1;
    }
    proof {
        lists::lemma_no_first(all, p);
    }
    None
}

/// The type of a binding field, by the variants of the layout: that of the outermost view for
/// `root`, else that of an include with the field's id, else that of a view with it.
pub open spec fn layout_field_type(layouts: Seq<LayoutView>, field_name: Seq<char>) -> Option<
    Seq<char>,
> {
    let lookup = naming::snake(field_name);
    if layouts.len() == 0 {
        None
    } else if field_name == "root"@ {
        agreed_type(root_tags(layouts))
    } else if include_type(layouts, lookup) is Some {
        include_type(layouts, lookup)
    } else {
        agreed_type(view_tags(layouts, lookup))
    }
}

/// The type of a binding field, by the variants of a module's layout.
pub fn field_type_from_layout_variants(
    index: &Indexer,
    module_root: &str,
    layout_name: &str,
    field_name: &str,
) -> (r: Option<String>)
    requires
        index.wf(),
    ensures
        exists|l: Seq<LayoutView>| #[trigger]
            binding_discovery::layouts_listed(
                index@.layouts,
                module_root@,
                naming::binding_class(layout_name@),
                l,
            ) && r.deep_view() == layout_field_type(l, field_name@),
{
    let class = naming::binding_class_name_for_layout(layout_name);
    let layouts = index.layouts_for_binding_class(class.as_str(), module_root);
    let ghost l = layouts.deep_view();
    assert(binding_discovery::layouts_listed(
        index@.layouts,
        module_root@,
        naming::binding_class(layout_name@),
        l,
    ));
    if layouts.len() == 0 {
        return None;
    }
    if text::same(field_name, "root") {
        return root_field_type_from_variants(&layouts);
    }
    let included = include_field_type_from_variants(&layouts, field_name);
    if included.is_some() {
        return included;
    }
    view_id_field_type_from_variants(&layouts, field_name)
}

// ---------------------------------------------------------------------------
// Modules
// ---------------------------------------------------------------------------

/// Whether an entry is of the class.
pub open spec fn of_class(class_name: Seq<char>) -> spec_fn(BindingView) -> bool {
    |e: BindingView| e.class_name == class_name
}

/// A module's entry for a class.
pub open spec fn module_entry(v: IndexView, root: Seq<char>, class_name: Seq<char>) -> Option<
    BindingView,
> {
    if v.generated_bindings.dom().contains(root) {
        lists::find_where(v.generated_bindings[root], of_class(class_name))
    } else {
        None
    }
}

fn entry_of<'a>(entries: &'a Vec<GeneratedBindingEntry>, class_name: &str) -> (r: Option<
    &'a GeneratedBindingEntry,
>)
    ensures
        match r {
            Some(e) => lists::find_where(entries.deep_view(), of_class(class_name@)) == Some(
                e.deep_view(),
            ),
            None => lists::find_where(entries.deep_view(), of_class(class_name@)) is None,
        },
{
    let ghost all = entries.deep_view();
    let ghost p = of_class(class_name@);
    let mut i: usize = 0;
    while i < entries.len()
        invariant
            i <= entries@.len(),
            all == entries.deep_view(),
            p == of_class(class_name@),
            forall|k: int| 0 <= k < i ==> !p(#[trigger] all[k]),
        decreases entries@.len() - i,
    {
        assert(all[i as int] == entries@[i as int].deep_view());
        if text::same(entries[i].class_name.as_str(), class_name) {
            proof {
                lists::lemma_first(all, p, i as int);
            }
            return Some(&entries[i]);
        }
        i += 1;
    }
    proof {
        lists::lemma_no_first(all, p);
    }
    None
}

/// What is known of a file.
pub open spec fn file_data(v: IndexView, uri: Seq<char>) -> Option<FileView> {
    if v.files.dom().contains(uri) {
        Some(v.files[uri])
    } else {
        None
    }
}

/// Whether the module has a variant of the layout.
pub open spec fn has_layout(v: IndexView, root: Seq<char>, layout_name: Seq<char>) -> bool {
    exists|uri: Seq<char>| #[trigger]
        v.layouts.dom().contains(uri) && binding_discovery::variant_of(root, layout_name)(
            v.layouts[uri],
        )
}

impl Indexer {
    /// What is known of a file.
    pub fn file_data_for(&self, uri: &str) -> (r: Option<&FileData>)
        requires
            self.wf(),
        ensures
            match r {
                Some(d) => file_data(self@, uri@) == Some(d.deep_view()),
                None => file_data(self@, uri@) is None,
            },
    {
        self.files.get(uri)
    }

    /// Whether the module has a variant of the layout.
    pub fn layout_exists_for_binding(&self, module_root: &str, layout_name: &str) -> (r: bool)
        requires
            self.wf(),
        ensures
            r == has_layout(self@, module_root@, layout_name@),
    {
        let ghost keys = self.layouts.order();
        let ghost m = self@.layouts;
        let ghost p = binding_discovery::variant_of(module_root@, layout_name@);
        proof {
            self.layouts.lemma_order();
        }
        let mut i: usize = 0;
        while i < self.layouts.len()
            invariant
                self.wf(),
                i <= keys.len(),
                keys == self.layouts.order(),
                m == self@.layouts,
                p == binding_discovery::variant_of(module_root@, layout_name@),
                forall|k: int| 0 <= k < i ==> !p(m[#[trigger] keys[k]]),
            decreases keys.len() - i,
        {
            let data = self.layouts.value_at(i);
            if paths::same_path(data.module_root.as_str(), module_root) && text::same(
                data.layout_name.as_str(),
                layout_name,
            ) {
                assert(m.dom().contains(keys[i as int]));
                return true;
            }
            i += 1;
        }
        assert forall|uri: Seq<char>| #[trigger] m.dom().contains(uri) implies !p(m[uri]) by {
            assert(keys.contains(uri));
            let k = choose|k: int| 0 <= k < keys.len() && keys[k] == uri;
        }
        false
    }

    /// Whether the module is known to have generated the class.
    pub fn generated_binding_discovered(&self, module_root: &str, class_name: &str) -> (r: bool)
        requires
            self.wf(),
        ensures
            r == (module_entry(self@, paths::plain(module_root@), class_name@) is Some),
    {
        let key = paths::plain_path(module_root);
        match self.generated_bindings.get(key.as_str()) {
            Some(entries) => entry_of(entries, class_name).is_some(),
            None => false,
        }
    }
}

/// Whether the module has the layout of the class, or is known to have generated the class.
pub open spec fn module_has(v: IndexView, root: Seq<char>, class_name: Seq<char>) -> bool {
    match naming::layout_of_class(class_name) {
        Some(name) => has_layout(v, root, name) || module_entry(
            v,
            paths::plain(root),
            class_name,
        ) is Some,
        None => false,
    }
}

/// Whether the module has the layout of the class, or is known to have generated the class.
pub fn module_has_binding_layout(index: &Indexer, module_root: &str, binding_class: &str) -> (r:
    bool)
    requires
        index.wf(),
    ensures
        r == module_has(index@, module_root@, binding_class@),
{
    match naming::layout_name_for_binding_class(binding_class) {
        Some(name) => index.layout_exists_for_binding(module_root, name.as_str())
            || index.generated_binding_discovered(module_root, binding_class),
        None => false,
    }
}

/// Whether a layout file is a variant of the layout, in whatever module.
pub open spec fn layout_named(v: IndexView, uri: Seq<char>, layout_name: Seq<char>) -> bool {
    v.layouts.dom().contains(uri) && v.layouts[uri].layout_name == layout_name
}

/// Whether every variant of the layout belongs to the module.
pub open spec fn only_module(v: IndexView, root: Seq<char>, layout_name: Seq<char>) -> bool {
    forall|uri: Seq<char>| #[trigger]
        layout_named(v, uri, layout_name) ==> paths::components(v.layouts[uri].module_root)
            == paths::components(root)
}

/// Whether `r` is the root of the one module that has the layout of the class; none where no
/// module or more than one has it.
pub open spec fn sole_module(v: IndexView, class_name: Seq<char>, r: Option<Seq<char>>) -> bool {
    match naming::layout_of_class(class_name) {
        Some(name) => match r {
            Some(root) => only_module(v, root, name) && exists|uri: Seq<char>| #[trigger]
                layout_named(v, uri, name) && v.layouts[uri].module_root == root,
            None => forall|uri: Seq<char>| #[trigger]
                layout_named(v, uri, name) ==> !only_module(v, v.layouts[uri].module_root, name),
        },
        None => r is None,
    }
}

/// The root of the one module that has the layout of the class.
pub fn module_root_if_unambiguous_layout(index: &Indexer, binding_class: &str) -> (r: Option<
    String,
>)
    requires
        index.wf(),
    ensures
        sole_module(index@, binding_class@, r.deep_view()),
{
    let name = match naming::layout_name_for_binding_class(binding_class) {
        Some(name) => name,
        None => {
            return None;
        },
    };
    let ghost keys = index.layouts.order();
    let ghost v = index@;
    proof {
        index.layouts.lemma_order();
    }
    let mut found: Option<usize> = None;
    let mut i: usize = 0;
    while i < index.layouts.len()
        invariant
            index.wf(),
            i <= keys.len(),
            keys == index.layouts.order(),
            v == index@,
            naming::layout_of_class(binding_class@) == Some(name@),
            forall|k: int| 0 <= k < keys.len() ==> v.layouts.dom().contains(#[trigger] keys[k]),
            forall|k: Seq<char>| #[trigger] v.layouts.dom().contains(k) ==> keys.contains(k),
            match found {
                Some(b) => b < i && layout_named(v, keys[b as int], name@) && forall|k: int|
                    0 <= k < i && layout_named(v, #[trigger] keys[k], name@) ==> paths::components(
                        v.layouts[keys[k]].module_root,
                    ) == paths::components(v.layouts[keys[b as int]].module_root),
                None => forall|k: int|
                    0 <= k < i ==> !layout_named(v, #[trigger] keys[k], name@),
            },
        decreases keys.len() - i,
    {
        let data = index.layouts.value_at(i);
        if text::same(data.layout_name.as_str(), name.as_str()) {
            assert(layout_named(v, keys[i as int], name@));
            if let Some(b) = found {
                let other = index.layouts.value_at(b);
                if !paths::same_path(other.module_root.as_str(), data.module_root.as_str()) {
                    proof {
                        assert forall|uri: Seq<char>| #[trigger] layout_named(
                            v,
                            uri,
                            name@,
                        ) implies !only_module(v, v.layouts[uri].module_root, name@) by {
                            if only_module(v, v.layouts[uri].module_root, name@) {
                                assert(layout_named(v, keys[b as int], name@));
                                assert(layout_named(v, keys[i as int], name@));
                            }
                        }
                    }
                    return None;
                }
            }
            found = Some(i);
        }
        i += 1;
    }
    match found {
        Some(b) => {
            let data = index.layouts.value_at(b);
            proof {
                let root = data.module_root@;
                assert forall|uri: Seq<char>| #[trigger] layout_named(
                    v,
                    uri,
                    name@,
                ) implies paths::components(v.layouts[uri].module_root) == paths::components(
                    root,
                ) by {
                    assert(keys.contains(uri));
                    let k = choose|k: int| 0 <= k < keys.len() && keys[k] == uri;
                    assert(layout_named(v, keys[k], name@));
                }
                assert(layout_named(v, keys[b as int], name@));
            }
            Some(data.module_root.clone())
        },
        None => {
            proof {
                assert forall|uri: Seq<char>| layout_named(v, uri, name@) implies false by {
                    assert(keys.contains(uri));
                    let k = choose|k: int| 0 <= k < keys.len() && keys[k] == uri;
                    assert(!layout_named(v, keys[k], name@));
                }
            }
            None
        },
    }
}

// ---------------------------------------------------------------------------
// Generated files
// ---------------------------------------------------------------------------

/// Whether an import brings the class in under its own name.
pub open spec fn imports_class(class_name: Seq<char>) -> spec_fn(ImportView) -> bool {
    |i: ImportView|
        !i.is_star && i.local_name == class_name && text::ends_with(
            i.full_path,
            "."@ + class_name,
        )
}

/// The package that a file imports the class from.
pub open spec fn imported_package(v: IndexView, source_uri: Seq<char>, class_name: Seq<char>) -> Option<
    Seq<char>,
> {
    match file_data(v, source_uri) {
        Some(f) => match lists::find_where(f.imports, imports_class(class_name)) {
            Some(i) => match text::rindex_of(i.full_path, '.') {
                Some(dot) => Some(i.full_path.take(dot)),
                None => None,
            },
            None => None,
        },
        None => None,
    }
}

/// The package that a file imports the class from.
fn package_of_import(index: &Indexer, source_uri: &str, binding_class: &str) -> (r: Option<String>)
    requires
        index.wf(),
    ensures
        r.deep_view() == imported_package(index@, source_uri@, binding_class@),
{
    let file = match index.file_data_for(source_uri) {
        Some(file) => file,
        None => {
            return None;
        },
    };
    let suffix = text::concat(".", binding_class);
    let ghost all = file.imports.deep_view();
    let ghost p = imports_class(binding_class@);
    let mut i: usize = 0;
    while i < file.imports.len()
        invariant
            i <= file.imports@.len(),
            all == file.imports.deep_view(),
            p == imports_class(binding_class@),
            suffix@ == "."@ + binding_class@,
            file_data(index@, source_uri@) == Some(file.deep_view()),
            forall|k: int| 0 <= k < i ==> !p(#[trigger] all[k]),
        decreases file.imports@.len() - i,
    {
        let import = &file.imports[i];
        assert(all[i as int] == import.deep_view());
        if !import.is_star && text::same(import.local_name.as_str(), binding_class)
            && text::has_suffix(import.full_path.as_str(), suffix.as_str()) {
            proof {
                lists::lemma_first(all, p, i as int);
            }
            return match text::rfind_char(import.full_path.as_str(), '.') {
                Some(dot) => Some(text::take(import.full_path.as_str(), dot).to_owned()),
                None => None,
            };
        }
        i += 1;
    }
    proof {
        lists::lemma_no_first(all, p);
    }
    None
}

/// Whether the module generated the class into the package.
pub open spec fn generated_in(
    v: IndexView,
    root: Seq<char>,
    class_name: Seq<char>,
    package: Seq<char>,
) -> bool {
    match module_entry(v, root, class_name) {
        Some(e) => match file_data(v, e.file_uri) {
            Some(f) => f.package == Some(package),
            None => false,
        },
        None => false,
    }
}

/// Whether `r` is the file of a module which generated the class into the package; none where
/// no module did.
pub open spec fn generated_for(
    v: IndexView,
    class_name: Seq<char>,
    package: Seq<char>,
    r: Option<Seq<char>>,
) -> bool {
    match r {
        Some(uri) => exists|root: Seq<char>| #[trigger]
            generated_in(v, root, class_name, package) && module_entry(
                v,
                root,
                class_name,
            ).unwrap().file_uri == uri,
        None => forall|root: Seq<char>| !#[trigger] generated_in(v, root, class_name, package),
    }
}

/// Whether `r` is the file of the class as the source imports it.
pub open spec fn imported_binding(
    v: IndexView,
    source_uri: Seq<char>,
    class_name: Seq<char>,
    r: Option<Seq<char>>,
) -> bool {
    match imported_package(v, source_uri, class_name) {
        Some(package) => generated_for(v, class_name, package, r),
        None => r is None,
    }
}

/// The file of the class as the source imports it.
pub fn binding_file_uri_from_import(index: &Indexer, source_uri: &str, binding_class: &str) -> (r:
    Option<String>)
    requires
        index.wf(),
    ensures
        imported_binding(index@, source_uri@, binding_class@, r.deep_view()),
{
    let package = match package_of_import(index, source_uri, binding_class) {
        Some(package) => package,
        None => {
            return None;
        },
    };
    let ghost v = index@;
    let ghost keys = index.generated_bindings.order();
    proof {
        index.generated_bindings.lemma_order();
    }
    let mut i: usize = 0;
    while i < index.generated_bindings.len()
        invariant
            index.wf(),
            v == index@,
            i <= keys.len(),
            keys == index.generated_bindings.order(),
            imported_package(v, source_uri@, binding_class@) == Some(package@),
            forall|k: int|
                0 <= k < i ==> !generated_in(v, #[trigger] keys[k], binding_class@, package@),
        decreases keys.len() - i,
    {
        if let Some(entry) = entry_of(index.generated_bindings.value_at(i), binding_class) {
            assert(module_entry(v, keys[i as int], binding_class@) == Some(entry.deep_view()));
            if let Some(file) = index.file_data_for(entry.file_uri.as_str()) {
                if let Some(own) = &file.package {
                    if text::same(own.as_str(), package.as_str()) {
                        let r = Some(entry.file_uri.clone());
                        proof {
                            assert(own@ == package@);
                            assert(file.deep_view().package == Some(package@));
                            assert(generated_in(v, keys[i as int], binding_class@, package@));
                            assert(r.deep_view() == Some(entry.file_uri@));
                            assert(generated_for(v, binding_class@, package@, r.deep_view()));
                        }
                        return r;
                    }
                }
            }
        }
        i += 1;
    }
    assert forall|root: Seq<char>| !#[trigger] generated_in(
        v,
        root,
        binding_class@,
        package@,
    ) by {
        if v.generated_bindings.dom().contains(root) {
            assert(keys.contains(root));
            let k = choose|k: int| 0 <= k < keys.len() && keys[k] == root;
            assert(!generated_in(v, keys[k], binding_class@, package@));
        }
    }
    None
}

/// The file that a query comes from.
pub struct SourceFile {
    pub uri: String,
    /// Where the file lies, if the URI names a file.
    pub path: Option<String>,
}

#[verifier::ext_equal]
pub struct SourceView {
    pub uri: Seq<char>,
    pub path: Option<Seq<char>>,
}

impl DeepView for SourceFile {
    type V = SourceView;

    open spec fn deep_view(&self) -> SourceView {
        SourceView { uri: self.uri@, path: self.path.deep_view() }
    }
}

/// The root of the module that a source file belongs to.
pub open spec fn source_module(s: SourceView) -> Option<Seq<char>> {
    match s.path {
        Some(p) => binding_discovery::root_above(p, "src"@),
        None => None,
    }
}

fn module_of_source(source: &SourceFile) -> (r: Option<String>)
    ensures
        r.deep_view() == source_module(source.deep_view()),
{
    match &source.path {
        Some(path) => binding_discovery::module_root_for_source_file(path.as_str()),
        None => None,
    }
}

/// The file of the class in the module that the source belongs to.
pub open spec fn own_binding(v: IndexView, s: SourceView, class_name: Seq<char>) -> Option<
    Seq<char>,
> {
    match source_module(s) {
        Some(root) => match module_entry(v, paths::plain(root), class_name) {
            Some(e) => Some(e.file_uri),
            None => None,
        },
        None => None,
    }
}

/// The file of the class in the module that the source belongs to.
pub fn binding_file_uri_in_own_module(
    index: &Indexer,
    source: &SourceFile,
    binding_class: &str,
) -> (r: Option<String>)
    requires
        index.wf(),
    ensures
        r.deep_view() == own_binding(index@, source.deep_view(), binding_class@),
{
    match module_of_source(source) {
        Some(root) => {
            let key = paths::plain_path(root.as_str());
            match index.generated_bindings.get(key.as_str()) {
                Some(entries) => match entry_of(entries, binding_class) {
                    Some(entry) => Some(entry.file_uri.clone()),
                    None => None,
                },
                None => None,
            }
        },
        None => None,
    }
}

/// Whether `r` is the file of the class in the one module that generated it; none where no
/// module or more than one did.
pub open spec fn sole_binding(v: IndexView, class_name: Seq<char>, r: Option<Seq<char>>) -> bool {
    match r {
        Some(uri) => exists|root: Seq<char>|
            {
                &&& module_entry(v, root, class_name) is Some
                &&& (#[trigger] module_entry(v, root, class_name)).unwrap().file_uri == uri
                &&& forall|other: Seq<char>|
                    (#[trigger] module_entry(v, other, class_name)) is Some ==> other == root
            },
        None => (forall|root: Seq<char>| (#[trigger] module_entry(v, root, class_name)) is None)
            || exists|a: Seq<char>, b: Seq<char>|
            a != b && (#[trigger] module_entry(v, a, class_name)) is Some && (
            #[trigger] module_entry(v, b, class_name)) is Some,
    }
}

/// The file of the class in the one module that generated it.
pub fn binding_file_uri_if_unambiguous(index: &Indexer, binding_class: &str) -> (r: Option<String>)
    requires
        index.wf(),
    ensures
        sole_binding(index@, binding_class@, r.deep_view()),
{
    let ghost v = index@;
    let ghost keys = index.generated_bindings.order();
    proof {
        index.generated_bindings.lemma_order();
    }
    let mut found: Option<usize> = None;
    let mut uri: Option<String> = None;
    let mut i: usize = 0;
    while i < index.generated_bindings.len()
        invariant
            index.wf(),
            v == index@,
            i <= keys.len(),
            keys == index.generated_bindings.order(),
            keys.no_duplicates(),
            match found {
                Some(b) => b < i && module_entry(v, keys[b as int], binding_class@) is Some
                    && uri.deep_view() == Some(
                    module_entry(v, keys[b as int], binding_class@).unwrap().file_uri,
                ) && forall|k: int|
                    0 <= k < i && k != b ==> module_entry(v, #[trigger] keys[k], binding_class@) is None,
                None => uri is None && forall|k: int|
                    0 <= k < i ==> module_entry(v, #[trigger] keys[k], binding_class@) is None,
            },
        decreases keys.len() - i,
    {
        if let Some(entry) = entry_of(index.generated_bindings.value_at(i), binding_class) {
            assert(module_entry(v, keys[i as int], binding_class@) == Some(entry.deep_view()));
            if let Some(b) = found {
                assert(keys[b as int] != keys[i as int]);
                return None;
            }
            found = Some(i);
            uri = Some(entry.file_uri.clone());
        }
        i += 1;
    }
    proof {
        assert forall|root: Seq<char>|
            (#[trigger] module_entry(v, root, binding_class@)) is Some implies found is Some && root
            == keys[found.unwrap() as int] by {
            assert(keys.contains(root));
            let k = choose|k: int| 0 <= k < keys.len() && keys[k] == root;
            assert(module_entry(v, keys[k], binding_class@) is Some);
        }
    }
    uri
}

/// Whether `r` is the file that the class means in the source: the imported one, else that of
/// the source's own module, else that of the one module that generated the class.
pub open spec fn binding_for_source(
    v: IndexView,
    s: SourceView,
    class_name: Seq<char>,
    r: Option<Seq<char>>,
) -> bool {
    exists|imported: Option<Seq<char>>| #[trigger]
        imported_binding(v, s.uri, class_name, imported) && if imported is Some {
            r == imported
        } else if own_binding(v, s, class_name) is Some {
            r == own_binding(v, s, class_name)
        } else {
            sole_binding(v, class_name, r)
        }
}

/// The file that the class means in the source.
pub fn binding_file_uri_for_source(index: &Indexer, source: &SourceFile, binding_class: &str) -> (r:
    Option<String>)
    requires
        index.wf(),
    ensures
        binding_for_source(index@, source.deep_view(), binding_class@, r.deep_view()),
{
    let imported = binding_file_uri_from_import(index, source.uri.as_str(), binding_class);
    let ghost s = source.deep_view();
    assert(imported_binding(index@, s.uri, binding_class@, imported.deep_view()));
    if imported.is_some() {
        return imported;
    }
    let own = binding_file_uri_in_own_module(index, source, binding_class);
    if own.is_some() {
        return own;
    }
    binding_file_uri_if_unambiguous(index, binding_class)
}

/// Whether a symbol is a field of the name.
pub open spec fn field_named(name: Seq<char>) -> spec_fn(SymbolView) -> bool {
    |s: SymbolView|
        s.name == name && (s.kind == SymbolKind::Field || s.kind == SymbolKind::Property || s.kind
            == SymbolKind::Variable)
}

/// The type of a field that a Java file declares.
pub open spec fn declared_field_type(v: IndexView, uri: Seq<char>, field_name: Seq<char>) -> Option<
    Seq<char>,
> {
    match file_data(v, uri) {
        Some(f) => match lists::find_where(f.symbols, field_named(field_name)) {
            Some(s) => java_field_type(s.detail, field_name),
            None => None,
        },
        None => None,
    }
}

fn field_type_in_file(index: &Indexer, uri: &str, field_name: &str) -> (r: Option<String>)
    requires
        index.wf(),
    ensures
        r.deep_view() == declared_field_type(index@, uri@, field_name@),
{
    let file = match index.file_data_for(uri) {
        Some(file) => file,
        None => {
            return None;
        },
    };
    let ghost all = file.symbols.deep_view();
    let ghost p = field_named(field_name@);
    let mut i: usize = 0;
    while i < file.symbols.len()
        invariant
            i <= file.symbols@.len(),
            all == file.symbols.deep_view(),
            p == field_named(field_name@),
            file_data(index@, uri@) == Some(file.deep_view()),
            forall|k: int| 0 <= k < i ==> !p(#[trigger] all[k]),
        decreases file.symbols@.len() - i,
    {
        let s = &file.symbols[i];
        assert(all[i as int] == s.deep_view());
        if text::same(s.name.as_str(), field_name) && (s.kind == SymbolKind::Field || s.kind
            == SymbolKind::Property || s.kind == SymbolKind::Variable) {
            proof {
                lists::lemma_first(all, p, i as int);
            }
            return java_field_type_from_detail(s.detail.as_str(), field_name);
        }
        i += 1;
    }
    proof {
        lists::lemma_no_first(all, p);
    }
    None
}

/// Whether `r` is the type that the generated class gives the field.
pub open spec fn generated_field_type(
    v: IndexView,
    s: SourceView,
    class_name: Seq<char>,
    field_name: Seq<char>,
    r: Option<Seq<char>>,
) -> bool {
    exists|uri: Option<Seq<char>>| #[trigger]
        binding_for_source(v, s, class_name, uri) && r == (match uri {
            Some(u) => declared_field_type(v, u, field_name),
            None => None,
        })
}

/// The type that the generated class gives the field.
pub fn java_binding_field_type(
    index: &Indexer,
    source: &SourceFile,
    binding_class: &str,
    field_name: &str,
) -> (r: Option<String>)
    requires
        index.wf(),
    ensures
        generated_field_type(
            index@,
            source.deep_view(),
            binding_class@,
            field_name@,
            r.deep_view(),
        ),
{
    let uri = binding_file_uri_for_source(index, source, binding_class);
    assert(binding_for_source(index@, source.deep_view(), binding_class@, uri.deep_view()));
    match uri {
        Some(uri) => field_type_in_file(index, uri.as_str(), field_name),
        None => None,
    }
}

// ---------------------------------------------------------------------------
// Fields
// ---------------------------------------------------------------------------

/// Whether `r` is the root of the module whose layout the class was generated from: that of
/// the imported class's file, which lies at `binding_path`; else the source's own module,
/// where it has the layout; else the one module that has it.
pub open spec fn class_module(
    v: IndexView,
    source: Option<SourceView>,
    class_name: Seq<char>,
    binding_path: Option<Seq<char>>,
    r: Option<Seq<char>>,
) -> bool {
    let by_import = match binding_path {
        Some(p) => binding_discovery::root_above(p, "build"@),
        None => None,
    };
    let own = match source {
        Some(s) => source_module(s),
        None => None,
    };
    if by_import is Some {
        r == by_import
    } else if own is Some && module_has(v, own.unwrap(), class_name) {
        r == own
    } else {
        sole_module(v, class_name, r)
    }
}

/// The root of the module whose layout the class was generated from. The file of the class, as
/// the source imports it, lies at `binding_path`.
pub fn module_root_for_class_at(
    index: &Indexer,
    source: Option<&SourceFile>,
    binding_class: &str,
    binding_path: Option<&str>,
) -> (r: Option<String>)
    requires
        index.wf(),
    ensures
        class_module(
            index@,
            source.deep_view(),
            binding_class@,
            binding_path.deep_view(),
            r.deep_view(),
        ),
{
    if let Some(path) = binding_path {
        let root = binding_discovery::module_root_for_generated_file(path);
        if root.is_some() {
            return root;
        }
    }
    if let Some(s) = source {
        if let Some(root) = module_of_source(s) {
            if module_has_binding_layout(index, root.as_str(), binding_class) {
                return Some(root);
            }
        }
    }
    module_root_if_unambiguous_layout(index, binding_class)
}

/// Whether `r` is the root of the class's module for some path that the system gives for the
/// imported file.
pub open spec fn module_found(
    v: IndexView,
    source: Option<SourceView>,
    class_name: Seq<char>,
    r: Option<Seq<char>>,
) -> bool {
    exists|binding_path: Option<Seq<char>>|
        {
            &&& #[trigger] class_module(v, source, class_name, binding_path, r)
            &&& binding_path is Some ==> source is Some && exists|uri: Seq<char>|
                urls::path_fits(uri, binding_path) && #[trigger] imported_binding(
                    v,
                    source.unwrap().uri,
                    class_name,
                    Some(uri),
                )
        }
}

/// The root of the module whose layout the class was generated from.
pub fn module_root_for_binding_class(
    index: &Indexer,
    source: Option<&SourceFile>,
    binding_class: &str,
) -> (r: Option<String>)
    requires
        index.wf(),
    ensures
        module_found(index@, source.deep_view(), binding_class@, r.deep_view()),
{
    let mut path: Option<String> = None;
    if let Some(s) = source {
        if let Some(uri) = binding_file_uri_from_import(index, s.uri.as_str(), binding_class) {
            proof {
                let from = source.deep_view().unwrap();
                assert(from.uri == s.uri@);
                assert(imported_binding(index@, from.uri, binding_class@, Some(uri@)));
            }
            path = urls::path_of_url(uri.as_str());
        }
    }
    let ghost p = path.deep_view();
    let r = match &path {
        Some(path) => module_root_for_class_at(index, source, binding_class, Some(path.as_str())),
        None => module_root_for_class_at(index, source, binding_class, None),
    };
    assert(class_module(index@, source.deep_view(), binding_class@, p, r.deep_view()));
    r
}

/// Whether `r` is the type of a field of a binding class whose module is `root`: by the
/// variants of the layout, else by the generated class.
pub open spec fn field_type_in(
    v: IndexView,
    root: Option<Seq<char>>,
    source: Option<SourceView>,
    class_name: Seq<char>,
    field_name: Seq<char>,
    r: Option<Seq<char>>,
) -> bool {
    exists|l: Seq<LayoutView>|
        {
            &&& #[trigger] module_layouts(v, root, class_name, l)
            &&& if layout_field_type(l, field_name) is Some {
                r == layout_field_type(l, field_name)
            } else {
                match source {
                    Some(s) => generated_field_type(v, s, class_name, field_name, r),
                    None => r is None,
                }
            }
        }
}

/// Whether `l` holds the variants of the class's layout in the module; none without a module.
pub open spec fn module_layouts(
    v: IndexView,
    root: Option<Seq<char>>,
    class_name: Seq<char>,
    l: Seq<LayoutView>,
) -> bool {
    match (root, naming::layout_of_class(class_name)) {
        (Some(root), Some(name)) => binding_discovery::layouts_listed(
            v.layouts,
            root,
            naming::binding_class(name),
            l,
        ),
        _ => l.len() == 0,
    }
}

/// The type of a field of a binding class, where the class's module is known.
pub fn binding_field_type_in(
    index: &Indexer,
    module_root: Option<&str>,
    source: Option<&SourceFile>,
    binding_class: &str,
    field_name: &str,
) -> (r: Option<String>)
    requires
        index.wf(),
    ensures
        field_type_in(
            index@,
            module_root.deep_view(),
            source.deep_view(),
            binding_class@,
            field_name@,
            r.deep_view(),
        ),
{
    let ghost mut l: Seq<LayoutView> = Seq::empty();
    let ghost root = module_root.deep_view();
    if let Some(root) = module_root {
        if let Some(name) = naming::layout_name_for_binding_class(binding_class) {
            let found = field_type_from_layout_variants(index, root, name.as_str(), field_name);
            proof {
                l = choose|l: Seq<LayoutView>| #[trigger]
                    binding_discovery::layouts_listed(
                        index@.layouts,
                        root@,
                        naming::binding_class(name@),
                        l,
                    ) && found.deep_view() == layout_field_type(l, field_name@);
                assert(module_layouts(index@, module_root.deep_view(), binding_class@, l));
            }
            if found.is_some() {
                return found;
            }
        }
    }
    assert(module_layouts(index@, root, binding_class@, l));
    match source {
        Some(s) => java_binding_field_type(index, s, binding_class, field_name),
        None => None,
    }
}

/// Whether `r` is the type of a binding field as seen from the source.
pub open spec fn field_type_seen(
    v: IndexView,
    source: Option<SourceView>,
    class_name: Seq<char>,
    field_name: Seq<char>,
    r: Option<Seq<char>>,
) -> bool {
    if text::ends_with(class_name, "Binding"@) {
        exists|root: Option<Seq<char>>| #[trigger]
            module_found(v, source, class_name, root) && field_type_in(
                v,
                root,
                source,
                class_name,
                field_name,
                r,
            )
    } else {
        r is None
    }
}

/// The type of a binding field, as seen from a file whose path is known.
pub fn binding_field_type_from(
    index: &Indexer,
    source: Option<&SourceFile>,
    binding_class: &str,
    field_name: &str,
) -> (r: Option<String>)
    requires
        index.wf(),
    ensures
        field_type_seen(
            index@,
            source.deep_view(),
            binding_class@,
            field_name@,
            r.deep_view(),
        ),
{
    if !text::has_suffix(binding_class, "Binding") {
        return None;
    }
    let root = module_root_for_binding_class(index, source, binding_class);
    let ghost g = root.deep_view();
    assert(module_found(index@, source.deep_view(), binding_class@, g));
    match &root {
        Some(root) => binding_field_type_in(
            index,
            Some(root.as_str()),
            source,
            binding_class,
            field_name,
        ),
        None => binding_field_type_in(index, None, source, binding_class, field_name),
    }
}

/// The type of a binding field, as seen from a file; the layout is read first, then the
/// generated class. The file's path is whatever the system gives for its URI.
pub fn binding_field_type(
    index: &Indexer,
    source_uri: Option<&str>,
    binding_class: &str,
    field_name: &str,
) -> (r: Option<String>)
    requires
        index.wf(),
    ensures
        match source_uri {
            Some(uri) => exists|path: Option<Seq<char>>|
                urls::path_fits(uri@, path) && field_type_seen(
                    index@,
                    Some(#[trigger] source_at(uri@, path)),
                    binding_class@,
                    field_name@,
                    r.deep_view(),
                ),
            None => field_type_seen(index@, None, binding_class@, field_name@, r.deep_view()),
        },
{
    match source_uri {
        Some(uri) => {
            let source = SourceFile { uri: uri.to_owned(), path: urls::path_of_url(uri) };
            assert(source.deep_view() == source_at(uri@, source.path.deep_view()));
            binding_field_type_from(index, Some(&source), binding_class, field_name)
        },
        None => binding_field_type_from(index, None, binding_class, field_name),
    }
}

/// A source file at a path.
pub open spec fn source_at(uri: Seq<char>, path: Option<Seq<char>>) -> SourceView {
    SourceView { uri, path }
}

} // verus!
