//! Layout files, and the binding classes generated for them.
use vstd::prelude::*;
use vstd::string::*;

use crate::types::Replicate;

verus! {

/// A view that a layout gives an id.
#[derive(Debug, PartialEq, Eq)]
pub struct ViewIdEntry {
    pub id: String,
    pub tag_name: String,
}

#[verifier::ext_equal]
pub struct ViewIdView {
    pub id: Seq<char>,
    pub tag_name: Seq<char>,
}

impl DeepView for ViewIdEntry {
    type V = ViewIdView;

    open spec fn deep_view(&self) -> ViewIdView {
        ViewIdView { id: self.id@, tag_name: self.tag_name@ }
    }
}

impl Replicate for ViewIdEntry {
    fn replicate(&self) -> (r: Self) {
        ViewIdEntry { id: self.id.clone(), tag_name: self.tag_name.clone() }
    }
}

/// A layout that another one takes in.
#[derive(Debug, PartialEq, Eq)]
pub struct LayoutInclude {
    pub id: Option<String>,
    pub included_layout_name: String,
}

#[verifier::ext_equal]
pub struct IncludeView {
    pub id: Option<Seq<char>>,
    pub included_layout_name: Seq<char>,
}

impl DeepView for LayoutInclude {
    type V = IncludeView;

    open spec fn deep_view(&self) -> IncludeView {
        IncludeView {
            id: self.id.deep_view(),
            included_layout_name: self.included_layout_name@,
        }
    }
}

impl Replicate for LayoutInclude {
    fn replicate(&self) -> (r: Self) {
        LayoutInclude {
            id: self.id.replicate(),
            included_layout_name: self.included_layout_name.clone(),
        }
    }
}

/// What a layout file holds.
#[derive(Debug, PartialEq, Eq)]
pub struct LayoutFileData {
    /// Name of the file, without its extension.
    pub layout_name: String,
    /// Root of the module that the file belongs to.
    pub module_root: String,
    /// Qualifiers of the directory that the file stands in; empty for the default variant.
    pub variant_qualifier: String,
    /// Tag of the outermost view.
    pub root_tag: String,
    pub view_ids: Vec<ViewIdEntry>,
    pub includes: Vec<LayoutInclude>,
}

#[verifier::ext_equal]
pub struct LayoutView {
    pub layout_name: Seq<char>,
    pub module_root: Seq<char>,
    pub variant_qualifier: Seq<char>,
    pub root_tag: Seq<char>,
    pub view_ids: Seq<ViewIdView>,
    pub includes: Seq<IncludeView>,
}

impl DeepView for LayoutFileData {
    type V = LayoutView;

    open spec fn deep_view(&self) -> LayoutView {
        LayoutView {
            layout_name: self.layout_name@,
            module_root: self.module_root@,
            variant_qualifier: self.variant_qualifier@,
            root_tag: self.root_tag@,
            view_ids: self.view_ids.deep_view(),
            includes: self.includes.deep_view(),
        }
    }
}

impl Replicate for LayoutFileData {
    fn replicate(&self) -> (r: Self) {
        LayoutFileData {
            layout_name: self.layout_name.clone(),
            module_root: self.module_root.clone(),
            variant_qualifier: self.variant_qualifier.clone(),
            root_tag: self.root_tag.clone(),
            view_ids: self.view_ids.replicate(),
            includes: self.includes.replicate(),
        }
    }
}

/// A generated binding class and the file that declares it.
#[derive(Debug, PartialEq, Eq)]
pub struct GeneratedBindingEntry {
    pub class_name: String,
    pub file_uri: String,
    /// When the file was changed last, in seconds since the Unix epoch.
    pub modified_at_secs: u64,
}

#[verifier::ext_equal]
pub struct BindingView {
    pub class_name: Seq<char>,
    pub file_uri: Seq<char>,
    pub modified_at_secs: u64,
}

impl DeepView for GeneratedBindingEntry {
    type V = BindingView;

    open spec fn deep_view(&self) -> BindingView {
        BindingView {
            class_name: self.class_name@,
            file_uri: self.file_uri@,
            modified_at_secs: self.modified_at_secs,
        }
    }
}

impl Replicate for GeneratedBindingEntry {
    fn replicate(&self) -> (r: Self) {
        GeneratedBindingEntry {
            class_name: self.class_name.clone(),
            file_uri: self.file_uri.clone(),
            modified_at_secs: self.modified_at_secs,
        }
    }
}

} // verus!
