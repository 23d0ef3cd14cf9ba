//! Items of the project document: folders and assets, and the registry that
//! finds an item's entity by its UUID.
use vstd::prelude::*;
use std::collections::HashMap;
use crate::icon::{Icon, IconView};
use crate::tree_view::TreeViewItem;

verus! {

broadcast use vstd::std_specs::hash::group_hash_axioms;

/// The kind of a project item.
#[derive(Clone, Copy, Debug, PartialEq, Eq, Structural)]
pub enum ProjectItemKind {
    Folder,
    Material,
    Image,
    Mesh,
    Scene,
}

/// The name of the bundled icon of a project item kind.
pub open spec fn project_icon_name(kind: ProjectItemKind) -> Seq<char> {
    match kind {
        ProjectItemKind::Folder => "Folder"@,
        ProjectItemKind::Material => "Material"@,
        ProjectItemKind::Image => "Image"@,
        ProjectItemKind::Mesh => "Mesh"@,
        ProjectItemKind::Scene => "Scene"@,
    }
}

/// A folder or asset of the project, with its UUID as a 128-bit number.
#[derive(Debug)]
pub struct ProjectItem {
    pub uuid: u128,
    pub name: String,
    pub kind: ProjectItemKind,
}

impl ProjectItem {
    /// The bundled icon of the item's kind.
    pub fn icon_ref(&self) -> (r: Icon)
        ensures
            r@ == IconView::Named(project_icon_name(self.kind)),
    {
        match self.kind {
            ProjectItemKind::Folder => Icon::named("Folder"),
            ProjectItemKind::Material => Icon::named("Material"),
            ProjectItemKind::Image => Icon::named("Image"),
            ProjectItemKind::Mesh => Icon::named("Mesh"),
            ProjectItemKind::Scene => Icon::named("Scene"),
        }
    }

    /// The item's name.
    pub fn title_text(&self) -> (r: String)
        ensures
            r@ == self.name@,
    {
        self.name.clone()
    }
}

impl TreeViewItem for ProjectItem {
    open spec fn title_view(&self) -> Seq<char> {
        self.name@
    }

    open spec fn icon_view(&self) -> IconView {
        IconView::Named(project_icon_name(self.kind))
    }

    /// Project items are never shown selected.
    open spec fn selected_view(&self) -> bool {
        false
    }

    /// Project items are never shown hovered.
    open spec fn hovered_view(&self) -> bool {
        false
    }

    fn title(&self) -> (r: String)
        ensures
            r@ == self.name@,
    {
        self.title_text()
    }

    fn icon(&self) -> (r: Icon)
        ensures
            r@ == IconView::Named(project_icon_name(self.kind)),
    {
        self.icon_ref()
    }

    fn is_selected(&self) -> (r: bool)
        ensures
            !r,
    {
        false
    }

    fn is_hovered(&self) -> (r: bool)
        ensures
            !r,
    {
        false
    }
}

/// The entity of each project item, by UUID.
pub struct ProjectItemRegistry {
    items: HashMap<u128, u64>,
}

impl View for ProjectItemRegistry {
    type V = Map<u128, u64>;

    closed spec fn view(&self) -> Map<u128, u64> {
        self.items@
    }
}

impl ProjectItemRegistry {
    /// An empty registry.
    pub fn new() -> (r: ProjectItemRegistry)
        ensures
            r@ == Map::<u128, u64>::empty(),
    {
        ProjectItemRegistry { items: HashMap::new() }
    }

    /// Records the entity of the item `uuid`, replacing an earlier one.
    pub fn insert(&mut self, uuid: u128, entity: u64)
        ensures
            final(self)@ == old(self)@.insert(uuid, entity),
    {
        self.items.insert(uuid, entity);
    }

    /// The entity of the item `uuid`, if it is recorded.
    pub fn get(&self, uuid: u128) -> (r: Option<u64>)
        ensures
            r == (if self@.contains_key(uuid) {
                Some(self@[uuid])
            } else {
                None
            }),
    {
        match self.items.get(&uuid) {
            Some(e) => Some(*e),
            None => None,
        }
    }

    /// The entity under which a new item is placed: that of its parent, when
    /// it names one that is recorded; otherwise none.
    pub fn resolve_parent(&self, parent_uuid: Option<u128>) -> (r: Option<u64>)
        ensures
            r == (match parent_uuid {
                Some(p) => if self@.contains_key(p) {
                    Some(self@[p])
                } else {
                    None
                },
                None => None,
            }),
    {
        match parent_uuid {
            Some(p) => self.get(p),
            None => None,
        }
    }
}

} // verus!
