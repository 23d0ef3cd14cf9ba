//! Items of the scene editor: what kind of object an entity is taken for, and
//! how it is titled and drawn in a tree view.
use vstd::prelude::*;
use vstd::string::StringExecFns;
use crate::icon::{Icon, IconView};
use crate::tree_view::TreeViewItem;

verus! {

/// The kind of scene object an entity is taken for, from the components it carries.
#[derive(Clone, Copy, Debug, PartialEq, Eq, Structural)]
pub enum EditorItemInferredType {
    Entity,
    PointLight,
    SpotLight,
    DirectionalLight,
    Camera,
    Mesh,
}

impl Default for EditorItemInferredType {
    fn default() -> (r: EditorItemInferredType)
        ensures
            r == EditorItemInferredType::Entity,
    {
        EditorItemInferredType::Entity
    }
}

/// The first kind whose component is present, in the order point light, spot
/// light, directional light, camera, mesh.
pub open spec fn infer_type_spec(
    point_light: bool,
    spot_light: bool,
    directional_light: bool,
    camera: bool,
    mesh: bool,
) -> EditorItemInferredType {
    if point_light {
        EditorItemInferredType::PointLight
    } else if spot_light {
        EditorItemInferredType::SpotLight
    } else if directional_light {
        EditorItemInferredType::DirectionalLight
    } else if camera {
        EditorItemInferredType::Camera
    } else if mesh {
        EditorItemInferredType::Mesh
    } else {
        EditorItemInferredType::Entity
    }
}

/// Infers the kind of an entity from which of the five components it carries.
pub fn infer_type(
    point_light: bool,
    spot_light: bool,
    directional_light: bool,
    camera: bool,
    mesh: bool,
) -> (r: EditorItemInferredType)
    ensures
        r == infer_type_spec(point_light, spot_light, directional_light, camera, mesh),
{
    if point_light {
        EditorItemInferredType::PointLight
    } else if spot_light {
        EditorItemInferredType::SpotLight
    } else if directional_light {
        EditorItemInferredType::DirectionalLight
    } else if camera {
        EditorItemInferredType::Camera
    } else if mesh {
        EditorItemInferredType::Mesh
    } else {
        EditorItemInferredType::Entity
    }
}

/// The title shown for an unnamed entity of the given kind.
pub open spec fn placeholder_title(t: EditorItemInferredType) -> Seq<char> {
    match t {
        EditorItemInferredType::Entity => "(Entity)"@,
        EditorItemInferredType::Camera => "(Camera)"@,
        EditorItemInferredType::PointLight => "(Point Light)"@,
        EditorItemInferredType::SpotLight => "(Spot Light)"@,
        EditorItemInferredType::DirectionalLight => "(Directional Light)"@,
        EditorItemInferredType::Mesh => "(Mesh)"@,
    }
}

/// The name of the bundled icon of an entity kind.
pub open spec fn editor_icon_name(t: EditorItemInferredType) -> Seq<char> {
    match t {
        EditorItemInferredType::Entity => "Entity"@,
        EditorItemInferredType::Camera => "Camera"@,
        EditorItemInferredType::PointLight => "Light.Point"@,
        EditorItemInferredType::SpotLight => "Light.Spot"@,
        EditorItemInferredType::DirectionalLight => "Light.Directional"@,
        EditorItemInferredType::Mesh => "Mesh.Entity"@,
    }
}

/// An entity of the edited scene as a tree view shows it.
#[derive(Debug)]
pub struct EditorItem {
    pub name: Option<String>,
    pub inferred_type: EditorItemInferredType,
    pub is_selected: bool,
    pub is_hovered: bool,
}

impl Default for EditorItem {
    fn default() -> (r: EditorItem)
        ensures
            r.name is None,
            r.inferred_type == EditorItemInferredType::Entity,
            !r.is_selected,
            !r.is_hovered,
    {
        EditorItem {
            name: None,
            inferred_type: EditorItemInferredType::Entity,
            is_selected: false,
            is_hovered: false,
        }
    }
}

impl EditorItem {
    /// The entity's name, or a bracketed placeholder for its kind when it has none.
    pub fn title_text(&self) -> (r: String)
        ensures
            r@ == match self.name {
                Some(n) => n@,
                None => placeholder_title(self.inferred_type),
            },
    {
        match &self.name {
            Some(name) => name.clone(),
            None => match self.inferred_type {
                EditorItemInferredType::Entity => String::from_str("(Entity)"),
                EditorItemInferredType::Camera => String::from_str("(Camera)"),
                EditorItemInferredType::PointLight => String::from_str("(Point Light)"),
                EditorItemInferredType::SpotLight => String::from_str("(Spot Light)"),
                EditorItemInferredType::DirectionalLight => String::from_str("(Directional Light)"),
                EditorItemInferredType::Mesh => String::from_str("(Mesh)"),
            },
        }
    }

    /// The bundled icon of the entity's kind.
    pub fn icon_ref(&self) -> (r: Icon)
        ensures
            r@ == IconView::Named(editor_icon_name(self.inferred_type)),
    {
        match self.inferred_type {
            EditorItemInferredType::Entity => Icon::named("Entity"),
            EditorItemInferredType::Camera => Icon::named("Camera"),
            EditorItemInferredType::PointLight => Icon::named("Light.Point"),
            EditorItemInferredType::SpotLight => Icon::named("Light.Spot"),
            EditorItemInferredType::DirectionalLight => Icon::named("Light.Directional"),
            EditorItemInferredType::Mesh => Icon::named("Mesh.Entity"),
        }
    }
}

impl TreeViewItem for EditorItem {
    /// The name, or the bracketed placeholder of the entity's kind.
    open spec fn title_view(&self) -> Seq<char> {
        match self.name {
            Some(n) => n@,
            None => placeholder_title(self.inferred_type),
        }
    }

    open spec fn icon_view(&self) -> IconView {
        IconView::Named(editor_icon_name(self.inferred_type))
    }

    open spec fn selected_view(&self) -> bool {
        self.is_selected
    }

    open spec fn hovered_view(&self) -> bool {
        self.is_hovered
    }

    fn title(&self) -> (r: String)
        ensures
            r@ == match self.name {
                Some(n) => n@,
                None => placeholder_title(self.inferred_type),
            },
    {
        self.title_text()
    }

    fn icon(&self) -> (r: Icon)
        ensures
            r@ == IconView::Named(editor_icon_name(self.inferred_type)),
    {
        self.icon_ref()
    }

    fn is_selected(&self) -> (r: bool)
        ensures
            r == self.is_selected,
    {
        self.is_selected
    }

    fn is_hovered(&self) -> (r: bool)
        ensures
            r == self.is_hovered,
    {
        self.is_hovered
    }
}

} // verus!
