use makeshift::editor::{infer_type, EditorItem, EditorItemInferredType};
use makeshift::icon::{Icon, IconSize, NamedIcon};
use makeshift::order::title_le_exec;
use makeshift::project::{ProjectItem, ProjectItemKind, ProjectItemRegistry};
use makeshift::tree_view::{ItemContent, TreeView, TreeViewItem};

fn icon_name(icon: &Icon) -> &str {
    match icon {
        Icon::Named(NamedIcon(name)) => name,
        Icon::Image(_) => panic!("expected a named icon"),
    }
}

#[test]
fn icon_sizes_in_pixels() {
    assert_eq!(IconSize::XSmall.pixels(), 16);
    assert_eq!(IconSize::Small.pixels(), 24);
    assert_eq!(IconSize::Medium.pixels(), 32);
    assert_eq!(IconSize::default(), IconSize::XSmall);
    assert_eq!(TreeView::default().icon_size, IconSize::XSmall);
}

#[test]
fn named_icon_paths() {
    let icon = NamedIcon("Folder".to_string());
    assert_eq!(icon.asset_path(IconSize::XSmall, false), "icons/Folder.16x16.png");
    assert_eq!(icon.asset_path(IconSize::Small, false), "icons/Folder.24x24.png");
    assert_eq!(icon.asset_path(IconSize::Medium, true), "icons/Folder.32x32@2x.png");
}

#[test]
fn icon_duplicate_keeps_reference() {
    let named = Icon::named("Light.Point");
    assert_eq!(icon_name(&named.duplicate()), "Light.Point");
    assert!(matches!(Icon::Image(42).duplicate(), Icon::Image(42)));
}

#[test]
fn title_order_is_by_code_point() {
    assert!(title_le_exec("Scene-0", "Scene-1"));
    assert!(!title_le_exec("Scene-1", "Scene-0"));
    assert!(title_le_exec("", "a"));
    assert!(!title_le_exec("a", ""));
    assert!(title_le_exec("a", "ab"));
    assert!(!title_le_exec("ab", "a"));
    assert!(title_le_exec("same", "same"));
    assert!(title_le_exec("Zeta", "alpha"));
    assert!(title_le_exec("z", "é"));
}

#[test]
fn inferred_type_follows_component_priority() {
    assert_eq!(infer_type(true, true, true, true, true), EditorItemInferredType::PointLight);
    assert_eq!(infer_type(false, true, true, false, true), EditorItemInferredType::SpotLight);
    assert_eq!(infer_type(false, false, true, true, false), EditorItemInferredType::DirectionalLight);
    assert_eq!(infer_type(false, false, false, true, true), EditorItemInferredType::Camera);
    assert_eq!(infer_type(false, false, false, false, true), EditorItemInferredType::Mesh);
    assert_eq!(infer_type(false, false, false, false, false), EditorItemInferredType::Entity);
}

#[test]
fn editor_item_titles() {
    let mut item = EditorItem::default();
    assert_eq!(item.title(), "(Entity)");
    item.inferred_type = EditorItemInferredType::DirectionalLight;
    assert_eq!(item.title(), "(Directional Light)");
    item.inferred_type = EditorItemInferredType::PointLight;
    assert_eq!(item.title(), "(Point Light)");
    item.inferred_type = EditorItemInferredType::Camera;
    assert_eq!(item.title(), "(Camera)");
    item.name = Some("Sun".to_string());
    assert_eq!(item.title(), "Sun");
}

#[test]
fn editor_item_icons_and_flags() {
    let mut item = EditorItem::default();
    assert_eq!(icon_name(&item.icon()), "Entity");
    item.inferred_type = EditorItemInferredType::SpotLight;
    assert_eq!(icon_name(&item.icon()), "Light.Spot");
    item.inferred_type = EditorItemInferredType::Mesh;
    assert_eq!(icon_name(&item.icon()), "Mesh.Entity");
    item.is_selected = true;
    let content = ItemContent::of(&item);
    assert!(content.is_selected);
    assert!(!content.is_hovered);
    assert_eq!(content.title, "(Mesh)");
}

#[test]
fn project_item_titles_and_icons() {
    let item = ProjectItem {
        uuid: 5,
        name: "Levels".to_string(),
        kind: ProjectItemKind::Folder,
    };
    assert_eq!(item.title(), "Levels");
    assert_eq!(icon_name(&item.icon()), "Folder");
    assert!(!item.is_selected());
    assert!(!item.is_hovered());
    let scene = ProjectItem {
        uuid: 6,
        name: "Map".to_string(),
        kind: ProjectItemKind::Scene,
    };
    assert_eq!(icon_name(&scene.icon()), "Scene");
}

#[test]
fn project_registry_resolves_parents() {
    let mut registry = ProjectItemRegistry::new();
    registry.insert(7, 100);
    assert_eq!(registry.get(7), Some(100));
    assert_eq!(registry.get(8), None);
    assert_eq!(registry.resolve_parent(Some(7)), Some(100));
    assert_eq!(registry.resolve_parent(Some(8)), None);
    assert_eq!(registry.resolve_parent(None), None);
    registry.insert(7, 101);
    assert_eq!(registry.get(7), Some(101));
}
