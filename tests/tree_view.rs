use makeshift::icon::{Icon, NamedIcon};
use makeshift::tree_view::{
    ChangeFeed, ContentChange, Interaction, ItemContent, Rechild, Reparent, TreeViewError,
    TreeViewState, WidgetRole,
};
use makeshift::widget::{highlight_of, Highlight, WidgetKind, WidgetOp};

const ROLES: [WidgetRole; 6] = [
    WidgetRole::Node,
    WidgetRole::Row,
    WidgetRole::Disclosure,
    WidgetRole::Icon,
    WidgetRole::Label,
    WidgetRole::ChildSlot,
];

fn content(title: &str) -> ItemContent {
    ItemContent {
        title: title.to_string(),
        icon: Icon::named("Folder"),
        is_selected: false,
        is_hovered: false,
    }
}

fn change(item: u64, title: &str, children: Vec<u64>) -> ContentChange {
    ContentChange {
        item,
        content: content(title),
        children,
    }
}

fn empty_feed() -> ChangeFeed {
    ChangeFeed {
        changed: vec![],
        reparented: vec![],
        orphaned: vec![],
        rechilded: vec![],
        removed: vec![],
    }
}

fn widget(state: &TreeViewState, item: u64, role: WidgetRole) -> u64 {
    state.lookup_widget(item, role).unwrap()
}

fn last_visibility(ops: &[WidgetOp], target: u64) -> Option<bool> {
    let mut found = None;
    for op in ops {
        if let WidgetOp::SetVisible { widget, visible } = op {
            if *widget == target {
                found = Some(*visible);
            }
        }
    }
    found
}

fn state_with(items: &[(u64, &str)]) -> TreeViewState {
    let mut state = TreeViewState::new();
    for (item, title) in items {
        state
            .apply_content_changed(*item, &content(title), &vec![])
            .unwrap();
    }
    state.take_ops();
    state
}

#[test]
fn new_state_spawns_content_container() {
    let mut state = TreeViewState::new();
    let content_node = state.content_node();
    let ops = state.take_ops();
    assert_eq!(ops.len(), 1);
    assert!(matches!(
        ops[0],
        WidgetOp::Spawn { widget, kind: WidgetKind::Content, parent: None } if widget == content_node
    ));
    assert!(state.take_ops().is_empty());
}

#[test]
fn folder_with_scenes_scenario() {
    let mut state = TreeViewState::new();
    let mut feed = empty_feed();
    feed.changed.push(change(1, "Folder-1", vec![2]));
    feed.changed.push(change(2, "Scene-1", vec![]));
    feed.reparented.push(Reparent { item: 2, parent: 1 });
    feed.rechilded.push(Rechild { item: 1, children: vec![2] });
    assert_eq!(state.apply_changes(&feed), Ok(()));
    let ops = state.take_ops();

    let folder_slot = widget(&state, 1, WidgetRole::ChildSlot);
    let scene1_node = widget(&state, 2, WidgetRole::Node);
    assert!(ops.iter().any(|op| matches!(
        op,
        WidgetOp::SetParent { widget, parent } if *widget == scene1_node && *parent == folder_slot
    )));
    assert_eq!(
        last_visibility(&ops, widget(&state, 1, WidgetRole::Disclosure)),
        Some(true)
    );
    assert_eq!(
        last_visibility(&ops, widget(&state, 2, WidgetRole::Disclosure)),
        Some(false)
    );

    let mut feed = empty_feed();
    feed.changed.push(change(3, "Scene-0", vec![]));
    feed.reparented.push(Reparent { item: 3, parent: 1 });
    feed.rechilded.push(Rechild { item: 1, children: vec![2, 3] });
    assert_eq!(state.apply_changes(&feed), Ok(()));
    let scene2_node = widget(&state, 3, WidgetRole::Node);
    let sorted = state
        .sort_children(folder_slot, &vec![scene1_node, scene2_node])
        .unwrap()
        .unwrap();
    assert_eq!(sorted, vec![scene2_node, scene1_node]);
}

#[test]
fn registration_spawns_six_widgets_then_refreshes() {
    let mut state = TreeViewState::new();
    state.take_ops();
    let mut c = content("Cube");
    c.icon = Icon::named("Mesh");
    c.is_hovered = true;
    state.apply_content_changed(7, &c, &vec![]).unwrap();
    let ops = state.take_ops();
    assert_eq!(ops.len(), 11);
    let node = widget(&state, 7, WidgetRole::Node);
    let row = widget(&state, 7, WidgetRole::Row);
    let label = widget(&state, 7, WidgetRole::Label);
    let icon = widget(&state, 7, WidgetRole::Icon);
    assert!(matches!(
        ops[0],
        WidgetOp::Spawn { widget, kind: WidgetKind::Node, parent: Some(p) } if widget == node && p == state.content_node()
    ));
    assert!(matches!(
        ops[1],
        WidgetOp::Spawn { widget, kind: WidgetKind::Row, parent: Some(p) } if widget == row && p == node
    ));
    assert!(matches!(
        &ops[3],
        WidgetOp::SetImage { icon: Icon::Named(NamedIcon(name)), .. } if name == "Disclosure.Expanded"
    ));
    assert!(matches!(
        &ops[7],
        WidgetOp::SetText { widget, text } if *widget == label && text == "Cube"
    ));
    assert!(matches!(
        &ops[8],
        WidgetOp::SetImage { widget, icon: Icon::Named(NamedIcon(name)) } if *widget == icon && name == "Mesh"
    ));
    assert!(matches!(
        ops[9],
        WidgetOp::SetBackground { widget, highlight: Highlight::Hovered } if widget == row
    ));
}

#[test]
fn content_change_of_tracked_item_only_refreshes() {
    let mut state = state_with(&[(1, "Old")]);
    let before: Vec<u64> = ROLES.iter().map(|r| widget(&state, 1, *r)).collect();
    let mut c = content("New");
    c.is_selected = true;
    c.is_hovered = true;
    state.apply_content_changed(1, &c, &vec![]).unwrap();
    let after: Vec<u64> = ROLES.iter().map(|r| widget(&state, 1, *r)).collect();
    assert_eq!(before, after);
    let ops = state.take_ops();
    assert_eq!(ops.len(), 4);
    assert!(matches!(&ops[0], WidgetOp::SetText { text, .. } if text == "New"));
    assert!(matches!(
        ops[2],
        WidgetOp::SetBackground { highlight: Highlight::Selected, .. }
    ));
}

#[test]
fn highlight_prefers_selection_over_hover() {
    assert_eq!(highlight_of(true, true), Highlight::Selected);
    assert_eq!(highlight_of(true, false), Highlight::Selected);
    assert_eq!(highlight_of(false, true), Highlight::Hovered);
    assert_eq!(highlight_of(false, false), Highlight::Neutral);
}

#[test]
fn round_trip_for_every_role() {
    let state = state_with(&[(10, "a"), (20, "b"), (30, "c")]);
    for item in [10, 20, 30] {
        for role in ROLES {
            let w = state.lookup_widget(item, role).unwrap();
            assert_eq!(state.lookup_item(role, w), Some(item));
        }
    }
    assert_eq!(state.lookup_widget(40, WidgetRole::Node), None);
}

#[test]
fn distinct_items_own_distinct_widgets() {
    let state = state_with(&[(1, "a"), (2, "b")]);
    let mut all = vec![state.content_node()];
    for item in [1, 2] {
        for role in ROLES {
            all.push(widget(&state, item, role));
        }
    }
    let mut dedup = all.clone();
    dedup.sort();
    dedup.dedup();
    assert_eq!(dedup.len(), all.len());
}

#[test]
fn disclosure_hidden_iff_no_tracked_child() {
    let mut state = state_with(&[(1, "parent"), (2, "child")]);
    let disclosure = widget(&state, 1, WidgetRole::Disclosure);
    state.apply_content_changed(1, &content("parent"), &vec![99]).unwrap();
    assert_eq!(last_visibility(&state.take_ops(), disclosure), Some(false));
    state.apply_content_changed(1, &content("parent"), &vec![99, 2]).unwrap();
    assert_eq!(last_visibility(&state.take_ops(), disclosure), Some(true));
    state.apply_rechilded(1, &vec![]).unwrap();
    assert_eq!(last_visibility(&state.take_ops(), disclosure), Some(false));
    state.apply_rechilded(1, &vec![2]).unwrap();
    assert_eq!(last_visibility(&state.take_ops(), disclosure), Some(true));
}

#[test]
fn rechild_of_untracked_item_is_a_defect() {
    let mut state = state_with(&[(1, "a")]);
    assert_eq!(
        state.apply_rechilded(5, &vec![1]),
        Err(TreeViewError::NotTracked { item: 5 })
    );
    assert!(state.take_ops().is_empty());
}

#[test]
fn reparent_moves_only_the_node() {
    let mut state = state_with(&[(1, "a"), (2, "b"), (3, "c")]);
    state.apply_reparented(3, 2).unwrap();
    state.take_ops();
    state.apply_reparented(2, 1).unwrap();
    let ops = state.take_ops();
    assert_eq!(ops.len(), 1);
    let node = widget(&state, 2, WidgetRole::Node);
    let slot = widget(&state, 1, WidgetRole::ChildSlot);
    assert!(matches!(
        ops[0],
        WidgetOp::SetParent { widget, parent } if widget == node && parent == slot
    ));
}

#[test]
fn reparent_defects() {
    let mut state = state_with(&[(1, "a")]);
    assert_eq!(
        state.apply_reparented(9, 1),
        Err(TreeViewError::NotTracked { item: 9 })
    );
    assert_eq!(
        state.apply_reparented(1, 9),
        Err(TreeViewError::ParentNotTracked { item: 1, parent: 9 })
    );
    assert!(state.take_ops().is_empty());
}

#[test]
fn orphan_moves_node_under_content() {
    let mut state = state_with(&[(1, "a"), (2, "b")]);
    state.apply_orphaned(2);
    let ops = state.take_ops();
    let node = widget(&state, 2, WidgetRole::Node);
    assert_eq!(ops.len(), 1);
    assert!(matches!(
        ops[0],
        WidgetOp::SetParent { widget, parent } if widget == node && parent == state.content_node()
    ));
    state.apply_orphaned(77);
    assert!(state.take_ops().is_empty());
}

#[test]
fn removal_clears_all_six_entries() {
    let mut state = state_with(&[(1, "a"), (2, "b")]);
    let widgets: Vec<u64> = ROLES.iter().map(|r| widget(&state, 1, *r)).collect();
    let removed = state.apply_removed(1).unwrap();
    assert_eq!(removed.node, widgets[0]);
    assert_eq!(removed.child_slot, widgets[5]);
    assert!(!state.contains(1));
    for (role, w) in ROLES.iter().zip(widgets.iter()) {
        assert_eq!(state.lookup_widget(1, *role), None);
        assert_eq!(state.lookup_item(*role, *w), None);
    }
    let ops = state.take_ops();
    assert_eq!(ops.len(), 1);
    assert!(matches!(ops[0], WidgetOp::Despawn { widget } if widget == widgets[0]));
    assert!(state.contains(2));
    assert_eq!(
        state.apply_removed(1),
        Err(TreeViewError::NotTracked { item: 1 })
    );
}

#[test]
fn disclosure_click_toggles_child_slot() {
    let mut state = state_with(&[(1, "a")]);
    let disclosure = widget(&state, 1, WidgetRole::Disclosure);
    let slot = widget(&state, 1, WidgetRole::ChildSlot);
    assert!(state.apply_disclosure_interaction(disclosure, Interaction::Clicked));
    let ops = state.take_ops();
    assert_eq!(ops.len(), 2);
    assert!(matches!(ops[0], WidgetOp::SetVisible { widget, visible: false } if widget == slot));
    assert!(matches!(
        &ops[1],
        WidgetOp::SetImage { widget, icon: Icon::Named(NamedIcon(name)) } if *widget == disclosure && name == "Disclosure.Collapsed"
    ));
    assert!(state.apply_disclosure_interaction(disclosure, Interaction::Clicked));
    let ops = state.take_ops();
    assert!(matches!(ops[0], WidgetOp::SetVisible { widget, visible: true } if widget == slot));
    assert!(matches!(
        &ops[1],
        WidgetOp::SetImage { icon: Icon::Named(NamedIcon(name)), .. } if name == "Disclosure.Expanded"
    ));
}

#[test]
fn disclosure_ignores_other_interactions() {
    let mut state = state_with(&[(1, "a")]);
    let disclosure = widget(&state, 1, WidgetRole::Disclosure);
    let row = widget(&state, 1, WidgetRole::Row);
    assert!(!state.apply_disclosure_interaction(disclosure, Interaction::Hovered));
    assert!(!state.apply_disclosure_interaction(disclosure, Interaction::Idle));
    assert!(!state.apply_disclosure_interaction(row, Interaction::Clicked));
    assert!(state.take_ops().is_empty());
}

#[test]
fn sort_orders_by_title() {
    let state = state_with(&[(1, "b"), (2, "a"), (3, "c")]);
    let nodes: Vec<u64> = [1, 2, 3].iter().map(|i| widget(&state, *i, WidgetRole::Node)).collect();
    let content_node = state.content_node();
    let sorted = state.sort_children(content_node, &nodes).unwrap().unwrap();
    assert_eq!(sorted, vec![nodes[1], nodes[0], nodes[2]]);
}

#[test]
fn sort_twice_gives_same_order() {
    let state = state_with(&[(1, "Zeta"), (2, "alpha"), (3, "Beta"), (4, "Zeta")]);
    let nodes: Vec<u64> = [1, 2, 3, 4].iter().map(|i| widget(&state, *i, WidgetRole::Node)).collect();
    let content_node = state.content_node();
    let once = state.sort_children(content_node, &nodes).unwrap().unwrap();
    let twice = state.sort_children(content_node, &once).unwrap().unwrap();
    assert_eq!(once, twice);
    assert_eq!(once, vec![nodes[2], nodes[0], nodes[3], nodes[1]]);
}

#[test]
fn sort_keeps_order_of_equal_titles() {
    let state = state_with(&[(1, "same"), (2, "same"), (3, "other")]);
    let nodes: Vec<u64> = [1, 2, 3].iter().map(|i| widget(&state, *i, WidgetRole::Node)).collect();
    let slot = state.content_node();
    let sorted = state.sort_children(slot, &vec![nodes[1], nodes[0], nodes[2]]).unwrap().unwrap();
    assert_eq!(sorted, vec![nodes[2], nodes[1], nodes[0]]);
}

#[test]
fn sort_of_child_slot_and_of_empty_set() {
    let state = state_with(&[(1, "a")]);
    let slot = widget(&state, 1, WidgetRole::ChildSlot);
    assert_eq!(state.sort_children(slot, &vec![]), Ok(Some(vec![])));
}

#[test]
fn sort_ignores_foreign_container() {
    let state = state_with(&[(1, "a")]);
    let row = widget(&state, 1, WidgetRole::Row);
    assert_eq!(state.sort_children(row, &vec![]), Ok(None));
    assert_eq!(state.sort_children(5000, &vec![1]), Ok(None));
}

#[test]
fn sort_rejects_foreign_child() {
    let state = state_with(&[(1, "a")]);
    let node = widget(&state, 1, WidgetRole::Node);
    let label = widget(&state, 1, WidgetRole::Label);
    assert_eq!(
        state.sort_children(state.content_node(), &vec![node, label]),
        Err(TreeViewError::ForeignChild { widget: label })
    );
}

#[test]
fn tick_runs_categories_in_order_and_removes() {
    let mut state = TreeViewState::new();
    let mut feed = empty_feed();
    feed.changed.push(change(1, "a", vec![]));
    feed.changed.push(change(2, "b", vec![]));
    feed.removed.push(2);
    assert_eq!(state.apply_changes(&feed), Ok(()));
    assert!(state.contains(1));
    assert!(!state.contains(2));
}

#[test]
fn tick_stops_at_first_defect() {
    let mut state = TreeViewState::new();
    let mut feed = empty_feed();
    feed.changed.push(change(1, "a", vec![]));
    feed.reparented.push(Reparent { item: 1, parent: 8 });
    feed.removed.push(1);
    assert_eq!(
        state.apply_changes(&feed),
        Err(TreeViewError::ParentNotTracked { item: 1, parent: 8 })
    );
    assert!(state.contains(1));
}

#[test]
fn tick_of_one_reparent_moves_only_the_node() {
    let mut state = state_with(&[(1, "a"), (2, "b")]);
    let mut feed = empty_feed();
    feed.reparented.push(Reparent { item: 2, parent: 1 });
    assert_eq!(state.apply_changes(&feed), Ok(()));
    let ops = state.take_ops();
    assert_eq!(ops.len(), 1);
    let node = widget(&state, 2, WidgetRole::Node);
    let slot = widget(&state, 1, WidgetRole::ChildSlot);
    assert!(matches!(
        ops[0],
        WidgetOp::SetParent { widget, parent } if widget == node && parent == slot
    ));
}

#[test]
fn tick_keeps_widgets_of_items_not_removed() {
    let mut state = state_with(&[(1, "a"), (2, "b")]);
    let before: Vec<u64> = ROLES.iter().map(|r| widget(&state, 1, *r)).collect();
    let mut feed = empty_feed();
    feed.changed.push(change(1, "renamed", vec![2]));
    feed.changed.push(change(3, "c", vec![]));
    feed.removed.push(2);
    assert_eq!(state.apply_changes(&feed), Ok(()));
    let after: Vec<u64> = ROLES.iter().map(|r| widget(&state, 1, *r)).collect();
    assert_eq!(before, after);
    assert!(state.contains(3));
}

#[test]
fn tick_fails_on_untracked_rechild_or_removal() {
    let mut state = state_with(&[(1, "a")]);
    let mut feed = empty_feed();
    feed.rechilded.push(Rechild { item: 4, children: vec![] });
    assert_eq!(
        state.apply_changes(&feed),
        Err(TreeViewError::NotTracked { item: 4 })
    );
    let mut feed = empty_feed();
    feed.removed.push(5);
    assert_eq!(
        state.apply_changes(&feed),
        Err(TreeViewError::NotTracked { item: 5 })
    );
}

#[test]
fn fresh_state_has_no_reverse_entries() {
    let state = TreeViewState::new();
    for role in ROLES {
        assert_eq!(state.lookup_item(role, 0), None);
        assert_eq!(state.lookup_item(role, 1), None);
    }
}
