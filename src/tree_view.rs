//! The tree-view synchronisation engine: the identity registry that pairs each
//! domain item with the six widgets it owns, the reconciliation steps that keep
//! those widgets in step with the items, the disclosure toggle, and the sort of
//! a container's children by title.
use vstd::prelude::*;
use std::collections::HashMap;
use crate::icon::{Icon, IconSize, IconView};
use crate::order::{lemma_insert_at, sort_by_key, title_le, title_le_exec};
use crate::widget::{
    highlight_of, highlight_spec, lemma_parents_after_push, lemma_parents_after_untouched,
    lemma_visibility_after_push, parents_after, visibility_after, Highlight, OpLog, WidgetKind,
    WidgetOp, WidgetOpView,
};

verus! {

broadcast use vstd::std_specs::hash::group_hash_axioms;

/// What a tree view needs of each item it shows.
pub trait TreeViewItem {
    /// The title shown on the item's label.
    spec fn title_view(&self) -> Seq<char>;

    /// The icon shown beside the title.
    spec fn icon_view(&self) -> IconView;

    spec fn selected_view(&self) -> bool;

    spec fn hovered_view(&self) -> bool;

    fn title(&self) -> (r: String)
        ensures
            r@ == self.title_view(),
    ;

    fn icon(&self) -> (r: Icon)
        ensures
            r@ == self.icon_view(),
    ;

    fn is_selected(&self) -> (r: bool)
        ensures
            r == self.selected_view(),
    ;

    fn is_hovered(&self) -> (r: bool)
        ensures
            r == self.hovered_view(),
    ;
}

/// Configuration of one tree-view panel.
#[derive(Clone, Copy, Debug)]
pub struct TreeView {
    pub icon_size: IconSize,
}

impl Default for TreeView {
    fn default() -> (r: TreeView)
        ensures
            r.icon_size == IconSize::XSmall,
    {
        TreeView { icon_size: IconSize::XSmall }
    }
}

/// The presentation of one item at the time of a content change.
#[derive(Debug)]
pub struct ItemContent {
    pub title: String,
    pub icon: Icon,
    pub is_selected: bool,
    pub is_hovered: bool,
}

impl ItemContent {
    /// Reads the four accessors of an item.
    pub fn of<T: TreeViewItem>(item: &T) -> (r: ItemContent)
        ensures
            r.title@ == item.title_view(),
            r.icon@ == item.icon_view(),
            r.is_selected == item.selected_view(),
            r.is_hovered == item.hovered_view(),
    {
        ItemContent {
            title: item.title(),
            icon: item.icon(),
            is_selected: item.is_selected(),
            is_hovered: item.is_hovered(),
        }
    }
}

/// The role of a widget owned by a tracked item.
#[derive(Clone, Copy, Debug, PartialEq, Eq, Structural)]
pub enum WidgetRole {
    Node,
    Row,
    Disclosure,
    Icon,
    Label,
    ChildSlot,
}

/// The six widgets that one tracked item owns.
#[derive(Clone, Copy, Debug, PartialEq, Eq, Structural)]
pub struct ItemWidgets {
    pub node: u64,
    pub row: u64,
    pub disclosure: u64,
    pub icon: u64,
    pub label: u64,
    pub child_slot: u64,
}

impl ItemWidgets {
    /// The widget of the given role.
    pub open spec fn of(self, role: WidgetRole) -> u64 {
        match role {
            WidgetRole::Node => self.node,
            WidgetRole::Row => self.row,
            WidgetRole::Disclosure => self.disclosure,
            WidgetRole::Icon => self.icon,
            WidgetRole::Label => self.label,
            WidgetRole::ChildSlot => self.child_slot,
        }
    }

    /// The widget of the given role.
    pub fn get(&self, role: WidgetRole) -> (r: u64)
        ensures
            r == self.of(role),
    {
        match role {
            WidgetRole::Node => self.node,
            WidgetRole::Row => self.row,
            WidgetRole::Disclosure => self.disclosure,
            WidgetRole::Icon => self.icon,
            WidgetRole::Label => self.label,
            WidgetRole::ChildSlot => self.child_slot,
        }
    }
}

/// The six identities handed out together to an item registered when the
/// next free identity is `base`.
pub open spec fn fresh_widgets(base: u64) -> ItemWidgets {
    ItemWidgets {
        node: base,
        row: (base + 1) as u64,
        disclosure: (base + 2) as u64,
        icon: (base + 3) as u64,
        label: (base + 4) as u64,
        child_slot: (base + 5) as u64,
    }
}

/// What the registry holds for one tracked item.
#[derive(Clone, Copy, Debug, PartialEq, Eq, Structural)]
pub struct ItemEntry {
    pub widgets: ItemWidgets,
    /// Whether the child slot is shown.
    pub expanded: bool,
}

/// A defect in the notifications handed to the engine, or the end of the identity space.
#[derive(Clone, Copy, Debug, PartialEq, Eq, Structural)]
pub enum TreeViewError {
    /// A reparent, rechild or removal named an item that is not tracked.
    NotTracked { item: u64 },
    /// A reparent named a parent that is not tracked.
    ParentNotTracked { item: u64, parent: u64 },
    /// A container to be sorted holds a widget that is not the node of a tracked item.
    ForeignChild { widget: u64 },
    /// No identities are left for the widgets of a new item.
    IdentitiesExhausted,
}

/// The engine's state for one tree-view panel.
pub struct TreeViewState {
    content_node: u64,
    entries: HashMap<u64, ItemEntry>,
    titles: HashMap<u64, String>,
    item_by_node: HashMap<u64, u64>,
    item_by_row: HashMap<u64, u64>,
    item_by_disclosure: HashMap<u64, u64>,
    item_by_icon: HashMap<u64, u64>,
    item_by_label: HashMap<u64, u64>,
    item_by_child_slot: HashMap<u64, u64>,
    next_widget: u64,
    log: OpLog,
}

/// The operations that create the widgets of a newly tracked item: its node
/// under the content container, the row and child slot under the node, and the
/// disclosure control (showing the expanded glyph), icon and label under the row.
pub open spec fn registration_ops(w: ItemWidgets, content: u64) -> Seq<WidgetOpView> {
    seq![
        WidgetOpView::Spawn { widget: w.node, kind: WidgetKind::Node, parent: Some(content) },
        WidgetOpView::Spawn { widget: w.row, kind: WidgetKind::Row, parent: Some(w.node) },
        WidgetOpView::Spawn { widget: w.disclosure, kind: WidgetKind::Disclosure, parent: Some(w.row) },
        WidgetOpView::SetImage { widget: w.disclosure, icon: IconView::Named("Disclosure.Expanded"@) },
        WidgetOpView::Spawn { widget: w.icon, kind: WidgetKind::Icon, parent: Some(w.row) },
        WidgetOpView::Spawn { widget: w.label, kind: WidgetKind::Label, parent: Some(w.row) },
        WidgetOpView::Spawn { widget: w.child_slot, kind: WidgetKind::ChildSlot, parent: Some(w.node) },
    ]
}

/// The operations that bring an item's widgets up to date with its content.
pub open spec fn refresh_ops(
    w: ItemWidgets,
    title: Seq<char>,
    icon: IconView,
    highlight: Highlight,
    shown: bool,
) -> Seq<WidgetOpView> {
    seq![
        WidgetOpView::SetText { widget: w.label, text: title },
        WidgetOpView::SetImage { widget: w.icon, icon: icon },
        WidgetOpView::SetBackground { widget: w.row, highlight: highlight },
        WidgetOpView::SetVisible { widget: w.disclosure, visible: shown },
    ]
}

/// The name of the disclosure glyph for an expanded or collapsed child slot.
pub open spec fn disclosure_glyph(expanded: bool) -> Seq<char> {
    if expanded {
        "Disclosure.Expanded"@
    } else {
        "Disclosure.Collapsed"@
    }
}

/// A tree view's state as a value: the content container, the next free
/// widget identity, the registry, the recorded titles, and the operations
/// issued and not yet taken.
pub struct TreeModel {
    pub content: u64,
    pub next: u64,
    pub entries: Map<u64, ItemEntry>,
    pub titles: Map<u64, Seq<char>>,
    pub log: Seq<WidgetOpView>,
}

/// Whether some child in `children` is tracked in `entries`.
pub open spec fn any_tracked_in(entries: Map<u64, ItemEntry>, children: Seq<u64>) -> bool {
    exists|i: int| 0 <= i < children.len() && entries.contains_key(#[trigger] children[i])
}

/// A content change: an untracked item gets six fresh widgets (failing when
/// identities run out); then the item's label, icon, row background and
/// disclosure visibility are refreshed.
pub open spec fn content_step(
    m: TreeModel,
    item: u64,
    title: Seq<char>,
    icon: IconView,
    highlight: Highlight,
    children: Seq<u64>,
) -> Result<TreeModel, TreeViewError> {
    if m.entries.contains_key(item) {
        Ok(
            TreeModel {
                content: m.content,
                next: m.next,
                entries: m.entries,
                titles: m.titles.insert(item, title),
                log: m.log + refresh_ops(
                    m.entries[item].widgets,
                    title,
                    icon,
                    highlight,
                    any_tracked_in(m.entries, children),
                ),
            },
        )
    } else if m.next > u64::MAX - 6 {
        Err(TreeViewError::IdentitiesExhausted)
    } else {
        let w = fresh_widgets(m.next);
        let entries = m.entries.insert(item, ItemEntry { widgets: w, expanded: true });
        Ok(
            TreeModel {
                content: m.content,
                next: (m.next + 6) as u64,
                entries: entries,
                titles: m.titles.insert(item, title),
                log: m.log + registration_ops(w, m.content) + refresh_ops(
                    w,
                    title,
                    icon,
                    highlight,
                    any_tracked_in(entries, children),
                ),
            },
        )
    }
}

/// The content step of one entry of a feed.
pub open spec fn content_change_step(m: TreeModel, c: ContentChange) -> Result<TreeModel, TreeViewError> {
    content_step(
        m,
        c.item,
        c.content.title@,
        c.content.icon@,
        highlight_spec(c.content.is_selected, c.content.is_hovered),
        c.children@,
    )
}

/// The log with one more operation.
pub open spec fn with_op(m: TreeModel, op: WidgetOpView) -> TreeModel {
    TreeModel { content: m.content, next: m.next, entries: m.entries, titles: m.titles, log: m.log.push(op) }
}

/// A reparent: the item's node moves into the new parent's child slot.
pub open spec fn reparent_step(m: TreeModel, item: u64, parent: u64) -> Result<TreeModel, TreeViewError> {
    if !m.entries.contains_key(item) {
        Err(TreeViewError::NotTracked { item })
    } else if !m.entries.contains_key(parent) {
        Err(TreeViewError::ParentNotTracked { item, parent })
    } else {
        Ok(
            with_op(
                m,
                WidgetOpView::SetParent {
                    widget: m.entries[item].widgets.node,
                    parent: m.entries[parent].widgets.child_slot,
                },
            ),
        )
    }
}

/// An orphan: the item's node moves under the content container; an untracked item is passed over.
pub open spec fn orphan_step(m: TreeModel, item: u64) -> TreeModel {
    if m.entries.contains_key(item) {
        with_op(m, WidgetOpView::SetParent { widget: m.entries[item].widgets.node, parent: m.content })
    } else {
        m
    }
}

/// A rechild: the disclosure control is shown exactly when some child is tracked.
pub open spec fn rechild_step(m: TreeModel, item: u64, children: Seq<u64>) -> Result<TreeModel, TreeViewError> {
    if !m.entries.contains_key(item) {
        Err(TreeViewError::NotTracked { item })
    } else {
        Ok(
            with_op(
                m,
                WidgetOpView::SetVisible {
                    widget: m.entries[item].widgets.disclosure,
                    visible: any_tracked_in(m.entries, children),
                },
            ),
        )
    }
}

/// A removal: the item leaves the registry and its node is destroyed.
pub open spec fn remove_step(m: TreeModel, item: u64) -> Result<TreeModel, TreeViewError> {
    if !m.entries.contains_key(item) {
        Err(TreeViewError::NotTracked { item })
    } else {
        Ok(
            TreeModel {
                content: m.content,
                next: m.next,
                entries: m.entries.remove(item),
                titles: m.titles.remove(item),
                log: m.log.push(WidgetOpView::Despawn { widget: m.entries[item].widgets.node }),
            },
        )
    }
}

/// Applies `step` to each element of `xs` in order, stopping at the first error.
pub open spec fn run_steps<A>(
    m: TreeModel,
    xs: Seq<A>,
    step: spec_fn(TreeModel, A) -> Result<TreeModel, TreeViewError>,
) -> Result<TreeModel, TreeViewError>
    decreases xs.len(),
{
    if xs.len() == 0 {
        Ok(m)
    } else {
        match run_steps(m, xs.drop_last(), step) {
            Ok(m2) => step(m2, xs.last()),
            Err(e) => Err(e),
        }
    }
}

/// The step of the changed pass.
pub open spec fn changed_step() -> spec_fn(TreeModel, ContentChange) -> Result<TreeModel, TreeViewError> {
    |m: TreeModel, c: ContentChange| content_change_step(m, c)
}

pub open spec fn changed_pass(m: TreeModel, xs: Seq<ContentChange>) -> Result<TreeModel, TreeViewError> {
    run_steps(m, xs, changed_step())
}

/// The step of the reparented pass.
pub open spec fn reparented_step() -> spec_fn(TreeModel, Reparent) -> Result<TreeModel, TreeViewError> {
    |m: TreeModel, p: Reparent| reparent_step(m, p.item, p.parent)
}

pub open spec fn reparented_pass(m: TreeModel, xs: Seq<Reparent>) -> Result<TreeModel, TreeViewError> {
    run_steps(m, xs, reparented_step())
}

/// The step of the orphaned pass.
pub open spec fn orphaned_step() -> spec_fn(TreeModel, u64) -> Result<TreeModel, TreeViewError> {
    |m: TreeModel, i: u64| Ok(orphan_step(m, i))
}

pub open spec fn orphaned_pass(m: TreeModel, xs: Seq<u64>) -> Result<TreeModel, TreeViewError> {
    run_steps(m, xs, orphaned_step())
}

/// The step of the rechilded pass.
pub open spec fn rechilded_step() -> spec_fn(TreeModel, Rechild) -> Result<TreeModel, TreeViewError> {
    |m: TreeModel, c: Rechild| rechild_step(m, c.item, c.children@)
}

pub open spec fn rechilded_pass(m: TreeModel, xs: Seq<Rechild>) -> Result<TreeModel, TreeViewError> {
    run_steps(m, xs, rechilded_step())
}

/// The step of the removed pass.
pub open spec fn removed_step() -> spec_fn(TreeModel, u64) -> Result<TreeModel, TreeViewError> {
    |m: TreeModel, i: u64| remove_step(m, i)
}

pub open spec fn removed_pass(m: TreeModel, xs: Seq<u64>) -> Result<TreeModel, TreeViewError> {
    run_steps(m, xs, removed_step())
}

/// One tick: the five passes in their fixed order, each over the whole of its
/// category, stopping at the first defect.
pub open spec fn tick_spec(m: TreeModel, feed: ChangeFeed) -> Result<TreeModel, TreeViewError> {
    match changed_pass(m, feed.changed@) {
        Err(e) => Err(e),
        Ok(m1) => match reparented_pass(m1, feed.reparented@) {
            Err(e) => Err(e),
            Ok(m2) => match orphaned_pass(m2, feed.orphaned@) {
                Err(e) => Err(e),
                Ok(m3) => match rechilded_pass(m3, feed.rechilded@) {
                    Err(e) => Err(e),
                    Ok(m4) => removed_pass(m4, feed.removed@),
                },
            },
        },
    }
}

/// Once a prefix of the steps fails, the whole run fails with the same error.
pub proof fn lemma_run_steps_err<A>(
    m: TreeModel,
    xs: Seq<A>,
    step: spec_fn(TreeModel, A) -> Result<TreeModel, TreeViewError>,
    j: int,
)
    requires
        0 <= j <= xs.len(),
        run_steps(m, xs.take(j), step) is Err,
    ensures
        run_steps(m, xs, step) == run_steps(m, xs.take(j), step),
    decreases xs.len() - j,
{
    if j < xs.len() {
        assert(xs.take(j + 1).drop_last() =~= xs.take(j));
        lemma_run_steps_err(m, xs, step, j + 1);
    } else {
        assert(xs.take(j) =~= xs);
    }
}

/// Running one more step extends the run over the prefix.
pub proof fn lemma_run_steps_next<A>(
    m: TreeModel,
    xs: Seq<A>,
    step: spec_fn(TreeModel, A) -> Result<TreeModel, TreeViewError>,
    j: int,
)
    requires
        0 <= j < xs.len(),
    ensures
        run_steps(m, xs.take(j + 1), step) == match run_steps(m, xs.take(j), step) {
            Ok(m2) => step(m2, xs[j]),
            Err(e) => Err(e),
        },
{
    assert(xs.take(j + 1).drop_last() =~= xs.take(j));
}

impl TreeViewState {
    /// The container of the nodes of parentless items.
    pub closed spec fn content_node_spec(&self) -> u64 {
        self.content_node
    }

    /// The next identity free for a widget; all identities handed out lie below it.
    pub closed spec fn next_widget_spec(&self) -> u64 {
        self.next_widget
    }

    /// The registry: each tracked item with its widgets.
    pub closed spec fn entries_spec(&self) -> Map<u64, ItemEntry> {
        self.entries@
    }

    /// The operations issued and not yet taken.
    pub closed spec fn log_spec(&self) -> Seq<WidgetOpView> {
        self.log@
    }

    /// The title recorded for each tracked item at its last content change.
    pub closed spec fn titles_spec(&self) -> Map<u64, Seq<char>> {
        self.titles@.map_values(|t: String| t@)
    }

    /// The last title recorded for a tracked item.
    pub open spec fn title_spec(&self, item: u64) -> Seq<char> {
        self.titles_spec()[item]
    }

    /// The state as a value: what the contracts of the steps speak of.
    pub open spec fn model(&self) -> TreeModel {
        TreeModel {
            content: self.content_node_spec(),
            next: self.next_widget_spec(),
            entries: self.entries_spec(),
            titles: self.titles_spec(),
            log: self.log_spec(),
        }
    }

    /// The reverse table of one role: widget to item.
    pub closed spec fn reverse(&self, role: WidgetRole) -> Map<u64, u64> {
        match role {
            WidgetRole::Node => self.item_by_node@,
            WidgetRole::Row => self.item_by_row@,
            WidgetRole::Disclosure => self.item_by_disclosure@,
            WidgetRole::Icon => self.item_by_icon@,
            WidgetRole::Label => self.item_by_label@,
            WidgetRole::ChildSlot => self.item_by_child_slot@,
        }
    }

    /// Whether the item has its six widgets.
    pub open spec fn is_tracked(&self, item: u64) -> bool {
        self.entries_spec().contains_key(item)
    }

    /// The widget of the given role owned by a tracked item.
    pub open spec fn widget_of(&self, item: u64, role: WidgetRole) -> u64 {
        self.entries_spec()[item].widgets.of(role)
    }

    /// Item to widget, for one role.
    pub open spec fn lookup_widget_spec(&self, item: u64, role: WidgetRole) -> Option<u64> {
        if self.is_tracked(item) {
            Some(self.widget_of(item, role))
        } else {
            None
        }
    }

    /// Widget to item, for one role.
    pub open spec fn lookup_item_spec(&self, role: WidgetRole, widget: u64) -> Option<u64> {
        if self.reverse(role).contains_key(widget) {
            Some(self.reverse(role)[widget])
        } else {
            None
        }
    }

    /// Whether some child in `children` is a tracked item.
    pub open spec fn any_tracked(&self, children: Seq<u64>) -> bool {
        any_tracked_in(self.entries_spec(), children)
    }

    /// The sort key of each node widget: the title of the item that owns it.
    pub open spec fn node_keys(&self) -> Map<u64, Seq<char>> {
        Map::new(
            |n: u64| self.reverse(WidgetRole::Node).contains_key(n),
            |n: u64| self.title_spec(self.reverse(WidgetRole::Node)[n]),
        )
    }

    /// Whether `container` is a container whose children this tree view orders.
    pub open spec fn is_container(&self, container: u64) -> bool {
        container == self.content_node_spec() || self.reverse(WidgetRole::ChildSlot).contains_key(
            container,
        )
    }

    /// Well-formedness: the registry and its six reverse tables agree entry for
    /// entry, every widget identity lies below the next free one, and the
    /// reverse tables of different roles share no widget.
    pub closed spec fn wf(&self) -> bool {
        &&& self.content_node < self.next_widget
        &&& self.titles@.dom() == self.entries@.dom()
        &&& forall|item: u64, role: WidgetRole|
            self.entries@.contains_key(item) ==> {
                let w = #[trigger] self.entries@[item].widgets.of(role);
                &&& self.reverse(role).contains_key(w)
                &&& self.reverse(role)[w] == item
                &&& w < self.next_widget
                &&& w != self.content_node
            }
        &&& forall|role: WidgetRole, w: u64| #[trigger]
            self.reverse(role).contains_key(w) ==> {
                &&& self.entries@.contains_key(self.reverse(role)[w])
                &&& self.entries@[self.reverse(role)[w]].widgets.of(role) == w
            }
        &&& forall|r1: WidgetRole, r2: WidgetRole, w: u64|
            #[trigger] self.reverse(r1).contains_key(w) && #[trigger] self.reverse(r2).contains_key(w)
                ==> r1 == r2
    }

    /// A fresh state: its content container is spawned under the tree-view root.
    pub fn new() -> (r: TreeViewState)
        ensures
            r.wf(),
            r.entries_spec() == Map::<u64, ItemEntry>::empty(),
            r.content_node_spec() == 0,
            r.next_widget_spec() == 1,
            forall|role: WidgetRole| #[trigger] r.reverse(role) == Map::<u64, u64>::empty(),
            r.log_spec() == seq![
                WidgetOpView::Spawn { widget: 0, kind: WidgetKind::Content, parent: None },
            ],
    {
        let mut log = OpLog::new();
        log.push(WidgetOp::Spawn { widget: 0, kind: WidgetKind::Content, parent: None });
        let r = TreeViewState {
            content_node: 0,
            entries: HashMap::new(),
            titles: HashMap::new(),
            item_by_node: HashMap::new(),
            item_by_row: HashMap::new(),
            item_by_disclosure: HashMap::new(),
            item_by_icon: HashMap::new(),
            item_by_label: HashMap::new(),
            item_by_child_slot: HashMap::new(),
            next_widget: 1,
            log,
        };
        assert(r.titles@.dom() =~= r.entries@.dom());
        assert forall|role: WidgetRole| #[trigger] r.reverse(role) == Map::<u64, u64>::empty() by {
            assert(r.reverse(role) =~= Map::<u64, u64>::empty());
        }
        assert(r.log@ =~= seq![
            WidgetOpView::Spawn { widget: 0, kind: WidgetKind::Content, parent: None },
        ]);
        r
    }

    /// The container under which the nodes of parentless items stand.
    pub fn content_node(&self) -> (r: u64)
        ensures
            r == self.content_node_spec(),
    {
        self.content_node
    }

    /// Whether `item` is tracked.
    pub fn contains(&self, item: u64) -> (r: bool)
        requires
            self.wf(),
        ensures
            r == self.is_tracked(item),
    {
        self.entries.contains_key(&item)
    }

    /// The widget of the given role owned by `item`, if it is tracked.
    pub fn lookup_widget(&self, item: u64, role: WidgetRole) -> (r: Option<u64>)
        requires
            self.wf(),
        ensures
            r == self.lookup_widget_spec(item, role),
    {
        match self.entries.get(&item) {
            Some(e) => Some(e.widgets.get(role)),
            None => None,
        }
    }

    /// The item that owns `widget` in the given role, if any.
    pub fn lookup_item(&self, role: WidgetRole, widget: u64) -> (r: Option<u64>)
        requires
            self.wf(),
        ensures
            r == self.lookup_item_spec(role, widget),
    {
        let table = match role {
            WidgetRole::Node => &self.item_by_node,
            WidgetRole::Row => &self.item_by_row,
            WidgetRole::Disclosure => &self.item_by_disclosure,
            WidgetRole::Icon => &self.item_by_icon,
            WidgetRole::Label => &self.item_by_label,
            WidgetRole::ChildSlot => &self.item_by_child_slot,
        };
        match table.get(&widget) {
            Some(i) => Some(*i),
            None => None,
        }
    }

    /// Hands out the operations issued since the last call.
    pub fn take_ops(&mut self) -> (r: Vec<WidgetOp>)
        requires
            old(self).wf(),
        ensures
            r@.map_values(|o: WidgetOp| o@) == old(self).log_spec(),
            final(self).log_spec() == Seq::<WidgetOpView>::empty(),
            final(self).entries_spec() == old(self).entries_spec(),
            final(self).wf(),
            final(self).content_node_spec() == old(self).content_node_spec(),
            final(self).next_widget_spec() == old(self).next_widget_spec(),
            forall|i: u64| #[trigger] final(self).title_spec(i) == old(self).title_spec(i),
    {
        let r = self.log.take();
        assert forall|role: WidgetRole| #[trigger] self.reverse(role) == old(self).reverse(role) by {}
        r
    }
}


impl TreeViewState {
    /// Same registry, titles, content container and next free identity.
    pub open spec fn same_registry(&self, other: &TreeViewState) -> bool {
        &&& self.content_node_spec() == other.content_node_spec()
        &&& self.next_widget_spec() == other.next_widget_spec()
        &&& self.entries_spec() == other.entries_spec()
        &&& forall|i: u64| #[trigger] self.title_spec(i) == other.title_spec(i)
    }

    /// Whether some child in `children` is tracked.
    pub fn has_tracked_child(&self, children: &Vec<u64>) -> (r: bool)
        requires
            self.wf(),
        ensures
            r == self.any_tracked(children@),
    {
        let mut i: usize = 0;
        while i < children.len()
            invariant
                i <= children@.len(),
                forall|k: int| 0 <= k < i ==> !self.is_tracked(#[trigger] children@[k]),
            decreases children@.len() - i,
        {
            if self.entries.contains_key(&children[i]) {
                return true;
            }
            i = i + 1;
        }
        false
    }

    /// Allocates the six widgets of an untracked item, records all six pairs,
    /// and issues their creation.
    fn register(&mut self, item: u64, title: String) -> (r: Result<ItemWidgets, TreeViewError>)
        requires
            old(self).wf(),
            !old(self).is_tracked(item),
        ensures
            match r {
                Ok(w) => {
                    &&& final(self).wf()
                    &&& old(self).next_widget_spec() <= u64::MAX - 6
                    &&& w == fresh_widgets(old(self).next_widget_spec())
                    &&& final(self).entries_spec() == old(self).entries_spec().insert(
                        item,
                        ItemEntry { widgets: w, expanded: true },
                    )
                    &&& final(self).next_widget_spec() == old(self).next_widget_spec() + 6
                    &&& final(self).content_node_spec() == old(self).content_node_spec()
                    &&& final(self).log_spec() == old(self).log_spec() + registration_ops(
                        w,
                        old(self).content_node_spec(),
                    )
                    &&& final(self).titles_spec() == old(self).titles_spec().insert(item, title@)
                },
                Err(e) => {
                    &&& e == TreeViewError::IdentitiesExhausted
                    &&& old(self).next_widget_spec() > u64::MAX - 6
                    &&& *final(self) == *old(self)
                },
            },
    {
        if self.next_widget > u64::MAX - 6 {
            return Err(TreeViewError::IdentitiesExhausted);
        }
        let base = self.next_widget;
        let w = ItemWidgets {
            node: base,
            row: base + 1,
            disclosure: base + 2,
            icon: base + 3,
            label: base + 4,
            child_slot: base + 5,
        };
        let ghost old_state = *old(self);
        self.next_widget = base + 6;
        self.entries.insert(item, ItemEntry { widgets: w, expanded: true });
        self.titles.insert(item, title);
        self.item_by_node.insert(w.node, item);
        self.item_by_row.insert(w.row, item);
        self.item_by_disclosure.insert(w.disclosure, item);
        self.item_by_icon.insert(w.icon, item);
        self.item_by_label.insert(w.label, item);
        self.item_by_child_slot.insert(w.child_slot, item);
        let content = self.content_node;
        self.log.push(WidgetOp::Spawn { widget: w.node, kind: WidgetKind::Node, parent: Some(content) });
        self.log.push(WidgetOp::Spawn { widget: w.row, kind: WidgetKind::Row, parent: Some(w.node) });
        self.log.push(
            WidgetOp::Spawn { widget: w.disclosure, kind: WidgetKind::Disclosure, parent: Some(w.row) },
        );
        self.log.push(WidgetOp::SetImage { widget: w.disclosure, icon: Icon::named("Disclosure.Expanded") });
        self.log.push(WidgetOp::Spawn { widget: w.icon, kind: WidgetKind::Icon, parent: Some(w.row) });
        self.log.push(WidgetOp::Spawn { widget: w.label, kind: WidgetKind::Label, parent: Some(w.row) });
        self.log.push(
            WidgetOp::Spawn { widget: w.child_slot, kind: WidgetKind::ChildSlot, parent: Some(w.node) },
        );
        proof {
            assert(self.log@ =~= old_state.log@ + registration_ops(w, content));
            assert(self.titles@.dom() =~= self.entries@.dom());
            assert(self.titles_spec() =~= old_state.titles_spec().insert(item, title@));
            assert forall|role: WidgetRole| #[trigger]
                self.reverse(role) == old_state.reverse(role).insert(w.of(role), item) by {}
            assert forall|item2: u64, role: WidgetRole|
                self.entries@.contains_key(item2) implies {
                let w2 = #[trigger] self.entries@[item2].widgets.of(role);
                &&& self.reverse(role).contains_key(w2)
                &&& self.reverse(role)[w2] == item2
                &&& w2 < self.next_widget
                &&& w2 != self.content_node
            } by {
                if item2 != item {
                    let w2 = old_state.entries@[item2].widgets.of(role);
                    assert(w2 < base);
                }
            }
            assert forall|role: WidgetRole, w2: u64| #[trigger]
                self.reverse(role).contains_key(w2) implies {
                &&& self.entries@.contains_key(self.reverse(role)[w2])
                &&& self.entries@[self.reverse(role)[w2]].widgets.of(role) == w2
            } by {
                if w2 != w.of(role) {
                    assert(old_state.reverse(role).contains_key(w2));
                    let it = old_state.reverse(role)[w2];
                    assert(old_state.entries@.contains_key(it));
                    assert(it != item);
                }
            }
            assert forall|r1: WidgetRole, r2: WidgetRole, w2: u64|
                #[trigger] self.reverse(r1).contains_key(w2) && #[trigger] self.reverse(r2).contains_key(
                    w2,
                ) implies r1 == r2 by {
                if w2 == w.of(r1) && w2 != w.of(r2) {
                    assert(old_state.reverse(r2).contains_key(w2));
                    let it = old_state.reverse(r2)[w2];
                    assert(old_state.entries@[it].widgets.of(r2) < base);
                } else if w2 != w.of(r1) && w2 == w.of(r2) {
                    assert(old_state.reverse(r1).contains_key(w2));
                    let it = old_state.reverse(r1)[w2];
                    assert(old_state.entries@[it].widgets.of(r1) < base);
                }
            }
        }
        Ok(w)
    }

    /// Removes all six pairs of a tracked item, in the order child slot,
    /// disclosure, icon, label, row, node, and issues the destruction of its
    /// node, which takes the node's structural descendants with it.
    pub fn apply_removed(&mut self, item: u64) -> (r: Result<ItemWidgets, TreeViewError>)
        requires
            old(self).wf(),
        ensures
            final(self).wf(),
            final(self).content_node_spec() == old(self).content_node_spec(),
            final(self).next_widget_spec() == old(self).next_widget_spec(),
            r is Err <==> !old(self).is_tracked(item),
            match r {
                Ok(w) => {
                    &&& w == old(self).entries_spec()[item].widgets
                    &&& final(self).entries_spec() == old(self).entries_spec().remove(item)
                    &&& forall|role: WidgetRole| !#[trigger] final(self).reverse(role).contains_key(w.of(role))
                    &&& final(self).log_spec() == old(self).log_spec().push(
                        WidgetOpView::Despawn { widget: w.node },
                    )
                    &&& forall|i: u64| i != item && old(self).is_tracked(i) ==> #[trigger] final(self).title_spec(i) == old(self).title_spec(i)
                },
                Err(e) => e == TreeViewError::NotTracked { item } && *final(self) == *old(self),
            },
            match remove_step(old(self).model(), item) {
                Ok(m) => r is Ok && final(self).model() == m,
                Err(e) => r == Err::<ItemWidgets, TreeViewError>(e) && final(self).model() == old(self).model(),
            },
    {
        let entry = match self.entries.get(&item) {
            Some(e) => *e,
            None => {
                return Err(TreeViewError::NotTracked { item });
            },
        };
        let w = entry.widgets;
        let ghost old_state = *old(self);
        self.entries.remove(&item);
        self.titles.remove(&item);
        self.item_by_child_slot.remove(&w.child_slot);
        self.item_by_disclosure.remove(&w.disclosure);
        self.item_by_icon.remove(&w.icon);
        self.item_by_label.remove(&w.label);
        self.item_by_row.remove(&w.row);
        self.item_by_node.remove(&w.node);
        self.log.push(WidgetOp::Despawn { widget: w.node });
        proof {
            assert(self.titles@.dom() =~= self.entries@.dom());
            assert(self.titles_spec() =~= old_state.titles_spec().remove(item));
            assert forall|role: WidgetRole| #[trigger]
                self.reverse(role) == old_state.reverse(role).remove(w.of(role)) by {}
            assert forall|item2: u64, role: WidgetRole|
                self.entries@.contains_key(item2) implies {
                let w2 = #[trigger] self.entries@[item2].widgets.of(role);
                &&& self.reverse(role).contains_key(w2)
                &&& self.reverse(role)[w2] == item2
                &&& w2 < self.next_widget
                &&& w2 != self.content_node
            } by {
                let w2 = old_state.entries@[item2].widgets.of(role);
                let w1 = old_state.entries@[item].widgets.of(role);
            }
            assert forall|role: WidgetRole, w2: u64| #[trigger]
                self.reverse(role).contains_key(w2) implies {
                &&& self.entries@.contains_key(self.reverse(role)[w2])
                &&& self.entries@[self.reverse(role)[w2]].widgets.of(role) == w2
            } by {
                assert(old_state.reverse(role).contains_key(w2));
                let it = old_state.reverse(role)[w2];
                let w1 = old_state.entries@[item].widgets.of(role);
            }
        }
        Ok(w)
    }

    /// Reacts to a change of an item's content: registers the item if it is
    /// not tracked yet, then refreshes its label text, icon image, row
    /// background, and the visibility of its disclosure control, which is
    /// shown exactly when some child is a tracked item.
    pub fn apply_content_changed(
        &mut self,
        item: u64,
        content: &ItemContent,
        children: &Vec<u64>,
    ) -> (r: Result<(), TreeViewError>)
        requires
            old(self).wf(),
        ensures
            final(self).wf(),
            final(self).content_node_spec() == old(self).content_node_spec(),
            r is Err <==> (!old(self).is_tracked(item) && old(self).next_widget_spec() > u64::MAX - 6),
            r is Err ==> r == Err::<(), TreeViewError>(TreeViewError::IdentitiesExhausted) && *final(self) == *old(self),
            r is Ok ==> {
                &&& final(self).is_tracked(item)
                &&& final(self).title_spec(item) == content.title@
                &&& forall|i: u64| i != item && old(self).is_tracked(i) ==> #[trigger] final(self).title_spec(i) == old(self).title_spec(i)
                &&& if old(self).is_tracked(item) {
                    &&& final(self).entries_spec() == old(self).entries_spec()
                    &&& final(self).next_widget_spec() == old(self).next_widget_spec()
                    &&& final(self).log_spec() == old(self).log_spec() + refresh_ops(
                        old(self).entries_spec()[item].widgets,
                        content.title@,
                        content.icon@,
                        highlight_spec(content.is_selected, content.is_hovered),
                        final(self).any_tracked(children@),
                    )
                } else {
                    let w = fresh_widgets(old(self).next_widget_spec());
                    &&& final(self).entries_spec() == old(self).entries_spec().insert(
                        item,
                        ItemEntry { widgets: w, expanded: true },
                    )
                    &&& final(self).next_widget_spec() == old(self).next_widget_spec() + 6
                    &&& final(self).log_spec() == old(self).log_spec() + registration_ops(
                        w,
                        old(self).content_node_spec(),
                    ) + refresh_ops(
                        w,
                        content.title@,
                        content.icon@,
                        highlight_spec(content.is_selected, content.is_hovered),
                        final(self).any_tracked(children@),
                    )
                }
            },
            match content_step(
                old(self).model(),
                item,
                content.title@,
                content.icon@,
                highlight_spec(content.is_selected, content.is_hovered),
                children@,
            ) {
                Ok(m) => r is Ok && final(self).model() == m,
                Err(e) => r == Err::<(), TreeViewError>(e) && final(self).model() == old(self).model(),
            },
    {
        let ghost old_state = *old(self);
        let w = match self.entries.get(&item) {
            Some(e) => e.widgets,
            None => {
                match self.register(item, content.title.clone()) {
                    Ok(w) => w,
                    Err(e) => {
                        return Err(e);
                    },
                }
            },
        };
        let ghost mid_log = self.log@;
        let ghost mid_state = *self;
        self.titles.insert(item, content.title.clone());
        proof {
            assert(self.titles@.dom() =~= self.entries@.dom());
            assert(self.titles_spec() =~= mid_state.titles_spec().insert(item, content.title@));
            assert(self.titles_spec() =~= old_state.titles_spec().insert(item, content.title@));
            assert forall|role: WidgetRole| #[trigger] self.reverse(role) == mid_state.reverse(role) by {}
        }
        let shown = self.has_tracked_child(children);
        self.log.push(WidgetOp::SetText { widget: w.label, text: content.title.clone() });
        self.log.push(WidgetOp::SetImage { widget: w.icon, icon: content.icon.duplicate() });
        self.log.push(
            WidgetOp::SetBackground {
                widget: w.row,
                highlight: highlight_of(content.is_selected, content.is_hovered),
            },
        );
        self.log.push(WidgetOp::SetVisible { widget: w.disclosure, visible: shown });
        proof {
            assert(self.titles@.dom() =~= self.entries@.dom());
            assert forall|role: WidgetRole| #[trigger] self.reverse(role) == mid_state.reverse(role) by {}
            assert(self.log@ =~= mid_log + refresh_ops(
                w,
                content.title@,
                content.icon@,
                highlight_spec(content.is_selected, content.is_hovered),
                shown,
            ));
        }
        Ok(())
    }

    /// Moves the node of `item` into the child slot of its new parent.
    pub fn apply_reparented(&mut self, item: u64, parent: u64) -> (r: Result<(), TreeViewError>)
        requires
            old(self).wf(),
        ensures
            final(self).wf(),
            final(self).same_registry(old(self)),
            r == if !old(self).is_tracked(item) {
                Err(TreeViewError::NotTracked { item })
            } else if !old(self).is_tracked(parent) {
                Err(TreeViewError::ParentNotTracked { item, parent })
            } else {
                Ok(())
            },
            r is Ok ==> final(self).log_spec() == old(self).log_spec().push(
                WidgetOpView::SetParent {
                    widget: old(self).widget_of(item, WidgetRole::Node),
                    parent: old(self).widget_of(parent, WidgetRole::ChildSlot),
                },
            ),
            r is Ok ==> forall|links: Map<u64, u64>|
                #[trigger] parents_after(links, final(self).log_spec()) == parents_after(
                    links,
                    old(self).log_spec(),
                ).insert(
                    old(self).widget_of(item, WidgetRole::Node),
                    old(self).widget_of(parent, WidgetRole::ChildSlot),
                ),
            r is Err ==> final(self).log_spec() == old(self).log_spec(),
            match reparent_step(old(self).model(), item, parent) {
                Ok(m) => r is Ok && final(self).model() == m,
                Err(e) => r == Err::<(), TreeViewError>(e) && final(self).model() == old(self).model(),
            },
    {
        let node = match self.entries.get(&item) {
            Some(e) => e.widgets.node,
            None => {
                return Err(TreeViewError::NotTracked { item });
            },
        };
        let slot = match self.entries.get(&parent) {
            Some(e) => e.widgets.child_slot,
            None => {
                return Err(TreeViewError::ParentNotTracked { item, parent });
            },
        };
        self.log.push(WidgetOp::SetParent { widget: node, parent: slot });
        assert forall|role: WidgetRole| #[trigger] self.reverse(role) == old(self).reverse(role) by {}
        assert forall|links: Map<u64, u64>|
            #[trigger] parents_after(links, self.log@) == parents_after(links, old(self).log@).insert(
                node,
                slot,
            ) by {
            lemma_parents_after_push(links, old(self).log@, WidgetOpView::SetParent { widget: node, parent: slot });
        }
        Ok(())
    }

    /// Moves the node of an item that lost its parent directly under the
    /// content container; an untracked item is passed over.
    pub fn apply_orphaned(&mut self, item: u64)
        requires
            old(self).wf(),
        ensures
            final(self).wf(),
            final(self).same_registry(old(self)),
            final(self).log_spec() == if old(self).is_tracked(item) {
                old(self).log_spec().push(
                    WidgetOpView::SetParent {
                        widget: old(self).widget_of(item, WidgetRole::Node),
                        parent: old(self).content_node_spec(),
                    },
                )
            } else {
                old(self).log_spec()
            },
            old(self).is_tracked(item) ==> forall|links: Map<u64, u64>|
                #[trigger] parents_after(links, final(self).log_spec()) == parents_after(
                    links,
                    old(self).log_spec(),
                ).insert(old(self).widget_of(item, WidgetRole::Node), old(self).content_node_spec()),
            final(self).model() == orphan_step(old(self).model(), item),
    {
        if let Some(e) = self.entries.get(&item) {
            let node = e.widgets.node;
            let content = self.content_node;
            self.log.push(WidgetOp::SetParent { widget: node, parent: content });
            assert forall|links: Map<u64, u64>|
                #[trigger] parents_after(links, self.log@) == parents_after(links, old(self).log@).insert(
                    node,
                    content,
                ) by {
                lemma_parents_after_push(
                    links,
                    old(self).log@,
                    WidgetOpView::SetParent { widget: node, parent: content },
                );
            }
        }
        assert forall|role: WidgetRole| #[trigger] self.reverse(role) == old(self).reverse(role) by {}
    }

    /// Recomputes the visibility of an item's disclosure control after its set
    /// of children changed: shown exactly when some child is a tracked item.
    pub fn apply_rechilded(&mut self, item: u64, children: &Vec<u64>) -> (r: Result<
        (),
        TreeViewError,
    >)
        requires
            old(self).wf(),
        ensures
            final(self).wf(),
            final(self).same_registry(old(self)),
            r is Err <==> !old(self).is_tracked(item),
            r is Err ==> r == Err::<(), TreeViewError>(TreeViewError::NotTracked { item })
                && final(self).log_spec() == old(self).log_spec(),
            r is Ok ==> final(self).log_spec() == old(self).log_spec().push(
                WidgetOpView::SetVisible {
                    widget: old(self).widget_of(item, WidgetRole::Disclosure),
                    visible: old(self).any_tracked(children@),
                },
            ),
            match rechild_step(old(self).model(), item, children@) {
                Ok(m) => r is Ok && final(self).model() == m,
                Err(e) => r == Err::<(), TreeViewError>(e) && final(self).model() == old(self).model(),
            },
    {
        let disclosure = match self.entries.get(&item) {
            Some(e) => e.widgets.disclosure,
            None => {
                return Err(TreeViewError::NotTracked { item });
            },
        };
        let shown = self.has_tracked_child(children);
        self.log.push(WidgetOp::SetVisible { widget: disclosure, visible: shown });
        assert forall|role: WidgetRole| #[trigger] self.reverse(role) == old(self).reverse(role) by {}
        Ok(())
    }
}


/// The interaction state of a disclosure control.
#[derive(Clone, Copy, Debug, PartialEq, Eq, Structural)]
pub enum Interaction {
    Clicked,
    Hovered,
    Idle,
}

impl TreeViewState {
    /// Reacts to an interaction state entered by a widget: when a disclosure
    /// control is clicked, its item's child slot flips between shown and
    /// hidden and the control shows the matching glyph. Anything else changes
    /// nothing. Returns whether the click was handled.
    pub fn apply_disclosure_interaction(&mut self, widget: u64, interaction: Interaction) -> (r:
        bool)
        requires
            old(self).wf(),
        ensures
            final(self).wf(),
            final(self).content_node_spec() == old(self).content_node_spec(),
            final(self).next_widget_spec() == old(self).next_widget_spec(),
            forall|i: u64| #[trigger] final(self).title_spec(i) == old(self).title_spec(i),
            forall|role: WidgetRole| #[trigger] final(self).reverse(role) == old(self).reverse(role),
            r == (interaction == Interaction::Clicked && old(self).reverse(
                WidgetRole::Disclosure,
            ).contains_key(widget)),
            r ==> {
                let item = old(self).reverse(WidgetRole::Disclosure)[widget];
                let e = old(self).entries_spec()[item];
                &&& final(self).entries_spec() == old(self).entries_spec().insert(
                    item,
                    ItemEntry { widgets: e.widgets, expanded: !e.expanded },
                )
                &&& final(self).log_spec() == old(self).log_spec() + seq![
                    WidgetOpView::SetVisible { widget: e.widgets.child_slot, visible: !e.expanded },
                    WidgetOpView::SetImage {
                        widget: widget,
                        icon: IconView::Named(disclosure_glyph(!e.expanded)),
                    },
                ]
            },
            !r ==> final(self).entries_spec() == old(self).entries_spec() && final(self).log_spec()
                == old(self).log_spec(),
    {
        if interaction != Interaction::Clicked {
            return false;
        }
        let item = match self.item_by_disclosure.get(&widget) {
            Some(i) => *i,
            None => {
                return false;
            },
        };
        let ghost old_state = *old(self);
        let e = *self.entries.get(&item).unwrap();
        let expanded = !e.expanded;
        self.entries.insert(item, ItemEntry { widgets: e.widgets, expanded });
        self.log.push(WidgetOp::SetVisible { widget: e.widgets.child_slot, visible: expanded });
        let glyph = if expanded {
            Icon::named("Disclosure.Expanded")
        } else {
            Icon::named("Disclosure.Collapsed")
        };
        self.log.push(WidgetOp::SetImage { widget, icon: glyph });
        proof {
            assert(self.titles@.dom() =~= self.entries@.dom());
            assert forall|role: WidgetRole| #[trigger] self.reverse(role) == old_state.reverse(role) by {}
            assert forall|item2: u64, role: WidgetRole|
                self.entries@.contains_key(item2) implies {
                let w2 = #[trigger] self.entries@[item2].widgets.of(role);
                &&& self.reverse(role).contains_key(w2)
                &&& self.reverse(role)[w2] == item2
                &&& w2 < self.next_widget
                &&& w2 != self.content_node
            } by {
                let w1 = old_state.entries@[item2].widgets.of(role);
            }
            assert(self.log@ =~= old_state.log@ + seq![
                WidgetOpView::SetVisible { widget: e.widgets.child_slot, visible: expanded },
                WidgetOpView::SetImage { widget: widget, icon: IconView::Named(disclosure_glyph(expanded)) },
            ]);
        }
        true
    }

    /// The title of the item whose node is `node`.
    fn node_title(&self, node: u64) -> (r: &String)
        requires
            self.wf(),
            self.reverse(WidgetRole::Node).contains_key(node),
        ensures
            r@ == self.node_keys()[node],
    {
        let item = *self.item_by_node.get(&node).unwrap();
        self.titles.get(&item).unwrap()
    }

    /// Orders the children of a container of this tree view by the titles of
    /// the items that own them, ascending; equal titles keep their relative
    /// order. A container of another tree view yields `None`. A child that is
    /// not the node of a tracked item is a defect.
    ///
    /// The key of each child is the title recorded at its item's last content
    /// change. Every change of a title arrives as a content change, and a tick
    /// drains content changes before this pass runs, so within a tick the key
    /// is the item's current title.
    #[verifier::rlimit(40)]
    pub fn sort_children(&self, container: u64, children: &Vec<u64>) -> (r: Result<
        Option<Vec<u64>>,
        TreeViewError,
    >)
        requires
            self.wf(),
        ensures
            !self.is_container(container) ==> r == Ok::<Option<Vec<u64>>, TreeViewError>(None),
            r is Err <==> (self.is_container(container) && exists|i: int|
                0 <= i < children@.len() && !self.reverse(WidgetRole::Node).contains_key(
                    #[trigger] children@[i],
                )),
            match r {
                Ok(Some(v)) => self.is_container(container) && v@ == sort_by_key(
                    children@,
                    self.node_keys(),
                ),
                Ok(None) => !self.is_container(container),
                Err(e) => e matches TreeViewError::ForeignChild { widget } && children@.contains(widget)
                    && !self.reverse(WidgetRole::Node).contains_key(widget),
            },
    {
        if container != self.content_node && !self.item_by_child_slot.contains_key(&container) {
            return Ok(None);
        }
        assert(self.is_container(container));
        let n = children.len();
        let mut i: usize = 0;
        while i < n
            invariant
                n == children@.len(),
                i <= n,
                self.is_container(container),
                forall|k: int| 0 <= k < i ==> self.reverse(WidgetRole::Node).contains_key(
                    #[trigger] children@[k],
                ),
            decreases n - i,
        {
            if !self.item_by_node.contains_key(&children[i]) {
                return Err(TreeViewError::ForeignChild { widget: children[i] });
            }
            i = i + 1;
        }
        let ghost keys = self.node_keys();
        let mut out: Vec<u64> = Vec::new();
        let mut i: usize = 0;
        while i < n
            invariant
                self.wf(),
                keys == self.node_keys(),
                n == children@.len(),
                i <= n,
                forall|k: int| 0 <= k < n ==> self.reverse(WidgetRole::Node).contains_key(
                    #[trigger] children@[k],
                ),
                out@ == sort_by_key(children@.take(i as int), keys),
                out@.len() == i,
                forall|k: int| 0 <= k < out@.len() ==> self.reverse(WidgetRole::Node).contains_key(
                    #[trigger] out@[k],
                ),
            decreases n - i,
        {
            let x = children[i];
            let xt = self.node_title(x);
            let mut j: usize = out.len();
            loop
                invariant
                    self.wf(),
                    keys == self.node_keys(),
                    j <= out@.len(),
                    self.reverse(WidgetRole::Node).contains_key(x),
                    xt@ == keys[x],
                    forall|k: int| 0 <= k < out@.len() ==> self.reverse(WidgetRole::Node).contains_key(
                        #[trigger] out@[k],
                    ),
                    forall|k: int| j <= k < out@.len() ==> !title_le(keys[#[trigger] out@[k]], keys[x]),
                ensures
                    j == 0 || title_le(keys[out@[j - 1]], keys[x]),
                    forall|k: int| j <= k < out@.len() ==> !title_le(keys[#[trigger] out@[k]], keys[x]),
                decreases j,
            {
                if j == 0 {
                    break;
                }
                let le = title_le_exec(self.node_title(out[j - 1]).as_str(), xt.as_str());
                if le {
                    break;
                }
                j = j - 1;
            }
            proof {
                lemma_insert_at(out@, x, keys, j as int);
                let t = children@.take(i + 1);
                assert(t.drop_last() =~= children@.take(i as int));
                assert(t.last() == x);
            }
            let ghost before = out@;
            out.insert(j, x);
            proof {
                assert forall|k: int| 0 <= k < out@.len() implies self.reverse(
                    WidgetRole::Node,
                ).contains_key(#[trigger] out@[k]) by {
                    if k < j {
                        assert(out@[k] == before[k]);
                    } else if k > j {
                        assert(out@[k] == before[k - 1]);
                    }
                }
            }
            i = i + 1;
        }
        assert(children@.take(n as int) =~= children@);
        Ok(Some(out))
    }
}


/// A content change: the item was newly observed, or its title, icon,
/// selection or hover state changed.
#[derive(Debug)]
pub struct ContentChange {
    pub item: u64,
    pub content: ItemContent,
    pub children: Vec<u64>,
}

/// A new parent for an item.
#[derive(Clone, Copy, Debug, PartialEq, Eq, Structural)]
pub struct Reparent {
    pub item: u64,
    pub parent: u64,
}

/// A change in the membership of an item's children.
#[derive(Debug)]
pub struct Rechild {
    pub item: u64,
    pub children: Vec<u64>,
}

/// The notifications of one tick, by category.
#[derive(Debug)]
pub struct ChangeFeed {
    pub changed: Vec<ContentChange>,
    pub reparented: Vec<Reparent>,
    pub orphaned: Vec<u64>,
    pub rechilded: Vec<Rechild>,
    pub removed: Vec<u64>,
}

impl TreeViewState {
    /// Runs one tick of reconciliation: content changes, then reparents, then
    /// orphans, then rechilds, then removals, each category drained in full
    /// before the next. The first defect ends the tick with its error; the
    /// steps before it stay applied.
    pub fn apply_changes(&mut self, feed: &ChangeFeed) -> (r: Result<(), TreeViewError>)
        requires
            old(self).wf(),
        ensures
            final(self).wf(),
            final(self).content_node_spec() == old(self).content_node_spec(),
            match tick_spec(old(self).model(), *feed) {
                Ok(m) => r is Ok && final(self).model() == m,
                Err(e) => r == Err::<(), TreeViewError>(e),
            },
            r is Ok ==> {
                &&& forall|k: int|
                    0 <= k < feed.removed@.len() ==> !final(self).is_tracked(#[trigger] feed.removed@[k])
                &&& forall|k: int|
                    0 <= k < feed.changed@.len() && !feed.removed@.contains(
                        #[trigger] feed.changed@[k].item,
                    ) ==> final(self).is_tracked(feed.changed@[k].item)
                &&& forall|i: u64|
                    old(self).is_tracked(i) && !feed.removed@.contains(i) ==> {
                        &&& final(self).is_tracked(i)
                        &&& #[trigger] final(self).entries_spec()[i].widgets
                            == old(self).entries_spec()[i].widgets
                    }
            },
    {
        let ghost m0 = old(self).model();
        let ghost e0 = old(self).entries_spec();
        let mut i: usize = 0;
        while i < feed.changed.len()
            invariant
                self.wf(),
                self.content_node == old(self).content_node,
                m0 == old(self).model(),
                e0 == old(self).entries_spec(),
                i <= feed.changed@.len(),
                changed_pass(m0, feed.changed@.take(i as int)) == Ok::<TreeModel, TreeViewError>(self.model()),
                forall|k: int| 0 <= k < i ==> self.is_tracked(#[trigger] feed.changed@[k].item),
                forall|x: u64| #[trigger] e0.contains_key(x) ==> self.entries_spec().contains_key(x)
                    && self.entries_spec()[x].widgets == e0[x].widgets,
            decreases feed.changed@.len() - i,
        {
            let c = &feed.changed[i];
            let ghost before = self.model();
            let res = self.apply_content_changed(c.item, &c.content, &c.children);
            proof {
                lemma_run_steps_next(
                    m0,
                    feed.changed@,
                    changed_step(),
                    i as int,
                );
            }
            match res {
                Ok(()) => {},
                Err(e) => {
                    proof {
                        assert(content_change_step(before, feed.changed@[i as int]) == Err::<TreeModel, TreeViewError>(e));
                        assert(changed_pass(m0, feed.changed@.take(i + 1)) == Err::<TreeModel, TreeViewError>(e));
                        lemma_run_steps_err(
                            m0,
                            feed.changed@,
                            changed_step(),
                            i + 1,
                        );
                        assert(changed_pass(m0, feed.changed@) == Err::<TreeModel, TreeViewError>(e));
                        assert(tick_spec(m0, *feed) == Err::<TreeModel, TreeViewError>(e));
                    }
                    return Err(e);
                },
            }
            i = i + 1;
        }
        assert(feed.changed@.take(feed.changed@.len() as int) =~= feed.changed@);
        let ghost m1 = self.model();
        let ghost tracked_after_changes = self.entries@;
        let mut i: usize = 0;
        while i < feed.reparented.len()
            invariant
                self.wf(),
                self.content_node == old(self).content_node,
                m0 == old(self).model(),
                e0 == old(self).entries_spec(),
                changed_pass(m0, feed.changed@) == Ok::<TreeModel, TreeViewError>(m1),
                i <= feed.reparented@.len(),
                reparented_pass(m1, feed.reparented@.take(i as int)) == Ok::<TreeModel, TreeViewError>(self.model()),
                self.entries@ == tracked_after_changes,
            decreases feed.reparented@.len() - i,
        {
            let p = feed.reparented[i];
            let res = self.apply_reparented(p.item, p.parent);
            proof {
                lemma_run_steps_next(
                    m1,
                    feed.reparented@,
                    reparented_step(),
                    i as int,
                );
            }
            match res {
                Ok(()) => {},
                Err(e) => {
                    proof {
                        assert(reparented_pass(m1, feed.reparented@.take(i + 1)) == Err::<TreeModel, TreeViewError>(e));
                        lemma_run_steps_err(
                            m1,
                            feed.reparented@,
                            reparented_step(),
                            i + 1,
                        );
                        assert(reparented_pass(m1, feed.reparented@) == Err::<TreeModel, TreeViewError>(e));
                        assert(tick_spec(m0, *feed) == Err::<TreeModel, TreeViewError>(e));
                    }
                    return Err(e);
                },
            }
            i = i + 1;
        }
        assert(feed.reparented@.take(feed.reparented@.len() as int) =~= feed.reparented@);
        let ghost m2 = self.model();
        let mut i: usize = 0;
        while i < feed.orphaned.len()
            invariant
                self.wf(),
                self.content_node == old(self).content_node,
                m0 == old(self).model(),
                e0 == old(self).entries_spec(),
                changed_pass(m0, feed.changed@) == Ok::<TreeModel, TreeViewError>(m1),
                reparented_pass(m1, feed.reparented@) == Ok::<TreeModel, TreeViewError>(m2),
                i <= feed.orphaned@.len(),
                orphaned_pass(m2, feed.orphaned@.take(i as int)) == Ok::<TreeModel, TreeViewError>(self.model()),
                self.entries@ == tracked_after_changes,
            decreases feed.orphaned@.len() - i,
        {
            self.apply_orphaned(feed.orphaned[i]);
            proof {
                lemma_run_steps_next(
                    m2,
                    feed.orphaned@,
                    orphaned_step(),
                    i as int,
                );
            }
            i = i + 1;
        }
        assert(feed.orphaned@.take(feed.orphaned@.len() as int) =~= feed.orphaned@);
        let ghost m3 = self.model();
        let mut i: usize = 0;
        while i < feed.rechilded.len()
            invariant
                self.wf(),
                self.content_node == old(self).content_node,
                m0 == old(self).model(),
                e0 == old(self).entries_spec(),
                changed_pass(m0, feed.changed@) == Ok::<TreeModel, TreeViewError>(m1),
                reparented_pass(m1, feed.reparented@) == Ok::<TreeModel, TreeViewError>(m2),
                orphaned_pass(m2, feed.orphaned@) == Ok::<TreeModel, TreeViewError>(m3),
                i <= feed.rechilded@.len(),
                rechilded_pass(m3, feed.rechilded@.take(i as int)) == Ok::<TreeModel, TreeViewError>(self.model()),
                self.entries@ == tracked_after_changes,
            decreases feed.rechilded@.len() - i,
        {
            let c = &feed.rechilded[i];
            let res = self.apply_rechilded(c.item, &c.children);
            proof {
                lemma_run_steps_next(
                    m3,
                    feed.rechilded@,
                    rechilded_step(),
                    i as int,
                );
            }
            match res {
                Ok(()) => {},
                Err(e) => {
                    proof {
                        assert(rechilded_pass(m3, feed.rechilded@.take(i + 1)) == Err::<TreeModel, TreeViewError>(e));
                        lemma_run_steps_err(
                            m3,
                            feed.rechilded@,
                            rechilded_step(),
                            i + 1,
                        );
                        assert(rechilded_pass(m3, feed.rechilded@) == Err::<TreeModel, TreeViewError>(e));
                        assert(tick_spec(m0, *feed) == Err::<TreeModel, TreeViewError>(e));
                    }
                    return Err(e);
                },
            }
            i = i + 1;
        }
        assert(feed.rechilded@.take(feed.rechilded@.len() as int) =~= feed.rechilded@);
        let ghost m4 = self.model();
        let mut i: usize = 0;
        while i < feed.removed.len()
            invariant
                self.wf(),
                self.content_node == old(self).content_node,
                m0 == old(self).model(),
                e0 == old(self).entries_spec(),
                changed_pass(m0, feed.changed@) == Ok::<TreeModel, TreeViewError>(m1),
                reparented_pass(m1, feed.reparented@) == Ok::<TreeModel, TreeViewError>(m2),
                orphaned_pass(m2, feed.orphaned@) == Ok::<TreeModel, TreeViewError>(m3),
                rechilded_pass(m3, feed.rechilded@) == Ok::<TreeModel, TreeViewError>(m4),
                i <= feed.removed@.len(),
                removed_pass(m4, feed.removed@.take(i as int)) == Ok::<TreeModel, TreeViewError>(self.model()),
                forall|k: int| 0 <= k < i ==> !self.is_tracked(#[trigger] feed.removed@[k]),
                forall|k: int|
                    0 <= k < feed.changed@.len() && !feed.removed@.take(i as int).contains(
                        #[trigger] feed.changed@[k].item,
                    ) ==> self.is_tracked(feed.changed@[k].item),
                forall|x: u64| #[trigger] e0.contains_key(x) && !feed.removed@.take(i as int).contains(x)
                    ==> self.entries_spec().contains_key(x) && self.entries_spec()[x].widgets == e0[x].widgets,
            decreases feed.removed@.len() - i,
        {
            let ghost before = self.entries@;
            let res = self.apply_removed(feed.removed[i]);
            proof {
                lemma_run_steps_next(
                    m4,
                    feed.removed@,
                    removed_step(),
                    i as int,
                );
            }
            match res {
                Ok(_) => {},
                Err(e) => {
                    proof {
                        assert(removed_pass(m4, feed.removed@.take(i + 1)) == Err::<TreeModel, TreeViewError>(e));
                        lemma_run_steps_err(
                            m4,
                            feed.removed@,
                            removed_step(),
                            i + 1,
                        );
                        assert(removed_pass(m4, feed.removed@) == Err::<TreeModel, TreeViewError>(e));
                        assert(tick_spec(m0, *feed) == Err::<TreeModel, TreeViewError>(e));
                    }
                    return Err(e);
                },
            }
            proof {
                let t = feed.removed@.take(i + 1);
                assert(t =~= feed.removed@.take(i as int).push(feed.removed@[i as int]));
                assert forall|x: u64| !t.contains(x) implies !feed.removed@.take(i as int).contains(x) by {
                    if feed.removed@.take(i as int).contains(x) {
                        let m = choose|m: int| 0 <= m < i && feed.removed@.take(i as int)[m] == x;
                        assert(t[m] == x);
                    }
                }
                assert(t[i as int] == feed.removed@[i as int]);
            }
            i = i + 1;
        }
        assert(feed.removed@.take(feed.removed@.len() as int) =~= feed.removed@);
        Ok(())
    }
}

/// A tick whose only notification reparents a tracked item under a tracked
/// parent succeeds, leaves registry and titles as they were, and moves exactly
/// the item's node into the parent's child slot: every other widget keeps its
/// parent link, so the item's whole widget subtree moves with its node.
pub proof fn lemma_tick_single_reparent(m: TreeModel, feed: ChangeFeed, links: Map<u64, u64>)
    requires
        feed.changed@.len() == 0,
        feed.reparented@.len() == 1,
        feed.orphaned@.len() == 0,
        feed.rechilded@.len() == 0,
        feed.removed@.len() == 0,
        m.entries.contains_key(feed.reparented@[0].item),
        m.entries.contains_key(feed.reparented@[0].parent),
    ensures
        tick_spec(m, feed) matches Ok(m2) && {
            let node = m.entries[feed.reparented@[0].item].widgets.node;
            let slot = m.entries[feed.reparented@[0].parent].widgets.child_slot;
            &&& m2.entries == m.entries
            &&& m2.titles == m.titles
            &&& m2.next == m.next
            &&& m2.content == m.content
            &&& m2.log == m.log.push(WidgetOpView::SetParent { widget: node, parent: slot })
            &&& parents_after(links, m2.log) == parents_after(links, m.log).insert(node, slot)
        },
{
    let p = feed.reparented@[0];
    assert(feed.reparented@.drop_last().len() == 0);
    assert(run_steps(m, feed.reparented@.drop_last(), reparented_step()) == Ok::<TreeModel, TreeViewError>(m));
    assert(feed.reparented@.last() == p);
    assert(changed_pass(m, feed.changed@) == Ok::<TreeModel, TreeViewError>(m));
    let m2 = with_op(
        m,
        WidgetOpView::SetParent {
            widget: m.entries[p.item].widgets.node,
            parent: m.entries[p.parent].widgets.child_slot,
        },
    );
    assert((reparented_step())(m, p) == reparent_step(m, p.item, p.parent));
    assert(reparented_pass(m, feed.reparented@) == Ok::<TreeModel, TreeViewError>(m2));
    assert(orphaned_pass(m2, feed.orphaned@) == Ok::<TreeModel, TreeViewError>(m2));
    assert(rechilded_pass(m2, feed.rechilded@) == Ok::<TreeModel, TreeViewError>(m2));
    assert(removed_pass(m2, feed.removed@) == Ok::<TreeModel, TreeViewError>(m2));
    lemma_parents_after_push(
        links,
        m.log,
        WidgetOpView::SetParent {
            widget: m.entries[p.item].widgets.node,
            parent: m.entries[p.parent].widgets.child_slot,
        },
    );
}

/// A tick that first observes a new parentless folder and a new childless
/// scene, reparents the scene under the folder, and reports the folder's new
/// child succeeds. Afterwards the scene's node stands in the folder's child
/// slot, the folder's node under the content container, the folder's
/// disclosure control is shown and the scene's is hidden.
#[verifier::rlimit(60)]
pub proof fn lemma_tick_folder_with_scene(
    m: TreeModel,
    feed: ChangeFeed,
    links: Map<u64, u64>,
    shown: Map<u64, bool>,
)
    requires
        m.next <= u64::MAX - 12,
        feed.changed@.len() == 2,
        feed.reparented@.len() == 1,
        feed.orphaned@.len() == 0,
        feed.rechilded@.len() == 1,
        feed.removed@.len() == 0,
        feed.changed@[0].item != feed.changed@[1].item,
        !m.entries.contains_key(feed.changed@[0].item),
        !m.entries.contains_key(feed.changed@[1].item),
        feed.changed@[1].children@.len() == 0,
        feed.reparented@[0] == (Reparent { item: feed.changed@[1].item, parent: feed.changed@[0].item }),
        feed.rechilded@[0].item == feed.changed@[0].item,
        feed.rechilded@[0].children@ == seq![feed.changed@[1].item],
    ensures
        tick_spec(m, feed) matches Ok(m2) && {
            let folder = fresh_widgets(m.next);
            let scene = fresh_widgets((m.next + 6) as u64);
            &&& m2.entries[feed.changed@[0].item].widgets == folder
            &&& m2.entries[feed.changed@[1].item].widgets == scene
            &&& parents_after(links, m2.log)[scene.node] == folder.child_slot
            &&& parents_after(links, m2.log)[folder.node] == m.content
            &&& visibility_after(shown, m2.log)[folder.disclosure]
            &&& !visibility_after(shown, m2.log)[scene.disclosure]
        },
{
    let cf = feed.changed@[0];
    let cs = feed.changed@[1];
    let f = cf.item;
    let sc = cs.item;
    let wf = fresh_widgets(m.next);
    let ws = fresh_widgets((m.next + 6) as u64);
    let e1 = m.entries.insert(f, ItemEntry { widgets: wf, expanded: true });
    let e2 = e1.insert(sc, ItemEntry { widgets: ws, expanded: true });
    let hf = highlight_spec(cf.content.is_selected, cf.content.is_hovered);
    let hs = highlight_spec(cs.content.is_selected, cs.content.is_hovered);
    let rf = refresh_ops(wf, cf.content.title@, cf.content.icon@, hf, any_tracked_in(e1, cf.children@));
    let rs = refresh_ops(ws, cs.content.title@, cs.content.icon@, hs, false);
    let l1 = m.log + registration_ops(wf, m.content) + rf;
    let l2 = l1 + registration_ops(ws, m.content) + rs;
    let m1 = TreeModel {
        content: m.content,
        next: (m.next + 6) as u64,
        entries: e1,
        titles: m.titles.insert(f, cf.content.title@),
        log: l1,
    };
    let mc = TreeModel {
        content: m.content,
        next: (m.next + 12) as u64,
        entries: e2,
        titles: m1.titles.insert(sc, cs.content.title@),
        log: l2,
    };
    // the content pass
    let xs = feed.changed@;
    assert(xs.drop_last().drop_last().len() == 0);
    assert(run_steps(m, xs.drop_last().drop_last(), changed_step()) == Ok::<TreeModel, TreeViewError>(m));
    assert(xs.drop_last().last() == cf);
    assert(xs.last() == cs);
    assert(content_change_step(m, cf) == Ok::<TreeModel, TreeViewError>(m1));
    assert(run_steps(m, xs.drop_last(), changed_step()) == Ok::<TreeModel, TreeViewError>(m1));
    assert(!any_tracked_in(e2, cs.children@));
    assert(content_change_step(m1, cs) == Ok::<TreeModel, TreeViewError>(mc));
    assert(changed_pass(m, xs) == Ok::<TreeModel, TreeViewError>(mc));
    // the reparent pass
    let set_parent = WidgetOpView::SetParent { widget: ws.node, parent: wf.child_slot };
    let mr = with_op(mc, set_parent);
    assert(feed.reparented@.drop_last().len() == 0);
    assert(run_steps(mc, feed.reparented@.drop_last(), reparented_step()) == Ok::<TreeModel, TreeViewError>(mc));
    assert(feed.reparented@.last() == feed.reparented@[0]);
    assert(reparented_pass(mc, feed.reparented@) == Ok::<TreeModel, TreeViewError>(mr));
    assert(orphaned_pass(mr, feed.orphaned@) == Ok::<TreeModel, TreeViewError>(mr));
    // the rechild pass
    let set_visible = WidgetOpView::SetVisible { widget: wf.disclosure, visible: true };
    let children = feed.rechilded@[0].children@;
    assert(e2.contains_key(children[0]));
    assert(any_tracked_in(e2, children));
    let mv = with_op(mr, set_visible);
    assert(feed.rechilded@.drop_last().len() == 0);
    assert(run_steps(mr, feed.rechilded@.drop_last(), rechilded_step()) == Ok::<TreeModel, TreeViewError>(mr));
    assert(feed.rechilded@.last() == feed.rechilded@[0]);
    assert(rechilded_pass(mr, feed.rechilded@) == Ok::<TreeModel, TreeViewError>(mv));
    assert(removed_pass(mv, feed.removed@) == Ok::<TreeModel, TreeViewError>(mv));
    assert(tick_spec(m, feed) == Ok::<TreeModel, TreeViewError>(mv));
    // the scene's node and the folder's disclosure control: the last two operations
    let l3 = l2.push(set_parent);
    lemma_parents_after_push(links, l2, set_parent);
    lemma_parents_after_push(links, l3, set_visible);
    lemma_visibility_after_push(shown, l2, set_parent);
    lemma_visibility_after_push(shown, l3, set_visible);
    // the scene's disclosure control: last set by its refresh
    let rs3 = rs.subrange(0, 3);
    let hide = WidgetOpView::SetVisible { widget: ws.disclosure, visible: false };
    assert(l2 =~= (l1 + registration_ops(ws, m.content) + rs3).push(hide));
    lemma_visibility_after_push(shown, l1 + registration_ops(ws, m.content) + rs3, hide);
    // the folder's node: spawned under the content container, untouched afterwards
    let spawn = WidgetOpView::Spawn { widget: wf.node, kind: WidgetKind::Node, parent: Some(m.content) };
    let a0 = m.log.push(spawn);
    lemma_parents_after_push(links, m.log, spawn);
    let reg_rest = registration_ops(wf, m.content).subrange(1, 7);
    assert(m.log + registration_ops(wf, m.content) =~= a0 + reg_rest);
    lemma_parents_after_untouched(links, a0, reg_rest, wf.node);
    let a1 = a0 + reg_rest;
    lemma_parents_after_untouched(links, a1, rf, wf.node);
    assert(l1 =~= a1 + rf);
    lemma_parents_after_untouched(links, l1, registration_ops(ws, m.content), wf.node);
    let a2 = l1 + registration_ops(ws, m.content);
    lemma_parents_after_untouched(links, a2, rs, wf.node);
    let tail = seq![set_parent, set_visible];
    lemma_parents_after_untouched(links, l2, tail, wf.node);
    assert(l2 + tail =~= l3.push(set_visible));
}

/// For every tracked item and every role, looking up the item of its widget
/// of that role gives the item back.
pub proof fn lemma_round_trip(state: &TreeViewState, item: u64, role: WidgetRole)
    requires
        state.wf(),
        state.is_tracked(item),
    ensures
        state.lookup_widget_spec(item, role) matches Some(w) && state.lookup_item_spec(role, w)
            == Some(item),
{
    reveal(TreeViewState::wf);
    let w = state.entries_spec()[item].widgets.of(role);
}

/// Every widget in a reverse table belongs to a tracked item whose widget of
/// that role it is: widget to item to widget gives the widget back.
pub proof fn lemma_reverse_round_trip(state: &TreeViewState, role: WidgetRole, widget: u64)
    requires
        state.wf(),
        state.lookup_item_spec(role, widget) is Some,
    ensures
        state.lookup_item_spec(role, widget) matches Some(item) && state.is_tracked(item)
            && state.lookup_widget_spec(item, role) == Some(widget),
{
}

/// No two distinct tracked items own the same widget in the same role.
pub proof fn lemma_exclusive(state: &TreeViewState, a: u64, b: u64, role: WidgetRole)
    requires
        state.wf(),
        state.is_tracked(a),
        state.is_tracked(b),
        a != b,
    ensures
        state.widget_of(a, role) != state.widget_of(b, role),
{
    let wa = state.entries_spec()[a].widgets.of(role);
    let wb = state.entries_spec()[b].widgets.of(role);
}

} // verus!
