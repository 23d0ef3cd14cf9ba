//! Operations that the engine issues to the widget substrate, and the log that collects them.
use vstd::prelude::*;
use crate::icon::{Icon, IconView};

verus! {

/// The structural role of a widget owned by a tree view.
#[derive(Clone, Copy, Debug, PartialEq, Eq, Structural)]
pub enum WidgetKind {
    Content,
    Node,
    Row,
    Disclosure,
    Icon,
    Label,
    ChildSlot,
}

/// Row background state; selection takes precedence over hover.
#[derive(Clone, Copy, Debug, PartialEq, Eq, Structural)]
pub enum Highlight {
    Selected,
    Hovered,
    Neutral,
}

/// Selection takes precedence over hover.
pub open spec fn highlight_spec(selected: bool, hovered: bool) -> Highlight {
    if selected {
        Highlight::Selected
    } else if hovered {
        Highlight::Hovered
    } else {
        Highlight::Neutral
    }
}

/// The background state of a row for the given selection and hover flags.
pub fn highlight_of(selected: bool, hovered: bool) -> (r: Highlight)
    ensures
        r == highlight_spec(selected, hovered),
{
    if selected {
        Highlight::Selected
    } else if hovered {
        Highlight::Hovered
    } else {
        Highlight::Neutral
    }
}

/// One structural or presentational mutation of the widget substrate.
/// `Despawn` destroys the widget together with all of its structural descendants;
/// a `Spawn` without a parent is placed directly under the tree-view root widget.
#[derive(Debug)]
#[allow(inconsistent_fields)]
pub enum WidgetOp {
    Spawn { widget: u64, kind: WidgetKind, parent: Option<u64> },
    SetParent { widget: u64, parent: u64 },
    SetVisible { widget: u64, visible: bool },
    SetBackground { widget: u64, highlight: Highlight },
    SetImage { widget: u64, icon: Icon },
    SetText { widget: u64, text: String },
    Despawn { widget: u64 },
}

/// A widget operation with its text and icon seen as values.
#[allow(inconsistent_fields)]
pub enum WidgetOpView {
    Spawn { widget: u64, kind: WidgetKind, parent: Option<u64> },
    SetParent { widget: u64, parent: u64 },
    SetVisible { widget: u64, visible: bool },
    SetBackground { widget: u64, highlight: Highlight },
    SetImage { widget: u64, icon: IconView },
    SetText { widget: u64, text: Seq<char> },
    Despawn { widget: u64 },
}

impl View for WidgetOp {
    type V = WidgetOpView;

    open spec fn view(&self) -> WidgetOpView {
        match self {
            WidgetOp::Spawn { widget, kind, parent } => WidgetOpView::Spawn {
                widget: *widget,
                kind: *kind,
                parent: *parent,
            },
            WidgetOp::SetParent { widget, parent } => WidgetOpView::SetParent {
                widget: *widget,
                parent: *parent,
            },
            WidgetOp::SetVisible { widget, visible } => WidgetOpView::SetVisible {
                widget: *widget,
                visible: *visible,
            },
            WidgetOp::SetBackground { widget, highlight } => WidgetOpView::SetBackground {
                widget: *widget,
                highlight: *highlight,
            },
            WidgetOp::SetImage { widget, icon } => WidgetOpView::SetImage {
                widget: *widget,
                icon: icon@,
            },
            WidgetOp::SetText { widget, text } => WidgetOpView::SetText {
                widget: *widget,
                text: text@,
            },
            WidgetOp::Despawn { widget } => WidgetOpView::Despawn { widget: *widget },
        }
    }
}

/// The structural parent links after one operation: a spawn under a widget or
/// a reparent sets the widget's link, a despawn drops the widget's own link,
/// and the other operations leave the links as they are.
pub open spec fn parents_after_op(parents: Map<u64, u64>, op: WidgetOpView) -> Map<u64, u64> {
    match op {
        WidgetOpView::Spawn { widget, parent: Some(p), .. } => parents.insert(widget, p),
        WidgetOpView::SetParent { widget, parent } => parents.insert(widget, parent),
        WidgetOpView::Despawn { widget } => parents.remove(widget),
        _ => parents,
    }
}

/// The structural parent links after a sequence of operations, applied in order.
pub open spec fn parents_after(parents: Map<u64, u64>, ops: Seq<WidgetOpView>) -> Map<u64, u64>
    decreases ops.len(),
{
    if ops.len() == 0 {
        parents
    } else {
        parents_after_op(parents_after(parents, ops.drop_last()), ops.last())
    }
}

/// Applying one more operation extends the application of the earlier ones.
pub proof fn lemma_parents_after_push(parents: Map<u64, u64>, ops: Seq<WidgetOpView>, op: WidgetOpView)
    ensures
        parents_after(parents, ops.push(op)) == parents_after_op(parents_after(parents, ops), op),
{
    assert(ops.push(op).drop_last() =~= ops);
}

/// Whether an operation sets or drops the parent link of `w`.
pub open spec fn sets_link(op: WidgetOpView, w: u64) -> bool {
    match op {
        WidgetOpView::Spawn { widget, .. } => widget == w,
        WidgetOpView::SetParent { widget, .. } => widget == w,
        WidgetOpView::Despawn { widget } => widget == w,
        _ => false,
    }
}

/// Operations that do not touch the link of `w` leave it as it was.
pub proof fn lemma_parents_after_untouched(
    parents: Map<u64, u64>,
    a: Seq<WidgetOpView>,
    b: Seq<WidgetOpView>,
    w: u64,
)
    requires
        forall|k: int| 0 <= k < b.len() ==> !sets_link(#[trigger] b[k], w),
    ensures
        parents_after(parents, a + b).contains_key(w) == parents_after(parents, a).contains_key(w),
        parents_after(parents, a + b)[w] == parents_after(parents, a)[w],
    decreases b.len(),
{
    if b.len() > 0 {
        let b1 = b.drop_last();
        assert((a + b).drop_last() =~= a + b1);
        assert forall|k: int| 0 <= k < b1.len() implies !sets_link(#[trigger] b1[k], w) by {
            assert(b1[k] == b[k]);
        }
        lemma_parents_after_untouched(parents, a, b1, w);
        assert(!sets_link(b[b.len() - 1], w));
    }
}

/// The visibility of each widget after one operation.
pub open spec fn visibility_after_op(shown: Map<u64, bool>, op: WidgetOpView) -> Map<u64, bool> {
    match op {
        WidgetOpView::SetVisible { widget, visible } => shown.insert(widget, visible),
        WidgetOpView::Despawn { widget } => shown.remove(widget),
        _ => shown,
    }
}

/// The visibility of each widget after a sequence of operations, applied in order.
pub open spec fn visibility_after(shown: Map<u64, bool>, ops: Seq<WidgetOpView>) -> Map<u64, bool>
    decreases ops.len(),
{
    if ops.len() == 0 {
        shown
    } else {
        visibility_after_op(visibility_after(shown, ops.drop_last()), ops.last())
    }
}

/// Applying one more operation extends the application of the earlier ones.
pub proof fn lemma_visibility_after_push(shown: Map<u64, bool>, ops: Seq<WidgetOpView>, op: WidgetOpView)
    ensures
        visibility_after(shown, ops.push(op)) == visibility_after_op(visibility_after(shown, ops), op),
{
    assert(ops.push(op).drop_last() =~= ops);
}

/// The operations issued so far and not yet taken by the host, oldest first.
pub struct OpLog {
    ops: Vec<WidgetOp>,
}

impl View for OpLog {
    type V = Seq<WidgetOpView>;

    closed spec fn view(&self) -> Seq<WidgetOpView> {
        self.ops@.map_values(|o: WidgetOp| o@)
    }
}

impl OpLog {
    /// An empty log.
    pub fn new() -> (r: OpLog)
        ensures
            r@ == Seq::<WidgetOpView>::empty(),
    {
        let r = OpLog { ops: Vec::new() };
        assert(r@ =~= Seq::<WidgetOpView>::empty());
        r
    }

    /// Appends an operation.
    pub fn push(&mut self, op: WidgetOp)
        ensures
            final(self)@ == old(self)@.push(op@),
    {
        self.ops.push(op);
        assert(self.ops@.map_values(|o: WidgetOp| o@) =~= old(self)@.push(op@));
    }

    /// Hands out the pending operations and leaves the log empty.
    pub fn take(&mut self) -> (r: Vec<WidgetOp>)
        ensures
            r@.map_values(|o: WidgetOp| o@) == old(self)@,
            final(self)@ == Seq::<WidgetOpView>::empty(),
    {
        let mut r = Vec::new();
        std::mem::swap(&mut r, &mut self.ops);
        assert(self@ =~= Seq::<WidgetOpView>::empty());
        r
    }
}

} // verus!
