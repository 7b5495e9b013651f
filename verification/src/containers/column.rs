//! A container that lays its children out top to bottom.
//!
//! The main axis is vertical: fixed-height children take their measured
//! height — each clamped to the optional `max_height` — as far as the
//! budget allows, flexible ones share the leftover height equally, each
//! share clamped to `max_height` too. The cross axis is the maximum of the
//! children's measured widths.
//!
//! Spacing is reserved uniformly between each adjacent pair of children on
//! the main axis, whatever their sizing policies. A fixed-height child past
//! the budget is allotted a zero-height rectangle and still lays out there
//! rather than being skipped outright; a child's cross extent is its own
//! measured width when its width is intrinsic, or the column's measured
//! width when it is elastic.

use vstd::prelude::*;
use crate::apply::ApplyCommand;
use crate::event::Events;
use crate::geometry::{COORD_MAX, LogicalRect, LogicalSize};
use crate::id::{HasId, Id, IdGen};
use crate::input::Input;
use crate::layout::{ElemModel, LayoutConstructor, LayoutContext, LcModel};
use crate::node::WidgetNode;
use crate::scene::Context;
use crate::widget::{ControlFlow, HasChildren, SizeTypes, Widget, WidgetKind};

verus! {

/// The mathematical view of a column: its identity, spacing, height limit
/// and children.
pub struct ColumnModel {
    pub id: Id,
    pub space: i64,
    pub max_height: Option<i64>,
    pub children: Seq<WidgetNode>,
}

/// A vertical container.
#[derive(Debug)]
pub struct Column {
    pub id: Id,
    pub children: Vec<WidgetNode>,
    pub space: i64,
    pub max_height: Option<i64>,
}

impl Column {
    pub fn new(gen: &mut IdGen) -> (r: Self)
        requires
            old(gen).wf(),
            old(gen).can_issue(),
        ensures
            final(gen).wf(),
            final(gen).counter() == old(gen).counter() + 1,
            !old(gen).issued().contains(r.id_spec().val()),
            final(gen).issued() == old(gen).issued().insert(r.id_spec().val()),
            r.wf(),
            r.children@ == Seq::<WidgetNode>::empty(),
            r.space == 10i64,
            r.max_height is None,
    {
        Column { id: Id::new(gen), children: Vec::new(), space: 10, max_height: None }
    }
}

impl HasId for Column {
    open spec fn id_spec(&self) -> Id {
        self.id
    }

    fn id(&self) -> (r: Id)
        ensures
            r == self.id_spec(),
    {
        self.id
    }
}

impl Widget for Column {
    type Model = ColumnModel;

    open spec fn kind_spec() -> WidgetKind {
        WidgetKind::Column
    }

    open spec fn wf(&self) -> bool {
        &&& 0 <= self.space <= COORD_MAX
        &&& (self.max_height matches Some(v) ==> 0 <= v <= COORD_MAX)
        &&& crate::node::children_wf(self.children@, self.children@.len() as int)
    }

    open spec fn model(&self) -> ColumnModel {
        ColumnModel {
            id: self.id_spec(),
            space: self.space,
            max_height: self.max_height,
            children: self.children@,
        }
    }

    open spec fn size_spec(&self, rect: LogicalRect) -> LogicalSize {
        crate::node::col_size_spec(*self, rect)
    }

    open spec fn size_types_spec(&self) -> SizeTypes {
        crate::node::types_fold(self.children@, self.children@.len() as int)
    }

    open spec fn model_apply(m: ColumnModel, cmd: ApplyCommand) -> ColumnModel {
        match cmd {
            ApplyCommand::PushChild(b) => ColumnModel {
                id: m.id,
                space: m.space,
                max_height: m.max_height,
                children: m.children.push(*b),
            },
            ApplyCommand::EraseChild(id) => ColumnModel {
                id: m.id,
                space: m.space,
                max_height: m.max_height,
                children: crate::node::erase_first(m.children, id),
            },
            ApplyCommand::SetSpace(space) => ColumnModel {
                id: m.id,
                space,
                max_height: m.max_height,
                children: m.children,
            },
            ApplyCommand::SetMaxHeight(max_height) => ColumnModel {
                id: m.id,
                space: m.space,
                max_height,
                children: m.children,
            },
            _ => m,
        }
    }

    open spec fn layout_spec(&self, m: LcModel) -> Seq<ElemModel> {
        crate::node::col_layout_spec(*self, m)
    }

    fn kind() -> (k: WidgetKind) {
        WidgetKind::Column
    }

    /// Dispatches to the children in order, stopping at the first that
    /// breaks — exactly the dispatch model over the children.
    fn input(&mut self, ctx: &Context, input: &Input, events: &mut Events) -> (flow: ControlFlow)
        ensures
            ({
                let r = crate::node::dispatch_children_spec(
                    crate::node::children_models(
                        old(self).children@,
                        old(self).children@.len() as int,
                    ),
                    *ctx,
                    *input,
                    old(events)@,
                );
                &&& crate::node::children_models(
                    final(self).children@,
                    final(self).children@.len() as int,
                ) == r.0
                &&& final(events)@ == r.1
                &&& flow == r.2
            }),
            final(self).id == old(self).id,
            final(self).space == old(self).space,
    {
        crate::node::children_input(&mut self.children, ctx, input, events)
    }

    fn apply_command(&mut self, cmd: ApplyCommand) {
        match cmd {
            ApplyCommand::PushChild(b) => {
                self.children.push(*b);
                proof {
                    crate::node::lemma_children_wf_push(old(self).children@, self.children@.last());
                }
            },
            ApplyCommand::EraseChild(id) => {
                crate::node::erase_child_exec(&mut self.children, id);
            },
            ApplyCommand::SetSpace(space) => {
                self.space = space;
            },
            ApplyCommand::SetMaxHeight(max_height) => {
                self.max_height = max_height;
            },
            _ => {},
        }
    }

    fn size(&self, lc: &LayoutContext) -> (s: LogicalSize) {
        crate::node::col_size(self, lc)
    }

    fn size_types(&self) -> (t: SizeTypes) {
        crate::node::children_size_types(&self.children)
    }

    fn layout(&self, lc: &LayoutContext, result: &mut LayoutConstructor) {
        crate::node::col_layout_walk(self, lc, result);
    }
}

impl HasChildren for Column {
    open spec fn children_spec(&self) -> Seq<WidgetNode> {
        self.children@
    }

    fn len(&self) -> (r: usize) {
        self.children.len()
    }

    fn is_empty(&self) -> (r: bool) {
        self.children.is_empty()
    }

    fn push(&mut self, child: WidgetNode) {
        self.children.push(child);
        proof {
            crate::node::lemma_children_wf_push(old(self).children@, self.children@.last());
        }
    }

    fn erase<I: HasId>(&mut self, target: &I) {
        let id = target.id();
        crate::node::erase_child_exec(&mut self.children, id);
    }
}

} // verus!
