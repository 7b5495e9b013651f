//! A container that lays its children out left to right.
//!
//! The main axis is horizontal: fixed-width children take their measured
//! width as far as the budget allows, flexible ones share the leftover
//! width equally (see `sizing`). The cross axis is the incoming height.
//!
//! Two arrangement details this container fixes: a fixed-width child past
//! the budget is allotted a zero-width rectangle and still lays out there
//! (pushing degenerate elements) rather than being skipped outright; and a
//! child's cross extent is its own measured height when its height is
//! intrinsic, or the row's full height when it is elastic.

use vstd::prelude::*;
use crate::apply::ApplyCommand;
use crate::event::Events;
use crate::geometry::{COORD_MAX, LogicalRect, LogicalSize};
use crate::id::{HasId, Id, IdGen};
use crate::input::Input;
use crate::layout::{ElemModel, LayoutConstructor, LayoutContext, LcModel};
use crate::node::WidgetNode;
use crate::scene::Context;
use crate::widget::{ControlFlow, HasChildren, SizeTypes, Widget, WidgetKind};

verus! {

/// The mathematical view of a row: its identity, spacing and children.
pub struct RowModel {
    pub id: Id,
    pub space: i64,
    pub children: Seq<WidgetNode>,
}

/// A horizontal container.
#[derive(Debug)]
pub struct Row {
    pub id: Id,
    pub children: Vec<WidgetNode>,
    pub space: i64,
}

impl Row {
    pub fn new(gen: &mut IdGen) -> (r: Self)
        requires
            old(gen).wf(),
            old(gen).can_issue(),
        ensures
            final(gen).wf(),
            final(gen).counter() == old(gen).counter() + 1,
            !old(gen).issued().contains(r.id_spec().val()),
            final(gen).issued() == old(gen).issued().insert(r.id_spec().val()),
            r.wf(),
            r.children@ == Seq::<WidgetNode>::empty(),
            r.space == 10i64,
    {
        Row { id: Id::new(gen), children: Vec::new(), space: 10 }
    }
}

impl HasId for Row {
    open spec fn id_spec(&self) -> Id {
        self.id
    }

    fn id(&self) -> (r: Id)
        ensures
            r == self.id_spec(),
    {
        self.id
    }
}

impl Widget for Row {
    type Model = RowModel;

    open spec fn kind_spec() -> WidgetKind {
        WidgetKind::Row
    }

    open spec fn wf(&self) -> bool {
        &&& 0 <= self.space <= COORD_MAX
        &&& crate::node::children_wf(self.children@, self.children@.len() as int)
    }

    open spec fn model(&self) -> RowModel {
        RowModel { id: self.id_spec(), space: self.space, children: self.children@ }
    }

    open spec fn size_spec(&self, rect: LogicalRect) -> LogicalSize {
        crate::node::row_size_spec(*self, rect)
    }

    open spec fn size_types_spec(&self) -> SizeTypes {
        crate::node::types_fold(self.children@, self.children@.len() as int)
    }

    open spec fn model_apply(m: RowModel, cmd: ApplyCommand) -> RowModel {
        match cmd {
            ApplyCommand::PushChild(b) => RowModel {
                id: m.id,
                space: m.space,
                children: m.children.push(*b),
            },
            ApplyCommand::EraseChild(id) => RowModel {
                id: m.id,
                space: m.space,
                children: crate::node::erase_first(m.children, id),
            },
            ApplyCommand::SetSpace(space) => RowModel {
                id: m.id,
                space,
                children: m.children,
            },
            _ => m,
        }
    }

    open spec fn layout_spec(&self, m: LcModel) -> Seq<ElemModel> {
        crate::node::row_layout_spec(*self, m)
    }

    fn kind() -> (k: WidgetKind) {
        WidgetKind::Row
    }

    /// Dispatches to the children in order, stopping at the first that
    /// breaks — exactly the dispatch model over the children.
    fn input(&mut self, ctx: &Context, input: &Input, events: &mut Events) -> (flow: ControlFlow)
        ensures
            ({
                let r = crate::node::dispatch_children_spec(
                    crate::node::children_models(
                        old(self).children@,
                        old(self).children@.len() as int,
                    ),
                    *ctx,
                    *input,
                    old(events)@,
                );
                &&& crate::node::children_models(
                    final(self).children@,
                    final(self).children@.len() as int,
                ) == r.0
                &&& final(events)@ == r.1
                &&& flow == r.2
            }),
            final(self).id == old(self).id,
            final(self).space == old(self).space,
    {
        crate::node::children_input(&mut self.children, ctx, input, events)
    }

    fn apply_command(&mut self, cmd: ApplyCommand) {
        match cmd {
            ApplyCommand::PushChild(b) => {
                self.children.push(*b);
                proof {
                    crate::node::lemma_children_wf_push(old(self).children@, self.children@.last());
                }
            },
            ApplyCommand::EraseChild(id) => {
                crate::node::erase_child_exec(&mut self.children, id);
            },
            ApplyCommand::SetSpace(space) => {
                self.space = space;
            },
            _ => {},
        }
    }

    fn size(&self, lc: &LayoutContext) -> (s: LogicalSize) {
        crate::node::row_size(self, lc)
    }

    fn size_types(&self) -> (t: SizeTypes) {
        crate::node::children_size_types(&self.children)
    }

    fn layout(&self, lc: &LayoutContext, result: &mut LayoutConstructor) {
        crate::node::row_layout_walk(self, lc, result);
    }
}

impl HasChildren for Row {
    open spec fn children_spec(&self) -> Seq<WidgetNode> {
        self.children@
    }

    fn len(&self) -> (r: usize) {
        self.children.len()
    }

    fn is_empty(&self) -> (r: bool) {
        self.children.is_empty()
    }

    fn push(&mut self, child: WidgetNode) {
        self.children.push(child);
        proof {
            crate::node::lemma_children_wf_push(old(self).children@, self.children@.last());
        }
    }

    fn erase<I: HasId>(&mut self, target: &I) {
        let id = target.id();
        crate::node::erase_child_exec(&mut self.children, id);
    }
}

} // verus!
