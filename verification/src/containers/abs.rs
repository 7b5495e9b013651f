//! A wrapper that places its child at an absolute position: the child is
//! offered the rectangle from that position to the incoming rectangle's
//! far corner. The wrapper itself measures as nothing.

use vstd::prelude::*;
use crate::apply::ApplyCommand;
use crate::event::Events;
use crate::geometry::{LogicalPosition, LogicalRect, LogicalSize};
use crate::id::{HasId, Id, IdGen};
use crate::input::Input;
use crate::layout::{ElemModel, LayoutConstructor, LayoutContext, LcModel};
use crate::node::WidgetNode;
use crate::scene::Context;
use crate::widget::{ControlFlow, SizeType, SizeTypes, Widget, WidgetKind};

verus! {

/// The mathematical view of an absolute-position wrapper.
pub struct AbsModel {
    pub id: Id,
    pub position: LogicalPosition,
    pub child: WidgetNode,
}

/// An absolute-position wrapper around one child.
#[derive(Debug)]
pub struct Abs {
    pub id: Id,
    pub child: Box<WidgetNode>,
    pub position: LogicalPosition,
}

impl Abs {
    pub fn new(gen: &mut IdGen, child: WidgetNode, position: LogicalPosition) -> (r: Self)
        requires
            old(gen).wf(),
            old(gen).can_issue(),
            position.wf(),
            crate::node::node_wf(child),
        ensures
            final(gen).wf(),
            final(gen).counter() == old(gen).counter() + 1,
            !old(gen).issued().contains(r.id_spec().val()),
            final(gen).issued() == old(gen).issued().insert(r.id_spec().val()),
            r.wf(),
            *r.child == child,
            r.position == position,
    {
        Abs { id: Id::new(gen), child: Box::new(child), position }
    }
}

impl HasId for Abs {
    open spec fn id_spec(&self) -> Id {
        self.id
    }

    fn id(&self) -> (r: Id)
        ensures
            r == self.id_spec(),
    {
        self.id
    }
}

impl Widget for Abs {
    type Model = AbsModel;

    open spec fn kind_spec() -> WidgetKind {
        WidgetKind::Abs
    }

    open spec fn wf(&self) -> bool {
        self.position.wf() && crate::node::node_wf(*self.child)
    }

    open spec fn model(&self) -> AbsModel {
        AbsModel { id: self.id_spec(), position: self.position, child: *self.child }
    }

    open spec fn size_spec(&self, rect: LogicalRect) -> LogicalSize {
        LogicalSize { width: 0i64, height: 0i64 }
    }

    open spec fn size_types_spec(&self) -> SizeTypes {
        SizeTypes { width: SizeType::Fix, height: SizeType::Fix }
    }

    open spec fn model_apply(m: AbsModel, cmd: ApplyCommand) -> AbsModel {
        match cmd {
            ApplyCommand::SetPosition(position) => AbsModel {
                id: m.id,
                position,
                child: m.child,
            },
            _ => m,
        }
    }

    open spec fn layout_spec(&self, m: LcModel) -> Seq<ElemModel> {
        crate::node::abs_layout_spec(*self, m)
    }

    fn kind() -> (k: WidgetKind) {
        WidgetKind::Abs
    }

    /// Dispatches straight to the child — exactly the dispatch model.
    fn input(&mut self, ctx: &Context, input: &Input, events: &mut Events) -> (flow: ControlFlow)
        ensures
            ({
                let r = crate::node::dispatch_spec(
                    crate::node::node_model(*old(self).child),
                    *ctx,
                    *input,
                    old(events)@,
                );
                &&& crate::node::node_model(*final(self).child) == r.0
                &&& final(events)@ == r.1
                &&& flow == r.2
            }),
            final(self).id == old(self).id,
    {
        crate::node::node_input(&mut *self.child, ctx, input, events)
    }

    fn apply_command(&mut self, cmd: ApplyCommand) {
        match cmd {
            ApplyCommand::SetPosition(position) => {
                self.position = position;
            },
            _ => {},
        }
    }

    fn size(&self, lc: &LayoutContext) -> (s: LogicalSize) {
        let _ = lc;
        LogicalSize::zero()
    }

    fn size_types(&self) -> (t: SizeTypes) {
        SizeTypes::new(SizeType::Fix, SizeType::Fix)
    }

    fn layout(&self, lc: &LayoutContext, result: &mut LayoutConstructor) {
        crate::node::abs_layout_walk(self, lc, result);
    }
}

} // verus!
