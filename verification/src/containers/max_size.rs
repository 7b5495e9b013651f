//! A wrapper that limits how large its child may measure: the child's
//! extents are clamped to the optional caps per axis.

use vstd::prelude::*;
use crate::apply::ApplyCommand;
use crate::event::Events;
use crate::geometry::{COORD_MAX, LogicalRect, LogicalSize};
use crate::id::{HasId, Id, IdGen};
use crate::input::Input;
use crate::layout::{ElemModel, LayoutConstructor, LayoutContext, LcModel};
use crate::node::WidgetNode;
use crate::scene::Context;
use crate::widget::{ControlFlow, SizeTypes, Widget, WidgetKind};

verus! {

/// The mathematical view of a size limit: identity, caps, and the child.
pub struct MaxSizeModel {
    pub id: Id,
    pub max_width: Option<i64>,
    pub max_height: Option<i64>,
    pub child: WidgetNode,
}

/// A size-limiting wrapper around one child.
#[derive(Debug)]
pub struct MaxSize {
    pub id: Id,
    pub child: Box<WidgetNode>,
    pub max_width: Option<i64>,
    pub max_height: Option<i64>,
}

impl MaxSize {
    pub fn new(
        gen: &mut IdGen,
        max_width: Option<i64>,
        max_height: Option<i64>,
        child: WidgetNode,
    ) -> (r: Self)
        requires
            old(gen).wf(),
            old(gen).can_issue(),
            max_width matches Some(v) ==> 0 <= v <= COORD_MAX,
            max_height matches Some(v) ==> 0 <= v <= COORD_MAX,
            crate::node::node_wf(child),
        ensures
            final(gen).wf(),
            final(gen).counter() == old(gen).counter() + 1,
            !old(gen).issued().contains(r.id_spec().val()),
            final(gen).issued() == old(gen).issued().insert(r.id_spec().val()),
            r.wf(),
            *r.child == child,
            r.max_width == max_width,
            r.max_height == max_height,
    {
        MaxSize { id: Id::new(gen), child: Box::new(child), max_width, max_height }
    }
}

impl HasId for MaxSize {
    open spec fn id_spec(&self) -> Id {
        self.id
    }

    fn id(&self) -> (r: Id)
        ensures
            r == self.id_spec(),
    {
        self.id
    }
}

impl Widget for MaxSize {
    type Model = MaxSizeModel;

    open spec fn kind_spec() -> WidgetKind {
        WidgetKind::MaxSize
    }

    open spec fn wf(&self) -> bool {
        &&& (self.max_width matches Some(v) ==> 0 <= v <= COORD_MAX)
        &&& (self.max_height matches Some(v) ==> 0 <= v <= COORD_MAX)
        &&& crate::node::node_wf(*self.child)
    }

    open spec fn model(&self) -> MaxSizeModel {
        MaxSizeModel {
            id: self.id_spec(),
            max_width: self.max_width,
            max_height: self.max_height,
            child: *self.child,
        }
    }

    open spec fn size_spec(&self, rect: LogicalRect) -> LogicalSize {
        crate::node::max_size_size_spec(*self, rect)
    }

    open spec fn size_types_spec(&self) -> SizeTypes {
        crate::node::node_size_types_spec(*self.child)
    }

    open spec fn model_apply(m: MaxSizeModel, cmd: ApplyCommand) -> MaxSizeModel {
        match cmd {
            ApplyCommand::SetMaxSize(max_width, max_height) => MaxSizeModel {
                id: m.id,
                max_width,
                max_height,
                child: m.child,
            },
            _ => m,
        }
    }

    open spec fn layout_spec(&self, m: LcModel) -> Seq<ElemModel> {
        crate::node::max_size_layout_spec(*self, m)
    }

    fn kind() -> (k: WidgetKind) {
        WidgetKind::MaxSize
    }

    /// Dispatches straight to the child — exactly the dispatch model.
    fn input(&mut self, ctx: &Context, input: &Input, events: &mut Events) -> (flow: ControlFlow)
        ensures
            ({
                let r = crate::node::dispatch_spec(
                    crate::node::node_model(*old(self).child),
                    *ctx,
                    *input,
                    old(events)@,
                );
                &&& crate::node::node_model(*final(self).child) == r.0
                &&& final(events)@ == r.1
                &&& flow == r.2
            }),
            final(self).id == old(self).id,
    {
        crate::node::node_input(&mut *self.child, ctx, input, events)
    }

    fn apply_command(&mut self, cmd: ApplyCommand) {
        match cmd {
            ApplyCommand::SetMaxSize(max_width, max_height) => {
                self.max_width = max_width;
                self.max_height = max_height;
            },
            _ => {},
        }
    }

    fn size(&self, lc: &LayoutContext) -> (s: LogicalSize) {
        crate::node::max_size_size(self, lc)
    }

    fn size_types(&self) -> (t: SizeTypes) {
        crate::node::node_size_types(&*self.child)
    }

    fn layout(&self, lc: &LayoutContext, result: &mut LayoutConstructor) {
        crate::node::max_size_layout_walk(self, lc, result);
    }
}

} // verus!
