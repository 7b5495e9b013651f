//! A widget that is nothing: it fills whatever space it is offered and
//! draws nothing. Useful as a spacer between siblings.

use vstd::prelude::*;
use crate::apply::ApplyCommand;
use crate::event::Events;
use crate::geometry::{LogicalRect, LogicalSize};
use crate::id::{HasId, Id, IdGen};
use crate::input::Input;
use crate::layout::{elem_model, ElemModel, LayoutConstructor, LayoutContext, LcModel};
use crate::scene::Context;
use crate::widget::{ControlFlow, SizeType, SizeTypes, Widget, WidgetKind};

verus! {

/// An empty, elastic widget.
#[derive(Debug)]
pub struct Empty {
    pub id: Id,
}

impl Empty {
    pub fn new(gen: &mut IdGen) -> (r: Self)
        requires
            old(gen).wf(),
            old(gen).can_issue(),
        ensures
            final(gen).wf(),
            final(gen).counter() == old(gen).counter() + 1,
            !old(gen).issued().contains(r.id_spec().val()),
            final(gen).issued() == old(gen).issued().insert(r.id_spec().val()),
            r.wf(),
    {
        Empty { id: Id::new(gen) }
    }
}

impl HasId for Empty {
    open spec fn id_spec(&self) -> Id {
        self.id
    }

    fn id(&self) -> (r: Id)
        ensures
            r == self.id_spec(),
    {
        self.id
    }
}

impl Widget for Empty {
    type Model = Empty;

    open spec fn kind_spec() -> WidgetKind {
        WidgetKind::Empty
    }

    open spec fn wf(&self) -> bool {
        true
    }

    open spec fn size_spec(&self, rect: LogicalRect) -> LogicalSize {
        LogicalSize {
            width: crate::geometry::clamp_extent_spec(rect.right - rect.left) as i64,
            height: crate::geometry::clamp_extent_spec(rect.bottom - rect.top) as i64,
        }
    }

    open spec fn size_types_spec(&self) -> SizeTypes {
        SizeTypes { width: SizeType::Flexible, height: SizeType::Flexible }
    }

    open spec fn model(&self) -> Empty {
        *self
    }

    open spec fn model_apply(m: Empty, cmd: ApplyCommand) -> Empty {
        m
    }

    open spec fn layout_spec(&self, m: LcModel) -> Seq<ElemModel> {
        Seq::empty()
    }

    fn kind() -> (k: WidgetKind) {
        WidgetKind::Empty
    }

    fn input(&mut self, ctx: &Context, input: &Input, events: &mut Events) -> (flow: ControlFlow)
        ensures
            *final(self) == *old(self),
            final(events)@ == old(events)@,
            flow == ControlFlow::Continue,
    {
        let _ = ctx;
        let _ = input;
        let _ = events;
        ControlFlow::Continue
    }

    fn apply_command(&mut self, cmd: ApplyCommand) {
        let _ = cmd;
    }

    fn size(&self, lc: &LayoutContext) -> (s: LogicalSize) {
        LogicalSize::new(
            crate::geometry::clamp_extent(lc.rect.right - lc.rect.left),
            crate::geometry::clamp_extent(lc.rect.bottom - lc.rect.top),
        )
    }

    fn size_types(&self) -> (t: SizeTypes) {
        SizeTypes::new(SizeType::Flexible, SizeType::Flexible)
    }

    fn layout(&self, lc: &LayoutContext, result: &mut LayoutConstructor) {
        let _ = lc;
        proof {
            assert(crate::layout::models_of((*result)@) =~= crate::layout::models_of((*result)@)
                + Seq::<ElemModel>::empty());
        }
    }
}

} // verus!
