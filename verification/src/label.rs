//! A piece of static text with a fixed, externally measured extent.
//!
//! The engine does not shape text itself; the embedding measures the text
//! (see the metrics cache in `font`) and stores the resulting extents here,
//! either at construction or later through the apply queue.

use vstd::prelude::*;
use crate::apply::ApplyCommand;
use crate::event::Events;
use crate::font::Font;
use crate::geometry::{LogicalPosition, LogicalRect, LogicalSize};
use crate::id::{HasId, Id, IdGen};
use crate::input::Input;
use crate::layout::{
    elem_model, ElemKind, ElemModel, LayoutConstructor, LayoutContext, LayoutElement, LcModel,
};
use crate::scene::Context;
use crate::widget::{AnyHandle, ControlFlow, SizeType, SizeTypes, Widget, WidgetKind, WidgetState};

verus! {

/// How a label is drawn.
#[derive(Debug)]
pub struct Style {
    pub font: Option<Font>,
}

/// Copies an optional font, value for value.
pub fn clone_font_opt(f: &Option<Font>) -> (r: Option<Font>)
    ensures
        r == *f,
{
    match f {
        Some(x) => Some(Font { face: x.face.clone(), size: x.size }),
        None => None,
    }
}

/// A static text widget with stored measured extents.
#[derive(Debug)]
pub struct Label {
    pub id: Id,
    pub text: String,
    pub style: Style,
    pub metrics: LogicalSize,
}

impl Label {
    /// The measured extents of the text (spec view).
    pub open spec fn metrics_spec(&self) -> LogicalSize {
        self.metrics
    }

    pub fn new(gen: &mut IdGen, text: String) -> (r: Self)
        requires
            old(gen).wf(),
            old(gen).can_issue(),
        ensures
            final(gen).wf(),
            final(gen).counter() == old(gen).counter() + 1,
            !old(gen).issued().contains(r.id_spec().val()),
            final(gen).issued() == old(gen).issued().insert(r.id_spec().val()),
            r.wf(),
            r.text == text,
            r.metrics_spec() == (LogicalSize { width: 0i64, height: 0i64 }),
            r.style.font is None,
    {
        Label {
            id: Id::new(gen),
            text,
            style: Style { font: None },
            metrics: LogicalSize::zero(),
        }
    }

    /// The measured extents of the text.
    pub fn metrics(&self) -> (r: LogicalSize)
        ensures
            r == self.metrics_spec(),
    {
        self.metrics
    }

    /// Stores the measured extents of the text.
    pub fn set_metrics(&mut self, metrics: LogicalSize)
        requires
            metrics.wf(),
        ensures
            final(self).metrics_spec() == metrics,
            final(self).id_spec() == old(self).id_spec(),
            final(self).text == old(self).text,
            final(self).wf(),
    {
        self.metrics = metrics;
    }
}

impl HasId for Label {
    open spec fn id_spec(&self) -> Id {
        self.id
    }

    fn id(&self) -> (r: Id)
        ensures
            r == self.id_spec(),
    {
        self.id
    }
}

impl Widget for Label {
    type Model = Label;

    open spec fn kind_spec() -> WidgetKind {
        WidgetKind::Label
    }

    open spec fn wf(&self) -> bool {
        self.metrics_spec().wf()
    }

    open spec fn size_spec(&self, rect: LogicalRect) -> LogicalSize {
        self.metrics_spec()
    }

    open spec fn size_types_spec(&self) -> SizeTypes {
        SizeTypes { width: SizeType::Fix, height: SizeType::Fix }
    }

    open spec fn model(&self) -> Label {
        *self
    }

    open spec fn model_apply(m: Label, cmd: ApplyCommand) -> Label {
        match cmd {
            ApplyCommand::SetText(text) => Label {
                id: m.id,
                text,
                style: Style { font: m.style.font },
                metrics: m.metrics,
            },
            ApplyCommand::SetMetrics(metrics) => Label {
                id: m.id,
                text: m.text,
                style: Style { font: m.style.font },
                metrics,
            },
            _ => m,
        }
    }

    open spec fn layout_spec(&self, m: LcModel) -> Seq<ElemModel> {
        seq![
            ElemModel {
                kind: ElemKind::Text,
                owner: AnyHandle::make(self.id_spec(), WidgetKind::Label),
                state: WidgetState::Idle,
                rect: LogicalRect::from_position_size_spec(
                    LogicalPosition { x: m.rect.left, y: m.rect.top },
                    self.metrics_spec(),
                ),
                ancestors: m.ancestors,
                layer: m.layer,
                selected: false,
                font: self.style.font,
                string: self.text@,
                targeted: false,
                c: None,
            },
        ]
    }

    fn kind() -> (k: WidgetKind) {
        WidgetKind::Label
    }

    fn input(&mut self, ctx: &Context, input: &Input, events: &mut Events) -> (flow: ControlFlow)
        ensures
            *final(self) == *old(self),
            final(events)@ == old(events)@,
            flow == ControlFlow::Continue,
    {
        let _ = ctx;
        let _ = input;
        let _ = events;
        ControlFlow::Continue
    }

    fn apply_command(&mut self, cmd: ApplyCommand) {
        match cmd {
            ApplyCommand::SetText(text) => {
                self.text = text;
            },
            ApplyCommand::SetMetrics(metrics) => {
                self.metrics = metrics;
            },
            _ => {},
        }
    }

    fn size(&self, lc: &LayoutContext) -> (s: LogicalSize) {
        let _ = lc;
        self.metrics
    }

    fn size_types(&self) -> (t: SizeTypes) {
        SizeTypes::new(SizeType::Fix, SizeType::Fix)
    }

    fn layout(&self, lc: &LayoutContext, result: &mut LayoutConstructor) {
        let ghost pre = crate::layout::models_of((*result)@);
        let rect = LogicalRect::from_position_size(lc.rect.left_top(), self.metrics);
        let font = clone_font_opt(&self.style.font);
        let string = self.text.clone();
        let elem = LayoutElement::Text(crate::layout::Text {
            handle: AnyHandle::from_parts(self.id(), WidgetKind::Label),
            widget_state: WidgetState::Idle,
            rect,
            ancestors: crate::layout::clone_handles(&lc.ancestors),
            font,
            string,
            layer: lc.layer,
            selected: false,
        });
        let ghost em = elem_model(elem);
        result.push(lc, elem);
        proof {
            assert(em == self.layout_spec(lc.model())[0]);
            assert(crate::layout::models_of((*result)@) =~= pre + self.layout_spec(lc.model()));
        }
    }
}

} // verus!
