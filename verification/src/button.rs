//! A push button: reacts to the pointer, reports clicks and visual state
//! changes on the event bus.

use vstd::prelude::*;
use crate::apply::ApplyCommand;
use crate::event::{Event, Events, EventObject, Payload, StateChanged, WidgetMessage};
use crate::font::Font;
use crate::geometry::{clamp_extent, clamp_extent_spec, COORD_MAX, LogicalPosition, LogicalRect, LogicalSize};
use crate::id::{HasId, Id, IdGen};
use crate::input::{ButtonState, Input, MouseButton};
use crate::layout::{
    elem_model, ElemKind, ElemModel, LayoutConstructor, LayoutContext, LayoutElement, LcModel,
};
use crate::scene::Context;
use crate::widget::{AnyHandle, ControlFlow, SizeType, SizeTypes, Widget, WidgetKind, WidgetState};

verus! {

/// How a button is drawn: an optional font and inner padding.
#[derive(Debug)]
pub struct Style {
    pub font: Option<Font>,
    pub padding: LogicalRect,
}

/// What a button reports.
#[derive(Clone, Copy, PartialEq, Eq, Structural, Debug)]
pub enum Message {
    Clicked,
}

impl Payload for Message {
    open spec fn wrap_spec(self) -> EventObject {
        EventObject::Button(self)
    }

    open spec fn unwrap_spec(obj: EventObject) -> Option<Self> {
        match obj {
            EventObject::Button(m) => Some(m),
            _ => None,
        }
    }

    fn wrap(self) -> (o: EventObject)
        ensures
            o == self.wrap_spec(),
    {
        EventObject::Button(self)
    }

    fn unwrap_ref(obj: &EventObject) -> (r: Option<&Self>)
        ensures
            match r {
                Some(p) => Self::unwrap_spec(*obj) == Some(*p),
                None => Self::unwrap_spec(*obj) is None,
            },
    {
        match obj {
            EventObject::Button(m) => Some(m),
            _ => None,
        }
    }

    proof fn lemma_round_trip(self)
        ensures
            Self::unwrap_spec(self.wrap_spec()) == Some(self),
    {
    }
}

/// The position of the first snapshot element owned by `id`.
pub open spec fn first_owned(s: Seq<LayoutElement>, id: Id) -> Option<int>
    decreases s.len(),
{
    if s.len() == 0 {
        None
    } else if s.first().handle_spec().id_spec() == id {
        Some(0)
    } else {
        match first_owned(s.drop_first(), id) {
            Some(i) => Some(i + 1),
            None => None,
        }
    }
}

proof fn lemma_first_owned_at(s: Seq<LayoutElement>, id: Id, m: int)
    requires
        0 <= m < s.len(),
        s[m].handle_spec().id_spec() == id,
        forall|j: int| 0 <= j < m ==> (#[trigger] s[j].handle_spec()).id_spec() != id,
    ensures
        first_owned(s, id) == Some(m),
    decreases s.len(),
{
    if m > 0 {
        assert(forall|j: int| 0 <= j < s.drop_first().len() ==> s.drop_first()[j] == s[j + 1]);
        lemma_first_owned_at(s.drop_first(), id, m - 1);
    }
}

proof fn lemma_first_owned_none(s: Seq<LayoutElement>, id: Id)
    requires
        forall|j: int| 0 <= j < s.len() ==> (#[trigger] s[j].handle_spec()).id_spec() != id,
    ensures
        first_owned(s, id) is None,
    decreases s.len(),
{
    if s.len() > 0 {
        assert(forall|j: int| 0 <= j < s.drop_first().len() ==> s.drop_first()[j] == s[j + 1]);
        lemma_first_owned_none(s.drop_first(), id);
    }
}

/// A push button with stored measured text extents.
#[derive(Debug)]
pub struct Button {
    pub id: Id,
    pub widget_state: WidgetState,
    pub text: String,
    pub style: Style,
    pub metrics: LogicalSize,
}

impl Button {
    /// The measured extents of the text (spec view).
    pub open spec fn metrics_spec(&self) -> LogicalSize {
        self.metrics
    }

    pub open spec fn widget_state_spec(&self) -> WidgetState {
        self.widget_state
    }

    pub fn new(gen: &mut IdGen, text: String) -> (r: Self)
        requires
            old(gen).wf(),
            old(gen).can_issue(),
        ensures
            final(gen).wf(),
            final(gen).counter() == old(gen).counter() + 1,
            !old(gen).issued().contains(r.id_spec().val()),
            final(gen).issued() == old(gen).issued().insert(r.id_spec().val()),
            r.wf(),
            r.text == text,
            r.widget_state_spec() == WidgetState::Idle,
    {
        Button {
            id: Id::new(gen),
            widget_state: WidgetState::Idle,
            text,
            style: Style {
                font: None,
                padding: LogicalRect::new(7, 3, 7, 3),
            },
            metrics: LogicalSize::zero(),
        }
    }

    /// Stores the measured extents of the text.
    pub fn set_metrics(&mut self, metrics: LogicalSize)
        requires
            old(self).wf(),
            metrics.wf(),
        ensures
            final(self).metrics_spec() == metrics,
            final(self).id_spec() == old(self).id_spec(),
            final(self).wf(),
    {
        self.metrics = metrics;
    }

    /// The rectangle the button occupies: the text extents plus padding,
    /// saturating at the coordinate horizon.
    pub open spec fn outer_size_spec(&self) -> LogicalSize {
        LogicalSize {
            width: clamp_extent_spec(
                self.metrics_spec().width + self.style.padding.left + self.style.padding.right,
            ) as i64,
            height: clamp_extent_spec(
                self.metrics_spec().height + self.style.padding.top + self.style.padding.bottom,
            ) as i64,
        }
    }

    /// The handle this button stamps on its events and elements.
    pub open spec fn handle_spec(&self) -> AnyHandle {
        AnyHandle::make(self.id, WidgetKind::Button)
    }

    /// What one pointer event over `rect` makes of the button: the new
    /// visual state, and the batch extended by a `Clicked` message when
    /// the left button was released while hovering, then by a state
    /// transition when the state changed.
    pub open spec fn react_spec(
        self,
        rect: LogicalRect,
        mouse_state: crate::input::MouseState,
        clicked_candidate: bool,
        events: Seq<Event>,
    ) -> (Button, Seq<Event>) {
        let state = WidgetState::current_spec(rect, mouse_state);
        let clicked = clicked_candidate && state == WidgetState::Hover;
        let ev1 = if clicked {
            events.push(
                Event::make(self.handle_spec(), EventObject::Button(Message::Clicked)),
            )
        } else {
            events
        };
        let ev2 = if state != self.widget_state {
            ev1.push(
                Event::make(
                    self.handle_spec(),
                    EventObject::StateChanged(
                        StateChanged { current: state, prev: self.widget_state },
                    ),
                ),
            )
        } else {
            ev1
        };
        (
            Button {
                id: self.id,
                widget_state: state,
                text: self.text,
                style: self.style,
                metrics: self.metrics,
            },
            ev2,
        )
    }

    /// What one input event makes of the button: it hit-tests the pointer
    /// against its first element in the previous frame's snapshot; without
    /// such an element, or on a non-pointer event, nothing happens.
    pub open spec fn input_spec(self, ctx: Context, input: Input, events: Seq<Event>) -> (
        Button,
        Seq<Event>,
    ) {
        match first_owned(ctx.layout@, self.id) {
            None => (self, events),
            Some(i) => {
                let rect = ctx.layout@[i].rect_spec();
                match input {
                    Input::MouseInput(m) => self.react_spec(
                        rect,
                        m.mouse_state,
                        m.button == MouseButton::Left && m.button_state == ButtonState::Released,
                        events,
                    ),
                    Input::CursorMoved(m) => self.react_spec(rect, m.mouse_state, false, events),
                    Input::CursorLeft(m) => self.react_spec(rect, m.mouse_state, false, events),
                    _ => (self, events),
                }
            },
        }
    }

    /// How one pointer event changes the button and what it reports: the
    /// new visual state follows the pointer, a state change is pushed iff
    /// the state differs, and a click is pushed when the left button is
    /// released while hovering.
    fn react(
        &mut self,
        rect: &LogicalRect,
        mouse_state: &crate::input::MouseState,
        clicked_candidate: bool,
        events: &mut Events,
    )
        requires
            old(self).wf(),
        ensures
            final(self).wf(),
            final(self).id_spec() == old(self).id_spec(),
            final(events)@.len() >= old(events)@.len(),
            final(events)@.subrange(0, old(events)@.len() as int) == old(events)@,
            (*final(self), final(events)@) == old(self).react_spec(
                *rect,
                *mouse_state,
                clicked_candidate,
                old(events)@,
            ),
    {
        let ghost pre = (*events)@;
        let handle = AnyHandle::from_parts(self.id(), WidgetKind::Button);
        let state = WidgetState::current(rect, mouse_state);
        if clicked_candidate && state == WidgetState::Hover {
            events.push_raw(handle, EventObject::Button(Message::Clicked));
        }
        let ghost mid = (*events)@;
        proof {
            assert(mid.subrange(0, pre.len() as int) =~= pre);
        }
        if state != self.widget_state {
            let prev = self.widget_state;
            events.push_raw(
                handle,
                EventObject::StateChanged(StateChanged::new(state, prev)),
            );
            self.widget_state = state;
        } else {
            self.widget_state = state;
        }
        proof {
            assert((*events)@.subrange(0, mid.len() as int) =~= mid);
            assert((*events)@.subrange(0, pre.len() as int) =~= pre);
        }
    }
}

impl HasId for Button {
    open spec fn id_spec(&self) -> Id {
        self.id
    }

    fn id(&self) -> (r: Id)
        ensures
            r == self.id_spec(),
    {
        self.id
    }
}

impl WidgetMessage for Button {
    type Message = Message;
}

impl Widget for Button {
    type Model = Button;

    open spec fn kind_spec() -> WidgetKind {
        WidgetKind::Button
    }

    open spec fn wf(&self) -> bool {
        &&& self.metrics_spec().wf()
        &&& 0 <= self.style.padding.left <= COORD_MAX
        &&& 0 <= self.style.padding.top <= COORD_MAX
        &&& 0 <= self.style.padding.right <= COORD_MAX
        &&& 0 <= self.style.padding.bottom <= COORD_MAX
    }

    open spec fn size_spec(&self, rect: LogicalRect) -> LogicalSize {
        self.outer_size_spec()
    }

    open spec fn size_types_spec(&self) -> SizeTypes {
        SizeTypes { width: SizeType::Fix, height: SizeType::Fix }
    }

    open spec fn model(&self) -> Button {
        *self
    }

    open spec fn model_apply(m: Button, cmd: ApplyCommand) -> Button {
        match cmd {
            ApplyCommand::SetText(text) => Button {
                id: m.id,
                widget_state: m.widget_state,
                text,
                style: Style { font: m.style.font, padding: m.style.padding },
                metrics: m.metrics,
            },
            ApplyCommand::SetMetrics(metrics) => Button {
                id: m.id,
                widget_state: m.widget_state,
                text: m.text,
                style: Style { font: m.style.font, padding: m.style.padding },
                metrics,
            },
            _ => m,
        }
    }

    open spec fn layout_spec(&self, m: LcModel) -> Seq<ElemModel> {
        let outer = LogicalRect::from_position_size_spec(
            LogicalPosition { x: m.rect.left, y: m.rect.top },
            self.outer_size_spec(),
        );
        let inner = LogicalRect {
            left: (outer.left + self.style.padding.left) as i64,
            top: (outer.top + self.style.padding.top) as i64,
            right: (outer.right - self.style.padding.right) as i64,
            bottom: (outer.bottom - self.style.padding.bottom) as i64,
        };
        seq![
            ElemModel {
                kind: ElemKind::Area,
                owner: AnyHandle::make(self.id_spec(), WidgetKind::Button),
                state: self.widget_state_spec(),
                rect: outer,
                ancestors: m.ancestors,
                layer: m.layer,
                selected: false,
                font: None,
                string: Seq::empty(),
                targeted: false,
                c: None,
            },
            ElemModel {
                kind: ElemKind::Text,
                owner: AnyHandle::make(self.id_spec(), WidgetKind::Button),
                state: self.widget_state_spec(),
                rect: inner,
                ancestors: m.ancestors,
                layer: m.layer,
                selected: false,
                font: self.style.font,
                string: self.text@,
                targeted: false,
                c: None,
            },
        ]
    }

    fn kind() -> (k: WidgetKind) {
        WidgetKind::Button
    }

    /// Hit-tests the pointer against the previous frame's layout for this
    /// button, updates the visual state, and reports `Clicked` when the
    /// left button is released over it — exactly `input_spec`.
    fn input(&mut self, ctx: &Context, input: &Input, events: &mut Events) -> (flow: ControlFlow)
        ensures
            (*final(self), final(events)@) == old(self).input_spec(*ctx, *input, old(events)@),
            flow == ControlFlow::Continue,
    {
        let ghost pre = (*events)@;
        let idxs = ctx.find_layout(self);
        if idxs.len() == 0 {
            proof {
                assert forall|j: int|
                    0 <= j < ctx.layout@.len() implies (#[trigger] ctx.layout@[j].handle_spec()).id_spec()
                    != self.id by {
                    if ctx.layout@[j].handle_spec().id_spec() == self.id {
                        let k = choose|k: int| 0 <= k < idxs@.len() && idxs@[k] == j;
                    }
                }
                lemma_first_owned_none(ctx.layout@, self.id);
                assert((*events)@.subrange(0, pre.len() as int) =~= pre);
            }
            return ControlFlow::Continue;
        }
        let first = idxs[0];
        proof {
            assert forall|j: int|
                0 <= j < first as int implies (#[trigger] ctx.layout@[j].handle_spec()).id_spec()
                != self.id by {
                if ctx.layout@[j].handle_spec().id_spec() == self.id {
                    let k = choose|k: int| 0 <= k < idxs@.len() && idxs@[k] == j;
                    if k > 0 {
                        assert(idxs@[0] < idxs@[k]);
                    }
                }
            }
            lemma_first_owned_at(ctx.layout@, self.id, first as int);
        }
        let rect = *ctx.layout.get(first).rect();
        match input {
            Input::MouseInput(m) => {
                let clicked_candidate = m.button == MouseButton::Left && m.button_state
                    == ButtonState::Released;
                self.react(&rect, &m.mouse_state, clicked_candidate, events);
            },
            Input::CursorMoved(m) => {
                self.react(&rect, &m.mouse_state, false, events);
            },
            Input::CursorLeft(m) => {
                self.react(&rect, &m.mouse_state, false, events);
            },
            _ => {
                proof {
                    assert((*events)@.subrange(0, pre.len() as int) =~= pre);
                }
            },
        }
        ControlFlow::Continue
    }

    fn apply_command(&mut self, cmd: ApplyCommand) {
        match cmd {
            ApplyCommand::SetText(text) => {
                self.text = text;
            },
            ApplyCommand::SetMetrics(metrics) => {
                self.metrics = metrics;
            },
            _ => {},
        }
    }

    fn size(&self, lc: &LayoutContext) -> (s: LogicalSize) {
        let _ = lc;
        LogicalSize::new(
            clamp_extent(self.metrics.width + self.style.padding.left + self.style.padding.right),
            clamp_extent(self.metrics.height + self.style.padding.top + self.style.padding.bottom),
        )
    }

    fn size_types(&self) -> (t: SizeTypes) {
        SizeTypes::new(SizeType::Fix, SizeType::Fix)
    }

    fn layout(&self, lc: &LayoutContext, result: &mut LayoutConstructor) {
        let ghost pre = crate::layout::models_of((*result)@);
        let size = self.size(lc);
        let handle = AnyHandle::from_parts(self.id(), WidgetKind::Button);
        let outer = LogicalRect::from_position_size(lc.rect.left_top(), size);
        let area = LayoutElement::Area(crate::layout::Area {
            handle,
            widget_state: self.widget_state,
            rect: outer,
            ancestors: crate::layout::clone_handles(&lc.ancestors),
            layer: lc.layer,
            selected: false,
        });
        let ghost am = elem_model(area);
        result.push(lc, area);
        let inner = LogicalRect::new(
            outer.left + self.style.padding.left,
            outer.top + self.style.padding.top,
            outer.right - self.style.padding.right,
            outer.bottom - self.style.padding.bottom,
        );
        let font = crate::label::clone_font_opt(&self.style.font);
        let string = self.text.clone();
        let text = LayoutElement::Text(crate::layout::Text {
            handle,
            widget_state: self.widget_state,
            rect: inner,
            ancestors: crate::layout::clone_handles(&lc.ancestors),
            font,
            string,
            layer: lc.layer,
            selected: false,
        });
        let ghost tm = elem_model(text);
        result.push(lc, text);
        proof {
            assert(am == self.layout_spec(lc.model())[0]);
            assert(tm == self.layout_spec(lc.model())[1]);
            assert(crate::layout::models_of((*result)@) =~= pre + self.layout_spec(lc.model()));
        }
    }
}

} // verus!
