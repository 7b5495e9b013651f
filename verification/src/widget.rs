//! The widget capability contract and the identity/handle system.
//!
//! A widget is a tree node owned exclusively by its parent. Type-erased
//! references carry an explicit runtime tag ([`WidgetKind`]) next to the
//! identity token, so a typed handle can be recovered from an untyped one
//! only when the tags agree.

use vstd::prelude::*;
use crate::apply::ApplyCommand;
use crate::event::Events;
use crate::geometry::{LogicalRect, LogicalSize};
use crate::id::{HasId, Id};
use crate::input::{Input, MouseState};
use crate::layout::{ElemModel, LayoutConstructor, LayoutContext, LcModel};
use crate::scene::Context;

verus! {

/// Whether input dispatch goes on past the current widget.
#[derive(Clone, Copy, PartialEq, Eq, Structural, Debug)]
pub enum ControlFlow {
    Break,
    Continue,
}

/// Per-axis sizing discipline: intrinsic (`Fix`) or elastic (`Flexible`).
#[derive(Clone, Copy, PartialEq, Eq, Structural, Debug)]
pub enum SizeType {
    Fix,
    Flexible,
}

/// The sizing discipline of both axes.
#[derive(Clone, Copy, PartialEq, Eq, Structural, Debug)]
pub struct SizeTypes {
    pub width: SizeType,
    pub height: SizeType,
}

impl SizeTypes {
    pub fn new(width: SizeType, height: SizeType) -> (r: Self)
        ensures
            r == (SizeTypes { width, height }),
    {
        SizeTypes { width, height }
    }

    pub fn fix() -> (r: Self)
        ensures
            r == (SizeTypes { width: SizeType::Fix, height: SizeType::Fix }),
    {
        SizeTypes { width: SizeType::Fix, height: SizeType::Fix }
    }

    pub fn flexible() -> (r: Self)
        ensures
            r == (SizeTypes { width: SizeType::Flexible, height: SizeType::Flexible }),
    {
        SizeTypes { width: SizeType::Flexible, height: SizeType::Flexible }
    }
}

/// The runtime tag of a concrete widget type.
#[derive(Clone, Copy, PartialEq, Eq, Structural, Debug)]
pub enum WidgetKind {
    Empty,
    Label,
    Button,
    Row,
    Column,
    MaxSize,
    Abs,
}

/// The visual interaction state of a widget.
#[derive(Clone, Copy, PartialEq, Eq, Structural, Debug)]
pub enum WidgetState {
    Idle,
    Hover,
    Pressed,
}

impl WidgetState {
    /// The state implied by a pointer over (or off) `rect`.
    pub open spec fn current_spec(rect: LogicalRect, mouse_state: MouseState) -> WidgetState {
        if rect.left <= mouse_state.position.x && mouse_state.position.x <= rect.right
            && rect.top <= mouse_state.position.y && mouse_state.position.y <= rect.bottom {
            if mouse_state.buttons.left {
                WidgetState::Pressed
            } else {
                WidgetState::Hover
            }
        } else {
            WidgetState::Idle
        }
    }

    /// `Pressed` when the left button is held over `rect`, `Hover` when the
    /// pointer rests over `rect`, `Idle` otherwise.
    pub fn current(rect: &LogicalRect, mouse_state: &MouseState) -> (r: Self)
        ensures
            r == Self::current_spec(*rect, *mouse_state),
    {
        let p = mouse_state.position;
        if rect.left <= p.x && p.x <= rect.right && rect.top <= p.y && p.y <= rect.bottom {
            if mouse_state.buttons.left {
                WidgetState::Pressed
            } else {
                WidgetState::Hover
            }
        } else {
            WidgetState::Idle
        }
    }
}

/// The capability contract every tree node implements.
///
/// `size` is a pure function of the widget and the layout context (stated by
/// tying it to `size_spec`), so containers may call it any number of times
/// during one pass. `layout` appends exactly the elements `layout_spec`
/// describes. `apply_command` performs one deferred mutation and keeps the
/// widget's identity and well-formedness.
pub trait Widget: HasId + Sized {
    /// The mathematical view of this widget's state.
    type Model;

    spec fn kind_spec() -> WidgetKind;

    spec fn wf(&self) -> bool;

    spec fn model(&self) -> Self::Model;

    spec fn size_spec(&self, rect: LogicalRect) -> LogicalSize;

    spec fn size_types_spec(&self) -> SizeTypes;

    /// What one deferred command does to the widget's state.
    spec fn model_apply(m: Self::Model, cmd: ApplyCommand) -> Self::Model;

    spec fn layout_spec(&self, m: LcModel) -> Seq<ElemModel>;

    fn kind() -> (k: WidgetKind)
        ensures
            k == Self::kind_spec(),
    ;

    fn input(&mut self, ctx: &Context, input: &Input, events: &mut Events) -> (flow: ControlFlow)
        requires
            old(self).wf(),
        ensures
            final(self).wf(),
            final(self).id_spec() == old(self).id_spec(),
            final(events)@.len() >= old(events)@.len(),
            final(events)@.subrange(0, old(events)@.len() as int) == old(events)@,
    ;

    fn apply_command(&mut self, cmd: ApplyCommand)
        requires
            old(self).wf(),
            cmd.wf(),
        ensures
            final(self).model() == Self::model_apply(old(self).model(), cmd),
            final(self).wf(),
            final(self).id_spec() == old(self).id_spec(),
    ;

    fn size(&self, lc: &LayoutContext) -> (s: LogicalSize)
        requires
            self.wf(),
            lc.wf(),
        ensures
            s == self.size_spec(lc.rect),
            s.wf(),
    ;

    fn size_types(&self) -> (t: SizeTypes)
        ensures
            t == self.size_types_spec(),
    ;

    fn layout(&self, lc: &LayoutContext, result: &mut LayoutConstructor)
        requires
            self.wf(),
            lc.wf(),
        ensures
            crate::layout::models_of(final(result)@) == crate::layout::models_of(old(result)@)
                + self.layout_spec(lc.model()),
    ;
}

/// A typed, non-owning reference to a widget: the identity token plus a
/// phantom type tag. Valid forever as a value; resolution against a dead
/// token simply finds nothing.
#[derive(Debug)]
pub struct Handle<T: Widget> {
    id: Id,
    _t: core::marker::PhantomData<T>,
}

impl<T: Widget> Handle<T> {
    /// The handle with the given token (spec-level constructor).
    pub closed spec fn for_id(id: Id) -> Handle<T> {
        Handle { id, _t: core::marker::PhantomData }
    }

    pub fn new(widget: &T) -> (r: Self)
        ensures
            r == Handle::<T>::for_id(widget.id_spec()),
            r.id_spec() == widget.id_spec(),
    {
        Handle { id: widget.id(), _t: core::marker::PhantomData }
    }
}

impl<T: Widget> HasId for Handle<T> {
    closed spec fn id_spec(&self) -> Id {
        self.id
    }

    fn id(&self) -> (r: Id)
        ensures
            r == self.id_spec(),
    {
        self.id
    }
}

/// The spec-level handle constructor stores exactly the given token.
pub broadcast proof fn lemma_for_id_spec<T: Widget>(id: Id)
    ensures
        (#[trigger] Handle::<T>::for_id(id)).id_spec() == id,
{
}

/// Handles carry nothing beyond the token: equal tokens mean equal handles.
pub proof fn lemma_handle_extensional<T: Widget>(a: Handle<T>, b: Handle<T>)
    requires
        a.id_spec() == b.id_spec(),
    ensures
        a == b,
{
}

impl<T: Widget> Clone for Handle<T> {
    fn clone(&self) -> (r: Self)
        ensures
            r == *self,
    {
        Handle { id: self.id, _t: core::marker::PhantomData }
    }
}

impl<T: Widget> Copy for Handle<T> {}

impl<T: Widget> PartialEq for Handle<T> {
    fn eq(&self, other: &Self) -> (r: bool) {
        self.id == other.id
    }
}

impl<T: Widget> vstd::std_specs::cmp::PartialEqSpecImpl for Handle<T> {
    open spec fn obeys_eq_spec() -> bool {
        true
    }

    open spec fn eq_spec(&self, other: &Self) -> bool {
        self.id_spec() == other.id_spec()
    }
}

/// An untyped, non-owning reference: the identity token plus the runtime
/// tag of the concrete widget type it was made from.
#[derive(Clone, Copy, PartialEq, Eq, Structural, Debug)]
pub struct AnyHandle {
    id: Id,
    t: WidgetKind,
}

/// The result of recovering a typed handle from an untyped one: the typed
/// handle with the same token when the tags agree, nothing otherwise.
pub open spec fn downcast_spec<T: Widget>(h: AnyHandle) -> Option<Handle<T>> {
    if h.kind_spec() == T::kind_spec() {
        Some(Handle::<T>::for_id(h.id_spec()))
    } else {
        None
    }
}

/// The spec-level untyped-handle constructor stores exactly the given
/// token and tag.
pub broadcast proof fn lemma_make_spec(id: Id, t: WidgetKind)
    ensures
        (#[trigger] AnyHandle::make(id, t)).id_spec() == id,
        AnyHandle::make(id, t).kind_spec() == t,
{
}

impl AnyHandle {
    /// The untyped handle with the given token and tag (spec-level
    /// constructor).
    pub closed spec fn make(id: Id, t: WidgetKind) -> AnyHandle {
        AnyHandle { id, t }
    }

    pub closed spec fn kind_spec(&self) -> WidgetKind {
        self.t
    }

    pub fn new<T: Widget>(widget: &T) -> (r: Self)
        ensures
            r == AnyHandle::make(widget.id_spec(), T::kind_spec()),
            r.id_spec() == widget.id_spec(),
            r.kind_spec() == T::kind_spec(),
    {
        AnyHandle { id: widget.id(), t: T::kind() }
    }

    /// The handle with the given token and tag (crate-internal: widgets
    /// building their own layout records use it to name themselves).
    pub(crate) fn from_parts(id: Id, t: WidgetKind) -> (r: Self)
        ensures
            r == AnyHandle::make(id, t),
    {
        AnyHandle { id, t }
    }

    pub fn type_id(&self) -> (r: WidgetKind)
        ensures
            r == self.kind_spec(),
    {
        self.t
    }

    /// Identity comparison with a widget: by token alone.
    pub fn is<T: Widget>(&self, other: &T) -> (r: bool)
        ensures
            r == (self.id_spec() == other.id_spec()),
    {
        self.id == other.id()
    }

    /// Recovers a typed handle iff the stored tag matches `T`'s tag.
    pub fn downcast<T: Widget>(&self) -> (r: Option<Handle<T>>)
        ensures
            r == downcast_spec::<T>(*self),
            r is Some <==> self.kind_spec() == T::kind_spec(),
            r is Some ==> r->Some_0.id_spec() == self.id_spec(),
    {
        if self.t == T::kind() {
            Some(Handle { id: self.id, _t: core::marker::PhantomData })
        } else {
            None
        }
    }
}

impl HasId for AnyHandle {
    closed spec fn id_spec(&self) -> Id {
        self.id
    }

    fn id(&self) -> (r: Id)
        ensures
            r == self.id_spec(),
    {
        self.id
    }
}

/// Making an untyped handle from a widget and downcasting it to the
/// widget's own type recovers exactly the typed handle of that widget;
/// downcasting to any type with a different tag yields nothing.
pub proof fn lemma_identity_round_trip<T: Widget, U: Widget>(h: AnyHandle)
    requires
        h.kind_spec() == T::kind_spec(),
    ensures
        downcast_spec::<T>(h) == Some(Handle::<T>::for_id(h.id_spec())),
        T::kind_spec() != U::kind_spec() ==> downcast_spec::<U>(h) is None,
{
}

impl<T: Widget> PartialEq<Handle<T>> for AnyHandle {
    fn eq(&self, other: &Handle<T>) -> (r: bool) {
        self.id == other.id
    }
}

impl<T: Widget> vstd::std_specs::cmp::PartialEqSpecImpl<Handle<T>> for AnyHandle {
    open spec fn obeys_eq_spec() -> bool {
        true
    }

    open spec fn eq_spec(&self, other: &Handle<T>) -> bool {
        self.id_spec() == other.id_spec()
    }
}

impl<T: Widget> PartialEq<AnyHandle> for Handle<T> {
    fn eq(&self, other: &AnyHandle) -> (r: bool) {
        self.id == other.id
    }
}

impl<T: Widget> vstd::std_specs::cmp::PartialEqSpecImpl<AnyHandle> for Handle<T> {
    open spec fn obeys_eq_spec() -> bool {
        true
    }

    open spec fn eq_spec(&self, other: &AnyHandle) -> bool {
        self.id_spec() == other.id_spec()
    }
}

impl<T: Widget> From<Handle<T>> for AnyHandle {
    fn from(value: Handle<T>) -> (r: AnyHandle) {
        AnyHandle { id: value.id, t: T::kind() }
    }
}

impl<T: Widget> vstd::std_specs::convert::FromSpecImpl<Handle<T>> for AnyHandle {
    open spec fn obeys_from_spec() -> bool {
        true
    }

    open spec fn from_spec(value: Handle<T>) -> AnyHandle {
        AnyHandle::make(value.id_spec(), T::kind_spec())
    }
}

/// The child-management capability of container widgets, used only through
/// the deferred-mutation queue, never during a walk.
pub trait HasChildren: Widget {
    spec fn children_spec(&self) -> Seq<crate::node::WidgetNode>;

    fn len(&self) -> (r: usize)
        ensures
            r == self.children_spec().len(),
    ;

    fn is_empty(&self) -> (r: bool)
        ensures
            r == (self.children_spec().len() == 0),
    ;

    fn push(&mut self, child: crate::node::WidgetNode)
        requires
            old(self).wf(),
            crate::node::node_wf(child),
        ensures
            final(self).wf(),
            final(self).children_spec() == old(self).children_spec().push(child),
            final(self).id_spec() == old(self).id_spec(),
    ;

    fn erase<I: HasId>(&mut self, target: &I)
        requires
            old(self).wf(),
        ensures
            final(self).wf(),
            final(self).children_spec() == crate::node::erase_first(
                old(self).children_spec(),
                target.id_spec(),
            ),
            final(self).id_spec() == old(self).id_spec(),
    ;
}

} // verus!
