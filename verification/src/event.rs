//! The type-erased event bus.
//!
//! Widgets append events during one input dispatch; each event carries its
//! producer's untyped handle and a payload. A payload is recovered only
//! through a handle whose identity matches the producer *and* whose
//! requested payload type matches — either check failing yields nothing.

use vstd::prelude::*;
use crate::id::{HasId, Id};
use crate::widget::{AnyHandle, Handle, Widget, WidgetState};

verus! {

/// A widget's visual state changed.
#[derive(Clone, Copy, PartialEq, Eq, Structural, Debug)]
pub struct StateChanged {
    pub current: WidgetState,
    pub prev: WidgetState,
}

impl StateChanged {
    pub fn new(current: WidgetState, prev: WidgetState) -> (r: Self)
        ensures
            r == (StateChanged { current, prev }),
    {
        StateChanged { current, prev }
    }
}

/// A widget asks to receive focus.
#[derive(Clone, Copy, PartialEq, Eq, Structural, Debug)]
pub struct SetFocus;

/// The closed set of payloads an event can carry.
#[derive(Clone, PartialEq, Eq, Structural, Debug)]
pub enum EventObject {
    StateChanged(StateChanged),
    SetFocus(SetFocus),
    Button(crate::button::Message),
}

/// A value that can ride on the event bus: it knows how it is stored in an
/// [`EventObject`] and how it is recovered, and recovery inverts storage.
pub trait Payload: Sized {
    spec fn wrap_spec(self) -> EventObject;

    spec fn unwrap_spec(obj: EventObject) -> Option<Self>;

    fn wrap(self) -> (o: EventObject)
        ensures
            o == self.wrap_spec(),
    ;

    fn unwrap_ref(obj: &EventObject) -> (r: Option<&Self>)
        ensures
            match r {
                Some(p) => Self::unwrap_spec(*obj) == Some(*p),
                None => Self::unwrap_spec(*obj) is None,
            },
    ;

    /// Recovering what was stored yields the stored value.
    proof fn lemma_round_trip(self)
        ensures
            Self::unwrap_spec(self.wrap_spec()) == Some(self),
    ;
}

impl Payload for StateChanged {
    open spec fn wrap_spec(self) -> EventObject {
        EventObject::StateChanged(self)
    }

    open spec fn unwrap_spec(obj: EventObject) -> Option<Self> {
        match obj {
            EventObject::StateChanged(s) => Some(s),
            _ => None,
        }
    }

    fn wrap(self) -> (o: EventObject)
        ensures
            o == self.wrap_spec(),
    {
        EventObject::StateChanged(self)
    }

    fn unwrap_ref(obj: &EventObject) -> (r: Option<&Self>)
        ensures
            match r {
                Some(p) => Self::unwrap_spec(*obj) == Some(*p),
                None => Self::unwrap_spec(*obj) is None,
            },
    {
        match obj {
            EventObject::StateChanged(s) => Some(s),
            _ => None,
        }
    }

    proof fn lemma_round_trip(self)
        ensures
            Self::unwrap_spec(self.wrap_spec()) == Some(self),
    {
    }
}

impl Payload for SetFocus {
    open spec fn wrap_spec(self) -> EventObject {
        EventObject::SetFocus(self)
    }

    open spec fn unwrap_spec(obj: EventObject) -> Option<Self> {
        match obj {
            EventObject::SetFocus(s) => Some(s),
            _ => None,
        }
    }

    fn wrap(self) -> (o: EventObject)
        ensures
            o == self.wrap_spec(),
    {
        EventObject::SetFocus(self)
    }

    fn unwrap_ref(obj: &EventObject) -> (r: Option<&Self>)
        ensures
            match r {
                Some(p) => Self::unwrap_spec(*obj) == Some(*p),
                None => Self::unwrap_spec(*obj) is None,
            },
    {
        match obj {
            EventObject::SetFocus(s) => Some(s),
            _ => None,
        }
    }

    proof fn lemma_round_trip(self)
        ensures
            Self::unwrap_spec(self.wrap_spec()) == Some(self),
    {
    }
}

/// A widget type that emits messages of a known payload type.
pub trait WidgetMessage: Widget {
    type Message: Payload;
}

/// One event: the producer's untyped handle and a payload.
#[derive(Clone, Debug)]
pub struct Event {
    handle: AnyHandle,
    object: EventObject,
}

/// What a typed retrieval yields: the payload, if the identity matches the
/// producer and the payload is of the requested type.
pub open spec fn message_spec<T: WidgetMessage>(e: Event, h: Handle<T>) -> Option<T::Message> {
    if h.id_spec() == e.handle_spec().id_spec() {
        T::Message::unwrap_spec(e.object_spec())
    } else {
        None
    }
}

impl Event {
    pub closed spec fn handle_spec(self) -> AnyHandle {
        self.handle
    }

    pub closed spec fn object_spec(self) -> EventObject {
        self.object
    }

    /// The event with the given producer and payload (spec-level
    /// constructor).
    pub closed spec fn make(handle: AnyHandle, object: EventObject) -> Event {
        Event { handle, object }
    }

    pub fn new<T: Widget, U: Payload>(widget: &T, object: U) -> (r: Self)
        ensures
            r == Event::make(
                AnyHandle::make(widget.id_spec(), T::kind_spec()),
                object.wrap_spec(),
            ),
            r.handle_spec() == AnyHandle::make(widget.id_spec(), T::kind_spec()),
            r.object_spec() == object.wrap_spec(),
    {
        Event { handle: AnyHandle::new(widget), object: object.wrap() }
    }

    pub fn handle(&self) -> (r: AnyHandle)
        ensures
            r == self.handle_spec(),
    {
        self.handle
    }

    /// The message, iff `handle` matches this event's producer by identity
    /// and the payload is a `T::Message`.
    pub fn message<T: WidgetMessage>(&self, handle: &Handle<T>) -> (r: Option<&T::Message>)
        ensures
            match r {
                Some(m) => message_spec::<T>(*self, *handle) == Some(*m),
                None => message_spec::<T>(*self, *handle) is None,
            },
    {
        if handle.id() != self.handle.id() {
            return None;
        }
        T::Message::unwrap_ref(&self.object)
    }

    /// The state transition, iff `handle` matches this event's producer by
    /// identity and the payload is a [`StateChanged`].
    pub fn state_changed<T: Widget>(&self, handle: &Handle<T>) -> (r: Option<&StateChanged>)
        ensures
            match r {
                Some(s) => handle.id_spec() == self.handle_spec().id_spec()
                    && StateChanged::unwrap_spec(self.object_spec()) == Some(*s),
                None => handle.id_spec() != self.handle_spec().id_spec()
                    || StateChanged::unwrap_spec(self.object_spec()) is None,
            },
    {
        if handle.id() != self.handle.id() {
            return None;
        }
        StateChanged::unwrap_ref(&self.object)
    }

    /// Whether this event is a focus request.
    pub fn is_set_focus(&self) -> (r: bool)
        ensures
            r == (SetFocus::unwrap_spec(self.object_spec()) is Some),
    {
        SetFocus::unwrap_ref(&self.object).is_some()
    }

    /// The payload as a `U`, whoever produced the event.
    pub fn downcast_ref<U: Payload>(&self) -> (r: Option<&U>)
        ensures
            match r {
                Some(p) => U::unwrap_spec(self.object_spec()) == Some(*p),
                None => U::unwrap_spec(self.object_spec()) is None,
            },
    {
        U::unwrap_ref(&self.object)
    }
}

/// Whether any event in the batch carries a state transition.
pub fn state_changed_exists(v: &Vec<Event>) -> (r: bool)
    ensures
        r == exists|i: int|
            0 <= i < v@.len() && StateChanged::unwrap_spec(#[trigger] v@[i].object_spec()) is Some,
{
    let n = v.len();
    let mut i: usize = 0;
    while i < n
        invariant
            i <= n,
            n == v@.len(),
            forall|j: int|
                0 <= j < i ==> StateChanged::unwrap_spec(#[trigger] v@[j].object_spec()) is None,
        decreases n - i,
    {
        if v[i].downcast_ref::<StateChanged>().is_some() {
            return true;
        }
        i = i + 1;
    }
    false
}

/// The producer of the first focus-request event, if any.
pub open spec fn first_set_focus(s: Seq<Event>) -> Option<AnyHandle>
    decreases s.len(),
{
    if s.len() == 0 {
        None
    } else if SetFocus::unwrap_spec(s.first().object_spec()) is Some {
        Some(s.first().handle_spec())
    } else {
        first_set_focus(s.drop_first())
    }
}

/// The ordered batch of events one input dispatch produces.
#[derive(Debug)]
pub struct Events(Vec<Event>);

impl View for Events {
    type V = Seq<Event>;

    closed spec fn view(&self) -> Seq<Event> {
        self.0@
    }
}

impl Events {
    pub fn new() -> (r: Self)
        ensures
            r@ == Seq::<Event>::empty(),
    {
        Events(Vec::new())
    }

    pub fn clear(&mut self)
        ensures
            final(self)@ == Seq::<Event>::empty(),
    {
        self.0.clear();
    }

    pub fn is_empty(&self) -> (r: bool)
        ensures
            r == (self@.len() == 0),
    {
        self.0.is_empty()
    }

    pub fn len(&self) -> (r: usize)
        ensures
            r == self@.len(),
    {
        self.0.len()
    }

    /// Appends an event with an explicit producer handle (crate-internal:
    /// used by widgets whose trait methods cannot name their own type).
    pub(crate) fn push_raw(&mut self, handle: AnyHandle, object: EventObject)
        ensures
            final(self)@ == old(self)@.push(Event::make(handle, object)),
    {
        self.0.push(Event { handle, object });
    }

    /// Appends an event produced by `widget` with an arbitrary payload.
    pub fn push<T: Widget, U: Payload>(&mut self, widget: &T, object: U)
        ensures
            final(self)@ == old(self)@.push(
                Event::make(
                    AnyHandle::make(widget.id_spec(), T::kind_spec()),
                    object.wrap_spec(),
                ),
            ),
    {
        self.0.push(Event::new(widget, object));
    }

    /// Appends a message event produced by `widget`.
    pub fn push_message<T: WidgetMessage>(&mut self, widget: &T, message: T::Message)
        ensures
            final(self)@ == old(self)@.push(
                Event::make(
                    AnyHandle::make(widget.id_spec(), T::kind_spec()),
                    message.wrap_spec(),
                ),
            ),
    {
        self.0.push(Event::new(widget, message));
    }

    /// Appends a state-transition event iff the state actually changed, and
    /// returns `current` either way (callers store the returned value).
    pub fn push_state_changed<T: Widget>(
        &mut self,
        widget: &T,
        current: WidgetState,
        prev: WidgetState,
    ) -> (r: WidgetState)
        ensures
            r == current,
            current == prev ==> final(self)@ == old(self)@,
            current != prev ==> final(self)@ == old(self)@.push(
                Event::make(
                    AnyHandle::make(widget.id_spec(), T::kind_spec()),
                    StateChanged { current, prev }.wrap_spec(),
                ),
            ),
    {
        if current != prev {
            self.0.push(Event::new(widget, StateChanged::new(current, prev)));
        }
        current
    }

    /// Removes and returns the most recent event.
    pub fn pop(&mut self) -> (r: Option<Event>)
        ensures
            old(self)@.len() == 0 ==> r is None && final(self)@ == old(self)@,
            old(self)@.len() > 0 ==> r == Some(old(self)@.last()) && final(self)@ == old(self)@.drop_last(),
    {
        self.0.pop()
    }

    /// Removes and returns the event at `index`.
    pub fn remove(&mut self, index: usize) -> (r: Event)
        requires
            index < old(self)@.len(),
        ensures
            r == old(self)@[index as int],
            final(self)@ == old(self)@.remove(index as int),
    {
        self.0.remove(index)
    }

    /// The events in order, for reading from either end.
    pub fn iter(&self) -> (r: &Vec<Event>)
        ensures
            r@ == self@,
    {
        &self.0
    }

    /// The events in order, for mutation in place.
    pub fn iter_mut(&mut self) -> (r: &mut Vec<Event>)
        ensures
            r@ == old(self)@,
            final(self)@ == final(r)@,
    {
        &mut self.0
    }

    /// The event at `index`.
    pub fn get(&self, index: usize) -> (r: &Event)
        requires
            index < self@.len(),
        ensures
            *r == self@[index as int],
    {
        &self.0[index]
    }
}

/// Retrieving a message through a handle to the producing widget yields
/// the message that was pushed.
pub proof fn lemma_message_targets_producer<T: WidgetMessage>(id: Id, m: T::Message)
    ensures
        message_spec::<T>(
            Event::make(AnyHandle::make(id, T::kind_spec()), m.wrap_spec()),
            Handle::<T>::for_id(id),
        ) == Some(m),
{
    broadcast use crate::widget::lemma_for_id_spec, crate::widget::lemma_make_spec;

    m.lemma_round_trip();
}

/// Retrieving through a handle to any other widget yields nothing, whatever
/// the payload.
pub proof fn lemma_message_wrong_target<T: WidgetMessage>(e: Event, h: Handle<T>)
    requires
        h.id_spec() != e.handle_spec().id_spec(),
    ensures
        message_spec::<T>(e, h) is None,
{
}

} // verus!
