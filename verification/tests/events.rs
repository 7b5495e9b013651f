//! The event bus: targeting, typed retrieval, and state-change dedup.

use glane::apply::{ApplyCommand, ApplyFuncs};
use glane::button::{Button, Message};
use glane::event::{Event, Events, SetFocus, StateChanged, state_changed_exists};
use glane::geometry::LogicalSize;
use glane::id::IdGen;
use glane::label::Label;
use glane::widget::{Handle, WidgetState};

#[test]
fn message_reaches_only_its_producer_handle() {
    let mut gen = IdGen::new();
    let w = Button::new(&mut gen, String::from("ok"));
    let other = Button::new(&mut gen, String::from("cancel"));
    let handle_w = Handle::new(&w);
    let handle_other = Handle::new(&other);

    let mut events = Events::new();
    events.push_message(&w, Message::Clicked);
    // the other widget also has an event of the same payload type in the
    // same batch
    events.push_message(&other, Message::Clicked);

    let found = events.iter().iter().find_map(|e| e.message(&handle_w));
    assert_eq!(found, Some(&Message::Clicked));

    // a handle to a different widget never sees w's event
    let first = events.get(0);
    assert!(first.message(&handle_other).is_none());
    assert!(first.message(&handle_w).is_some());
}

#[test]
fn state_change_dedup() {
    let mut gen = IdGen::new();
    let w = Button::new(&mut gen, String::from("b"));
    let mut events = Events::new();

    let r = events.push_state_changed(&w, WidgetState::Hover, WidgetState::Hover);
    assert_eq!(r, WidgetState::Hover);
    assert_eq!(events.len(), 0);

    let r = events.push_state_changed(&w, WidgetState::Pressed, WidgetState::Hover);
    assert_eq!(r, WidgetState::Pressed);
    assert_eq!(events.len(), 1);
    let handle = Handle::new(&w);
    let got = events.get(0).state_changed(&handle).copied();
    assert_eq!(
        got,
        Some(StateChanged { current: WidgetState::Pressed, prev: WidgetState::Hover })
    );
}

#[test]
fn pop_is_lifo_and_remove_is_by_index() {
    let mut gen = IdGen::new();
    let w = Button::new(&mut gen, String::from("b"));
    let mut events = Events::new();
    events.push(&w, StateChanged { current: WidgetState::Hover, prev: WidgetState::Idle });
    events.push(&w, SetFocus);
    assert_eq!(events.len(), 2);

    let last = events.pop().unwrap();
    assert!(last.is_set_focus());
    assert_eq!(events.len(), 1);

    let first = events.remove(0);
    assert!(first.downcast_ref::<StateChanged>().is_some());
    assert!(events.is_empty());

    assert!(events.pop().is_none());
}

#[test]
fn state_changed_exists_scans_a_batch() {
    let mut gen = IdGen::new();
    let w = Button::new(&mut gen, String::from("b"));
    let mut events = Events::new();
    events.push(&w, SetFocus);
    let v: Vec<Event> = vec![events.remove(0)];
    assert!(!state_changed_exists(&v));

    let mut events = Events::new();
    events.push(&w, StateChanged { current: WidgetState::Idle, prev: WidgetState::Hover });
    let v: Vec<Event> = vec![events.remove(0)];
    assert!(state_changed_exists(&v));
}

#[test]
fn events_can_be_edited_in_place() {
    let mut gen = IdGen::new();
    let w = Button::new(&mut gen, String::from("b"));
    let mut events = Events::new();
    events.push(&w, SetFocus);
    events.push(&w, StateChanged { current: WidgetState::Hover, prev: WidgetState::Idle });
    // back-to-front processing through the mutable view
    events.iter_mut().reverse();
    assert!(events.get(0).downcast_ref::<StateChanged>().is_some());
    assert!(events.get(1).is_set_focus());
}

#[test]
fn payload_type_must_match_as_well_as_id() {
    let mut gen = IdGen::new();
    let w = Button::new(&mut gen, String::from("b"));
    let handle = Handle::new(&w);
    let mut events = Events::new();
    // same producer, but the payload is a state change, not a message
    events.push(&w, StateChanged { current: WidgetState::Hover, prev: WidgetState::Idle });
    assert!(events.get(0).message(&handle).is_none());
    assert!(events.get(0).state_changed(&handle).is_some());
    let _ = Label::new(&mut gen, String::from("unused"));
}

#[test]
fn the_queue_applies_a_widgets_commands_in_order() {
    let mut gen = IdGen::new();
    let mut label = Label::new(&mut gen, String::from("start"));
    label.set_metrics(LogicalSize::new(10, 10));
    let handle: Handle<Label> = Handle::new(&label);
    let other = Label::new(&mut gen, String::from("other"));
    let other_handle: Handle<Label> = Handle::new(&other);

    let mut funcs = ApplyFuncs::new();
    funcs.push(&handle, ApplyCommand::SetText(String::from("first")));
    funcs.push(&other_handle, ApplyCommand::SetText(String::from("elsewhere")));
    funcs.push(&handle, ApplyCommand::SetText(String::from("second")));

    // the widget receives exactly its own commands, first-in first-out
    funcs.apply(&mut label);
    assert_eq!(label.text, "second");
    assert!(!funcs.is_empty());
    assert_eq!(funcs.len(), 3);
}
