//! End-to-end frames: layout snapshots, deferred mutation, focus, and
//! pointer input.

use glane::apply::ApplyCommand;
use glane::button::{Button, Message};
use glane::event::{Events, SetFocus};
use glane::geometry::{LogicalPosition, LogicalSize};
use glane::id::{HasId, IdGen};
use glane::input::{
    ButtonState, CursorMoved, Input, MouseButton, MouseButtons, MouseInput, MouseState,
};
use glane::label::Label;
use glane::containers::row::Row;
use glane::node::WidgetNode;
use glane::scene::Scene;
use glane::widget::Handle;

fn label_with_metrics(gen: &mut IdGen, text: &str, w: i64, h: i64) -> Label {
    let mut l = Label::new(gen, String::from(text));
    l.set_metrics(LogicalSize::new(w, h));
    l
}

fn mouse_at(x: i64, y: i64, left: bool) -> MouseState {
    MouseState {
        position: LogicalPosition::new(x, y),
        buttons: MouseButtons { left, right: false, middle: false },
    }
}

/// A root row holding two fixed-width label-like children of widths 50 and
/// 30 (height 20), spacing 10, inside a 200 by 20 viewport: the snapshot
/// holds two text elements at [0, 50) and [60, 90).
#[test]
fn two_fixed_labels_in_a_row() {
    let mut gen = IdGen::new();
    let mut row = Row::new(&mut gen);
    row.children.push(WidgetNode::Label(label_with_metrics(&mut gen, "left", 50, 20)));
    row.children.push(WidgetNode::Label(label_with_metrics(&mut gen, "right", 30, 20)));

    let (mut scene, _root) = Scene::new(WidgetNode::Row(row));
    scene.set_viewport(LogicalSize::new(200, 20));
    let snapshot = scene.layout();

    let texts: Vec<_> = snapshot.iter().iter().filter_map(|e| e.as_text()).collect();
    assert_eq!(texts.len(), 2);
    assert_eq!(texts[0].string, "left");
    assert_eq!(texts[0].rect.left, 0);
    assert_eq!(texts[0].rect.right, 50);
    assert_eq!(texts[1].string, "right");
    assert_eq!(texts[1].rect.left, 60);
    assert_eq!(texts[1].rect.right, 90);
}

/// Two mutations queued for one widget run in order, and neither runs
/// before the next frame call: only the fully drained result is visible.
#[test]
fn deferred_mutations_apply_in_queue_order_at_the_next_frame() {
    let mut gen = IdGen::new();
    let label = label_with_metrics(&mut gen, "start", 50, 20);
    let handle: Handle<Label> = Handle::new(&label);
    let mut row = Row::new(&mut gen);
    row.children.push(WidgetNode::Label(label));

    let (mut scene, _root) = Scene::new(WidgetNode::Row(row));
    scene.set_viewport(LogicalSize::new(200, 20));
    let before = scene.layout();
    assert_eq!(before.iter()[0].as_text().unwrap().string, "start");

    scene.apply(&handle, ApplyCommand::SetText(String::from("first")));
    scene.apply(&handle, ApplyCommand::SetText(String::from("second")));

    // nothing observable changed yet: the queue is drained at the next
    // frame call, not at enqueue time
    assert_eq!(before.iter()[0].as_text().unwrap().string, "start");

    let after = scene.layout();
    assert_eq!(after.iter()[0].as_text().unwrap().string, "second");
}

#[test]
fn push_child_attaches_at_the_next_frame() {
    let mut gen = IdGen::new();
    let row = Row::new(&mut gen);
    let row_handle: Handle<Row> = Handle::new(&row);
    let (mut scene, _root) = Scene::new(WidgetNode::Row(row));
    scene.set_viewport(LogicalSize::new(200, 20));
    assert_eq!(scene.layout().len(), 0);

    let child = label_with_metrics(&mut gen, "kid", 30, 20);
    let child_handle = scene.push_child(&row_handle, WidgetNode::Label(child));
    let snapshot = scene.layout();
    assert_eq!(snapshot.len(), 1);
    assert_eq!(snapshot.iter()[0].handle().id(), child_handle.id());

    // erasing through the queue removes it one frame later
    let typed = child_handle.downcast::<Label>().unwrap();
    scene.erase_child(&row_handle, typed);
    assert_eq!(scene.layout().len(), 0);
}

/// Focus moves only on a press whose dispatch produced a focus request:
/// requests already sitting in the caller's buffer do not count, and a
/// press that produced none leaves focus alone.
#[test]
fn focus_changes_only_on_produced_requests() {
    let mut gen = IdGen::new();
    let row = Row::new(&mut gen);
    let (mut scene, _root) = Scene::new(WidgetNode::Row(row));
    assert!(scene.focus().is_none());

    let outsider = label_with_metrics(&mut gen, "not in the tree", 10, 10);
    let press = Input::MouseInput(MouseInput {
        button: MouseButton::Left,
        button_state: ButtonState::Pressed,
        mouse_state: mouse_at(5, 5, true),
    });

    // a focus request pre-filled by the caller is not one the dispatch
    // produced, so the press leaves focus unchanged
    let mut events = Events::new();
    events.push(&outsider, SetFocus);
    scene.input(press, &mut events);
    assert!(scene.focus().is_none());

    // a pointer move leaves focus unchanged too
    let mut events = Events::new();
    let moved = Input::CursorMoved(CursorMoved { mouse_state: mouse_at(7, 7, false) });
    scene.input(moved, &mut events);
    assert!(scene.focus().is_none());
}

/// A button reports a click when the left button is released over it, and
/// its visual state changes ride on the bus.
#[test]
fn button_reports_clicks_from_pointer_input() {
    let mut gen = IdGen::new();
    let mut button = Button::new(&mut gen, String::from("ok"));
    button.set_metrics(LogicalSize::new(36, 14));
    let handle: Handle<Button> = Handle::new(&button);
    let mut row = Row::new(&mut gen);
    row.children.push(WidgetNode::Button(button));

    let (mut scene, _root) = Scene::new(WidgetNode::Row(row));
    scene.set_viewport(LogicalSize::new(200, 40));
    // first frame: produce the snapshot the button will hit-test against
    let _ = scene.layout();

    let mut events = Events::new();
    let release = Input::MouseInput(MouseInput {
        button: MouseButton::Left,
        button_state: ButtonState::Released,
        mouse_state: mouse_at(10, 10, false),
    });
    scene.input(release, &mut events);

    let clicked = events.iter().iter().find_map(|e| e.message(&handle));
    assert_eq!(clicked, Some(&Message::Clicked));

    // a release far away reports nothing
    let mut events = Events::new();
    let miss = Input::MouseInput(MouseInput {
        button: MouseButton::Left,
        button_state: ButtonState::Released,
        mouse_state: mouse_at(150, 30, false),
    });
    scene.input(miss, &mut events);
    assert!(events.iter().iter().find_map(|e| e.message(&handle)).is_none());
}
