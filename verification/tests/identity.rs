//! Identity tokens and handles: uniqueness and typed recovery.

use glane::button::Button;
use glane::id::{HasId, Id, IdGen};
use glane::label::Label;
use glane::widget::{AnyHandle, Handle, WidgetKind};

#[test]
fn ids_are_unique_across_widgets() {
    let mut gen = IdGen::new();
    let a = Label::new(&mut gen, String::from("a"));
    let b = Label::new(&mut gen, String::from("b"));
    let c = Button::new(&mut gen, String::from("c"));
    let d = Id::new(&mut gen);
    assert_ne!(a.id(), b.id());
    assert_ne!(a.id(), c.id());
    assert_ne!(b.id(), c.id());
    assert_ne!(c.id(), d);
}

#[test]
fn identity_round_trip_through_any_handle() {
    let mut gen = IdGen::new();
    let w = Label::new(&mut gen, String::from("hello"));
    let any = AnyHandle::new(&w);
    let typed = any.downcast::<Label>();
    assert_eq!(typed, Some(Handle::new(&w)));
}

#[test]
fn downcast_to_other_type_yields_nothing() {
    let mut gen = IdGen::new();
    let w = Label::new(&mut gen, String::from("hello"));
    let any = AnyHandle::new(&w);
    assert!(any.downcast::<Button>().is_none());
    assert_eq!(any.type_id(), WidgetKind::Label);
}

#[test]
fn equality_is_by_id_alone() {
    let mut gen = IdGen::new();
    let w = Label::new(&mut gen, String::from("x"));
    let other = Label::new(&mut gen, String::from("x"));
    let any = AnyHandle::new(&w);
    let typed = Handle::new(&w);
    assert!(any == typed);
    assert!(typed == any);
    assert!(any.is(&w));
    assert!(!any.is(&other));
    assert_eq!(any.id(), typed.id());
}
