//! The closed set of input events an embedding hands to the engine.

use vstd::prelude::*;
use crate::geometry::LogicalPosition;

verus! {

/// A pointer button.
#[derive(Clone, Copy, PartialEq, Eq, Structural, Debug)]
pub enum MouseButton {
    Left,
    Right,
    Middle,
}

/// Whether a button or key went down or up.
#[derive(Clone, Copy, PartialEq, Eq, Structural, Debug)]
pub enum ButtonState {
    Pressed,
    Released,
}

/// The set of pointer buttons held down.
#[derive(Clone, Copy, PartialEq, Eq, Structural, Debug)]
pub struct MouseButtons {
    pub left: bool,
    pub right: bool,
    pub middle: bool,
}

impl MouseButtons {
    pub open spec fn contains_spec(self, button: MouseButton) -> bool {
        match button {
            MouseButton::Left => self.left,
            MouseButton::Right => self.right,
            MouseButton::Middle => self.middle,
        }
    }

    pub fn none() -> (r: Self)
        ensures
            r == (MouseButtons { left: false, right: false, middle: false }),
    {
        MouseButtons { left: false, right: false, middle: false }
    }

    pub fn contains(&self, button: MouseButton) -> (r: bool)
        ensures
            r == self.contains_spec(button),
    {
        match button {
            MouseButton::Left => self.left,
            MouseButton::Right => self.right,
            MouseButton::Middle => self.middle,
        }
    }
}

/// Pointer position and held buttons at the moment of an event.
#[derive(Clone, Copy, PartialEq, Eq, Structural, Debug)]
pub struct MouseState {
    pub position: LogicalPosition,
    pub buttons: MouseButtons,
}

/// A pointer-button press or release.
#[derive(Clone, Copy, PartialEq, Eq, Structural, Debug)]
pub struct MouseInput {
    pub button: MouseButton,
    pub button_state: ButtonState,
    pub mouse_state: MouseState,
}

/// The pointer moved.
#[derive(Clone, Copy, PartialEq, Eq, Structural, Debug)]
pub struct CursorMoved {
    pub mouse_state: MouseState,
}

/// The pointer left the window.
#[derive(Clone, Copy, PartialEq, Eq, Structural, Debug)]
pub struct CursorLeft {
    pub mouse_state: MouseState,
}

/// Which way a wheel turns.
#[derive(Clone, Copy, PartialEq, Eq, Structural, Debug)]
pub enum MouseWheelAxis {
    Vertical,
    Horizontal,
}

/// A wheel step.
#[derive(Clone, Copy, PartialEq, Eq, Structural, Debug)]
pub struct MouseWheel {
    pub axis: MouseWheelAxis,
    pub distance: i32,
    pub mouse_state: MouseState,
}

/// A key, named abstractly.
#[derive(Clone, Copy, PartialEq, Eq, Structural, Debug)]
pub enum VirtualKey {
    Enter,
    Escape,
    BackSpace,
    Delete,
    Tab,
    Space,
    ArrowLeft,
    ArrowRight,
    ArrowUp,
    ArrowDown,
    Home,
    End,
    Other(u32),
}

/// A key press or release.
#[derive(Clone, Copy, PartialEq, Eq, Structural, Debug)]
pub struct KeyInput {
    pub vkey: VirtualKey,
    pub key_state: ButtonState,
}

/// One clause of an in-progress IME composition.
#[derive(Clone, PartialEq, Eq, Debug)]
pub struct Clause {
    pub start: usize,
    pub end: usize,
    pub targeted: bool,
}

/// An in-progress IME composition.
#[derive(Clone, Debug)]
pub struct Composition {
    pub chars: Vec<char>,
    pub clauses: Vec<Clause>,
    pub cursor_position: usize,
}

/// One input event, as delivered by the embedding once per dispatch.
#[derive(Clone, Debug)]
pub enum Input {
    MouseInput(MouseInput),
    CursorMoved(CursorMoved),
    CursorLeft(CursorLeft),
    MouseWheel(MouseWheel),
    KeyInput(KeyInput),
    CharInput(char),
    ImeBeginComposition,
    ImeUpdateComposition(Composition),
    ImeEndComposition(Option<String>),
}

impl Input {
    /// Whether this event is a pointer-button press (the only event that can
    /// move focus).
    pub open spec fn is_press_spec(self) -> bool {
        match self {
            Input::MouseInput(m) => m.button_state == ButtonState::Pressed,
            _ => false,
        }
    }
}

} // verus!
