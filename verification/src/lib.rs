//! A retained-mode user-interface engine: a tree of widgets addressed by
//! stable identity tokens, driven by a per-frame protocol of input dispatch
//! followed by layout computation, which yields an immutable, layer-ordered
//! snapshot for an external renderer.

pub mod apply;
pub mod button;
pub mod containers;
pub mod empty;
pub mod event;
pub mod font;
pub mod geometry;
pub mod id;
pub mod input;
pub mod label;
pub mod layout;
pub mod node;
pub mod scene;
pub mod sizing;
pub mod utility;
pub mod widget;
