//! Hit-testing between geometric values.

use vstd::prelude::*;
use crate::geometry::{LogicalPosition, LogicalRect};

verus! {

/// Collision queries between two kinds of geometric value.
pub trait Collision<T>: Sized {
    spec fn is_crossing_spec(&self, rhs: &T) -> bool;

    spec fn contains_spec(&self, inner: &T) -> bool;

    fn is_crossing(&self, rhs: &T) -> (r: bool)
        ensures
            r == self.is_crossing_spec(rhs),
    ;

    fn contains(&self, inner: &T) -> (r: bool)
        ensures
            r == self.contains_spec(inner),
    ;
}

impl Collision<LogicalRect> for LogicalPosition {
    /// A point crosses a rectangle when it lies inside it, borders
    /// included.
    open spec fn is_crossing_spec(&self, rhs: &LogicalRect) -> bool {
        rhs.left <= self.x <= rhs.right && rhs.top <= self.y <= rhs.bottom
    }

    /// A point can never contain a rectangle.
    open spec fn contains_spec(&self, inner: &LogicalRect) -> bool {
        false
    }

    fn is_crossing(&self, rhs: &LogicalRect) -> (r: bool) {
        rhs.left <= self.x && self.x <= rhs.right && rhs.top <= self.y && self.y <= rhs.bottom
    }

    fn contains(&self, inner: &LogicalRect) -> (r: bool) {
        let _ = inner;
        false
    }
}

impl Collision<LogicalPosition> for LogicalRect {
    open spec fn is_crossing_spec(&self, rhs: &LogicalPosition) -> bool {
        rhs.is_crossing_spec(self)
    }

    open spec fn contains_spec(&self, inner: &LogicalPosition) -> bool {
        inner.is_crossing_spec(self)
    }

    fn is_crossing(&self, rhs: &LogicalPosition) -> (r: bool) {
        rhs.is_crossing(self)
    }

    fn contains(&self, inner: &LogicalPosition) -> (r: bool) {
        inner.is_crossing(self)
    }
}

/// Whether `lhs` and `rhs` touch.
pub fn is_crossing<T, U>(lhs: &T, rhs: &U) -> (r: bool) where T: Collision<U>
    ensures
        r == lhs.is_crossing_spec(rhs),
{
    lhs.is_crossing(rhs)
}

/// Whether `outer` wholly holds `inner`.
pub fn contains<T, U>(outer: &T, inner: &U) -> (r: bool) where T: Collision<U>
    ensures
        r == outer.contains_spec(inner),
{
    outer.contains(inner)
}

} // verus!
