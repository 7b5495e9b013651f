//! Logical (layout-space) geometry on integer coordinates.
//!
//! Positions, sizes and rectangles are measured in whole logical units.
//! Every coordinate the engine works with is kept inside
//! `[-COORD_MAX, COORD_MAX]`, which leaves ample headroom in `i64` for the
//! sums the layout algorithms form.

use vstd::prelude::*;

verus! {

/// Largest coordinate magnitude the engine accepts.
pub const COORD_MAX: i64 = 1_000_000_000;

/// A coordinate that the engine can do arithmetic on without overflow.
pub open spec fn coord_ok(v: int) -> bool {
    -(COORD_MAX as int) <= v <= COORD_MAX as int
}

/// An extent (width or height): non-negative and bounded.
pub open spec fn extent_ok(v: int) -> bool {
    0 <= v <= COORD_MAX as int
}

/// `v` forced into the extent range `[0, COORD_MAX]`. Measured extents
/// saturate at the coordinate horizon rather than overflow.
pub open spec fn clamp_extent_spec(v: int) -> int {
    if v < 0 {
        0
    } else if v > COORD_MAX as int {
        COORD_MAX as int
    } else {
        v
    }
}

/// Forces `v` into the extent range `[0, COORD_MAX]`.
pub fn clamp_extent(v: i64) -> (r: i64)
    ensures
        r == clamp_extent_spec(v as int),
        extent_ok(r as int),
{
    if v < 0 {
        0
    } else if v > COORD_MAX {
        COORD_MAX
    } else {
        v
    }
}

/// `v` forced into the coordinate range `[-COORD_MAX, COORD_MAX]`.
pub open spec fn clamp_coord_spec(v: int) -> int {
    if v < -(COORD_MAX as int) {
        -(COORD_MAX as int)
    } else if v > COORD_MAX as int {
        COORD_MAX as int
    } else {
        v
    }
}

/// The rectangle with each coordinate forced into the coordinate range.
/// Rectangles built during layout saturate at the coordinate horizon
/// rather than overflow.
pub open spec fn rect_clamp_spec(left: int, top: int, right: int, bottom: int) -> LogicalRect {
    LogicalRect {
        left: clamp_coord_spec(left) as i64,
        top: clamp_coord_spec(top) as i64,
        right: clamp_coord_spec(right) as i64,
        bottom: clamp_coord_spec(bottom) as i64,
    }
}

/// Forces `v` into the coordinate range `[-COORD_MAX, COORD_MAX]`.
pub fn clamp_coord(v: i64) -> (r: i64)
    ensures
        r == clamp_coord_spec(v as int),
        coord_ok(r as int),
{
    if v < -COORD_MAX {
        -COORD_MAX
    } else if v > COORD_MAX {
        COORD_MAX
    } else {
        v
    }
}

/// Builds a rectangle with each coordinate forced into range.
pub fn rect_clamp(left: i64, top: i64, right: i64, bottom: i64) -> (r: LogicalRect)
    ensures
        r == rect_clamp_spec(left as int, top as int, right as int, bottom as int),
        r.wf(),
{
    LogicalRect {
        left: clamp_coord(left),
        top: clamp_coord(top),
        right: clamp_coord(right),
        bottom: clamp_coord(bottom),
    }
}

/// A point in logical space.
#[derive(Clone, Copy, PartialEq, Eq, Structural, Debug)]
pub struct LogicalPosition {
    pub x: i64,
    pub y: i64,
}

/// A size in logical space.
#[derive(Clone, Copy, PartialEq, Eq, Structural, Debug)]
pub struct LogicalSize {
    pub width: i64,
    pub height: i64,
}

/// An axis-aligned rectangle in logical space.
#[derive(Clone, Copy, PartialEq, Eq, Structural, Debug)]
pub struct LogicalRect {
    pub left: i64,
    pub top: i64,
    pub right: i64,
    pub bottom: i64,
}

impl LogicalPosition {
    pub open spec fn wf(self) -> bool {
        coord_ok(self.x as int) && coord_ok(self.y as int)
    }

    pub fn new(x: i64, y: i64) -> (r: Self)
        ensures
            r == (LogicalPosition { x, y }),
    {
        LogicalPosition { x, y }
    }
}

impl LogicalSize {
    pub open spec fn wf(self) -> bool {
        extent_ok(self.width as int) && extent_ok(self.height as int)
    }

    pub fn new(width: i64, height: i64) -> (r: Self)
        ensures
            r == (LogicalSize { width, height }),
    {
        LogicalSize { width, height }
    }

    pub fn zero() -> (r: Self)
        ensures
            r == (LogicalSize { width: 0i64, height: 0i64 }),
            r.wf(),
    {
        LogicalSize { width: 0, height: 0 }
    }
}

impl LogicalRect {
    pub open spec fn wf(self) -> bool {
        &&& coord_ok(self.left as int)
        &&& coord_ok(self.top as int)
        &&& coord_ok(self.right as int)
        &&& coord_ok(self.bottom as int)
    }

    pub fn new(left: i64, top: i64, right: i64, bottom: i64) -> (r: Self)
        ensures
            r == (LogicalRect { left, top, right, bottom }),
    {
        LogicalRect { left, top, right, bottom }
    }

    /// The rectangle spanning `position` and `position + size`.
    pub open spec fn from_position_size_spec(position: LogicalPosition, size: LogicalSize) -> LogicalRect {
        LogicalRect {
            left: position.x,
            top: position.y,
            right: (position.x + size.width) as i64,
            bottom: (position.y + size.height) as i64,
        }
    }

    pub fn from_position_size(position: LogicalPosition, size: LogicalSize) -> (r: Self)
        requires
            position.wf(),
            size.wf(),
        ensures
            r == Self::from_position_size_spec(position, size),
            r.left == position.x && r.top == position.y,
            r.right == position.x + size.width,
            r.bottom == position.y + size.height,
    {
        LogicalRect {
            left: position.x,
            top: position.y,
            right: position.x + size.width,
            bottom: position.y + size.height,
        }
    }

    pub fn from_positions(a: LogicalPosition, b: LogicalPosition) -> (r: Self)
        ensures
            r == (LogicalRect { left: a.x, top: a.y, right: b.x, bottom: b.y }),
    {
        LogicalRect { left: a.x, top: a.y, right: b.x, bottom: b.y }
    }

    pub fn left_top(&self) -> (r: LogicalPosition)
        ensures
            r == (LogicalPosition { x: self.left, y: self.top }),
    {
        LogicalPosition { x: self.left, y: self.top }
    }

    pub fn right_bottom(&self) -> (r: LogicalPosition)
        ensures
            r == (LogicalPosition { x: self.right, y: self.bottom }),
    {
        LogicalPosition { x: self.right, y: self.bottom }
    }

    pub open spec fn size_spec(self) -> LogicalSize {
        LogicalSize {
            width: (self.right - self.left) as i64,
            height: (self.bottom - self.top) as i64,
        }
    }

    pub fn size(&self) -> (r: LogicalSize)
        requires
            self.wf(),
        ensures
            r == self.size_spec(),
            r.width == self.right - self.left,
            r.height == self.bottom - self.top,
    {
        LogicalSize { width: self.right - self.left, height: self.bottom - self.top }
    }
}

} // verus!
