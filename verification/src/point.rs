//! Geometry primitives.

use vstd::prelude::*;

verus! {

/// A position on the screen, in pixels.
#[derive(Clone, Copy, Debug, PartialEq, Eq, Structural)]
pub struct Point {
    pub x: i32,
    pub y: i32,
}

/// The extent of a rectangle, in pixels.
#[derive(Clone, Copy, Debug, PartialEq, Eq, Structural)]
pub struct Size {
    pub w: i32,
    pub h: i32,
}

impl Size {
    /// A size is valid when neither dimension is negative.
    pub open spec fn is_valid(self) -> bool {
        self.w >= 0 && self.h >= 0
    }
}

/// Whether the rectangle at `origin` with extent `size` covers `p`. The
/// rectangle is half-open: its left and top edges belong to it, its right
/// and bottom edges do not.
pub open spec fn rect_contains(origin: Point, size: Size, p: Point) -> bool {
    &&& origin.x <= p.x < origin.x + size.w
    &&& origin.y <= p.y < origin.y + size.h
}

/// Decides `rect_contains`.
pub fn contains_point(origin: Point, size: Size, p: Point) -> (inside: bool)
    ensures
        inside == rect_contains(origin, size, p),
{
    let right: i64 = origin.x as i64 + size.w as i64;
    let bottom: i64 = origin.y as i64 + size.h as i64;
    origin.x <= p.x && (p.x as i64) < right && origin.y <= p.y && (p.y as i64) < bottom
}

} // verus!
