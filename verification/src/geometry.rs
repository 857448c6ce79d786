//! Plain geometric value types: points, sizes and axis-aligned rectangles.

use vstd::prelude::*;

verus! {

/// A point with signed integer coordinates.
#[derive(Clone, Copy, Debug, PartialEq, Eq, Structural)]
pub struct Point {
    pub x: i32,
    pub y: i32,
}

/// A size with non-negative integer magnitudes.
#[derive(Clone, Copy, Debug, PartialEq, Eq, Structural)]
pub struct Size {
    pub width: u32,
    pub height: u32,
}

/// An axis-aligned rectangle: a top-left origin plus a size. Width and
/// height extend toward increasing x and y.
#[derive(Clone, Copy, Debug, PartialEq, Eq, Structural)]
pub struct Rectangle {
    pub top_left: Point,
    pub size: Size,
}

impl Point {
    pub fn new(x: i32, y: i32) -> (p: Point)
        ensures
            p == (Point { x, y }),
    {
        Point { x, y }
    }

    pub fn zero() -> (p: Point)
        ensures
            p == (Point { x: 0, y: 0 }),
    {
        Point { x: 0, y: 0 }
    }
}

impl Size {
    pub fn new(width: u32, height: u32) -> (s: Size)
        ensures
            s == (Size { width, height }),
    {
        Size { width, height }
    }

    pub fn zero() -> (s: Size)
        ensures
            s == (Size { width: 0, height: 0 }),
    {
        Size { width: 0, height: 0 }
    }
}

impl Rectangle {
    pub fn new(top_left: Point, size: Size) -> (r: Rectangle)
        ensures
            r == (Rectangle { top_left, size }),
    {
        Rectangle { top_left, size }
    }
}

/// Whether the grid cell `k` (a pair of x and y coordinates) lies inside the
/// rectangle with origin `(x, y)` and extent `(w, h)`.
pub open spec fn cell_in_rect(x: int, y: int, w: int, h: int, k: (int, int)) -> bool {
    x <= k.0 < x + w && y <= k.1 < y + h
}

/// Whether the grid cell `k` lies inside `r`.
pub open spec fn rect_contains(r: Rectangle, k: (int, int)) -> bool {
    cell_in_rect(
        r.top_left.x as int,
        r.top_left.y as int,
        r.size.width as int,
        r.size.height as int,
        k,
    )
}

/// Whether the grid cell `k` lies on a surface of `w` columns and `h` rows.
pub open spec fn in_grid(w: int, h: int, k: (int, int)) -> bool {
    0 <= k.0 < w && 0 <= k.1 < h
}

} // verus!
