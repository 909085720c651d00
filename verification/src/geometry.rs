//! Plain geometry shared by the parsers and the presentation rules.
use vstd::prelude::*;

verus! {

/// A rectangle in pixels: origin and size.
#[derive(Debug, Clone, Copy, PartialEq, Eq, Default)]
pub struct Rect {
    /// Left edge.
    pub x: u32,
    /// Top edge.
    pub y: u32,
    /// Width.
    pub width: u32,
    /// Height.
    pub height: u32,
}

/// A point in pixels.
#[derive(Debug, Clone, Copy, PartialEq, Eq, Default, Hash, Structural)]
pub struct Point {
    /// Horizontal position.
    pub x: u32,
    /// Vertical position.
    pub y: u32,
}

impl Point {
    /// The point `(x, y)`.
    pub fn new(x: u32, y: u32) -> (r: Point)
        ensures
            r == (Point { x, y }),
    {
        Point { x, y }
    }
}

/// A size in pixels.
#[derive(Debug, Clone, Copy, PartialEq, Eq, Default, Hash, Structural)]
pub struct Size {
    /// Width.
    pub width: u32,
    /// Height.
    pub height: u32,
}

impl Size {
    /// A `width` × `height` size.
    pub fn new(width: u32, height: u32) -> (r: Size)
        ensures
            r == (Size { width, height }),
    {
        Size { width, height }
    }
}

impl Rect {
    /// A rectangle at `(x, y)` of `width` × `height`.
    pub fn new(x: u32, y: u32, width: u32, height: u32) -> (r: Rect)
        ensures
            r == (Rect { x, y, width, height }),
    {
        Rect { x, y, width, height }
    }

    /// The rectangle with exclusive right/bottom edges `right`, `bottom`; `None` when inverted.
    pub fn from_ltrb(left: u32, top: u32, right: u32, bottom: u32) -> (r: Option<Rect>)
        ensures
            r == (if right >= left && bottom >= top {
                Some(Rect { x: left, y: top, width: (right - left) as u32, height: (bottom - top) as u32 })
            } else {
                None
            }),
    {
        if right >= left && bottom >= top {
            Some(Rect { x: left, y: top, width: right - left, height: bottom - top })
        } else {
            None
        }
    }
}

} // verus!
