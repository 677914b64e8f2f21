//! Integer geometry: points, sizes and axis-aligned rectangles.
use vstd::prelude::*;

verus! {

/// A point on the integer plane.
#[derive(Clone, Copy, Debug, PartialEq, Eq, Structural)]
pub struct Point {
    pub x: i32,
    pub y: i32,
}

/// The extent of a rectangular area, in pixels.
#[derive(Clone, Copy, Debug, PartialEq, Eq, Structural)]
pub struct Size {
    pub width: u32,
    pub height: u32,
}

/// An axis-aligned rectangle given by its top left corner and its size.
#[derive(Clone, Copy, Debug, PartialEq, Eq, Structural)]
pub struct Rectangle {
    pub top_left: Point,
    pub size: Size,
}

impl Point {
    pub fn new(x: i32, y: i32) -> (r: Point)
        ensures
            r == (Point { x, y }),
    {
        Point { x, y }
    }

    pub fn zero() -> (r: Point)
        ensures
            r == (Point { x: 0, y: 0 }),
    {
        Point { x: 0, y: 0 }
    }
}

impl Size {
    pub fn new(width: u32, height: u32) -> (r: Size)
        ensures
            r == (Size { width, height }),
    {
        Size { width, height }
    }

    /// Number of pixels in an area of this size.
    pub open spec fn area(self) -> int {
        self.width * self.height
    }
}

impl Rectangle {
    pub fn new(top_left: Point, size: Size) -> (r: Rectangle)
        ensures
            r == (Rectangle { top_left, size }),
    {
        Rectangle { top_left, size }
    }

    /// Whether the point `(x, y)` lies inside the rectangle.
    pub open spec fn covers(self, x: int, y: int) -> bool {
        &&& self.top_left.x <= x < self.top_left.x + self.size.width
        &&& self.top_left.y <= y < self.top_left.y + self.size.height
    }

    /// Whether the rectangle holds no point at all.
    pub open spec fn is_empty(self) -> bool {
        self.size.width == 0 || self.size.height == 0
    }

    /// Returns the point at the center offset from the top left corner.
    pub fn center(&self) -> (r: Point)
        requires
            self.top_left.x + half_extent(self.size.width) <= i32::MAX,
            self.top_left.y + half_extent(self.size.height) <= i32::MAX,
        ensures
            r.x == self.top_left.x + half_extent(self.size.width),
            r.y == self.top_left.y + half_extent(self.size.height),
    {
        let offset = center_offset(self.size);
        Point { x: self.top_left.x + offset.width as i32, y: self.top_left.y + offset.height as i32 }
    }

    /// The rectangle of the given size whose center offset lands on `center`.
    pub fn with_center(center: Point, size: Size) -> (r: Rectangle)
        requires
            center.x - half_extent(size.width) >= i32::MIN,
            center.y - half_extent(size.height) >= i32::MIN,
        ensures
            r.size == size,
            r.top_left.x == center.x - half_extent(size.width),
            r.top_left.y == center.y - half_extent(size.height),
    {
        let offset = center_offset(size);
        Rectangle {
            top_left: Point {
                x: center.x - offset.width as i32,
                y: center.y - offset.height as i32,
            },
            size,
        }
    }
}

/// Offset from the first pixel of a run of `n` pixels to its middle pixel,
/// rounded towards the first one.
pub open spec fn half_extent(n: u32) -> int {
    if n == 0 {
        0
    } else {
        (n - 1) / 2
    }
}

/// Returns the center offset.
///
/// The center offset is the offset between the top left corner and the
/// center point of a rectangle with the given size.
pub fn center_offset(size: Size) -> (r: Size)
    ensures
        r.width == half_extent(size.width),
        r.height == half_extent(size.height),
        r.width <= i32::MAX,
        r.height <= i32::MAX,
{
    let width = if size.width == 0 { 0 } else { (size.width - 1) / 2 };
    let height = if size.height == 0 { 0 } else { (size.height - 1) / 2 };
    Size { width, height }
}

} // verus!
