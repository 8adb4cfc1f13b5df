use vstd::prelude::*;
use embedded_graphics::geometry::Point as EgPoint;
use embedded_graphics::geometry::Size as EgSize;
use embedded_graphics::primitives::Rectangle as EgRectangle;

verus! {

/// A point on the display, in pixels; `y` grows downwards.
#[derive(Debug, Clone, Copy, PartialEq, Eq, Structural)]
pub struct Point {
    pub x: i32,
    pub y: i32,
}

/// A width and a height, in pixels.
#[derive(Debug, Clone, Copy, PartialEq, Eq, Structural)]
pub struct Size {
    pub width: u32,
    pub height: u32,
}

/// An axis-aligned rectangle given by its top-left corner and its size.
#[derive(Debug, Clone, Copy, PartialEq, Eq, Structural)]
pub struct Rectangle {
    pub top_left: Point,
    pub size: Size,
}

impl Point {
    /// Builds a point.
    pub fn new(x: i32, y: i32) -> (p: Point)
        ensures
            p == (Point { x, y }),
    {
        Point { x, y }
    }
}

impl Size {
    /// Builds a size.
    pub fn new(width: u32, height: u32) -> (s: Size)
        ensures
            s == (Size { width, height }),
    {
        Size { width, height }
    }
}

impl Rectangle {
    /// Builds a rectangle from its top-left corner and its size.
    pub fn new(top_left: Point, size: Size) -> (r: Rectangle)
        ensures
            r == (Rectangle { top_left, size }),
    {
        Rectangle { top_left, size }
    }

    /// The rectangle has no pixel: its width or its height is zero.
    pub open spec fn is_zero_sized(self) -> bool {
        self.size.width == 0 || self.size.height == 0
    }

    /// The bottom-right corner, which a zero-sized rectangle does not have.
    pub open spec fn bottom_right(self) -> Option<Point> {
        if self.size.width > 0 && self.size.height > 0 {
            Some(
                Point {
                    x: (self.top_left.x + self.size.width - 1) as i32,
                    y: (self.top_left.y + self.size.height - 1) as i32,
                },
            )
        } else {
            None
        }
    }

    /// Computing the bottom-right corner does not overflow an `i32`.
    pub open spec fn corners_in_range(self) -> bool {
        self.size.width > 0 && self.size.height > 0 ==> {
            &&& self.size.width <= i32::MAX
            &&& self.size.height <= i32::MAX
            &&& self.top_left.x + self.size.width <= i32::MAX
            &&& self.top_left.y + self.size.height <= i32::MAX
        }
    }

    /// The point lies inside the rectangle.
    pub open spec fn contains(self, p: Point) -> bool {
        &&& self.top_left.x <= p.x < self.top_left.x + self.size.width
        &&& self.top_left.y <= p.y < self.top_left.y + self.size.height
    }

    /// The intersection of two rectangles, case by case as the drawing
    /// library computes it: the overlap of two non-empty rectangles, an
    /// empty rectangle whose corner lies in the other one, or the empty
    /// rectangle at the origin.
    pub open spec fn intersection(self, other: Rectangle) -> Rectangle {
        match (other.bottom_right(), self.bottom_right()) {
            (Some(obr), Some(sbr)) => {
                if ranges_overlap(self.top_left.x, sbr.x, other.top_left.x, obr.x)
                    && ranges_overlap(self.top_left.y, sbr.y, other.top_left.y, obr.y) {
                    with_corners(
                        Point {
                            x: max_i32(self.top_left.x, other.top_left.x),
                            y: max_i32(self.top_left.y, other.top_left.y),
                        },
                        Point { x: min_i32(sbr.x, obr.x), y: min_i32(sbr.y, obr.y) },
                    )
                } else {
                    zero_rectangle()
                }
            },
            (Some(_), None) => {
                if other.contains(self.top_left) {
                    self
                } else {
                    zero_rectangle()
                }
            },
            (None, Some(_)) => {
                if self.contains(other.top_left) {
                    other
                } else {
                    zero_rectangle()
                }
            },
            (None, None) => zero_rectangle(),
        }
    }
}

pub open spec fn max_i32(a: i32, b: i32) -> i32 {
    if a >= b {
        a
    } else {
        b
    }
}

pub open spec fn min_i32(a: i32, b: i32) -> i32 {
    if a <= b {
        a
    } else {
        b
    }
}

/// The rectangle at the origin with no pixel.
pub open spec fn zero_rectangle() -> Rectangle {
    Rectangle { top_left: Point { x: 0, y: 0 }, size: Size { width: 0, height: 0 } }
}

/// The closed ranges `[s1, e1]` and `[s2, e2]` overlap, tested as the
/// drawing library tests it.
pub open spec fn ranges_overlap(s1: i32, e1: i32, s2: i32, e2: i32) -> bool {
    ||| s2 <= s1 <= e2
    ||| s2 <= e1 <= e2
    ||| (s1 < s2 && e1 > e2)
}

/// The smallest rectangle with the two given corners.
pub open spec fn with_corners(c1: Point, c2: Point) -> Rectangle {
    Rectangle {
        top_left: Point { x: min_i32(c1.x, c2.x), y: min_i32(c1.y, c2.y) },
        size: Size { width: (abs_diff(c1.x, c2.x) + 1) as u32, height: (abs_diff(c1.y, c2.y) + 1) as u32 },
    }
}

pub open spec fn abs_diff(a: i32, b: i32) -> int {
    if a >= b {
        a - b
    } else {
        b - a
    }
}

/// Calls `Rectangle::contains` of embedded-graphics. Claimed: the result
/// is `Rectangle::contains` above, that is, the point is at least the
/// top-left corner and at most the bottom-right corner, and a zero-sized
/// rectangle contains nothing. Required: the bottom-right corner can be
/// computed without overflow, which the library checks in debug builds.
#[verifier::external_body]
pub(crate) fn rectangle_contains(r: &Rectangle, p: Point) -> (b: bool)
    requires
        r.corners_in_range(),
    ensures
        b == r.contains(p),
{
    let rect = EgRectangle::new(
        EgPoint::new(r.top_left.x, r.top_left.y),
        EgSize::new(r.size.width, r.size.height),
    );
    rect.contains(EgPoint::new(p.x, p.y))
}

/// Calls `Rectangle::intersection` of embedded-graphics. Claimed: the
/// result is `Rectangle::intersection` above, the library's own case
/// analysis (overlapping corners, a zero-sized rectangle inside the other
/// one, or the zero rectangle). Required: both bottom-right corners can be
/// computed without overflow.
#[verifier::external_body]
pub(crate) fn rectangle_intersection(a: &Rectangle, b: &Rectangle) -> (r: Rectangle)
    requires
        a.corners_in_range(),
        b.corners_in_range(),
    ensures
        r == a.intersection(*b),
{
    let ea = EgRectangle::new(EgPoint::new(a.top_left.x, a.top_left.y), EgSize::new(a.size.width, a.size.height));
    let eb = EgRectangle::new(EgPoint::new(b.top_left.x, b.top_left.y), EgSize::new(b.size.width, b.size.height));
    let i = ea.intersection(&eb);
    Rectangle {
        top_left: Point { x: i.top_left.x, y: i.top_left.y },
        size: Size { width: i.size.width, height: i.size.height },
    }
}

/// A point lies in the intersection of two rectangles exactly when it lies
/// in both.
pub proof fn law_intersection_contains(a: Rectangle, b: Rectangle, p: Point)
    requires
        a.corners_in_range(),
        b.corners_in_range(),
    ensures
        a.intersection(b).contains(p) <==> (a.contains(p) && b.contains(p)),
{
}

} // verus!
