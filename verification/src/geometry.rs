//! Screen-style 2-D value types: points, vectors and rectangles with
//! wrapping 16-bit coordinates. The engine treats them as plain immutable
//! values; the only operations are offsetting a point by a vector and
//! recovering the vector between two points.

use vstd::prelude::*;

verus! {

/// A 2-D displacement with wrapping 16-bit components.
#[derive(Clone, Copy, Debug, PartialEq, Eq, Structural)]
pub struct Vector {
    pub x: i16,
    pub y: i16,
}

/// A 2-D position with wrapping 16-bit components.
#[derive(Clone, Copy, Debug)]
pub struct Point {
    pub x: i16,
    pub y: i16,
}

impl PartialEq for Point {
    fn eq(&self, other: &Point) -> (r: bool) {
        self.x == other.x && self.y == other.y
    }
}

impl vstd::std_specs::cmp::PartialEqSpecImpl for Point {
    open spec fn obeys_eq_spec() -> bool {
        true
    }

    open spec fn eq_spec(&self, other: &Point) -> bool {
        self.x == other.x && self.y == other.y
    }
}

/// An axis-aligned rectangle: top-left corner plus extent.
#[derive(Clone, Copy, Debug)]
pub struct Rect {
    pub tl: Point,
    pub size: Vector,
}

/// The point `p` moved by `d`, wrapping on overflow.
pub open spec fn spec_offset(p: Point, d: Vector) -> Point {
    Point { x: p.x.wrapping_add(d.x), y: p.y.wrapping_add(d.y) }
}

/// The displacement that carries `other` onto `p`, wrapping on overflow.
pub open spec fn spec_offset_from(p: Point, other: Point) -> Vector {
    Vector { x: p.x.wrapping_sub(other.x), y: p.y.wrapping_sub(other.y) }
}

impl Point {
    /// Moves the point by a displacement, wrapping on overflow.
    pub fn offset(self, d: Vector) -> (r: Point)
        ensures
            r == spec_offset(self, d),
    {
        Point { x: self.x.wrapping_add(d.x), y: self.y.wrapping_add(d.y) }
    }

    /// The displacement that carries `other` onto `self`, wrapping on overflow.
    pub fn offset_from(self, other: Point) -> (r: Vector)
        ensures
            r == spec_offset_from(self, other),
    {
        Vector { x: self.x.wrapping_sub(other.x), y: self.y.wrapping_sub(other.y) }
    }
}

} // verus!
