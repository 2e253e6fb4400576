use vstd::prelude::*;

verus! {

/// A point in space whose coordinates are order keys: integers that compare
/// as the real coordinates they stand for compare. Boxes are formed by
/// comparisons alone, so this is all that they read of a coordinate.
#[derive(Clone, Copy, Debug, PartialEq, Eq, Structural)]
pub struct Point {
    pub x: i64,
    pub y: i64,
    pub z: i64,
}

impl Point {
    pub fn new(x: i64, y: i64, z: i64) -> (r: Point)
        ensures
            r == (Point { x, y, z }),
    {
        Point { x, y, z }
    }

    /// Coordinate on axis `a` (0 for x, 1 for y, 2 for z).
    pub open spec fn at(self, a: nat) -> i64 {
        if a == 0 {
            self.x
        } else if a == 1 {
            self.y
        } else {
            self.z
        }
    }

    pub fn coord(&self, a: usize) -> (r: i64)
        requires
            a < 3,
        ensures
            r == self.at(a as nat),
    {
        if a == 0 {
            self.x
        } else if a == 1 {
            self.y
        } else {
            self.z
        }
    }
}

pub open spec fn min_i64(a: i64, b: i64) -> i64 {
    if a <= b { a } else { b }
}

pub open spec fn max_i64(a: i64, b: i64) -> i64 {
    if a >= b { a } else { b }
}

fn min_of(a: i64, b: i64) -> (r: i64)
    ensures
        r == min_i64(a, b),
{
    if a <= b { a } else { b }
}

fn max_of(a: i64, b: i64) -> (r: i64)
    ensures
        r == max_i64(a, b),
{
    if a >= b { a } else { b }
}

pub open spec fn point_min(p: Point, q: Point) -> Point {
    Point { x: min_i64(p.x, q.x), y: min_i64(p.y, q.y), z: min_i64(p.z, q.z) }
}

pub open spec fn point_max(p: Point, q: Point) -> Point {
    Point { x: max_i64(p.x, q.x), y: max_i64(p.y, q.y), z: max_i64(p.z, q.z) }
}

/// An axis-aligned box, from its lower corner to its upper corner.
#[derive(Clone, Copy, Debug, PartialEq, Eq, Structural)]
pub struct Bounds {
    pub min: Point,
    pub max: Point,
}

impl Bounds {
    /// The lower corner lies below the upper one on every axis.
    pub open spec fn wf(self) -> bool {
        &&& self.min.x <= self.max.x
        &&& self.min.y <= self.max.y
        &&& self.min.z <= self.max.z
    }

    /// `self` holds `other` entirely.
    pub open spec fn contains(self, other: Bounds) -> bool {
        &&& self.min.x <= other.min.x && other.max.x <= self.max.x
        &&& self.min.y <= other.min.y && other.max.y <= self.max.y
        &&& self.min.z <= other.min.z && other.max.z <= self.max.z
    }

    pub open spec fn spec_union(b1: Bounds, b2: Bounds) -> Bounds {
        Bounds { min: point_min(b1.min, b2.min), max: point_max(b1.max, b2.max) }
    }

    /// The box with the two points as opposite corners, in either order.
    pub fn new(v1: Point, v2: Point) -> (r: Bounds)
        ensures
            r == (Bounds { min: point_min(v1, v2), max: point_max(v1, v2) }),
            r.wf(),
    {
        Bounds {
            min: Point { x: min_of(v1.x, v2.x), y: min_of(v1.y, v2.y), z: min_of(v1.z, v2.z) },
            max: Point { x: max_of(v1.x, v2.x), y: max_of(v1.y, v2.y), z: max_of(v1.z, v2.z) },
        }
    }

    /// The smallest box that holds both boxes.
    pub fn surrounding_box(b1: Bounds, b2: Bounds) -> (r: Bounds)
        ensures
            r == Bounds::spec_union(b1, b2),
            b1.wf() && b2.wf() ==> r.wf(),
    {
        Bounds {
            min: Point {
                x: min_of(b1.min.x, b2.min.x),
                y: min_of(b1.min.y, b2.min.y),
                z: min_of(b1.min.z, b2.min.z),
            },
            max: Point {
                x: max_of(b1.max.x, b2.max.x),
                y: max_of(b1.max.y, b2.max.y),
                z: max_of(b1.max.z, b2.max.z),
            },
        }
    }
}

/// The union of two boxes holds both, and on each axis it reaches no further
/// than one of them does: any box that holds both holds the union.
pub proof fn lemma_surrounding_box_least(b1: Bounds, b2: Bounds, c: Bounds)
    ensures
        Bounds::spec_union(b1, b2).contains(b1),
        Bounds::spec_union(b1, b2).contains(b2),
        Bounds::spec_union(b1, b2).min.x == b1.min.x || Bounds::spec_union(b1, b2).min.x == b2.min.x,
        Bounds::spec_union(b1, b2).min.y == b1.min.y || Bounds::spec_union(b1, b2).min.y == b2.min.y,
        Bounds::spec_union(b1, b2).min.z == b1.min.z || Bounds::spec_union(b1, b2).min.z == b2.min.z,
        Bounds::spec_union(b1, b2).max.x == b1.max.x || Bounds::spec_union(b1, b2).max.x == b2.max.x,
        Bounds::spec_union(b1, b2).max.y == b1.max.y || Bounds::spec_union(b1, b2).max.y == b2.max.y,
        Bounds::spec_union(b1, b2).max.z == b1.max.z || Bounds::spec_union(b1, b2).max.z == b2.max.z,
        c.contains(b1) && c.contains(b2) ==> c.contains(Bounds::spec_union(b1, b2)),
{
}

} // verus!
