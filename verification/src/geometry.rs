//! Points and vectors in whole world units.

use vstd::prelude::*;

verus! {

/// The largest magnitude of a coordinate, `2^24`. Every whole number up to it
/// has an exact single-precision form, so that a stored coordinate reads back
/// unchanged.
pub const COORD_MAX: i32 = 16_777_216;

/// Whether `v` is a coordinate of the world.
pub open spec fn coord_in_world(v: int) -> bool {
    -COORD_MAX <= v <= COORD_MAX
}

/// A position in the world.
#[derive(Clone, Copy, Debug, PartialEq, Eq, Structural)]
pub struct Point2 {
    pub x: i32,
    pub y: i32,
}

/// A displacement between two positions.
#[derive(Clone, Copy, Debug, PartialEq, Eq, Structural)]
pub struct Vector2 {
    pub x: i32,
    pub y: i32,
}

impl Point2 {
    /// Whether both coordinates lie in the world.
    pub open spec fn in_world(self) -> bool {
        coord_in_world(self.x as int) && coord_in_world(self.y as int)
    }

    /// The square of the distance between two points.
    pub open spec fn dist_sq(self, other: Point2) -> int {
        (self.x - other.x) * (self.x - other.x) + (self.y - other.y) * (self.y - other.y)
    }

    /// Whether `other` lies within `radius` of this point, the rim included.
    pub open spec fn spec_within(self, other: Point2, radius: u16) -> bool {
        self.dist_sq(other) <= radius * radius
    }

    /// The point with the given coordinates.
    pub fn new(x: i32, y: i32) -> (p: Point2)
        ensures
            p == (Point2 { x, y }),
    {
        Point2 { x, y }
    }

    /// Whether both coordinates lie in the world.
    #[verifier::when_used_as_spec(in_world)]
    pub fn is_in_world(self) -> (b: bool)
        ensures
            b == self.in_world(),
    {
        -COORD_MAX <= self.x && self.x <= COORD_MAX && -COORD_MAX <= self.y && self.y <= COORD_MAX
    }

    /// Whether `other` lies within `radius` of this point, the rim included.
    pub fn within(self, other: Point2, radius: u16) -> (b: bool)
        ensures
            b == self.spec_within(other, radius),
    {
        let dx: i64 = self.x as i64 - other.x as i64;
        let dy: i64 = self.y as i64 - other.y as i64;
        let r: i64 = radius as i64;
        // Beyond the radius along one axis the point is out of reach, and the
        // squares below could not be formed.
        if dx > r || dx < -r || dy > r || dy < -r {
            proof {
                lemma_square_exceeds(dx as int, r as int);
                lemma_square_exceeds(dy as int, r as int);
            }
            return false;
        }
        assert(dx * dx <= r * r && dy * dy <= r * r) by (nonlinear_arith)
            requires
                -r <= dx <= r,
                -r <= dy <= r,
        ;
        assert(r * r <= 4_294_836_225) by (nonlinear_arith)
            requires
                0 <= r <= 65535,
        ;
        proof {
            lemma_square_exceeds(dx as int, r as int);
            lemma_square_exceeds(dy as int, r as int);
        }
        dx * dx + dy * dy <= r * r
    }
}

impl Vector2 {
    /// The displacement with the given components.
    pub fn new(x: i32, y: i32) -> (v: Vector2)
        ensures
            v == (Vector2 { x, y }),
    {
        Vector2 { x, y }
    }
}

/// A number beyond `r` in magnitude has a square beyond that of `r`, and no
/// square is negative.
proof fn lemma_square_exceeds(d: int, r: int)
    requires
        0 <= r,
    ensures
        d * d >= 0,
        (d > r || d < -r) ==> d * d > r * r,
{
    assert(d * d >= 0) by (nonlinear_arith);
    assert((d > r || d < -r) ==> d * d > r * r) by (nonlinear_arith)
        requires
            0 <= r,
    ;
}

} // verus!
