//! Ray casting over the grid.

use vstd::prelude::*;
use crate::geometry::{Point2, Vector2};
use crate::grid::{Grid, OFF_GRID, TILE, snap_coord};
use crate::ray_course::{at_wall, lemma_half_is_at_wall};

verus! {

/// How a ray ended.
#[derive(Debug, Copy, Clone, PartialEq, Eq, Structural)]
pub enum RayCast {
    /// The ray reached its destination, which is the point.
    Full(Point2),
    /// The ray entered a solid cell at the point.
    Half(Point2),
    /// The ray left the grid at the point.
    OffEdge(Point2),
}

impl RayCast {
    /// Whether the ray reached its destination.
    pub fn full(self) -> (b: bool)
        ensures
            b == (self is Full),
    {
        match self {
            RayCast::Full(_) => true,
            _ => false,
        }
    }

    /// Whether the ray was stopped by a solid cell.
    pub fn half(self) -> (b: bool)
        ensures
            b == (self is Half),
    {
        match self {
            RayCast::Half(_) => true,
            _ => false,
        }
    }

    /// The point at which the ray ended.
    pub open spec fn point(self) -> Point2 {
        match self {
            RayCast::Full(p) => p,
            RayCast::Half(p) => p,
            RayCast::OffEdge(p) => p,
        }
    }

    /// The point at which the ray ended.
    pub fn into_point(self) -> (p: Point2)
        ensures
            p == self.point(),
    {
        match self {
            RayCast::Full(p) => p,
            RayCast::Half(p) => p,
            RayCast::OffEdge(p) => p,
        }
    }
}

/// The way a ray runs along one axis.
#[derive(Debug, Copy, Clone, PartialEq, Eq, Structural)]
pub enum Direction {
    Pos,
    Neg,
}

impl Direction {
    /// The direction of a component of the ray: a component of zero counts
    /// as positive.
    pub open spec fn of(n: int) -> Direction {
        if n < 0 {
            Direction::Neg
        } else {
            Direction::Pos
        }
    }

    /// The cell after cell `n` in this direction, if the index has one.
    pub open spec fn next_cell(self, n: int) -> Option<int> {
        match self {
            Direction::Pos => if n < OFF_GRID {
                Some(n + 1)
            } else {
                None
            },
            Direction::Neg => if n > 0 {
                Some(n - 1)
            } else {
                None
            },
        }
    }

    /// The boundary that a ray in this direction meets next in the cell that
    /// starts at coordinate `n`.
    pub open spec fn boundary(self, n: int) -> int {
        match self {
            Direction::Pos => n + TILE,
            Direction::Neg => n,
        }
    }

    /// The direction of a component of the ray.
    #[inline]
    pub fn new(n: i32) -> (d: Direction)
        ensures
            d == Direction::of(n as int),
    {
        if n < 0 {
            Direction::Neg
        } else {
            Direction::Pos
        }
    }

    /// The cell after cell `n` in this direction, or `None` at the end of
    /// the index.
    #[inline]
    pub fn on_u16(self, n: u16) -> (r: Option<u16>)
        ensures
            match self.next_cell(n as int) {
                Some(m) => r == Some(m as u16),
                None => r is None,
            },
    {
        match self {
            Direction::Pos => n.checked_add(1),
            Direction::Neg => n.checked_sub(1),
        }
    }

    /// The boundary that a ray in this direction meets next in the cell that
    /// starts at coordinate `n`.
    #[inline]
    pub fn on(self, n: i32) -> (r: i32)
        requires
            self is Pos ==> n <= i32::MAX - TILE,
        ensures
            r == self.boundary(n as int),
    {
        match self {
            Direction::Pos => n + TILE,
            Direction::Neg => n,
        }
    }
}

/// The magnitude of a number.
pub open spec fn magnitude(n: int) -> int {
    if n < 0 {
        -n
    } else {
        n
    }
}

/// Whether the ray meets its next boundary across x before the one across y.
/// `gap_x` and `gap_y` are the ways from the ray's origin to the two
/// boundaries. The time to a boundary is the way divided by the ray's
/// component; a component of zero never gets there.
pub open spec fn x_boundary_first(gap_x: int, gap_y: int, dist: Vector2) -> bool {
    dist.x != 0 && (dist.y == 0 || magnitude(gap_x) * magnitude(dist.y as int) < magnitude(gap_y)
        * magnitude(dist.x as int))
}

/// How far the ray has moved across when it has covered `gap` along: `gap /
/// along * across`, rounded toward zero. A ray that does not move along does
/// not move across.
pub open spec fn slide(gap: int, along: int, across: int) -> int {
    if along == 0 {
        0
    } else {
        let q = (magnitude(gap) * magnitude(across)) / magnitude(along);
        if across < 0 {
            -q
        } else {
            q
        }
    }
}

/// Whether the ray, having covered `gap` along an axis on which it covers
/// `along` in all, has reached or passed its destination.
pub open spec fn covers(gap: int, along: int) -> bool {
    magnitude(gap) >= magnitude(along)
}

/// Whether the destination of the ray is a point.
pub open spec fn ray_fits(from: Point2, dist: Vector2) -> bool {
    &&& i32::MIN <= from.x + dist.x <= i32::MAX
    &&& i32::MIN <= from.y + dist.y <= i32::MAX
}

/// Checks that the destination of the ray is a point.
pub fn ray_is_fit(from: Point2, dist: Vector2) -> (b: bool)
    ensures
        b == ray_fits(from, dist),
{
    from.x.checked_add(dist.x).is_some() && from.y.checked_add(dist.y).is_some()
}

/// A bound on the cells that a ray can still enter from cell `(gx, gy)`.
pub open spec fn cells_ahead(dist: Vector2, gx: int, gy: int) -> nat {
    cells_ahead_along(dist.x as int, gx) + cells_ahead_along(dist.y as int, gy)
}

/// A bound on the cells that lie ahead of cell `g` along one axis.
pub open spec fn cells_ahead_along(d: int, g: int) -> nat {
    let ahead = if d < 0 {
        g + 1
    } else {
        OFF_GRID + 1 - g
    };
    if ahead < 0 {
        0
    } else {
        ahead as nat
    }
}

/// Whether the origin of a ray lies on the grid and, along one axis, behind
/// the boundary that the ray meets next in cell `g`: `origin` is the
/// origin's coordinate and `d` the ray's component.
pub open spec fn origin_behind(origin: int, d: int, g: int) -> bool {
    &&& 0 <= origin < OFF_GRID * TILE
    &&& 0 <= g < OFF_GRID
    &&& d >= 0 ==> origin < g * TILE + TILE
    &&& d < 0 ==> g * TILE <= origin
}

impl Grid {
    /// The walk of a ray that stands at `cur` in cell `(gx, gy)`; `reached`
    /// says whether it has reached or passed its destination.
    ///
    /// The ray ends at its destination once it is bounded and has reached it,
    /// at `cur` where the cell is missing or solid, and otherwise moves on to
    /// where it meets the nearer of the cell's two boundaries ahead, into the
    /// cell behind that boundary. Where it meets a boundary is reckoned from
    /// its origin, rounded toward the origin.
    pub open spec fn ray_walk(
        self,
        from: Point2,
        dist: Vector2,
        finite: bool,
        cur: Point2,
        reached: bool,
        gx: int,
        gy: int,
    ) -> RayCast
        decreases cells_ahead(dist, gx, gy),
    {
        let dest = Point2 { x: (from.x + dist.x) as i32, y: (from.y + dist.y) as i32 };
        if finite && reached {
            RayCast::Full(dest)
        } else {
            match self.spec_get(gx, gy) {
                None => RayCast::OffEdge(cur),
                Some(m) => if m.spec_solid() {
                    RayCast::Half(cur)
                } else {
                    let edge_x = Direction::of(dist.x as int).boundary(gx * TILE);
                    let edge_y = Direction::of(dist.y as int).boundary(gy * TILE);
                    let gap_x = edge_x - from.x;
                    let gap_y = edge_y - from.y;
                    if x_boundary_first(gap_x, gap_y, dist) {
                        let next = Point2 {
                            x: edge_x as i32,
                            y: (from.y + slide(gap_x, dist.x as int, dist.y as int)) as i32,
                        };
                        match Direction::of(dist.x as int).next_cell(gx) {
                            None => RayCast::OffEdge(next),
                            Some(n) => self.ray_walk(
                                from,
                                dist,
                                finite,
                                next,
                                covers(gap_x, dist.x as int),
                                n,
                                gy,
                            ),
                        }
                    } else {
                        let next = Point2 {
                            x: (from.x + slide(gap_y, dist.y as int, dist.x as int)) as i32,
                            y: edge_y as i32,
                        };
                        match Direction::of(dist.y as int).next_cell(gy) {
                            None => RayCast::OffEdge(next),
                            Some(n) => self.ray_walk(
                                from,
                                dist,
                                finite,
                                next,
                                covers(gap_y, dist.y as int),
                                gx,
                                n,
                            ),
                        }
                    }
                },
            }
        }
    }

    /// Where a ray from `from` along `dist` ends. A bounded ray (`finite`)
    /// ends at the latest at `from + dist`, and a ray without length is there
    /// from the start; an unbounded one runs on until a solid cell or the
    /// edge of the grid stops it.
    pub open spec fn spec_ray_cast(self, from: Point2, dist: Vector2, finite: bool) -> RayCast {
        self.ray_walk(
            from,
            dist,
            finite,
            from,
            dist.x == 0 && dist.y == 0,
            snap_coord(from.x as int) as int,
            snap_coord(from.y as int) as int,
        )
    }
}

/// A ray ends at its destination only if it is bounded, and then the point
/// at which it ends is the destination; an unbounded ray ends in a solid
/// cell or off the grid.
pub proof fn lemma_ray_full(
    grid: Grid,
    from: Point2,
    dist: Vector2,
    finite: bool,
    cur: Point2,
    reached: bool,
    gx: int,
    gy: int,
)
    ensures
        grid.ray_walk(from, dist, finite, cur, reached, gx, gy) is Full ==> finite
            && grid.ray_walk(from, dist, finite, cur, reached, gx, gy).point() == (Point2 {
            x: (from.x + dist.x) as i32,
            y: (from.y + dist.y) as i32,
        }),
    decreases cells_ahead(dist, gx, gy),
{
    if !(finite && reached) {
        match grid.spec_get(gx, gy) {
            None => {},
            Some(m) => if !m.spec_solid() {
                let edge_x = Direction::of(dist.x as int).boundary(gx * TILE);
                let edge_y = Direction::of(dist.y as int).boundary(gy * TILE);
                let gap_x = edge_x - from.x;
                let gap_y = edge_y - from.y;
                if x_boundary_first(gap_x, gap_y, dist) {
                    let next = Point2 {
                        x: edge_x as i32,
                        y: (from.y + slide(gap_x, dist.x as int, dist.y as int)) as i32,
                    };
                    match Direction::of(dist.x as int).next_cell(gx) {
                        None => {},
                        Some(n) => lemma_ray_full(
                            grid,
                            from,
                            dist,
                            finite,
                            next,
                            covers(gap_x, dist.x as int),
                            n,
                            gy,
                        ),
                    }
                } else {
                    let next = Point2 {
                        x: (from.x + slide(gap_y, dist.y as int, dist.x as int)) as i32,
                        y: edge_y as i32,
                    };
                    match Direction::of(dist.y as int).next_cell(gy) {
                        None => {},
                        Some(n) => lemma_ray_full(
                            grid,
                            from,
                            dist,
                            finite,
                            next,
                            covers(gap_y, dist.y as int),
                            gx,
                            n,
                        ),
                    }
                }
            },
        }
    }
}

/// The magnitude of a number, as an unsigned one.
fn magnitude_of(n: i32) -> (m: u64)
    ensures
        m == magnitude(n as int),
{
    if n < 0 {
        (-(n as i64)) as u64
    } else {
        n as u64
    }
}

/// The farthest that a boundary of the grid lies from a point on the grid.
pub const GRID_SPAN: i32 = 2_097_152;

/// Whether the ray meets its next boundary across x before the one across y.
fn x_first(gap_x: i32, gap_y: i32, dist: Vector2) -> (b: bool)
    requires
        -GRID_SPAN <= gap_x <= GRID_SPAN,
        -GRID_SPAN <= gap_y <= GRID_SPAN,
    ensures
        b == x_boundary_first(gap_x as int, gap_y as int, dist),
{
    if dist.x == 0 {
        return false;
    }
    if dist.y == 0 {
        return true;
    }
    let gx = magnitude_of(gap_x);
    let gy = magnitude_of(gap_y);
    let dx = magnitude_of(dist.x);
    let dy = magnitude_of(dist.y);
    proof {
        lemma_product_bound(gx as int, dy as int, GRID_SPAN as int, 0x8000_0000);
        lemma_product_bound(gy as int, dx as int, GRID_SPAN as int, 0x8000_0000);
    }
    gx * dy < gy * dx
}

/// How far the ray has moved across when it has covered `gap` along.
fn slide_by(gap: i32, along: i32, across: i32) -> (r: i64)
    requires
        -GRID_SPAN <= gap <= GRID_SPAN,
    ensures
        r == slide(gap as int, along as int, across as int),
{
    if along == 0 {
        return 0;
    }
    let g = magnitude_of(gap);
    let a = magnitude_of(along);
    let c = magnitude_of(across);
    proof {
        lemma_product_bound(g as int, c as int, GRID_SPAN as int, 0x8000_0000);
    }
    let q = (g * c) / a;
    if across < 0 {
        -(q as i64)
    } else {
        q as i64
    }
}

/// Whether the ray has reached or passed its destination when it has covered
/// `gap` along.
fn has_covered(gap: i32, along: i32) -> (b: bool)
    ensures
        b == covers(gap as int, along as int),
{
    magnitude_of(gap) >= magnitude_of(along)
}

/// A product is bounded by the product of the bounds of its factors.
pub proof fn lemma_product_bound(a: int, b: int, bound_a: int, bound_b: int)
    requires
        -bound_a <= a <= bound_a,
        -bound_b <= b <= bound_b,
    ensures
        -(bound_a * bound_b) <= a * b <= bound_a * bound_b,
{
    assert(-(bound_a * bound_b) <= a * b <= bound_a * bound_b) by (nonlinear_arith)
        requires
            -bound_a <= a <= bound_a,
            -bound_b <= b <= bound_b,
    ;
}

/// The sideways move of a step is shorter than the gap to the boundary that
/// the ray did not take, and points the way of the ray.
pub proof fn lemma_slide_bounds(gap: int, other_gap: int, along: int, across: int)
    requires
        along != 0,
    ensures
        across >= 0 ==> slide(gap, along, across) >= 0,
        across <= 0 ==> slide(gap, along, across) <= 0,
        magnitude(gap) * magnitude(across) < magnitude(other_gap) * magnitude(along)
            ==> magnitude(slide(gap, along, across)) < magnitude(other_gap),
        magnitude(gap) * magnitude(across) <= magnitude(other_gap) * magnitude(along)
            ==> magnitude(slide(gap, along, across)) <= magnitude(other_gap),
{
    let n = magnitude(gap) * magnitude(across);
    let a = magnitude(along);
    let m = magnitude(other_gap);
    let q = n / a;
    assert(0 <= n) by (nonlinear_arith)
        requires
            n == magnitude(gap) * magnitude(across),
            magnitude(gap) >= 0,
            magnitude(across) >= 0,
    ;
    vstd::arithmetic::div_mod::lemma_fundamental_div_mod(n, a);
    vstd::arithmetic::div_mod::lemma_div_pos_is_pos(n, a);
    assert(a * q <= n);
    if n < m * a {
        assert(q < m) by (nonlinear_arith)
            requires
                a * q <= n,
                n < m * a,
                a > 0,
        ;
    }
    if n <= m * a {
        assert(q <= m) by (nonlinear_arith)
            requires
                a * q <= n,
                n <= m * a,
                a > 0,
        ;
    }
    if across == 0 {
        assert(n == 0) by (nonlinear_arith)
            requires
                n == magnitude(gap) * 0,
        ;
    }
}

impl Grid {
    /// Casts a ray from `from` along `dist` and says where it ends. A bounded
    /// ray (`finite`) ends at the latest at `from + dist`.
    pub fn ray_cast(&self, from: Point2, dist: Vector2, finite: bool) -> (r: RayCast)
        requires
            self.wf(),
            ray_fits(from, dist),
        ensures
            r == self.spec_ray_cast(from, dist, finite),
            r is Full ==> finite && r.point() == (Point2 {
                x: (from.x + dist.x) as i32,
                y: (from.y + dist.y) as i32,
            }),
            r is Half ==> at_wall(*self, r.point()),
    {
        proof {
            lemma_ray_full(
                *self,
                from,
                dist,
                finite,
                from,
                dist.x == 0 && dist.y == 0,
                snap_coord(from.x as int) as int,
                snap_coord(from.y as int) as int,
            );
            lemma_half_is_at_wall(*self, from, dist, finite);
        }
        let dest = Point2::new(from.x + dist.x, from.y + dist.y);
        let mut cur = from;
        let mut reached = dist.x == 0 && dist.y == 0;
        let (mut gx, mut gy) = Self::snap(cur);
        let x_dir = Direction::new(dist.x);
        let y_dir = Direction::new(dist.y);
        loop
            invariant
                self.wf(),
                ray_fits(from, dist),
                dest == (Point2 { x: (from.x + dist.x) as i32, y: (from.y + dist.y) as i32 }),
                x_dir == Direction::of(dist.x as int),
                y_dir == Direction::of(dist.y as int),
                gx == OFF_GRID || gy == OFF_GRID || (origin_behind(
                    from.x as int,
                    dist.x as int,
                    gx as int,
                ) && origin_behind(from.y as int, dist.y as int, gy as int)),
                self.ray_walk(from, dist, finite, cur, reached, gx as int, gy as int)
                    == self.spec_ray_cast(from, dist, finite),
                self.spec_ray_cast(from, dist, finite) is Half ==> at_wall(
                    *self,
                    self.spec_ray_cast(from, dist, finite).point(),
                ),
            decreases cells_ahead(dist, gx as int, gy as int),
        {
            if finite && reached {
                return RayCast::Full(dest);
            }
            let mat = match self.get(gx, gy) {
                None => {
                    return RayCast::OffEdge(cur);
                },
                Some(m) => m,
            };
            if mat.solid() {
                return RayCast::Half(cur);
            }
            proof {
                self.lemma_cells();
                assert(self.spec_get(gx as int, gy as int).is_some());
            }
            let edge_x = x_dir.on(gx as i32 * TILE);
            let edge_y = y_dir.on(gy as i32 * TILE);
            let gap_x = edge_x - from.x;
            let gap_y = edge_y - from.y;
            if x_first(gap_x, gap_y, dist) {
                let s = slide_by(gap_x, dist.x, dist.y);
                proof {
                    lemma_slide_bounds(gap_x as int, gap_y as int, dist.x as int, dist.y as int);
                }
                let next = Point2::new(edge_x, (from.y as i64 + s) as i32);
                match x_dir.on_u16(gx) {
                    None => {
                        return RayCast::OffEdge(next);
                    },
                    Some(n) => {
                        cur = next;
                        reached = has_covered(gap_x, dist.x);
                        gx = n;
                    },
                }
            } else {
                let s = slide_by(gap_y, dist.y, dist.x);
                proof {
                    if dist.y != 0 {
                        lemma_slide_bounds(
                            gap_y as int,
                            gap_x as int,
                            dist.y as int,
                            dist.x as int,
                        );
                        if dist.x == 0 {
                            assert(magnitude(gap_y as int) * magnitude(dist.x as int) == 0)
                                by (nonlinear_arith)
                                requires
                                    magnitude(dist.x as int) == 0,
                            ;
                            assert(magnitude(gap_x as int) * magnitude(dist.y as int) >= 0)
                                by (nonlinear_arith)
                                requires
                                    magnitude(gap_x as int) >= 0,
                                    magnitude(dist.y as int) >= 0,
                            ;
                        }
                    }
                }
                let next = Point2::new((from.x as i64 + s) as i32, edge_y);
                match y_dir.on_u16(gy) {
                    None => {
                        return RayCast::OffEdge(next);
                    },
                    Some(n) => {
                        cur = next;
                        reached = has_covered(gap_y, dist.y);
                        gy = n;
                    },
                }
            }
        }
    }
}

} // verus!
