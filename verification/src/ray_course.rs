//! Where the walk of a ray takes it: the cursor stays in the cell that the
//! walk has come to, so that a ray that is stopped is stopped at a solid
//! cell.

use vstd::prelude::*;
use vstd::arithmetic::div_mod::{lemma_div_is_ordered, lemma_div_multiples_vanish};
use crate::geometry::{Point2, Vector2};
use crate::grid::{Grid, OFF_GRID, TILE, snap_coord};
use crate::raycast::{
    Direction,
    cells_ahead,
    covers,
    lemma_slide_bounds,
    magnitude,
    origin_behind,
    slide,
    x_boundary_first,
};

verus! {

/// Whether the point lies in cell `(gx, gy)`, its rim included.
pub open spec fn in_cell(p: Point2, gx: int, gy: int) -> bool {
    &&& gx * TILE <= p.x <= gx * TILE + TILE
    &&& gy * TILE <= p.y <= gy * TILE + TILE
}

/// Whether the point lies in a solid cell of the grid, or on the rim of one.
pub open spec fn at_wall(grid: Grid, p: Point2) -> bool {
    exists|x: int, y: int| #[trigger]
        in_cell(p, x, y) && grid.spec_get(x, y).is_some() && grid.spec_is_solid(x, y)
}

/// How far along an axis a ray has come at the least when it is in cell
/// `g`: the way from its origin to the boundary through which it came into
/// the cell, and nothing where it started in the cell.
pub open spec fn entered(origin: int, d: int, g: int) -> int {
    let way = if d >= 0 {
        g * TILE - origin
    } else {
        origin - (g * TILE + TILE)
    };
    if way < 0 {
        0
    } else {
        way
    }
}

/// The way from the origin of a ray to the boundary that it meets next in
/// cell `g`, along one axis.
pub open spec fn gap_ahead(origin: int, d: int, g: int) -> int {
    Direction::of(d).boundary(g * TILE) - origin
}

/// Whether cell `(gx, gy)` lies on the course of the ray: the ray comes into
/// the cell's column before it leaves the cell's row, and into the row
/// before it leaves the column.
pub open spec fn on_course(from: Point2, dist: Vector2, gx: int, gy: int) -> bool {
    let gap_x = magnitude(gap_ahead(from.x as int, dist.x as int, gx));
    let gap_y = magnitude(gap_ahead(from.y as int, dist.y as int, gy));
    let in_x = entered(from.x as int, dist.x as int, gx);
    let in_y = entered(from.y as int, dist.y as int, gy);
    &&& origin_behind(from.x as int, dist.x as int, gx)
    &&& origin_behind(from.y as int, dist.y as int, gy)
    &&& in_y * magnitude(dist.x as int) <= gap_x * magnitude(dist.y as int)
    &&& in_x * magnitude(dist.y as int) <= gap_y * magnitude(dist.x as int)
    &&& dist.x == 0 && dist.y == 0 ==> in_x == 0
}

/// A quotient is at least a whole number whose multiple the dividend
/// reaches.
proof fn lemma_quotient_reaches(n: int, a: int, e: int)
    requires
        0 < a,
        e * a <= n,
    ensures
        e <= n / a,
{
    lemma_div_is_ordered(e * a, n, a);
    lemma_div_multiples_vanish(e, a);
    assert(a * e == e * a) by (nonlinear_arith);
}

/// When the ray meets a boundary along one axis, it stands, across, in the
/// cell that it has come to: it has come into the cell, and has not yet
/// left it.
proof fn lemma_across_stays(origin: int, d: int, g: int, gap_along: int, along: int, strict: bool)
    requires
        origin_behind(origin, d, g),
        along != 0,
        entered(origin, d, g) * magnitude(along) <= magnitude(gap_along) * magnitude(d),
        strict ==> magnitude(gap_along) * magnitude(d) < magnitude(gap_ahead(origin, d, g))
            * magnitude(along),
        !strict ==> magnitude(gap_along) * magnitude(d) <= magnitude(gap_ahead(origin, d, g))
            * magnitude(along),
    ensures
        g * TILE <= origin + slide(gap_along, along, d) <= g * TILE + TILE,
        strict ==> origin + slide(gap_along, along, d) != Direction::of(d).boundary(g * TILE),
{
    let n = magnitude(gap_along) * magnitude(d);
    let a = magnitude(along);
    lemma_slide_bounds(gap_along, gap_ahead(origin, d, g), along, d);
    lemma_quotient_reaches(n, a, entered(origin, d, g));
}

/// The cell behind the boundary that the ray meets first lies on the ray's
/// course, if the cell before the boundary did.
proof fn lemma_course_goes_on(from: Point2, dist: Vector2, gx: int, gy: int)
    requires
        on_course(from, dist, gx, gy),
    ensures
        ({
            let gap_x = gap_ahead(from.x as int, dist.x as int, gx);
            let gap_y = gap_ahead(from.y as int, dist.y as int, gy);
            if x_boundary_first(gap_x, gap_y, dist) {
                match Direction::of(dist.x as int).next_cell(gx) {
                    Some(n) => n < OFF_GRID ==> on_course(from, dist, n, gy),
                    None => true,
                }
            } else {
                match Direction::of(dist.y as int).next_cell(gy) {
                    Some(n) => n < OFF_GRID ==> on_course(from, dist, gx, n),
                    None => true,
                }
            }
        }),
{
    let dx = magnitude(dist.x as int);
    let dy = magnitude(dist.y as int);
    let gap_x = magnitude(gap_ahead(from.x as int, dist.x as int, gx));
    let gap_y = magnitude(gap_ahead(from.y as int, dist.y as int, gy));
    let in_x = entered(from.x as int, dist.x as int, gx);
    let in_y = entered(from.y as int, dist.y as int, gy);
    if x_boundary_first(gap_ahead(from.x as int, dist.x as int, gx), gap_ahead(
        from.y as int,
        dist.y as int,
        gy,
    ), dist) {
        match Direction::of(dist.x as int).next_cell(gx) {
            Some(n) => if n < OFF_GRID {
                let gap_n = magnitude(gap_ahead(from.x as int, dist.x as int, n));
                let in_n = entered(from.x as int, dist.x as int, n);
                assert(gap_n == gap_x + TILE);
                assert(in_n == gap_x);
                assert(in_y * dx <= gap_n * dy) by (nonlinear_arith)
                    requires
                        in_y * dx <= gap_x * dy,
                        gap_n == gap_x + TILE,
                        dy >= 0,
                ;
                if dist.y == 0 {
                    assert(in_n * dy == 0) by (nonlinear_arith)
                        requires
                            dy == 0,
                    ;
                    assert(gap_y * dx >= 0) by (nonlinear_arith)
                        requires
                            gap_y >= 0,
                            dx >= 0,
                    ;
                }
            },
            None => {},
        }
    } else {
        match Direction::of(dist.y as int).next_cell(gy) {
            Some(n) => if n < OFF_GRID {
                let gap_n = magnitude(gap_ahead(from.y as int, dist.y as int, n));
                let in_n = entered(from.y as int, dist.y as int, n);
                assert(gap_n == gap_y + TILE);
                assert(in_n == gap_y);
                assert(in_x * dy <= gap_n * dx) by (nonlinear_arith)
                    requires
                        in_x * dy <= gap_y * dx,
                        gap_n == gap_y + TILE,
                        dx >= 0,
                ;
                if dist.x == 0 {
                    assert(in_n * dx == 0) by (nonlinear_arith)
                        requires
                            dx == 0,
                    ;
                    assert(gap_x * dy >= 0) by (nonlinear_arith)
                        requires
                            gap_x >= 0,
                            dy >= 0,
                    ;
                }
            },
            None => {},
        }
    }
}

/// The walk of a ray keeps its cursor in the cell that it has come to, so a
/// walk that ends in a solid cell ends at a point of that cell.
pub proof fn lemma_walk_stops_at_wall(
    grid: Grid,
    from: Point2,
    dist: Vector2,
    finite: bool,
    cur: Point2,
    reached: bool,
    gx: int,
    gy: int,
)
    requires
        grid.wf(),
        0 <= gx <= OFF_GRID,
        0 <= gy <= OFF_GRID,
        gx == OFF_GRID || gy == OFF_GRID || (on_course(from, dist, gx, gy) && in_cell(cur, gx, gy)),
    ensures
        grid.ray_walk(from, dist, finite, cur, reached, gx, gy) is Half ==> at_wall(
            grid,
            grid.ray_walk(from, dist, finite, cur, reached, gx, gy).point(),
        ),
    decreases cells_ahead(dist, gx, gy),
{
    grid.lemma_cells();
    if !(finite && reached) {
        match grid.spec_get(gx, gy) {
            None => {},
            Some(m) => if m.spec_solid() {
                assert(in_cell(cur, gx, gy) && grid.spec_get(gx, gy).is_some()
                    && grid.spec_is_solid(gx, gy));
            } else {
                let edge_x = Direction::of(dist.x as int).boundary(gx * TILE);
                let edge_y = Direction::of(dist.y as int).boundary(gy * TILE);
                let gap_x = edge_x - from.x;
                let gap_y = edge_y - from.y;
                lemma_course_goes_on(from, dist, gx, gy);
                if x_boundary_first(gap_x, gap_y, dist) {
                    let next = Point2 {
                        x: edge_x as i32,
                        y: (from.y + slide(gap_x, dist.x as int, dist.y as int)) as i32,
                    };
                    if dist.y == 0 {
                        assert(magnitude(gap_x) * magnitude(dist.y as int) == 0)
                            by (nonlinear_arith)
                            requires
                                magnitude(dist.y as int) == 0,
                        ;
                        assert(magnitude(gap_y) * magnitude(dist.x as int) > 0)
                            by (nonlinear_arith)
                            requires
                                magnitude(gap_y) > 0,
                                magnitude(dist.x as int) > 0,
                        ;
                    }
                    lemma_across_stays(
                        from.y as int,
                        dist.y as int,
                        gy,
                        gap_x,
                        dist.x as int,
                        true,
                    );
                    match Direction::of(dist.x as int).next_cell(gx) {
                        None => {},
                        Some(n) => {
                            assert(n < OFF_GRID ==> in_cell(next, n, gy));
                            lemma_walk_stops_at_wall(
                                grid,
                                from,
                                dist,
                                finite,
                                next,
                                covers(gap_x, dist.x as int),
                                n,
                                gy,
                            );
                        },
                    }
                } else {
                    let next = Point2 {
                        x: (from.x + slide(gap_y, dist.y as int, dist.x as int)) as i32,
                        y: edge_y as i32,
                    };
                    if dist.y != 0 {
                        if dist.x == 0 {
                            assert(magnitude(gap_y) * magnitude(dist.x as int) == 0)
                                by (nonlinear_arith)
                                requires
                                    magnitude(dist.x as int) == 0,
                            ;
                            assert(magnitude(gap_x) * magnitude(dist.y as int) >= 0)
                                by (nonlinear_arith)
                                requires
                                    magnitude(gap_x) >= 0,
                                    magnitude(dist.y as int) >= 0,
                            ;
                        }
                        lemma_across_stays(
                            from.x as int,
                            dist.x as int,
                            gx,
                            gap_y,
                            dist.y as int,
                            false,
                        );
                    }
                    match Direction::of(dist.y as int).next_cell(gy) {
                        None => {},
                        Some(n) => {
                            assert(n < OFF_GRID ==> in_cell(next, gx, n));
                            lemma_walk_stops_at_wall(
                                grid,
                                from,
                                dist,
                                finite,
                                next,
                                covers(gap_y, dist.y as int),
                                gx,
                                n,
                            );
                        },
                    }
                }
            },
        }
    }
}

/// A ray that is stopped is stopped at a wall: where a cast ends `Half`, the
/// point at which it ends lies in a solid cell of the grid or on the rim of
/// one.
pub proof fn lemma_half_is_at_wall(grid: Grid, from: Point2, dist: Vector2, finite: bool)
    requires
        grid.wf(),
    ensures
        grid.spec_ray_cast(from, dist, finite) is Half ==> at_wall(
            grid,
            grid.spec_ray_cast(from, dist, finite).point(),
        ),
{
    let gx = snap_coord(from.x as int) as int;
    let gy = snap_coord(from.y as int) as int;
    if gx != OFF_GRID && gy != OFF_GRID {
        assert(on_course(from, dist, gx, gy)) by {
            assert(entered(from.x as int, dist.x as int, gx) == 0);
            assert(entered(from.y as int, dist.y as int, gy) == 0);
            assert(0 * magnitude(dist.x as int) == 0 && 0 * magnitude(dist.y as int) == 0);
            assert(magnitude(gap_ahead(from.x as int, dist.x as int, gx)) * magnitude(
                dist.y as int,
            ) >= 0 && magnitude(gap_ahead(from.y as int, dist.y as int, gy)) * magnitude(
                dist.x as int,
            ) >= 0) by (nonlinear_arith)
                requires
                    magnitude(gap_ahead(from.x as int, dist.x as int, gx)) >= 0,
                    magnitude(gap_ahead(from.y as int, dist.y as int, gy)) >= 0,
                    magnitude(dist.x as int) >= 0,
                    magnitude(dist.y as int) >= 0,
            ;
        }
    }
    lemma_walk_stops_at_wall(
        grid,
        from,
        dist,
        finite,
        from,
        dist.x == 0 && dist.y == 0,
        gx,
        gy,
    );
}

} // verus!
