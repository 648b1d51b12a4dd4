use topdown_core::geometry::{Point2, Vector2};
use topdown_core::grid::Grid;
use topdown_core::material::Material;
use topdown_core::raycast::{ray_is_fit, Direction, RayCast};

#[test]
fn ray_runs_its_full_length_over_open_ground() {
    let g = Grid::new(10, 10);
    let r = g.ray_cast(Point2::new(0, 0), Vector2::new(320, 0), true);
    assert_eq!(r, RayCast::Full(Point2::new(320, 0)));
    assert!(r.full());
    assert!(!r.half());
}

#[test]
fn ray_stops_where_it_enters_a_wall() {
    let mut g = Grid::new(10, 10);
    g.insert(3, 0, Material::Wall);
    let r = g.ray_cast(Point2::new(0, 0), Vector2::new(320, 0), true);
    assert_eq!(r, RayCast::Half(Point2::new(96, 0)));
    assert!(r.half());
    assert!(!r.full());
    assert_eq!(r.into_point().x, 96);
}

#[test]
fn unbounded_ray_runs_off_the_edge() {
    let g = Grid::new(10, 10);
    let r = g.ray_cast(Point2::new(0, 0), Vector2::new(320, 0), false);
    assert_eq!(r, RayCast::OffEdge(Point2::new(320, 0)));
    let r = g.ray_cast(Point2::new(16, 16), Vector2::new(0, 5), false);
    assert_eq!(r, RayCast::OffEdge(Point2::new(16, 320)));
}

#[test]
fn ray_leaves_through_the_low_edges() {
    let g = Grid::new(10, 10);
    let r = g.ray_cast(Point2::new(48, 16), Vector2::new(-10, 0), false);
    assert_eq!(r, RayCast::OffEdge(Point2::new(0, 16)));
    let r = g.ray_cast(Point2::new(48, 80), Vector2::new(0, -1), false);
    assert_eq!(r, RayCast::OffEdge(Point2::new(48, 0)));
}

#[test]
fn ray_from_off_the_grid_ends_where_it_starts() {
    let g = Grid::new(10, 10);
    let r = g.ray_cast(Point2::new(-5, 7), Vector2::new(100, 0), false);
    assert_eq!(r, RayCast::OffEdge(Point2::new(-5, 7)));
    let r = g.ray_cast(Point2::new(5, 4000), Vector2::new(0, -100), false);
    assert_eq!(r, RayCast::OffEdge(Point2::new(5, 4000)));
}

#[test]
fn ray_that_starts_in_a_wall_ends_there() {
    let mut g = Grid::new(4, 4);
    g.insert(1, 1, Material::Concrete);
    let r = g.ray_cast(Point2::new(40, 50), Vector2::new(100, 100), false);
    assert_eq!(r, RayCast::Half(Point2::new(40, 50)));
}

#[test]
fn short_ray_ends_at_its_destination_before_a_wall() {
    let mut g = Grid::new(10, 10);
    g.insert(3, 0, Material::Wall);
    let r = g.ray_cast(Point2::new(0, 0), Vector2::new(64, 0), true);
    assert_eq!(r, RayCast::Full(Point2::new(64, 0)));
    let r = g.ray_cast(Point2::new(5, 5), Vector2::new(10, 10), true);
    assert_eq!(r, RayCast::Full(Point2::new(15, 15)));
}

#[test]
fn ray_without_length_is_at_its_destination() {
    let g = Grid::new(3, 3);
    let r = g.ray_cast(Point2::new(40, 40), Vector2::new(0, 0), true);
    assert_eq!(r, RayCast::Full(Point2::new(40, 40)));
}

#[test]
fn slanted_ray_crosses_the_nearer_boundary_first() {
    let mut g = Grid::new(10, 10);
    g.insert(1, 0, Material::Wall);
    // From the middle of cell (0, 0), two across for one down: the ray meets
    // the boundary at x = 32 after 16 across and 8 down.
    let r = g.ray_cast(Point2::new(16, 16), Vector2::new(200, 100), true);
    assert_eq!(r, RayCast::Half(Point2::new(32, 24)));
    // One across for twenty down: it meets y = 32 and then y = 64, where it
    // has come 48 down and 2.4 across.
    let mut g = Grid::new(10, 10);
    g.insert(0, 2, Material::Wall);
    let r = g.ray_cast(Point2::new(16, 16), Vector2::new(10, 200), true);
    assert_eq!(r, RayCast::Half(Point2::new(18, 64)));
}

#[test]
fn shallow_ray_does_not_drift() {
    // One down for twenty across, from the top left corner: after ten cells
    // the ray is sixteen down, in the same row still.
    let mut g = Grid::new(20, 2);
    g.insert(10, 0, Material::Wall);
    let r = g.ray_cast(Point2::new(0, 0), Vector2::new(640, 32), true);
    assert_eq!(r, RayCast::Half(Point2::new(320, 16)));
    // Without the wall it goes on into the second row at x = 640.
    let g = Grid::new(21, 2);
    let r = g.ray_cast(Point2::new(0, 0), Vector2::new(1280, 64), false);
    assert_eq!(r, RayCast::OffEdge(Point2::new(672, 33)));
}

#[test]
fn ray_through_a_corner_steps_down_before_across() {
    let mut g = Grid::new(4, 4);
    g.insert(0, 1, Material::Wall);
    let r = g.ray_cast(Point2::new(0, 0), Vector2::new(100, 100), false);
    assert_eq!(r, RayCast::Half(Point2::new(32, 32)));
}

#[test]
fn backward_ray_stops_at_the_far_side_of_a_wall() {
    let mut g = Grid::new(10, 1);
    g.insert(2, 0, Material::Wall);
    let r = g.ray_cast(Point2::new(200, 10), Vector2::new(-200, 0), true);
    assert_eq!(r, RayCast::Half(Point2::new(96, 10)));
}

#[test]
fn directions_step_through_the_cells() {
    assert_eq!(Direction::new(5), Direction::Pos);
    assert_eq!(Direction::new(0), Direction::Pos);
    assert_eq!(Direction::new(-1), Direction::Neg);
    assert_eq!(Direction::Pos.on_u16(4), Some(5));
    assert_eq!(Direction::Pos.on_u16(65535), None);
    assert_eq!(Direction::Neg.on_u16(4), Some(3));
    assert_eq!(Direction::Neg.on_u16(0), None);
    assert_eq!(Direction::Pos.on(64), 96);
    assert_eq!(Direction::Neg.on(64), 64);
}

#[test]
fn distance_to_a_segment_is_to_its_nearest_point() {
    let start = Point2::new(0, 0);
    let along = Vector2::new(10, 0);
    // Beside the segment: the foot of the perpendicular.
    assert_eq!(Grid::dist_line_circle(start, along, Point2::new(5, 3)), 3);
    // Before its start and behind its end: the nearer end.
    assert_eq!(Grid::dist_line_circle(start, along, Point2::new(-3, 4)), 5);
    assert_eq!(Grid::dist_line_circle(start, along, Point2::new(13, 4)), 5);
    assert_eq!(Grid::dist_line_circle(start, along, Point2::new(0, 0)), 0);
    assert_eq!(Grid::dist_line_circle(start, along, Point2::new(7, 0)), 0);
    assert_eq!(Grid::dist_line_circle(start, along, Point2::new(10, -2)), 2);
}

#[test]
fn distance_to_a_slanted_segment_is_rounded_up() {
    let start = Point2::new(0, 0);
    assert_eq!(Grid::dist_line_circle(start, Vector2::new(3, 4), Point2::new(4, -3)), 5);
    // The square of the distance is a half.
    assert_eq!(Grid::dist_line_circle(start, Vector2::new(1, 1), Point2::new(1, 0)), 1);
    // The square of the distance is two.
    assert_eq!(Grid::dist_line_circle(start, Vector2::new(2, 2), Point2::new(2, 0)), 2);
    // The square of the distance is 14.4.
    assert_eq!(Grid::dist_line_circle(start, Vector2::new(10, 30), Point2::new(10, 18)), 4);
    // The square of the distance is 16.2.
    assert_eq!(Grid::dist_line_circle(start, Vector2::new(10, 20), Point2::new(5, 1)), 5);
    // The square of the distance is 25 exactly.
    assert_eq!(Grid::dist_line_circle(start, Vector2::new(30, 40), Point2::new(28, 29)), 5);
}

#[test]
fn distance_to_a_segment_without_length() {
    let d = Grid::dist_line_circle(Point2::new(1, 1), Vector2::new(0, 0), Point2::new(4, 5));
    assert_eq!(d, 5);
}

#[test]
fn distance_across_the_whole_world() {
    let far = 16_777_216;
    let d = Grid::dist_line_circle(
        Point2::new(-far, -far),
        Vector2::new(2 * far, 0),
        Point2::new(far, far),
    );
    assert_eq!(d, 33_554_432);
    let d = Grid::dist_line_circle(
        Point2::new(-far, -far),
        Vector2::new(2 * far, 2 * far),
        Point2::new(far, -far),
    );
    assert_eq!(d, 23_726_567);
    let d = Grid::dist_line_circle(
        Point2::new(far, far),
        Vector2::new(2 * far, 2 * far),
        Point2::new(-far, -far),
    );
    assert_eq!(d, 47_453_133);
}

#[test]
fn distance_between_the_farthest_points() {
    // From one corner of what the coordinates can hold to the other.
    let d = Grid::dist_line_circle(
        Point2::new(i32::MIN, i32::MIN),
        Vector2::new(0, 0),
        Point2::new(i32::MAX, i32::MAX),
    );
    // (2^32 - 1) times the square root of two, rounded up.
    assert_eq!(d, 6_074_000_999);
    // The segment runs away from the center: its start is the nearest point.
    let d = Grid::dist_line_circle(
        Point2::new(i32::MIN, 0),
        Vector2::new(i32::MIN, 0),
        Point2::new(i32::MAX, 0),
    );
    assert_eq!(d, 4_294_967_295);
    // The center lies beside the segment, as far as can be.
    let d = Grid::dist_line_circle(
        Point2::new(0, i32::MIN),
        Vector2::new(i32::MAX, 0),
        Point2::new(1, i32::MAX),
    );
    assert_eq!(d, 4_294_967_295);
    // The far end is the nearest point.
    let d = Grid::dist_line_circle(
        Point2::new(i32::MAX, i32::MAX),
        Vector2::new(i32::MIN, i32::MIN),
        Point2::new(i32::MIN, i32::MIN),
    );
    assert_eq!(d, 3_037_000_499);
    // The segment runs away from the center.
    let d = Grid::dist_line_circle(
        Point2::new(0, 0),
        Vector2::new(i32::MAX, i32::MIN),
        Point2::new(i32::MAX, i32::MAX),
    );
    assert_eq!(d, 3_037_000_499);
    // A slanted segment with the center beside it: the foot of the
    // perpendicular.
    let d = Grid::dist_line_circle(
        Point2::new(0, 0),
        Vector2::new(i32::MAX, i32::MAX),
        Point2::new(i32::MAX, 0),
    );
    assert_eq!(d, 1_518_500_250);
    let d = Grid::dist_line_circle(
        Point2::new(i32::MIN, i32::MAX),
        Vector2::new(i32::MAX, i32::MIN),
        Point2::new(i32::MAX, i32::MAX),
    );
    assert_eq!(d, 3_037_000_500);
}

#[test]
fn distance_agrees_with_floats() {
    let segments = [((0, 0), (100, 0)), ((10, 20), (-37, 91)), ((-5, -5), (3, 1)), ((7, 7), (0, 0))];
    let centers = [(0, 0), (50, 17), (-80, 33), (200, -9), (3, 3), (12, -40)];
    for ((sx, sy), (dx, dy)) in segments {
        for (cx, cy) in centers {
            let d = Grid::dist_line_circle(
                Point2::new(sx, sy),
                Vector2::new(dx, dy),
                Point2::new(cx, cy),
            );
            let (px, py) = (f64::from(cx - sx), f64::from(cy - sy));
            let (vx, vy) = (f64::from(dx), f64::from(dy));
            let len_sq = vx * vx + vy * vy;
            let t = if len_sq == 0.0 { 0.0 } else { ((px * vx + py * vy) / len_sq).clamp(0.0, 1.0) };
            let exact = ((px - t * vx).powi(2) + (py - t * vy).powi(2)).sqrt();
            let d = d as f64;
            assert!(d >= exact - 1e-9 && d < exact + 1.0 + 1e-9, "{} {}", d, exact);
        }
    }
}

#[test]
fn rays_are_checked() {
    assert!(ray_is_fit(Point2::new(0, 0), Vector2::new(i32::MAX, i32::MIN)));
    assert!(ray_is_fit(Point2::new(-1, 1), Vector2::new(i32::MIN + 1, i32::MAX - 1)));
    assert!(!ray_is_fit(Point2::new(1, 0), Vector2::new(i32::MAX, 0)));
    assert!(!ray_is_fit(Point2::new(0, -1), Vector2::new(0, i32::MIN)));
}

#[test]
fn a_ray_that_is_stopped_is_stopped_at_a_wall() {
    let mut g = Grid::new(8, 8);
    for (x, y) in [(5u16, 1u16), (2, 6), (7, 7), (0, 3), (4, 4)] {
        g.insert(x, y, Material::Wall);
    }
    let starts = [(16, 16), (100, 40), (250, 250), (33, 200), (130, 96)];
    let ways = [(300, 37), (-300, 37), (37, 300), (-37, -300), (1, 0), (0, -1), (-255, 254), (999, 1)];
    for (sx, sy) in starts {
        for (dx, dy) in ways {
            let r = g.ray_cast(Point2::new(sx, sy), Vector2::new(dx, dy), false);
            assert!(!r.full());
            if r.half() {
                let p = r.into_point();
                let touches_wall = (0..8u16).any(|x| {
                    (0..8u16).any(|y| {
                        g.is_solid(x, y)
                            && i32::from(x) * 32 <= p.x
                            && p.x <= i32::from(x) * 32 + 32
                            && i32::from(y) * 32 <= p.y
                            && p.y <= i32::from(y) * 32 + 32
                    })
                });
                assert!(touches_wall, "from ({}, {}) along ({}, {})", sx, sy, dx, dy);
            }
        }
    }
}
