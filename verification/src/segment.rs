//! The distance from a point to a segment.

use vstd::prelude::*;
use vstd::arithmetic::div_mod::{
    lemma_div_is_ordered,
    lemma_fundamental_div_mod,
    lemma_mod_bound,
};
use crate::geometry::{Point2, Vector2};
use crate::grid::Grid;
use crate::raycast::lemma_product_bound;

verus! {

/// The square of the distance from `center` to the nearest point of the
/// segment that runs from `start` along `dist`, as a fraction: the numerator
/// and the denominator, which is positive.
///
/// The nearest point is the foot of the perpendicular from `center` where
/// that foot lies on the segment, and else the nearer end.
pub open spec fn segment_dist_sq(start: Point2, dist: Vector2, center: Point2) -> (int, int) {
    let cx = center.x - start.x;
    let cy = center.y - start.y;
    let along = cx * dist.x + cy * dist.y;
    let len_sq = dist.x * dist.x + dist.y * dist.y;
    if along < 0 || len_sq == 0 {
        (cx * cx + cy * cy, 1)
    } else if along <= len_sq {
        let cross = cx * dist.y - cy * dist.x;
        (cross * cross, len_sq)
    } else {
        ((cx - dist.x) * (cx - dist.x) + (cy - dist.y) * (cy - dist.y), 1)
    }
}

/// Whether `n` is the square root of the fraction `num / den`, rounded up:
/// the least whole number whose square reaches the fraction.
pub open spec fn is_root_up(n: int, num: int, den: int) -> bool {
    &&& 0 <= n
    &&& num <= n * n * den
    &&& n > 0 ==> (n - 1) * (n - 1) * den < num
}

/// Whether `n` is the distance from `center` to the segment that runs from
/// `start` along `dist`, rounded up to a whole number.
pub open spec fn is_segment_dist(n: int, start: Point2, dist: Vector2, center: Point2) -> bool {
    is_root_up(n, segment_dist_sq(start, dist, center).0, segment_dist_sq(start, dist, center).1)
}

/// Of two whole numbers, the greater has the greater square.
proof fn lemma_squares_ordered(a: int, b: int)
    requires
        0 <= a <= b,
    ensures
        a * a <= b * b,
{
    assert(a * a <= b * b) by (nonlinear_arith)
        requires
            0 <= a <= b,
    ;
}

/// A root rounded up is within a radius exactly when the fraction is within
/// the radius's square: a circle about the center reaches the segment
/// exactly when the distance, rounded up, is at most its radius. So there is
/// one root rounded up and no other.
pub proof fn lemma_root_up(n: int, num: int, den: int, r: int)
    requires
        is_root_up(n, num, den),
        0 < den,
        0 <= r,
    ensures
        n <= r <==> num <= r * r * den,
        is_root_up(r, num, den) ==> r == n,
{
    if n <= r {
        lemma_squares_ordered(n, r);
        assert(n * n * den <= r * r * den) by (nonlinear_arith)
            requires
                n * n <= r * r,
                0 < den,
        ;
    } else {
        lemma_squares_ordered(r, n - 1);
        assert(r * r * den <= (n - 1) * (n - 1) * den) by (nonlinear_arith)
            requires
                r * r <= (n - 1) * (n - 1),
                0 < den,
        ;
    }
    if is_root_up(r, num, den) && r < n {
        lemma_squares_ordered(r, n - 1);
        assert(r * r * den <= (n - 1) * (n - 1) * den) by (nonlinear_arith)
            requires
                r * r <= (n - 1) * (n - 1),
                0 < den,
        ;
    }
    if is_root_up(r, num, den) && r > n {
        lemma_squares_ordered(n, r - 1);
        assert(n * n * den <= (r - 1) * (r - 1) * den) by (nonlinear_arith)
            requires
                n * n <= (r - 1) * (r - 1),
                0 < den,
        ;
    }
}

/// The squared area spanned by two vectors is at most the product of their
/// squared lengths, so the perpendicular distance is at most the distance.
proof fn lemma_cross_bound(cx: int, cy: int, dx: int, dy: int, cross: int, len_sq: int)
    requires
        cross == cx * dy - cy * dx,
        len_sq == dx * dx + dy * dy,
    ensures
        0 <= cross * cross <= (cx * cx + cy * cy) * len_sq,
{
    let along = cx * dx + cy * dy;
    let c_sq = cx * cx + cy * cy;
    let a = cx * dy;
    let b = cy * dx;
    let c = cx * dx;
    let d = cy * dy;
    assert((a - b) * (a - b) == a * a - 2 * (a * b) + b * b) by (nonlinear_arith);
    assert((c + d) * (c + d) == c * c + 2 * (c * d) + d * d) by (nonlinear_arith);
    assert(a * b == c * d) by (nonlinear_arith)
        requires
            a == cx * dy,
            b == cy * dx,
            c == cx * dx,
            d == cy * dy,
    ;
    assert(a * a == (cx * cx) * (dy * dy)) by (nonlinear_arith)
        requires
            a == cx * dy,
    ;
    assert(b * b == (cy * cy) * (dx * dx)) by (nonlinear_arith)
        requires
            b == cy * dx,
    ;
    assert(c * c == (cx * cx) * (dx * dx)) by (nonlinear_arith)
        requires
            c == cx * dx,
    ;
    assert(d * d == (cy * cy) * (dy * dy)) by (nonlinear_arith)
        requires
            d == cy * dy,
    ;
    let p = cx * cx;
    let q = cy * cy;
    let r = dx * dx;
    let t = dy * dy;
    assert((p + q) * (r + t) == p * r + p * t + q * r + q * t) by (nonlinear_arith);
    assert(cross * cross + along * along == c_sq * len_sq);
    assert(along * along >= 0 && cross * cross >= 0) by (nonlinear_arith);
}

/// The quotient of two whole numbers, rounded up, is the least whole number
/// whose multiple of the divisor reaches the dividend.
proof fn lemma_quotient_up(num: int, den: int)
    requires
        0 <= num,
        0 < den,
    ensures
        ({
            let q = (num + den - 1) / den;
            &&& 0 <= q
            &&& num <= q * den
            &&& q > 0 ==> (q - 1) * den < num
            &&& num == 0 ==> q == 0
        }),
{
    let q = (num + den - 1) / den;
    lemma_fundamental_div_mod(num + den - 1, den);
    lemma_mod_bound(num + den - 1, den);
    assert(den * q == q * den && (q - 1) * den == q * den - den) by (nonlinear_arith);
    if q < 0 {
        assert(den * q <= -den) by (nonlinear_arith)
            requires
                q <= -1,
                0 < den,
        ;
    }
}

/// The square root of `q`, rounded up.
fn root_up(q: u128) -> (n: u64)
    requires
        q <= 0x10_0000_0000_0000_0000,
    ensures
        is_root_up(n as int, q as int, 1),
        n <= 0x4_0000_0000,
{
    if q == 0 {
        return 0;
    }
    let mut lo: u128 = 0;
    let mut hi: u128 = 0x4_0000_0000;
    assert(0x4_0000_0000u128 * 0x4_0000_0000u128 == 0x10_0000_0000_0000_0000u128)
        by (nonlinear_arith);
    while hi - lo > 1
        invariant
            lo < hi <= 0x4_0000_0000,
            lo * lo < q <= hi * hi,
        decreases hi - lo,
    {
        let mid = lo + (hi - lo) / 2;
        proof {
            lemma_squares_ordered(mid as int, 0x4_0000_0000);
        }
        if mid * mid >= q {
            hi = mid;
        } else {
            lo = mid;
        }
    }
    hi as u64
}

impl Grid {
    /// The distance from `circle_center` to the segment that runs from
    /// `line_start` along `line_dist`, rounded up to a whole number. A circle
    /// of a whole radius about the center reaches the segment exactly when
    /// the result is at most the radius. Any points and any displacement can
    /// be given.
    pub fn dist_line_circle(line_start: Point2, line_dist: Vector2, circle_center: Point2) -> (d:
        u64)
        ensures
            is_segment_dist(d as int, line_start, line_dist, circle_center),
    {
        let cx: i128 = circle_center.x as i128 - line_start.x as i128;
        let cy: i128 = circle_center.y as i128 - line_start.y as i128;
        let dx: i128 = line_dist.x as i128;
        let dy: i128 = line_dist.y as i128;
        proof {
            // The difference of two coordinates, and a component.
            let a: int = 0xffff_ffff;
            let b: int = 0x8000_0000;
            lemma_product_bound(cx as int, dx as int, a, b);
            lemma_product_bound(cy as int, dy as int, a, b);
            lemma_product_bound(cx as int, cx as int, a, a);
            lemma_product_bound(cy as int, cy as int, a, a);
            lemma_product_bound(dx as int, dx as int, b, b);
            lemma_product_bound(dy as int, dy as int, b, b);
            lemma_product_bound(cx as int, dy as int, a, b);
            lemma_product_bound(cy as int, dx as int, a, b);
            lemma_product_bound(cx - dx, cx - dx, a + b, a + b);
            lemma_product_bound(cy - dy, cy - dy, a + b, a + b);
            assert(cx * cx >= 0 && cy * cy >= 0 && dx * dx >= 0 && dy * dy >= 0 && (cx - dx) * (cx
                - dx) >= 0 && (cy - dy) * (cy - dy) >= 0) by (nonlinear_arith);
        }
        let along: i128 = cx * dx + cy * dy;
        let len_sq: i128 = dx * dx + dy * dy;
        let dist_sq: u128 = if along < 0 || len_sq == 0 {
            (cx * cx + cy * cy) as u128
        } else if along <= len_sq {
            let cross: i128 = cx * dy - cy * dx;
            let area: u128 = if cross < 0 {
                (-cross) as u128
            } else {
                cross as u128
            };
            let ghost c_sq = cx * cx + cy * cy;
            proof {
                let most: int = 0xffff_ffff_0000_0000;
                lemma_product_bound(area as int, area as int, most, most);
                assert(area * area == cross * cross) by (nonlinear_arith)
                    requires
                        area == cross || area == -cross,
                ;
                lemma_cross_bound(
                    cx as int,
                    cy as int,
                    dx as int,
                    dy as int,
                    cross as int,
                    len_sq as int,
                );
                lemma_quotient_up(cross * cross, len_sq as int);
                lemma_div_is_ordered(
                    cross * cross + len_sq - 1,
                    c_sq * len_sq + len_sq - 1,
                    len_sq as int,
                );
                lemma_fundamental_div_mod(c_sq * len_sq + len_sq - 1, len_sq as int);
                lemma_mod_bound(c_sq * len_sq + len_sq - 1, len_sq as int);
                let top = (c_sq * len_sq + len_sq - 1) / (len_sq as int);
                assert(top == c_sq) by (nonlinear_arith)
                    requires
                        c_sq * len_sq + len_sq - 1 == len_sq * top + (c_sq * len_sq + len_sq - 1)
                            % (len_sq as int),
                        0 <= (c_sq * len_sq + len_sq - 1) % (len_sq as int) < len_sq,
                        0 < len_sq,
                ;
            }
            let area_sq: u128 = area * area;
            let den: u128 = len_sq as u128;
            (area_sq + den - 1) / den
        } else {
            ((cx - dx) * (cx - dx) + (cy - dy) * (cy - dy)) as u128
        };
        let n = root_up(dist_sq);
        proof {
            // The quotient, rounded up, stands for the fraction.
            let (num, den) = segment_dist_sq(line_start, line_dist, circle_center);
            let q = dist_sq as int;
            let m = n as int;
            assert(q == (num + den - 1) / den);
            lemma_quotient_up(num, den);
            assert(num <= m * m * den) by (nonlinear_arith)
                requires
                    num <= q * den,
                    q <= m * m * 1,
                    0 < den,
            ;
            if m > 0 {
                assert((m - 1) * (m - 1) * den < num) by (nonlinear_arith)
                    requires
                        (m - 1) * (m - 1) * 1 < q,
                        (q - 1) * den < num,
                        0 < den,
                ;
            }
        }
        n
    }
}

} // verus!
