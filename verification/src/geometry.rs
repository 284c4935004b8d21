//! Planar geometry for hit-testing: squared distances, the oriented
//! rectangle around an edge's segment, and clamping points into the
//! widget's drawable rectangle.
//!
//! All coordinates are integers confined to `[-COORD_LIMIT, COORD_LIMIT]`,
//! so every product and sum below fits in the machine integers used and
//! every test is exact (no square roots are needed: comparisons are made
//! between squared quantities).

use vstd::prelude::*;

verus! {

/// Coordinates of points held by the editor stay within this bound, so that
/// squared distances fit in `i64` and squared cross products fit in `i128`.
pub const COORD_LIMIT: i64 = 1_000_000_000;

/// A point in the widget's coordinate space.
#[derive(Clone, Copy, PartialEq, Eq, Structural, Debug)]
pub struct Point {
    pub x: i64,
    pub y: i64,
}

impl Point {
    /// Both coordinates lie within `[-COORD_LIMIT, COORD_LIMIT]`.
    pub open spec fn in_bounds(self) -> bool {
        -COORD_LIMIT <= self.x <= COORD_LIMIT && -COORD_LIMIT <= self.y <= COORD_LIMIT
    }
}

/// Squared Euclidean distance between two points.
pub open spec fn dist_sq(a: Point, b: Point) -> int {
    (b.x - a.x) * (b.x - a.x) + (b.y - a.y) * (b.y - a.y)
}

/// Whether `p` lies strictly inside the disc of radius `radius` around
/// `center`: the vertex hit test. The comparison is strict, so a point at
/// exactly `radius` from the center is not a hit.
pub open spec fn disc_contains(center: Point, radius: int, p: Point) -> bool {
    dist_sq(center, p) < radius * radius
}

/// Law: hit-test exclusivity near the boundary. A point at exactly the
/// vertex radius from the center is not a hit — the comparison is strict —
/// while any point strictly closer is.
pub proof fn lemma_disc_boundary(center: Point, radius: int, p: Point)
    ensures
        dist_sq(center, p) == radius * radius ==> !disc_contains(center, radius, p),
        dist_sq(center, p) < radius * radius ==> disc_contains(center, radius, p),
{
}

/// Exact vertex hit test.
pub fn disc_hit(center: Point, radius: i64, p: Point) -> (r: bool)
    requires
        center.in_bounds(),
        p.in_bounds(),
        0 <= radius <= COORD_LIMIT,
    ensures
        r == disc_contains(center, radius as int, p),
{
    let dx: i64 = p.x - center.x;
    let dy: i64 = p.y - center.y;
    proof {
        assert(dx * dx <= 4_000_000_000_000_000_000 && dx * dx >= 0) by (nonlinear_arith)
            requires -2_000_000_000 <= dx <= 2_000_000_000;
        assert(dy * dy <= 4_000_000_000_000_000_000 && dy * dy >= 0) by (nonlinear_arith)
            requires -2_000_000_000 <= dy <= 2_000_000_000;
        assert(radius * radius <= 1_000_000_000_000_000_000 && radius * radius >= 0)
            by (nonlinear_arith)
            requires 0 <= radius <= 1_000_000_000;
    }
    let d2: i64 = dx * dx + dy * dy;
    let r2: i64 = radius * radius;
    d2 < r2
}

/// Whether `p` lies in the rectangle of half-width `halfwidth` centered on
/// the segment from `u` to `v`: the clickable zone of an edge. A degenerate
/// segment (`u == v`) has no zone and is never hit, so nothing divides by
/// the segment's length. Both bounds are inclusive, matching a projection
/// test `0 <= proj <= length` on each axis of the rectangle.
pub open spec fn segment_zone_contains(u: Point, v: Point, p: Point, halfwidth: int) -> bool {
    if u.x == v.x && u.y == v.y {
        false
    } else {
        let abx = v.x - u.x;
        let aby = v.y - u.y;
        let apx = p.x - u.x;
        let apy = p.y - u.y;
        let along = apx * abx + apy * aby;
        let len2 = abx * abx + aby * aby;
        let cross = apx * aby - apy * abx;
        0 <= along && along <= len2 && cross * cross <= halfwidth * halfwidth * len2
    }
}

/// Exact edge hit test: the squared perpendicular offset is compared in
/// `i128`, which the coordinate bound keeps free of overflow.
pub fn segment_zone_hit(u: Point, v: Point, p: Point, halfwidth: i64) -> (r: bool)
    requires
        u.in_bounds(),
        v.in_bounds(),
        p.in_bounds(),
        0 <= halfwidth <= 1000,
    ensures
        r == segment_zone_contains(u, v, p, halfwidth as int),
{
    if u.x == v.x && u.y == v.y {
        return false;
    }
    let abx: i64 = v.x - u.x;
    let aby: i64 = v.y - u.y;
    let apx: i64 = p.x - u.x;
    let apy: i64 = p.y - u.y;
    proof {
        assert forall|a: i64, b: i64|
            -2_000_000_000 <= a <= 2_000_000_000 && -2_000_000_000 <= b <= 2_000_000_000
            implies -4_000_000_000_000_000_000 <= #[trigger] (a * b) <= 4_000_000_000_000_000_000
        by {
            assert(-4_000_000_000_000_000_000 <= a * b <= 4_000_000_000_000_000_000)
                by (nonlinear_arith)
                requires
                    -2_000_000_000 <= a <= 2_000_000_000,
                    -2_000_000_000 <= b <= 2_000_000_000;
        }
    }
    let along: i64 = apx * abx + apy * aby;
    let len2: i64 = abx * abx + aby * aby;
    let cross: i64 = apx * aby - apy * abx;
    proof {
        assert((cross as int) * (cross as int) <= 85070591730234615865843651857942052864int
            && 0 <= (cross as int) * (cross as int))
            by (nonlinear_arith)
            requires -9_223_372_036_854_775_808int <= cross <= 9_223_372_036_854_775_807int;
    }
    let cross2: i128 = (cross as i128) * (cross as i128);
    proof {
        assert((halfwidth as int) * (halfwidth as int) <= 1_000_000 && 0 <= (halfwidth as int) * (halfwidth as int))
            by (nonlinear_arith)
            requires 0 <= halfwidth <= 1000;
        assert((halfwidth as int) * (halfwidth as int) * (len2 as int) <= 1_000_000 * 9_223_372_036_854_775_807int
            && (halfwidth as int) * (halfwidth as int) * (len2 as int) >= -(1_000_000 * 9_223_372_036_854_775_807int))
            by (nonlinear_arith)
            requires
                0 <= (halfwidth as int) * (halfwidth as int) <= 1_000_000,
                -9_223_372_036_854_775_807 <= len2 <= 9_223_372_036_854_775_807;
    }
    let hw2: i128 = (halfwidth as i128) * (halfwidth as i128);
    let bound: i128 = hw2 * (len2 as i128);
    0 <= along && along <= len2 && cross2 <= bound
}

/// The widget's drawable rectangle, as inclusive coordinate ranges.
#[derive(Clone, Copy, PartialEq, Eq, Structural, Debug)]
pub struct Rect {
    pub x_min: i64,
    pub x_max: i64,
    pub y_min: i64,
    pub y_max: i64,
}

impl Rect {
    /// The rectangle is non-empty and lies within the coordinate bound.
    pub open spec fn wf(self) -> bool {
        -COORD_LIMIT <= self.x_min <= self.x_max <= COORD_LIMIT
        && -COORD_LIMIT <= self.y_min <= self.y_max <= COORD_LIMIT
    }
}

/// Clamping of a single coordinate into the inclusive range `[lo, hi]`.
pub open spec fn clamp_int(lo: int, hi: int, x: int) -> int {
    if x < lo {
        lo
    } else if x > hi {
        hi
    } else {
        x
    }
}

/// A point clamped into `rect` shrunk on every side by `pad`.
pub open spec fn clamp_spec(rect: Rect, pad: int, p: Point) -> Point {
    Point {
        x: clamp_int(rect.x_min + pad, rect.x_max - pad, p.x as int) as i64,
        y: clamp_int(rect.y_min + pad, rect.y_max - pad, p.y as int) as i64,
    }
}

/// Clamps `p` into `rect` shrunk on every side by `pad` (a vertex is padded
/// by its radius so it stays fully visible). The input point may lie
/// anywhere; the result always lies in the padded rectangle.
pub fn clamp_point(rect: &Rect, pad: i64, p: Point) -> (r: Point)
    requires
        rect.wf(),
        0 <= pad <= COORD_LIMIT,
        rect.x_min + 2 * pad <= rect.x_max,
        rect.y_min + 2 * pad <= rect.y_max,
    ensures
        r == clamp_spec(*rect, pad as int, p),
        r.in_bounds(),
{
    let x_lo: i64 = rect.x_min + pad;
    let x_hi: i64 = rect.x_max - pad;
    let y_lo: i64 = rect.y_min + pad;
    let y_hi: i64 = rect.y_max - pad;
    let x: i64 = if p.x < x_lo {
        x_lo
    } else if p.x > x_hi {
        x_hi
    } else {
        p.x
    };
    let y: i64 = if p.y < y_lo {
        y_lo
    } else if p.y > y_hi {
        y_hi
    } else {
        p.y
    };
    Point { x, y }
}

} // verus!
