use graph_editor::geometry::{clamp_point, disc_hit, segment_zone_hit, Point, Rect};

fn pt(x: i64, y: i64) -> Point {
    Point { x, y }
}

#[test]
fn disc_hit_inside() {
    assert!(disc_hit(pt(0, 0), 35, pt(0, 0)));
    assert!(disc_hit(pt(0, 0), 35, pt(34, 0)));
    assert!(disc_hit(pt(0, 0), 35, pt(24, 24)));
    assert!(disc_hit(pt(10, 10), 35, pt(10, 44)));
}

#[test]
fn disc_hit_boundary_is_not_a_hit() {
    // exactly at the radius: strict comparison, no hit
    assert!(!disc_hit(pt(0, 0), 35, pt(35, 0)));
    assert!(!disc_hit(pt(0, 0), 35, pt(0, -35)));
    // one unit closer: hit
    assert!(disc_hit(pt(0, 0), 35, pt(34, 0)));
    assert!(disc_hit(pt(0, 0), 35, pt(0, -34)));
    // 3-4-5 triangle scaled by 7: distance exactly 35
    assert!(!disc_hit(pt(0, 0), 35, pt(21, 28)));
    assert!(disc_hit(pt(0, 0), 35, pt(21, 27)));
}

#[test]
fn segment_zone_along_edge() {
    // horizontal segment from (0,0) to (100,0), halfwidth 3
    assert!(segment_zone_hit(pt(0, 0), pt(100, 0), pt(50, 0), 3));
    assert!(segment_zone_hit(pt(0, 0), pt(100, 0), pt(0, 0), 3));
    assert!(segment_zone_hit(pt(0, 0), pt(100, 0), pt(100, 0), 3));
    // the perpendicular boundary is inclusive
    assert!(segment_zone_hit(pt(0, 0), pt(100, 0), pt(50, 3), 3));
    assert!(segment_zone_hit(pt(0, 0), pt(100, 0), pt(50, -3), 3));
    assert!(!segment_zone_hit(pt(0, 0), pt(100, 0), pt(50, 4), 3));
    // beyond either end
    assert!(!segment_zone_hit(pt(0, 0), pt(100, 0), pt(-1, 0), 3));
    assert!(!segment_zone_hit(pt(0, 0), pt(100, 0), pt(101, 0), 3));
}

#[test]
fn segment_zone_degenerate_never_hit() {
    // a zero-length segment has no clickable zone, even at its own point
    assert!(!segment_zone_hit(pt(5, 5), pt(5, 5), pt(5, 5), 3));
    assert!(!segment_zone_hit(pt(5, 5), pt(5, 5), pt(6, 5), 3));
}

#[test]
fn clamp_point_inside_and_outside() {
    let rect = Rect { x_min: -500, x_max: 500, y_min: -400, y_max: 400 };
    // inside: unchanged
    assert_eq!(clamp_point(&rect, 35, pt(10, 10)), pt(10, 10));
    // outside: pulled to the padded border
    assert_eq!(clamp_point(&rect, 35, pt(10_000, 0)), pt(465, 0));
    assert_eq!(clamp_point(&rect, 35, pt(-10_000, -10_000)), pt(-465, -365));
    // zero padding clamps to the rectangle itself
    assert_eq!(clamp_point(&rect, 0, pt(10_000, 10_000)), pt(500, 400));
}
