use overlay_widget::geometry::{dist_to_line_below, Vector2};

fn v(x: i32, y: i32) -> Vector2 {
    Vector2::new(x, y)
}

#[test]
fn square_dist_exact() {
    assert_eq!(v(1, 2).square_dist(&v(4, 6)), 25);
    assert_eq!(v(i32::MIN, i32::MIN).square_dist(&v(i32::MAX, i32::MAX)), 2 * (u32::MAX as u128).pow(2));
}

#[test]
fn points_on_segment_are_at_distance_zero() {
    let a = v(0, 0);
    let b = v(10, 4);
    for p in [v(0, 0), v(5, 2), v(10, 4)] {
        assert!(dist_to_line_below(a, b, p, 1));
    }
    assert!(!dist_to_line_below(a, b, v(5, 2), 0));
}

#[test]
fn perpendicular_distance() {
    let a = v(0, 0);
    let b = v(10, 0);
    // distance 3 from the middle of the segment
    assert!(dist_to_line_below(a, b, v(5, 3), 4));
    assert!(!dist_to_line_below(a, b, v(5, 3), 3));
    // diagonal segment: (0,4) is at distance 4/sqrt(2) ~ 2.83
    let c = v(4, 4);
    assert!(dist_to_line_below(a, c, v(0, 4), 3));
    assert!(!dist_to_line_below(a, c, v(0, 4), 2));
}

#[test]
fn beyond_endpoints_uses_nearer_endpoint() {
    let a = v(0, 0);
    let b = v(10, 0);
    // (-3, 4) projects before a: distance 5 to a
    assert!(!dist_to_line_below(a, b, v(-3, 4), 5));
    assert!(dist_to_line_below(a, b, v(-3, 4), 6));
    // (13, 4) projects past b: distance 5 to b
    assert!(!dist_to_line_below(a, b, v(13, 4), 5));
    assert!(dist_to_line_below(a, b, v(13, 4), 6));
}

#[test]
fn degenerate_segment_is_a_point() {
    let a = v(7, 7);
    assert!(dist_to_line_below(a, a, v(7, 9), 3));
    assert!(!dist_to_line_below(a, a, v(7, 9), 2));
}

#[test]
fn extreme_coordinates_do_not_overflow() {
    let a = v(i32::MIN, i32::MIN);
    let b = v(i32::MAX, i32::MAX);
    assert!(dist_to_line_below(a, b, v(0, 0), 1));
    assert!(!dist_to_line_below(a, b, v(i32::MIN, i32::MAX), u16::MAX));
}
