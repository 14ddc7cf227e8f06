use lib::geometry::Point;
use lib::rules::acute_angle::{inside, is_acute, is_collinear};

fn p(x: i64, y: i64) -> Point {
    Point::new(x * 1_000_000, y * 1_000_000)
}

#[test]
fn a_square_corner_drains_and_is_not_acute() {
    assert!(!is_acute(p(0, 0), p(1, 0), p(0, 1)));
}

#[test]
fn a_corner_sharper_than_square_is_acute() {
    assert!(is_acute(p(0, 0), p(2, 0), p(1, 1)));
    assert!(!is_acute(p(0, 0), p(-1, 0), p(1, 1)));
}

#[test]
fn a_straight_run_is_not_acute() {
    assert!(!is_acute(p(0, 0), p(-3, 0), p(3, 0)));
    assert!(is_collinear(p(0, 0), p(-3, 0), p(3, 0)));
}

#[test]
fn copper_turning_back_on_itself_is_acute_and_collinear() {
    assert!(is_acute(p(0, 0), p(3, 0), p(1, 0)));
    assert!(is_collinear(p(0, 0), p(3, 0), p(1, 0)));
    assert!(!is_collinear(p(0, 0), p(3, 0), p(1, 1)));
}

#[test]
fn an_end_in_the_middle_of_a_segment_is_inside_it_and_its_ends_are_not() {
    assert!(inside(p(1, 1), p(0, 0), p(2, 2)));
    assert!(!inside(p(0, 0), p(0, 0), p(2, 2)));
    assert!(!inside(p(2, 2), p(0, 0), p(2, 2)));
    assert!(!inside(p(3, 3), p(0, 0), p(2, 2)));
    assert!(!inside(p(1, 0), p(0, 0), p(2, 2)));
}
