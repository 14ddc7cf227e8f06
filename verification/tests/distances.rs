use lib::geometry::Point;
use lib::rules::clearance::{
    aabb_center, aabb_distance, canonical_pair, copper_distance, point_to_segment_distance,
    segment_distance, Aabb, Copper,
};
use lib::rules::hole_to_hole::passes_overlap;
use lib::rules::segment_distance as rounded_segment_distance;
use lib::board::Layer;

fn mm(v: f64) -> i64 {
    (v * 1_000_000.0).round() as i64
}

fn at(x: f64, y: f64) -> Point {
    Point::new(mm(x), mm(y))
}

fn aabb(lower: [i64; 2], upper: [i64; 2]) -> Aabb {
    Aabb { lower, upper }
}

#[test]
fn point_to_segment_measures_the_perpendicular() {
    let point = [1_000_000i64, 5_000_000i64];
    let start = [0i64, 0i64];
    let end = [0i64, 10_000_000i64];
    assert_eq!(segment_distance(point, point, start, end), 1_000_000);
    let beyond = [0i64, 14_000_000i64];
    assert_eq!(segment_distance(beyond, beyond, start, end), 4_000_000);
    assert_eq!(
        segment_distance(start, end, point, point),
        segment_distance(point, point, start, end)
    );
}

#[test]
fn test_aabb_distance_no_overlap() {
    let a = aabb([0, 0], [100, 100]);
    let b = aabb([200, 0], [300, 100]);
    assert_eq!(aabb_distance(&a, &b), 100, "Distance should be 100");
}

#[test]
fn test_aabb_distance_touching() {
    let a = aabb([0, 0], [100, 100]);
    let b = aabb([100, 0], [200, 100]);
    assert_eq!(aabb_distance(&a, &b), 0, "Touching AABBs have zero distance");
}

#[test]
fn test_aabb_distance_overlapping() {
    let a = aabb([0, 0], [100, 100]);
    let b = aabb([50, 50], [150, 150]);
    assert_eq!(aabb_distance(&a, &b), 0, "Overlapping AABBs have zero distance");
}

#[test]
fn test_aabb_distance_diagonal() {
    let a = aabb([0, 0], [100, 100]);
    let b = aabb([200, 200], [300, 300]);
    let expected = ((100_i64 * 100 + 100 * 100) as f64).sqrt() as i64;
    assert_eq!(aabb_distance(&a, &b), expected, "Diagonal distance calculation");
}

#[test]
fn test_canonical_pair_ordering() {
    assert_eq!(canonical_pair(1, 2), (1, 2));
    assert_eq!(canonical_pair(2, 1), (1, 2));
    assert_eq!(canonical_pair(5, 5), (5, 5));
}

#[test]
fn test_aabb_center() {
    let c = aabb_center(&aabb([0, 0], [1000, 2000]));
    assert_eq!(c.x, 500);
    assert_eq!(c.y, 1000);
}

#[test]
fn test_segment_distance_parallel_horizontal() {
    let d = segment_distance([0, 0], [10_000_000, 0], [0, 1_000_000], [10_000_000, 1_000_000]);
    assert_eq!(d, 1_000_000, "Parallel horizontal segments 1mm apart");
}

#[test]
fn test_segment_distance_perpendicular() {
    let d = segment_distance(
        [0, 0],
        [10_000_000, 0],
        [5_000_000, 2_000_000],
        [5_000_000, 10_000_000],
    );
    assert_eq!(d, 2_000_000, "Perpendicular with 2mm gap");
}

#[test]
fn test_segment_distance_endpoint_closest() {
    let d = segment_distance([0, 0], [1_000_000, 0], [2_000_000, 0], [3_000_000, 0]);
    assert_eq!(d, 1_000_000, "Collinear with 1mm gap");
}

#[test]
fn test_segment_distance_same_point() {
    assert_eq!(segment_distance([0, 0], [0, 0], [0, 0], [0, 0]), 0, "Same point");
}

#[test]
fn test_segment_distance_touching() {
    let d = segment_distance([0, 0], [1_000_000, 0], [1_000_000, 0], [2_000_000, 0]);
    assert_eq!(d, 0, "Touching at endpoint");
}

#[test]
fn test_segment_distance_crossing() {
    let d = segment_distance([0, 0], [10_000_000, 10_000_000], [0, 10_000_000], [10_000_000, 0]);
    assert_eq!(d, 0, "Crossing segments");
}

#[test]
fn test_segment_distance_diagonal_gap() {
    let d = segment_distance([0, 0], [0, 0], [3_000_000, 4_000_000], [3_000_000, 4_000_000]);
    assert_eq!(d, 5_000_000, "3-4-5 triangle distance");
}

#[test]
fn two_segments_are_as_far_apart_as_their_nearest_points() {
    assert_eq!(rounded_segment_distance(at(0.0, 0.0), at(10.0, 0.0), at(5.0, -5.0), at(5.0, 5.0)), 0);
    assert_eq!(rounded_segment_distance(at(0.0, 0.0), at(10.0, 0.0), at(10.0, 0.0), at(10.0, 5.0)), 0);
    assert_eq!(
        rounded_segment_distance(at(0.0, 0.0), at(10.0, 0.0), at(0.0, 2.0), at(10.0, 2.0)),
        2_000_000
    );
    assert_eq!(
        rounded_segment_distance(at(0.0, 0.0), at(10.0, 0.0), at(11.0, 0.0), at(20.0, 0.0)),
        1_000_000
    );
    assert_eq!(
        rounded_segment_distance(at(0.0, 0.0), at(10.0, 0.0), at(5.0, 3.0), at(5.0, 9.0)),
        3_000_000
    );
    assert_eq!(
        rounded_segment_distance(at(0.0, 0.0), at(10.0, 0.0), at(15.0, 5.0), at(20.0, 10.0)),
        7_071_068
    );
}

#[test]
fn the_floor_distance_rounds_down_where_the_rounded_one_rounds_up() {
    // sqrt(50) mm is 7.0710678mm: 7_071_067 whole nanometres and a bit.
    assert_eq!(
        segment_distance([0, 0], [10_000_000, 0], [15_000_000, 5_000_000], [20_000_000, 10_000_000]),
        7_071_067
    );
}

#[test]
fn segment_distance_is_the_same_either_way_round() {
    let (a0, a1, b0, b1) = ([0, 0], [4_000_000, 1_000_000], [7_000_000, -3_000_000], [9_000_000, 6_000_000]);
    assert_eq!(segment_distance(a0, a1, b0, b1), segment_distance(b0, b1, a0, a1));
    assert_eq!(segment_distance(a0, a1, b0, b1), segment_distance(a1, a0, b1, b0));
}

#[test]
fn a_point_beside_a_segment_is_its_perpendicular_away() {
    assert_eq!(point_to_segment_distance([3, 4], [0, 0], [0, 10]), 3);
    assert_eq!(point_to_segment_distance([3, 14], [0, 0], [0, 10]), 5);
}

#[test]
fn two_discs_are_their_centres_apart_less_both_radii() {
    let a = Copper::circle([0, 0], 100);
    let b = Copper::circle([500, 0], 150);
    assert_eq!(copper_distance(&a, &b), 250);
    let c = Copper::circle([200, 0], 150);
    assert_eq!(copper_distance(&a, &c), 0);
}

#[test]
fn a_through_hole_shares_a_pass_with_everything() {
    let through = (Layer::TopCopper, Layer::BottomCopper);
    assert!(passes_overlap(through, through));
    assert!(passes_overlap(through, (Layer::TopCopper, Layer::Inner(0))));
    assert!(passes_overlap(through, (Layer::Inner(0), Layer::Inner(1))));
}

#[test]
fn two_buried_vias_on_different_sub_stacks_never_meet() {
    let upper = (Layer::Inner(0), Layer::Inner(1));
    let lower = (Layer::Inner(2), Layer::BottomCopper);
    assert!(!passes_overlap(upper, lower));
}

#[test]
fn spans_that_only_touch_at_a_layer_are_not_one_pass() {
    assert!(!passes_overlap(
        (Layer::TopCopper, Layer::Inner(0)),
        (Layer::Inner(0), Layer::BottomCopper),
    ));
}

#[test]
fn overlapping_spans_share_a_pass() {
    assert!(passes_overlap(
        (Layer::TopCopper, Layer::Inner(1)),
        (Layer::Inner(0), Layer::BottomCopper),
    ));
}
