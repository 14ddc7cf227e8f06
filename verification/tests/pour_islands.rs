use lib::geometry::{Point, Rect};
use lib::rules::pour_island::{touches, unconnected_islands};
use lib::rules::PourIslandRule;

fn mm(v: f64) -> i64 {
    (v * 1_000_000.0).round() as i64
}

fn rect(x1: f64, y1: f64, x2: f64, y2: f64) -> Rect {
    Rect { min: Point::new(mm(x1), mm(y1)), max: Point::new(mm(x2), mm(y2)) }
}

#[test]
fn a_piece_a_spoke_reaches_is_not_an_island() {
    let pieces = vec![rect(0.0, 0.0, 5.0, 5.0)];
    let spokes = vec![rect(4.0, 2.0, 6.0, 2.5)];
    assert!(unconnected_islands(&pieces, &spokes).is_empty());
}

#[test]
fn a_piece_nothing_reaches_is_reported_once() {
    let pieces = vec![rect(0.0, 0.0, 5.0, 5.0), rect(20.0, 20.0, 25.0, 25.0)];
    let spokes = vec![rect(4.0, 2.0, 6.0, 2.5)];

    let islands = unconnected_islands(&pieces, &spokes);
    assert_eq!(islands.len(), 1, "one sheet of copper reaches nothing");
    assert_eq!(islands[0].min.x, mm(20.0));
}

#[test]
fn copper_that_touches_connected_copper_is_connected() {
    let pieces = vec![rect(0.0, 0.0, 5.0, 5.0), rect(5.0, 0.0, 10.0, 5.0)];
    let spokes = vec![rect(-1.0, 2.0, 1.0, 2.5)];
    assert!(unconnected_islands(&pieces, &spokes).is_empty());
}

#[test]
fn a_plane_with_no_spokes_at_all_is_one_island_not_several() {
    let pieces = vec![rect(0.0, 0.0, 5.0, 5.0), rect(5.0, 0.0, 10.0, 5.0)];
    assert_eq!(unconnected_islands(&pieces, &Vec::new()).len(), 1);
}

#[test]
fn a_sheet_is_reported_at_its_first_piece() {
    // Pieces 1 and 3 meet only through piece 2; piece 0 is reached.
    let pieces = vec![
        rect(0.0, 0.0, 1.0, 1.0),
        rect(10.0, 0.0, 12.0, 1.0),
        rect(12.0, 0.0, 14.0, 1.0),
        rect(14.0, 0.0, 16.0, 1.0),
    ];
    let spokes = vec![rect(0.5, 0.5, 0.6, 0.6)];
    let islands = unconnected_islands(&pieces, &spokes);
    assert_eq!(islands, vec![pieces[1]]);
}

#[test]
fn a_spoke_on_the_far_end_of_a_chain_connects_all_of_it() {
    let pieces = vec![
        rect(0.0, 0.0, 2.0, 1.0),
        rect(2.0, 0.0, 4.0, 1.0),
        rect(4.0, 0.0, 6.0, 1.0),
        rect(30.0, 0.0, 31.0, 1.0),
    ];
    let spokes = vec![rect(5.5, 0.2, 7.0, 0.4)];
    assert_eq!(unconnected_islands(&pieces, &spokes), vec![pieces[3]]);
}

#[test]
fn no_pieces_no_islands() {
    assert!(unconnected_islands(&Vec::new(), &vec![rect(0.0, 0.0, 1.0, 1.0)]).is_empty());
}

#[test]
fn corners_that_meet_touch() {
    assert!(touches(&rect(0.0, 0.0, 1.0, 1.0), &rect(1.0, 1.0, 2.0, 2.0)));
    assert!(!touches(&rect(0.0, 0.0, 1.0, 1.0), &rect(1.000001, 0.0, 2.0, 1.0)));
}

#[test]
fn the_pour_island_rule_is_named() {
    assert_eq!(PourIslandRule.name(), "pour-island");
}
