use lib::geometry::Point;
use lib::rules::clearance::{
    exempt_as_same_net, nearest_pad_pair, nearest_pair, pair_requirement, Aabb, Copper, PadBox, Side,
};
use lib::rules::contacts::{one_row_per_place, Contact};
use lib::board::NetRule;

fn contact(sides: (Side, Side), at: (i64, i64), distance: i64, reach: i64, stretch: ([i64; 2], [i64; 2])) -> Contact {
    Contact {
        sides,
        entities: (1, 2),
        at: Point::new(at.0, at.1),
        distance,
        required: 127_000,
        reach,
        stretch: [stretch, stretch],
    }
}

const TRACE: Side = Side::Trace { net: 3, layers: 1 };
const PAD: Side = Side::Pad { part: 9, at: [0, 0] };

#[test]
fn contacts_along_one_run_are_one_place() {
    // Three contacts of one trace against one pad, each stretch 0.05mm from
    // the next: within the 0.1mm reach, so one place, reported at the worst.
    let found = vec![
        contact((TRACE, PAD), (0, 0), 50_000, 100_000, ([0, 0], [100_000, 0])),
        contact((TRACE, PAD), (150_000, 0), 20_000, 100_000, ([150_000, 0], [250_000, 0])),
        contact((TRACE, PAD), (300_000, 0), 60_000, 100_000, ([300_000, 0], [400_000, 0])),
    ];
    let rows = one_row_per_place(found);
    assert_eq!(rows.len(), 1);
    assert_eq!(rows[0].location, Point::new(150_000, 0));
    assert_eq!(rows[0].actual, Some(20_000));
    assert_eq!(rows[0].message, "Clearance violation: 0.02mm actual, 0.13mm required");
}

#[test]
fn contacts_further_apart_than_the_reach_are_two_places() {
    let found = vec![
        contact((TRACE, PAD), (5_000_000, 0), 50_000, 100_000, ([5_000_000, 0], [5_100_000, 0])),
        contact((TRACE, PAD), (0, 0), 20_000, 100_000, ([0, 0], [100_000, 0])),
    ];
    let rows = one_row_per_place(found);
    assert_eq!(rows.len(), 2);
    assert_eq!(rows[0].location, Point::new(0, 0));
    assert_eq!(rows[1].location, Point::new(5_000_000, 0));
}

#[test]
fn contacts_between_different_sides_are_never_one_place() {
    let other = Side::Piece(4);
    let found = vec![
        contact((TRACE, PAD), (0, 0), 50_000, 100_000, ([0, 0], [100_000, 0])),
        contact((TRACE, other), (0, 0), 50_000, 100_000, ([0, 0], [100_000, 0])),
    ];
    assert_eq!(one_row_per_place(found).len(), 2);
}

#[test]
fn equally_bad_contacts_report_the_lowest_point() {
    let found = vec![
        contact((TRACE, PAD), (100, 0), 50_000, 100_000, ([100, 0], [200, 0])),
        contact((TRACE, PAD), (0, 0), 50_000, 100_000, ([0, 0], [50, 0])),
    ];
    let rows = one_row_per_place(found);
    assert_eq!(rows.len(), 1);
    assert_eq!(rows[0].location, Point::new(0, 0));
}

#[test]
fn no_contacts_no_rows() {
    assert!(one_row_per_place(Vec::new()).is_empty());
}

fn square(x: i64, y: i64, half: i64, net: Option<u32>) -> PadBox {
    PadBox {
        copper: Copper { core: Aabb { lower: [x - half, y - half], upper: [x + half, y + half] }, radius: 0 },
        layer_mask: 1,
        net,
    }
}

#[test]
fn the_nearest_pad_pair_skips_pads_on_one_net() {
    let a = vec![square(0, 0, 100, Some(1)), square(0, 1_000, 100, Some(2))];
    let b = vec![square(300, 0, 100, Some(1)), square(600, 1_000, 100, None)];
    let (at, d) = nearest_pad_pair(&a, &b).unwrap();
    // Pad a0 against b0 is one net; a1 against b1 is 400 apart edge to edge.
    assert_eq!(d, 400);
    assert_eq!(at, Point::new(300, 1_000));
    let only_joined = nearest_pad_pair(&vec![square(0, 0, 100, Some(1))], &vec![square(300, 0, 100, Some(1))]);
    assert!(only_joined.is_none());
}

#[test]
fn the_nearest_pair_of_nothing_is_infinitely_far() {
    let (at, d) = nearest_pair(&Vec::new(), &vec![Copper::circle([0, 0], 10)]);
    assert_eq!((at, d), (Point::new(0, 0), i64::MAX));
    let (at, d) = nearest_pair(&vec![Copper::circle([0, 0], 10)], &vec![Copper::circle([100, 0], 10)]);
    assert_eq!((at, d), (Point::new(50, 0), 80));
}

#[test]
fn one_net_on_both_sides_is_exempt() {
    assert!(exempt_as_same_net(Some(4), Some(4), &None, &None, false, false));
    assert!(!exempt_as_same_net(Some(4), Some(5), &None, &None, false, false));
    // A trace touching a part with that net among its pins.
    assert!(exempt_as_same_net(Some(4), None, &None, &Some(vec![1, 4]), false, false));
    // Unless the part's pads are known: then each pad decides.
    assert!(!exempt_as_same_net(Some(4), None, &None, &Some(vec![1, 4]), false, true));
    // Two parts sharing a net.
    assert!(exempt_as_same_net(None, None, &Some(vec![7, 8]), &Some(vec![9, 8]), false, false));
    assert!(!exempt_as_same_net(None, None, &Some(vec![7, 8]), &Some(vec![9, 8]), true, true));
    assert!(!exempt_as_same_net(None, None, &Some(vec![7]), &None, false, false));
}

#[test]
fn a_pair_keeps_the_strictest_clearance_either_side_asks_for() {
    let rules = vec![
        NetRule { net: 1, width: None, clearance: Some(500_000), neck: None, current_ua: None },
        NetRule { net: 2, width: Some(300_000), clearance: None, neck: None, current_ua: None },
        NetRule { net: 3, width: None, clearance: Some(50_000), neck: None, current_ua: None },
    ];
    assert_eq!(pair_requirement(&rules, 127_000, Some(2), &None, Some(3), &None), 127_000);
    assert_eq!(pair_requirement(&rules, 127_000, Some(3), &None, None, &Some(vec![2, 1])), 500_000);
    assert_eq!(pair_requirement(&rules, 127_000, None, &None, None, &None), 127_000);
}
