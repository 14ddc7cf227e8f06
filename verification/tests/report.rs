use lib::geometry::Point;
use lib::report::{
    canonical_order, enrich_violation_messages, label_of, EntityName, EntityNames, NetMember,
    PadParent,
};
use lib::{DrcResult, DrcViolation};

#[test]
fn test_drc_result_passed_empty() {
    let result = DrcResult::default();
    assert!(result.passed());
    assert_eq!(result.violation_count(), 0);
}

#[test]
fn test_drc_result_with_violations() {
    let result = DrcResult {
        violations: vec![DrcViolation::unconnected_pin(1, "1", "R1", Point::origin())],
        duration_ms: 5,
    };
    assert!(!result.passed());
    assert_eq!(result.violation_count(), 1);
}

#[test]
fn the_report_sorts_by_kind_then_place_then_entities() {
    let found = vec![
        DrcViolation::drill_size(4, 100, 300, Point::new(5, 5)),
        DrcViolation::clearance(9, 2, 0, 100, Point::new(7, 1)),
        DrcViolation::clearance(3, 8, 0, 100, Point::new(2, 9)),
        DrcViolation::clearance(3, 1, 0, 100, Point::new(2, 9)),
        DrcViolation::keepout(3, 7, "R1", None, Point::new(2, 9)),
        DrcViolation::clearance(1, 5, 0, 100, Point::new(2, 3)),
    ];
    let sorted = canonical_order(found);
    let keys: Vec<_> = sorted.iter().map(|v| (v.kind.code(), v.location.x, v.location.y, v.entity, v.other_entity)).collect();
    assert_eq!(
        keys,
        vec![
            (0, 2, 3, 1, Some(5)),
            (0, 2, 9, 3, Some(1)),
            (0, 2, 9, 3, Some(8)),
            (0, 7, 1, 9, Some(2)),
            (2, 5, 5, 4, None),
            (7, 2, 9, 3, Some(7)),
        ]
    );
}

#[test]
fn equal_keys_keep_the_order_they_came_in() {
    let found = vec![
        DrcViolation::drill_size(4, 100, 300, Point::new(5, 5)),
        DrcViolation::drill_size(4, 200, 300, Point::new(5, 5)),
        DrcViolation::drill_size(4, 150, 300, Point::new(5, 5)),
    ];
    let sorted = canonical_order(found);
    let actual: Vec<_> = sorted.iter().map(|v| v.actual).collect();
    assert_eq!(actual, vec![Some(100), Some(200), Some(150)]);
}

#[test]
fn a_violation_with_no_second_entity_sorts_after_one_with() {
    let found = vec![
        DrcViolation::drill_size(4, 100, 300, Point::new(5, 5)),
        DrcViolation::hole_to_hole(4, 3, 100, 300, Point::new(5, 5)),
    ];
    let sorted = canonical_order(found);
    assert_eq!(sorted[0].kind.code(), 2);
    let again = canonical_order(vec![
        DrcViolation::clearance(4, u32::MAX - 1, 0, 1, Point::new(0, 0)),
        DrcViolation::clearance(4, 7, 0, 1, Point::new(0, 0)),
    ]);
    assert_eq!(again[0].other_entity, Some(7));
}

fn names() -> EntityNames {
    EntityNames {
        refdes: vec![
            EntityName { entity: 1, name: "R1".to_string() },
            EntityName { entity: 2, name: "U1".to_string() },
        ],
        pads: vec![PadParent { pad: 10, parent: 2 }, PadParent { pad: 11, parent: 99 }],
        traces: vec![
            NetMember { entity: 20, net: Some("GND".to_string()) },
            NetMember { entity: 21, net: None },
        ],
        vias: vec![NetMember { entity: 30, net: Some("VCC".to_string()) }],
    }
}

#[test]
fn entities_are_named_the_way_the_board_names_them() {
    let n = names();
    assert_eq!(label_of(&n, 1), "R1");
    assert_eq!(label_of(&n, 10), "pad on U1");
    assert_eq!(label_of(&n, 11), "");
    assert_eq!(label_of(&n, 20), "trace 'GND'");
    assert_eq!(label_of(&n, 21), "trace '?'");
    assert_eq!(label_of(&n, 30), "via 'VCC'");
    assert_eq!(label_of(&n, 77), "");
}

#[test]
fn messages_gain_the_names_of_what_they_are_about() {
    let mut found = vec![
        DrcViolation::clearance(20, 30, 0, 127_000, Point::origin()),
        DrcViolation::clearance(20, 77, 0, 127_000, Point::origin()),
        DrcViolation::clearance(77, 20, 0, 127_000, Point::origin()),
        DrcViolation::unconnected_pin(1, "1", "R1", Point::origin()),
        DrcViolation::drill_size(10, 100_000, 300_000, Point::origin()),
    ];
    enrich_violation_messages(&mut found, &names());
    assert_eq!(
        found[0].message,
        "trace 'GND' ↔ via 'VCC': Clearance violation: 0.00mm actual, 0.13mm required"
    );
    assert_eq!(found[1].message, "trace 'GND': Clearance violation: 0.00mm actual, 0.13mm required");
    assert_eq!(found[2].message, "Clearance violation: 0.00mm actual, 0.13mm required");
    // The message already names R1.
    assert_eq!(found[3].message, "Unconnected pin: R1.1");
    assert!(found[4].message.starts_with("pad on U1: "));
    assert_eq!(found[4].entity, 10);
    assert_eq!(found[4].actual, Some(100_000));
}

fn keys(v: &[DrcViolation]) -> Vec<(u8, i64, i64, u32, Option<u32>, Option<i64>)> {
    v.iter().map(|x| (x.kind.code(), x.location.x, x.location.y, x.entity, x.other_entity, x.actual)).collect()
}

#[test]
fn putting_a_sorted_report_in_order_again_changes_nothing() {
    let found = vec![
        DrcViolation::drill_size(4, 100, 300, Point::new(5, 5)),
        DrcViolation::clearance(9, 2, 0, 100, Point::new(7, 1)),
        DrcViolation::clearance(3, 1, 0, 100, Point::new(2, 9)),
        DrcViolation::drill_size(4, 200, 300, Point::new(5, 5)),
    ];
    let once = canonical_order(found.clone());
    let twice = canonical_order(once.clone());
    assert_eq!(keys(&once), keys(&twice));
    let mut before = keys(&found);
    let mut after = keys(&once);
    before.sort();
    after.sort();
    assert_eq!(before, after, "the order holds the same violations");
}

#[test]
fn naming_a_report_twice_names_it_once() {
    let mut once = vec![
        DrcViolation::clearance(20, 30, 0, 127_000, Point::origin()),
        DrcViolation::drill_size(10, 100_000, 300_000, Point::origin()),
        DrcViolation::unconnected_pin(1, "1", "R1", Point::origin()),
    ];
    enrich_violation_messages(&mut once, &names());
    let mut twice = once.clone();
    enrich_violation_messages(&mut twice, &names());
    let a: Vec<_> = once.iter().map(|v| v.message.clone()).collect();
    let b: Vec<_> = twice.iter().map(|v| v.message.clone()).collect();
    assert_eq!(a, b);
}
