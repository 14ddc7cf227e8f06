use lib::board::{Board, Component, CopperEntry, Layer, PadSite, Via, Zone, ZoneKind};
use lib::geometry::{Point, Rect};
use lib::presets::DesignRules;
use lib::rules::clearance::{Aabb, Copper};
use lib::rules::edge_clearance::{distance_to_edge, ring_contains};
use lib::rules::{EdgeClearanceRule, HoleToEdgeRule};
use lib::ViolationKind;

fn mm(v: f64) -> i64 {
    (v * 1_000_000.0).round() as i64
}

fn rules() -> DesignRules {
    DesignRules {
        min_clearance: mm(0.127),
        min_trace_width: mm(0.127),
        min_drill_size: mm(0.3),
        min_via_drill: mm(0.3),
        min_via_diameter: mm(0.6),
        min_annular_ring: mm(0.13),
        min_silk_width: mm(0.15),
        min_edge_clearance: mm(0.3),
        min_hole_to_hole: mm(0.5),
        min_solder_mask_bridge: mm(0.1),
        min_paste_clearance: mm(0.1),
        min_pad_size: mm(0.56),
        min_slot_clearance: mm(0.3),
        min_hole_to_edge: mm(0.3),
        solder_mask_expansion: mm(0.05),
        min_silk_clearance: mm(0.15),
        min_courtyard_clearance: mm(0.25),
        copper_weight_oz_x10: 10,
        max_diff_pair_skew: mm(0.1),
        max_drill_aspect_ratio: 800,
        board_thickness: mm(1.6),
    }
}

fn no_board() -> Board {
    Board {
        vias: Vec::new(),
        components: Vec::new(),
        traces: Vec::new(),
        zones: Vec::new(),
        net_rules: Vec::new(),
        stackup_thickness: None,
        size: None,
        stack_areas: None,
        stackup: None,
        layer_count: None,
        board_entity: None,
        nets: Vec::new(),
        diff_pairs: Vec::new(),
        pour_fills: Vec::new(),
        copper_entries: Vec::new(),
        net_links: Vec::new(),
        net_ids: Vec::new(),
        outline: None,
    }
}

fn board(w: f64, h: f64, entries: Vec<CopperEntry>) -> Board {
    let mut b = no_board();
    b.size = Some((mm(w), mm(h)));
    b.layer_count = Some(2);
    b.board_entity = Some(100);
    b.copper_entries = entries;
    b
}

fn entry(entity: u32, min: (f64, f64), max: (f64, f64)) -> CopperEntry {
    CopperEntry {
        entity,
        bounds: Rect { min: Point::new(mm(min.0), mm(min.1)), max: Point::new(mm(max.0), mm(max.1)) },
        layer_mask: 0b01,
    }
}

fn ring(corners: &[(f64, f64)]) -> Vec<Point> {
    corners.iter().map(|c| Point::new(mm(c.0), mm(c.1))).collect()
}

#[test]
fn an_l_shaped_board_is_measured_against_its_own_edge() {
    let outline = ring(&[(0.0, 0.0), (40.0, 0.0), (40.0, 20.0), (20.0, 20.0), (20.0, 40.0), (0.0, 40.0)]);
    assert!(ring_contains(&outline, Point::new(mm(10.0), mm(10.0))));
    assert!(!ring_contains(&outline, Point::new(mm(30.0), mm(30.0))));
    let mut b = board(40.0, 40.0, vec![entry(0, (29.0, 29.0), (31.0, 31.0)), entry(1, (9.0, 9.0), (11.0, 11.0))]);
    b.outline = Some(outline);

    let violations = EdgeClearanceRule.check(&b, &rules());

    assert_eq!(violations.len(), 1, "only the pad in the removed corner is off the board: {violations:?}");
    assert_eq!(violations[0].entity, 0);
    assert_eq!(violations[0].kind, ViolationKind::EdgeClearance);
}

#[test]
fn test_no_violation_centered() {
    let b = board(50.0, 50.0, vec![entry(0, (20.0, 20.0), (21.0, 21.0))]);
    let violations = EdgeClearanceRule.check(&b, &rules());
    assert!(violations.is_empty(), "Centered pad should pass");
}

#[test]
fn test_violation_too_close_to_left_edge() {
    let b = board(50.0, 50.0, vec![entry(0, (0.1, 20.0), (1.1, 21.0))]);
    let violations = EdgeClearanceRule.check(&b, &rules());
    assert_eq!(violations.len(), 1);
    assert_eq!(violations[0].kind, ViolationKind::EdgeClearance);
}

#[test]
fn test_violation_too_close_to_right_edge() {
    let b = board(50.0, 50.0, vec![entry(0, (49.0, 20.0), (49.9, 21.0))]);
    let violations = EdgeClearanceRule.check(&b, &rules());
    assert_eq!(violations.len(), 1);
    assert_eq!(violations[0].kind, ViolationKind::EdgeClearance);
}

#[test]
fn test_violation_too_close_to_top_edge() {
    let b = board(50.0, 50.0, vec![entry(0, (20.0, 49.0), (21.0, 49.9))]);
    let violations = EdgeClearanceRule.check(&b, &rules());
    assert_eq!(violations.len(), 1);
}

#[test]
fn test_violation_too_close_to_bottom_edge() {
    let b = board(50.0, 50.0, vec![entry(0, (20.0, 0.05), (21.0, 1.05))]);
    let violations = EdgeClearanceRule.check(&b, &rules());
    assert_eq!(violations.len(), 1);
}

#[test]
fn test_no_board_no_violations() {
    let violations = EdgeClearanceRule.check(&no_board(), &rules());
    assert!(violations.is_empty());
}

#[test]
fn test_exactly_at_clearance_passes() {
    let b = board(50.0, 50.0, vec![entry(0, (0.3, 20.0), (1.3, 21.0))]);
    let violations = EdgeClearanceRule.check(&b, &rules());
    assert!(violations.is_empty(), "Exactly at clearance should pass");
}

#[test]
fn test_multiple_violations() {
    let b = board(
        50.0,
        50.0,
        vec![
            entry(0, (0.1, 20.0), (1.1, 21.0)),
            entry(1, (20.0, 49.9), (21.0, 50.0)),
            entry(2, (20.0, 20.0), (21.0, 21.0)),
        ],
    );
    let violations = EdgeClearanceRule.check(&b, &rules());
    assert_eq!(violations.len(), 2, "Expected 2 violations");
}

#[test]
fn test_empty_spatial_index() {
    let b = board(50.0, 50.0, Vec::new());
    let violations = EdgeClearanceRule.check(&b, &rules());
    assert!(violations.is_empty());
}

#[test]
fn a_box_is_measured_from_its_own_sides_to_the_ring() {
    let mut u = board(40.0, 30.0, Vec::new());
    u.outline = Some(ring(&[
        (0.0, 0.0),
        (40.0, 0.0),
        (40.0, 30.0),
        (25.0, 30.0),
        (25.0, 10.0),
        (15.0, 10.0),
        (15.0, 30.0),
        (0.0, 30.0),
    ]));

    assert_eq!(distance_to_edge(&u, mm(4.5), mm(19.5), mm(5.5), mm(20.5)), mm(4.5));
    assert_eq!(distance_to_edge(&u, mm(7.0), mm(14.5), mm(8.0), mm(15.5)), mm(7.0));
    assert_eq!(distance_to_edge(&u, mm(19.5), mm(19.5), mm(20.5), mm(20.5)), 0);
    assert_eq!(distance_to_edge(&u, mm(12.0), mm(18.0), mm(16.0), mm(22.0)), 0);
}

// A violation carries the gap, never below zero, and the middle of the box.
#[test]
fn an_edge_violation_carries_its_gap_and_the_middle_of_the_box() {
    let b = board(50.0, 50.0, vec![entry(7, (0.1, 20.0), (1.1, 21.0))]);
    let v = &EdgeClearanceRule.check(&b, &rules())[0];
    assert_eq!(v.entity, 7);
    assert_eq!(v.actual, Some(mm(0.1)));
    assert_eq!(v.required, Some(mm(0.3)));
    assert_eq!(v.location, Point::new(mm(0.6), mm(20.5)));
    assert_eq!(v.message, "Edge clearance violation: 0.10mm actual, 0.30mm required");

    let past = board(50.0, 50.0, vec![entry(8, (-0.5, 20.0), (0.5, 21.0))]);
    assert_eq!(EdgeClearanceRule.check(&past, &rules())[0].actual, Some(0));
}

// A pour is copper and is measured; a flexible region reaches the edge by
// being the ribbon, and is not.
#[test]
fn a_pour_is_measured_against_the_edge_and_a_flex_region_is_not() {
    let mut b = board(50.0, 50.0, Vec::new());
    let zone = |entity: u32, kind: ZoneKind| Zone {
        entity,
        bounds: Rect { min: Point::new(0, 0), max: Point::new(mm(50.0), mm(10.0)) },
        kind,
        layer_mask: 1,
        name: None,
        net: None,
    };
    b.zones = vec![zone(3, ZoneKind::CopperPour), zone(4, ZoneKind::Flex)];
    let violations = EdgeClearanceRule.check(&b, &rules());
    assert_eq!(violations.len(), 1);
    assert_eq!(violations[0].entity, 3);
}

fn via(entity: u32, x: f64, y: f64) -> Via {
    Via {
        entity,
        position: Point::new(mm(x), mm(y)),
        drill: mm(0.3),
        outer_diameter: mm(0.6),
        start_layer: Layer::TopCopper,
        end_layer: Layer::BottomCopper,
        net: 1,
    }
}

#[test]
fn a_hole_near_the_edge_breaks_out() {
    let mut b = board(50.0, 50.0, Vec::new());
    b.vias = vec![via(1, 0.4, 20.0), via(2, 25.0, 25.0)];
    let found = HoleToEdgeRule.check(&b, &rules());
    assert_eq!(found.len(), 1);
    assert_eq!(found[0].kind, ViolationKind::HoleToEdge);
    assert_eq!(found[0].entity, 1);
    assert_eq!(found[0].actual, Some(mm(0.25)));
    assert_eq!(found[0].location, Point::new(mm(0.4), mm(20.0)));
    assert_eq!(found[0].message, "Hole is 0.250mm from the board edge, 0.300mm required");
}

#[test]
fn a_drilled_pad_is_measured_too_and_no_board_means_no_edge() {
    let pad = PadSite {
        number: "1".to_string(),
        offset: Point::new(0, 0),
        turned: Point::new(0, 0),
        hole_from: Point::new(0, 0),
        hole_to: Point::new(0, 0),
        width: mm(1.0),
        height: mm(1.0),
        drill: Some(mm(0.6)),
        plated: true,
        smd: false,
        top: true,
        bottom: true,
        mask_margin: None,
        net: None,
        copper: Copper { core: Aabb { lower: [mm(49.8), mm(10.0)], upper: [mm(49.8), mm(10.0)] }, radius: mm(0.5) },
        copper_mask: 3,
    };
    let part = Component {
        entity: 5,
        refdes: "J1".to_string(),
        position: Point::new(mm(49.8), mm(10.0)),
        pads: vec![pad],
        builtin: true,
        quarter_turn: false,
        courtyard: None,
    };
    let mut b = board(50.0, 50.0, Vec::new());
    b.components = vec![part.clone()];
    let found = HoleToEdgeRule.check(&b, &rules());
    assert_eq!(found.len(), 1);
    assert_eq!(found[0].entity, 5);
    assert_eq!(found[0].actual, Some(0));

    let mut loose = no_board();
    loose.components = vec![part];
    assert!(HoleToEdgeRule.check(&loose, &rules()).is_empty());
}
