use lib::board::{Board, Component, Layer, PadSite, Segment, Trace, Via};
use lib::geometry::Point;
use lib::presets::DesignRules;
use lib::rules::clearance::{Aabb, Copper};
use lib::rules::{
    AnnularRingRule, CourtyardClearanceRule, HoleToHoleRule, KeepoutRule, MinDrillSizeRule,
    MinTraceWidthRule, PadLandRule, SolderMaskBridgeRule, UnconnectedPinRule, ViaDiameterRule,
    ViaDrillRule,
};
use lib::ViolationKind;

fn mm(v: f64) -> i64 {
    (v * 1_000_000.0).round() as i64
}

/// The fab's standard two-layer table, as the checker's default.
fn jlcpcb_2layer() -> DesignRules {
    DesignRules {
        min_clearance: mm(0.127),
        min_trace_width: mm(0.127),
        min_drill_size: mm(0.3),
        min_via_drill: mm(0.3),
        min_via_diameter: mm(0.6),
        min_annular_ring: mm(0.15),
        min_silk_width: mm(0.15),
        min_edge_clearance: mm(0.3),
        min_hole_to_hole: mm(0.5),
        min_solder_mask_bridge: mm(0.1),
        min_paste_clearance: mm(0.1),
        min_pad_size: mm(0.5),
        min_slot_clearance: mm(0.3),
        min_hole_to_edge: mm(0.3),
        solder_mask_expansion: mm(0.05),
        min_silk_clearance: mm(0.15),
        min_courtyard_clearance: mm(0.25),
        copper_weight_oz_x10: 10,
        max_diff_pair_skew: mm(0.1),
        max_drill_aspect_ratio: 800,
        board_thickness: mm(1.6),
    }
}

/// Relaxed rules for hand-built prototypes: wider traces.
fn prototype() -> DesignRules {
    DesignRules { min_trace_width: mm(0.25), ..jlcpcb_2layer() }
}

fn empty_board() -> Board {
    Board {
        vias: Vec::new(),
        components: Vec::new(),
        traces: Vec::new(),
        zones: Vec::new(),
        net_rules: Vec::new(),
        stackup_thickness: None,
        size: None,
        stack_areas: None,
        stackup: None,
        layer_count: None,
        board_entity: None,
        nets: Vec::new(),
        diff_pairs: Vec::new(),
        pour_fills: Vec::new(),
        copper_entries: Vec::new(),
        net_links: Vec::new(),
        net_ids: Vec::new(),
        outline: None,
    }
}

fn no_copper() -> Copper {
    Copper { core: Aabb { lower: [0, 0], upper: [0, 0] }, radius: 0 }
}

fn smd(number: &str, x: f64, y: f64, w: f64, h: f64) -> PadSite {
    let at = Point::new(mm(x), mm(y));
    PadSite {
        number: number.to_string(),
        offset: at,
        turned: at,
        hole_from: at,
        hole_to: at,
        width: mm(w),
        height: mm(h),
        drill: None,
        plated: false,
        smd: true,
        top: true,
        bottom: false,
        mask_margin: None,
        net: None,
        copper: no_copper(),
        copper_mask: 1,
    }
}

fn drilled(number: &str, x: f64, y: f64, land: f64, drill: f64) -> PadSite {
    let at = Point::new(mm(x), mm(y));
    PadSite {
        number: number.to_string(),
        offset: at,
        turned: at,
        hole_from: at,
        hole_to: at,
        width: mm(land),
        height: mm(land),
        drill: Some(mm(drill)),
        plated: true,
        smd: false,
        top: true,
        bottom: true,
        mask_margin: None,
        net: None,
        copper: no_copper(),
        copper_mask: 3,
    }
}

fn placed(entity: u32, refdes: &str, x: f64, y: f64, pads: Vec<PadSite>) -> Component {
    Component {
        entity,
        refdes: refdes.to_string(),
        position: Point::new(mm(x), mm(y)),
        pads,
        builtin: true,
        quarter_turn: false,
        courtyard: None,
    }
}

/// An 0402 resistor: two 0.5mm square pads a millimetre apart, centre to
/// centre, the first on `nets.0` and the second on `nets.1`.
fn r0402(entity: u32, refdes: &str, x: f64, y: f64, nets: (Option<u32>, Option<u32>)) -> Component {
    let mut one = smd("1", -0.5, 0.0, 0.5, 0.5);
    one.net = nets.0;
    let mut two = smd("2", 0.5, 0.0, 0.5, 0.5);
    two.net = nets.1;
    placed(entity, refdes, x, y, vec![one, two])
}

/// A DIP-8: eight 1.6mm round lands on 0.8mm drills, 2.54mm apart in two
/// rows 7.62mm apart.
fn dip8(entity: u32, refdes: &str, x: f64, y: f64) -> Component {
    let mut pads = Vec::new();
    for i in 0..4 {
        let along = -3.81 + 2.54 * i as f64;
        pads.push(drilled(&(i + 1).to_string(), -3.81, along, 1.6, 0.8));
    }
    for i in 0..4 {
        let along = 3.81 - 2.54 * i as f64;
        pads.push(drilled(&(i + 5).to_string(), 3.81, along, 1.6, 0.8));
    }
    placed(entity, refdes, x, y, pads)
}

/// An SOIC-8: eight SMD pads, pins 1 to 8.
fn soic8(entity: u32, refdes: &str, x: f64, y: f64, nets: &[(usize, u32)]) -> Component {
    let mut pads = Vec::new();
    for i in 0..8 {
        let (side, along) = if i < 4 { (-2.7, -1.905 + 1.27 * i as f64) } else { (2.7, 1.905 - 1.27 * (i - 4) as f64) };
        let mut pad = smd(&(i + 1).to_string(), side, along, 1.55, 0.6);
        pad.net = nets.iter().find(|(pin, _)| *pin == i + 1).map(|(_, net)| *net);
        pads.push(pad);
    }
    placed(entity, refdes, x, y, pads)
}

/// A part whose footprint the library does not have: nothing is known of its
/// pads.
fn unknown_part(entity: u32, refdes: &str, x: f64, y: f64) -> Component {
    Component { builtin: false, ..placed(entity, refdes, x, y, Vec::new()) }
}

// Annular rings.

#[test]
fn test_adequate_annular_ring_passes() {
    let mut board = empty_board();
    board.components.push(dip8(1, "U1", 10.0, 20.0));
    let violations = AnnularRingRule.check(&board, &jlcpcb_2layer());
    assert!(violations.is_empty(), "DIP-8 should pass standard annular ring check");
}

#[test]
fn test_insufficient_annular_ring_fails() {
    let mut board = empty_board();
    board.components.push(dip8(1, "U1", 10.0, 20.0));
    let rules = DesignRules { min_annular_ring: mm(0.5), ..jlcpcb_2layer() };
    let violations = AnnularRingRule.check(&board, &rules);
    assert_eq!(violations.len(), 8, "All 8 DIP-8 pads should fail");
    for v in &violations {
        assert_eq!(v.kind, ViolationKind::AnnularRing);
    }
}

#[test]
fn test_smd_pad_exempt() {
    let mut board = empty_board();
    board.components.push(r0402(1, "R1", 10.0, 20.0, (None, None)));
    let rules = DesignRules { min_annular_ring: mm(10.0), ..jlcpcb_2layer() };
    let violations = AnnularRingRule.check(&board, &rules);
    assert!(violations.is_empty(), "SMD pads should not trigger annular ring violations");
}

#[test]
fn test_empty_world() {
    assert!(AnnularRingRule.check(&empty_board(), &jlcpcb_2layer()).is_empty());
}

#[test]
fn annular_ring_test_unknown_footprint_skipped() {
    let mut board = empty_board();
    board.components.push(unknown_part(1, "X1", 10.0, 20.0));
    assert!(AnnularRingRule.check(&board, &jlcpcb_2layer()).is_empty());
}

#[test]
fn test_violation_message_includes_dimensions() {
    let mut board = empty_board();
    board.components.push(dip8(1, "U1", 10.0, 20.0));
    let rules = DesignRules { min_annular_ring: mm(0.5), ..jlcpcb_2layer() };
    let violations = AnnularRingRule.check(&board, &rules);
    assert!(!violations.is_empty());
    assert!(violations[0].message.contains("0.400"), "Should show actual ring width (0.4mm)");
    assert!(violations[0].message.contains("0.500"), "Should show required ring width (0.5mm)");
}

// Unconnected pins.

#[test]
fn test_unconnected_pin_detected() {
    let mut board = empty_board();
    board.components.push(r0402(1, "R1", 10.0, 20.0, (Some(1), None)));
    let violations = UnconnectedPinRule.check(&board, &jlcpcb_2layer());
    assert_eq!(violations.len(), 1, "Should detect 1 unconnected pin");
    assert_eq!(violations[0].kind, ViolationKind::UnconnectedPin);
    assert!(violations[0].message.contains("R1.2"), "Should report pin 2");
}

#[test]
fn test_fully_connected_no_violation() {
    let mut board = empty_board();
    board.components.push(r0402(1, "R1", 10.0, 20.0, (Some(1), Some(2))));
    let violations = UnconnectedPinRule.check(&board, &jlcpcb_2layer());
    assert!(violations.is_empty(), "Fully connected component should pass");
}

#[test]
fn test_all_pins_unconnected() {
    let mut board = empty_board();
    board.components.push(r0402(1, "R1", 10.0, 20.0, (None, None)));
    let violations = UnconnectedPinRule.check(&board, &jlcpcb_2layer());
    assert_eq!(violations.len(), 2, "Both pins should be unconnected");
}

#[test]
fn connectivity_test_empty_world_no_violations() {
    assert!(UnconnectedPinRule.check(&empty_board(), &jlcpcb_2layer()).is_empty());
}

#[test]
fn connectivity_test_unknown_footprint_skipped() {
    let mut board = empty_board();
    board.components.push(unknown_part(1, "X1", 10.0, 20.0));
    let violations = UnconnectedPinRule.check(&board, &jlcpcb_2layer());
    assert!(violations.is_empty(), "Unknown footprints should be skipped");
}

#[test]
fn test_multiple_components() {
    let (vcc, gnd) = (1, 2);
    let mut board = empty_board();
    board.components.push(r0402(1, "R1", 10.0, 10.0, (Some(vcc), Some(gnd))));
    board.components.push(r0402(2, "R2", 20.0, 10.0, (Some(vcc), None)));
    board.components.push(r0402(3, "R3", 30.0, 10.0, (None, None)));
    let violations = UnconnectedPinRule.check(&board, &jlcpcb_2layer());
    assert_eq!(violations.len(), 3, "Expected 3 violations total");
    let messages: Vec<_> = violations.iter().map(|v| v.message.clone()).collect();
    assert!(messages.iter().any(|m| m.contains("R2.2")));
    assert!(messages.iter().any(|m| m.contains("R3.1")));
    assert!(messages.iter().any(|m| m.contains("R3.2")));
    assert!(!messages.iter().any(|m| m.contains("R1")));
}

#[test]
fn test_ic_footprint_many_pins() {
    let (vcc, gnd, sig1, sig2) = (1, 2, 3, 4);
    let mut board = empty_board();
    board.components.push(soic8(1, "U1", 50.0, 50.0, &[(1, sig1), (4, gnd), (5, sig2), (8, vcc)]));
    let violations = UnconnectedPinRule.check(&board, &jlcpcb_2layer());
    assert_eq!(violations.len(), 4, "Should detect 4 unconnected pins");
    let messages: Vec<_> = violations.iter().map(|v| v.message.clone()).collect();
    assert!(messages.iter().any(|m| m.contains("U1.2")));
    assert!(messages.iter().any(|m| m.contains("U1.3")));
    assert!(messages.iter().any(|m| m.contains("U1.6")));
    assert!(messages.iter().any(|m| m.contains("U1.7")));
}

// Drill sizes.

#[test]
fn test_small_drill_violation() {
    let mut board = empty_board();
    board.components.push(dip8(1, "U1", 10.0, 20.0));
    let rules = DesignRules { min_drill_size: mm(1.5), ..jlcpcb_2layer() };
    let violations = MinDrillSizeRule.check(&board, &rules);
    assert_eq!(violations.len(), 8);
    for v in &violations {
        assert_eq!(v.kind, ViolationKind::DrillSize);
    }
}

#[test]
fn test_adequate_drill_no_violation() {
    let mut board = empty_board();
    board.components.push(dip8(1, "U1", 10.0, 20.0));
    let rules = DesignRules { min_drill_size: mm(0.8), ..jlcpcb_2layer() };
    assert!(MinDrillSizeRule.check(&board, &rules).is_empty());
}

#[test]
fn test_smd_pad_no_violation() {
    let mut board = empty_board();
    board.components.push(r0402(1, "R1", 10.0, 20.0, (None, None)));
    let rules = DesignRules { min_drill_size: mm(1.0), ..jlcpcb_2layer() };
    let violations = MinDrillSizeRule.check(&board, &rules);
    assert!(violations.is_empty(), "SMD pads should not trigger drill violations");
}

#[test]
fn drill_size_test_empty_world_no_violations() {
    assert!(MinDrillSizeRule.check(&empty_board(), &jlcpcb_2layer()).is_empty());
}

#[test]
fn drill_size_test_unknown_footprint_skipped() {
    let mut board = empty_board();
    board.components.push(unknown_part(1, "X1", 10.0, 20.0));
    let violations = MinDrillSizeRule.check(&board, &jlcpcb_2layer());
    assert!(violations.is_empty(), "Unknown footprints should be skipped");
}

#[test]
fn test_violation_has_correct_location() {
    let mut board = empty_board();
    board.components.push(dip8(1, "U1", 100.0, 50.0));
    let rules = DesignRules { min_drill_size: mm(1.5), ..jlcpcb_2layer() };
    let violations = MinDrillSizeRule.check(&board, &rules);
    assert!(!violations.is_empty());
    for v in &violations {
        assert!(v.location.x > mm(90.0));
        assert!(v.location.x < mm(110.0));
    }
}

// Trace widths.

fn trace_of_width(entity: u32, width_mm: f64) -> Trace {
    Trace {
        entity,
        net: 1,
        width: mm(width_mm),
        segments: vec![Segment { start: Point::new(mm(10.0), mm(10.0)), end: Point::new(mm(20.0), mm(10.0)) }],
        layer_bit: Some(1),
        neck: None,
        length: mm(10.0),
        thin_run: None,
    }
}

#[test]
fn no_traces_no_violations() {
    assert!(MinTraceWidthRule.check(&empty_board(), &jlcpcb_2layer()).is_empty());
}

#[test]
fn trace_at_the_minimum_passes() {
    let rules = jlcpcb_2layer();
    let mut board = empty_board();
    board.traces.push(trace_of_width(1, 0.127));
    assert!(MinTraceWidthRule.check(&board, &rules).is_empty());
}

#[test]
fn trace_below_the_minimum_is_reported_once() {
    let rules = jlcpcb_2layer();
    let mut board = empty_board();
    board.traces.push(trace_of_width(1, 0.05));
    board.traces.push(trace_of_width(2, 0.3));
    let violations = MinTraceWidthRule.check(&board, &rules);
    assert_eq!(violations.len(), 1);
    assert_eq!(violations[0].kind, ViolationKind::TraceWidth);
    assert_eq!(violations[0].location, Point::new(mm(15.0), mm(10.0)));
    assert!(violations[0].message.contains("0.050mm actual"));
}

#[test]
fn stricter_preset_catches_more() {
    let mut board = empty_board();
    board.traces.push(trace_of_width(1, 0.2));
    assert!(MinTraceWidthRule.check(&board, &jlcpcb_2layer()).is_empty());
    assert_eq!(MinTraceWidthRule.check(&board, &prototype()).len(), 1);
}

// Via drills.

fn board_with_via(drill_mm: f64) -> Board {
    let mut board = empty_board();
    board.size = Some((mm(20.0), mm(20.0)));
    board.vias.push(Via {
        entity: 1,
        position: Point::new(mm(10.0), mm(10.0)),
        drill: mm(drill_mm),
        outer_diameter: mm(drill_mm * 2.0),
        start_layer: Layer::TopCopper,
        end_layer: Layer::BottomCopper,
        net: 1,
    });
    board
}

#[test]
fn a_hole_the_fab_cannot_drill_is_reported() {
    let violations = ViaDrillRule.check(&board_with_via(0.1), &jlcpcb_2layer());
    assert_eq!(violations.len(), 1);
    assert_eq!(violations[0].kind, ViolationKind::ViaDrill);
    assert!(
        violations[0].message.contains("0.10mm") && violations[0].message.contains("0.30mm"),
        "the message states what was drawn and what is possible: {}",
        violations[0].message
    );
}

#[test]
fn a_hole_the_fab_can_drill_is_not() {
    assert!(ViaDrillRule.check(&board_with_via(0.4), &jlcpcb_2layer()).is_empty());
}

#[test]
fn exactly_the_minimum_passes() {
    assert!(ViaDrillRule.check(&board_with_via(0.3), &jlcpcb_2layer()).is_empty());
}

// Pad lands.

fn board_with_land(land_mm: f64, drill_mm: f64) -> Board {
    let mut board = empty_board();
    board.size = Some((mm(20.0), mm(20.0)));
    board.components.push(placed(1, "J1", 10.0, 10.0, vec![drilled("1", 0.0, 0.0, land_mm, drill_mm)]));
    board
}

#[test]
fn a_land_under_the_fabs_floor_is_reported() {
    let violations = PadLandRule.check(&board_with_land(0.4, 0.2), &jlcpcb_2layer());
    assert_eq!(violations.len(), 1, "{violations:?}");
    assert_eq!(violations[0].kind, ViolationKind::PadLand);
    assert!(violations[0].message.contains("J1.1"), "the message names the pin: {}", violations[0].message);
}

#[test]
fn a_land_at_the_floor_passes() {
    let violations = PadLandRule.check(&board_with_land(0.5, 0.2), &jlcpcb_2layer());
    assert!(violations.is_empty(), "{violations:?}");
}

#[test]
fn a_generous_ring_does_not_excuse_a_small_land() {
    let board = board_with_land(0.4, 0.1);
    let rules = jlcpcb_2layer();
    let ring = (mm(0.4) - mm(0.1)) / 2;
    assert!(ring >= rules.min_annular_ring, "the premise of this test: {ring}nm of ring against {}nm required", rules.min_annular_ring);
    assert_eq!(PadLandRule.check(&board, &rules).len(), 1);
}

#[test]
fn an_smd_pad_has_no_land_to_measure() {
    let mut board = empty_board();
    board.size = Some((mm(20.0), mm(20.0)));
    board.components.push(placed(9, "J9", 10.0, 10.0, vec![smd("A1", 0.0, 0.0, 0.25, 1.0)]));
    let rules = jlcpcb_2layer();
    assert!(mm(0.25) < rules.min_pad_size, "the premise: 0.25mm is under the {}nm this rule enforces", rules.min_pad_size);
    let violations = PadLandRule.check(&board, &rules);
    assert!(violations.is_empty(), "an SMD pad has no hole, so it has no land this figure governs: {violations:?}");
}

// Solder mask webs.

#[test]
fn a_lone_footprints_own_pads_keep_their_web() {
    let mut board = empty_board();
    board.components.push(r0402(1, "R1", 10.0, 10.0, (None, None)));
    assert!(SolderMaskBridgeRule.check(&board, &jlcpcb_2layer()).is_empty());
}

#[test]
fn parts_placed_far_apart_are_fine() {
    let mut board = empty_board();
    board.components.push(r0402(1, "R1", 10.0, 10.0, (None, None)));
    board.components.push(r0402(2, "R2", 15.0, 10.0, (None, None)));
    assert!(SolderMaskBridgeRule.check(&board, &jlcpcb_2layer()).is_empty());
}

#[test]
fn overlapping_neighbours_are_reported() {
    let mut board = empty_board();
    board.components.push(r0402(1, "R1", 10.0, 10.0, (None, None)));
    board.components.push(r0402(2, "R2", 10.5, 10.0, (None, None)));
    let violations = SolderMaskBridgeRule.check(&board, &jlcpcb_2layer());
    assert!(!violations.is_empty());
    assert_eq!(violations[0].kind, ViolationKind::SolderMaskBridge);
    assert!(violations[0].message.contains("0.10mm required"));
}

// Every rule on an empty board.

#[test]
fn test_rule_check_empty_world() {
    let board = empty_board();
    let rules = jlcpcb_2layer();
    assert!(MinDrillSizeRule.check(&board, &rules).is_empty());
    assert!(MinTraceWidthRule.check(&board, &rules).is_empty());
    assert!(UnconnectedPinRule.check(&board, &rules).is_empty());
    assert!(KeepoutRule.check(&board).is_empty());
    assert!(AnnularRingRule.check(&board, &rules).is_empty());
    assert!(HoleToHoleRule.check(&board, &rules).is_empty());
    assert!(ViaDiameterRule.check(&board, &rules).is_empty());
    assert!(CourtyardClearanceRule.check(&board, &rules).is_empty());
    assert!(SolderMaskBridgeRule.check(&board, &rules).is_empty());
}
