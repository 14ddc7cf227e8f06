use lib::checker::run_rules;
use lib::rules::via_span::{span_of, Span};
use lib::rules::{DiffPairSkewRule, FlexTraceAngleRule, NeckDownRule, PourIslandRule, SlotClearanceRule};
use lib::rules::slot_clearance::box_to_slot_gap;
use lib::rules::Hole;
use lib::board::{CopperEntry, DiffPair, Neck, NetLink, NetName, NetRule, PourFill};
use lib::rules::{
    AnnularRingRule, EdgeClearanceRule, HoleToEdgeRule, HoleToHoleRule, MountingHoleClearanceRule, MinDrillSizeRule, MinTraceWidthRule, PadLandRule,
    StackupRule, UnconnectedPinRule, ViaDiameterRule, ViaDrillRule,
};
use lib::board::{Board, Component, Layer, PadSite, Segment, Trace, Via, Zone, ZoneKind};
use lib::rules::clearance::{Aabb, Copper};
use lib::rules::{AreaOffBoardRule, AreaOverlapRule, EmptyAreaRule, FlexHoleRule, UnroutedPinRule};
use lib::board::{StackArea, StackLayer, Stackup};
use lib::geometry::{Point, Rect};
use lib::presets::DesignRules;
use lib::rules::{
    CourtyardClearanceRule, DrillAspectRatioRule, KeepoutRule, PasteClearanceRule,
    SolderMaskBridgeRule, ZoneOverlapRule,
};
use lib::ViolationKind;

fn mm(v: f64) -> i64 {
    (v * 1_000_000.0).round() as i64
}

fn rules() -> DesignRules {
    DesignRules {
        min_clearance: mm(0.127),
        min_trace_width: mm(0.127),
        min_drill_size: mm(0.3),
        min_via_drill: mm(0.3),
        min_via_diameter: mm(0.6),
        min_annular_ring: mm(0.13),
        min_silk_width: mm(0.15),
        min_edge_clearance: mm(0.3),
        min_hole_to_hole: mm(0.5),
        min_solder_mask_bridge: mm(0.1),
        min_paste_clearance: mm(0.1),
        min_pad_size: mm(0.56),
        min_slot_clearance: mm(0.3),
        min_hole_to_edge: mm(0.3),
        solder_mask_expansion: mm(0.05),
        min_silk_clearance: mm(0.15),
        min_courtyard_clearance: mm(0.25),
        copper_weight_oz_x10: 10,
        max_diff_pair_skew: mm(0.1),
        max_drill_aspect_ratio: 800,
        board_thickness: mm(1.6),
    }
}

fn empty_board() -> Board {
    Board {
        vias: Vec::new(),
        components: Vec::new(),
        traces: Vec::new(),
        zones: Vec::new(),
        net_rules: Vec::new(),
        stackup_thickness: None,
        size: None,
        stack_areas: None,
        stackup: None,
        layer_count: None,
        board_entity: None,
        nets: Vec::new(),
        diff_pairs: Vec::new(),
        pour_fills: Vec::new(),
        copper_entries: Vec::new(),
        net_links: Vec::new(),
        net_ids: Vec::new(),
        outline: None,
    }
}

fn smd_pad(number: &str, x: f64, y: f64, w: f64, h: f64) -> PadSite {
    let at = Point::new(mm(x), mm(y));
    PadSite {
        number: number.to_string(),
        offset: at,
        turned: at,
        hole_from: at,
        hole_to: at,
        width: mm(w),
        height: mm(h),
        drill: None,
        plated: false,
        smd: true,
        top: true,
        bottom: false,
        mask_margin: None,
        net: None,
        copper: Copper { core: Aabb { lower: [0, 0], upper: [0, 0] }, radius: 0 },
        copper_mask: 1,
    }
}

fn thru_pad(number: &str, x: f64, y: f64, size: f64, drill: f64, plated: bool) -> PadSite {
    let at = Point::new(mm(x), mm(y));
    PadSite {
        number: number.to_string(),
        offset: at,
        turned: at,
        hole_from: at,
        hole_to: at,
        width: mm(size),
        height: mm(size),
        drill: Some(mm(drill)),
        plated,
        smd: false,
        top: true,
        bottom: true,
        mask_margin: None,
        net: None,
        copper: Copper { core: Aabb { lower: [0, 0], upper: [0, 0] }, radius: 0 },
        copper_mask: 3,
    }
}

fn part(entity: u32, refdes: &str, x: f64, y: f64, pads: Vec<PadSite>) -> Component {
    Component {
        entity,
        refdes: refdes.to_string(),
        position: Point::new(mm(x), mm(y)),
        pads,
        builtin: true,
        quarter_turn: false,
        courtyard: None,
    }
}

fn zone(entity: u32, min: (f64, f64), max: (f64, f64), kind: ZoneKind, name: Option<&str>) -> Zone {
    Zone {
        entity,
        bounds: Rect { min: Point::new(mm(min.0), mm(min.1)), max: Point::new(mm(max.0), mm(max.1)) },
        kind,
        layer_mask: 0xFFFF_FFFF,
        name: name.map(|n| n.to_string()),
        net: None,
    }
}

fn pour(entity: u32, centre: (f64, f64), size: (f64, f64), net: u32, layer_mask: u32) -> Zone {
    Zone {
        entity,
        bounds: Rect {
            min: Point::new(mm(centre.0 - size.0 / 2.0), mm(centre.1 - size.1 / 2.0)),
            max: Point::new(mm(centre.0 + size.0 / 2.0), mm(centre.1 + size.1 / 2.0)),
        },
        kind: ZoneKind::CopperPour,
        layer_mask,
        name: None,
        net: Some(net),
    }
}

const TOP: u32 = 1;
const BOTTOM: u32 = 2;

#[test]
fn test_keepout_rule_detects_violation() {
    let mut board = empty_board();
    board.zones.push(zone(100, (10.0, 10.0), (20.0, 20.0), ZoneKind::Keepout, Some("test_zone")));
    board.components.push(part(1, "R1", 15.0, 15.0, Vec::new()));
    let violations = KeepoutRule.check(&board);
    assert_eq!(violations.len(), 1, "expected 1 violation");
    assert_eq!(violations[0].kind, ViolationKind::KeepoutViolation);
    assert!(violations[0].message.contains("R1"));
    assert!(violations[0].message.contains("test_zone"));
}

#[test]
fn test_keepout_rule_no_violation_outside() {
    let mut board = empty_board();
    board.zones.push(zone(100, (10.0, 10.0), (20.0, 20.0), ZoneKind::Keepout, Some("test_zone")));
    board.components.push(part(1, "R1", 5.0, 5.0, Vec::new()));
    assert!(KeepoutRule.check(&board).is_empty(), "expected no violations");
}

#[test]
fn test_keepout_rule_ignores_copper_pour_zones() {
    let mut board = empty_board();
    board.zones.push(zone(100, (0.0, 0.0), (50.0, 50.0), ZoneKind::CopperPour, Some("gnd_pour")));
    board.components.push(part(1, "R1", 15.0, 15.0, Vec::new()));
    assert!(
        KeepoutRule.check(&board).is_empty(),
        "copper pour zones should not trigger keepout violations"
    );
}

#[test]
fn test_keepout_rule_multiple_components() {
    let mut board = empty_board();
    board.zones.push(zone(100, (10.0, 10.0), (20.0, 20.0), ZoneKind::Keepout, None));
    board.components.push(part(1, "R1", 15.0, 15.0, Vec::new()));
    board.components.push(part(2, "R2", 5.0, 5.0, Vec::new()));
    board.components.push(part(3, "R3", 12.0, 18.0, Vec::new()));
    let violations = KeepoutRule.check(&board);
    assert_eq!(violations.len(), 2, "expected 2 violations (R1 and R3)");
    let messages: Vec<_> = violations.iter().map(|v| v.message.clone()).collect();
    assert!(messages.iter().any(|m| m.contains("R1")));
    assert!(messages.iter().any(|m| m.contains("R3")));
    assert!(!messages.iter().any(|m| m.contains("R2")));
}

#[test]
fn a_part_on_the_edge_of_a_keepout_is_in_it() {
    let mut board = empty_board();
    board.zones.push(zone(100, (10.0, 10.0), (20.0, 20.0), ZoneKind::Keepout, None));
    board.components.push(part(1, "R1", 20.0, 10.0, Vec::new()));
    let violations = KeepoutRule.check(&board);
    assert_eq!(violations.len(), 1);
    assert_eq!(violations[0].message, "Component R1 placed in keepout zone");
    assert_eq!(violations[0].other_entity, Some(100));
}

#[test]
fn two_pours_on_different_nets_over_the_same_copper_are_a_short() {
    let mut board = empty_board();
    board.zones.push(pour(10, (10.0, 10.0), (12.0, 12.0), 1, TOP));
    board.zones.push(pour(11, (14.0, 10.0), (12.0, 12.0), 2, TOP));
    let violations = ZoneOverlapRule.check(&board, &rules());
    assert_eq!(
        violations.len(),
        1,
        "a ground plane over a supply plane is a short across their whole overlap"
    );
}

#[test]
fn the_same_net_twice_is_one_plane_drawn_twice() {
    let mut board = empty_board();
    board.zones.push(pour(10, (10.0, 10.0), (12.0, 12.0), 1, TOP));
    board.zones.push(pour(11, (14.0, 10.0), (12.0, 12.0), 1, TOP));
    assert!(ZoneOverlapRule.check(&board, &rules()).is_empty());
}

#[test]
fn planes_on_different_layers_do_not_touch() {
    let mut board = empty_board();
    board.zones.push(pour(10, (10.0, 10.0), (12.0, 12.0), 1, TOP));
    board.zones.push(pour(11, (10.0, 10.0), (12.0, 12.0), 2, BOTTOM));
    assert!(ZoneOverlapRule.check(&board, &rules()).is_empty());
}

#[test]
fn planes_that_only_meet_at_an_edge_are_not_overlapping() {
    let mut board = empty_board();
    board.zones.push(pour(10, (10.0, 10.0), (10.0, 10.0), 1, TOP));
    board.zones.push(pour(11, (20.0, 10.0), (10.0, 10.0), 2, TOP));
    assert!(ZoneOverlapRule.check(&board, &rules()).is_empty());
}

#[test]
fn a_short_between_pours_is_reported_at_the_middle_of_the_overlap() {
    let mut board = empty_board();
    board.zones.push(pour(10, (10.0, 10.0), (12.0, 12.0), 1, TOP));
    board.zones.push(pour(11, (14.0, 10.0), (12.0, 12.0), 2, TOP | BOTTOM));
    let violations = ZoneOverlapRule.check(&board, &rules());
    assert_eq!(violations.len(), 1);
    let v = &violations[0];
    assert_eq!(v.kind, ViolationKind::Clearance);
    assert_eq!((v.entity, v.other_entity), (10, Some(11)));
    assert_eq!(v.location, Point::new(mm(12.0), mm(10.0)));
    assert_eq!(v.actual, Some(0));
    assert_eq!(v.message, "Clearance violation: 0.00mm actual, 0.13mm required");
}

#[test]
fn a_keepout_is_not_a_pour() {
    let mut board = empty_board();
    board.zones.push(pour(10, (10.0, 10.0), (12.0, 12.0), 1, TOP));
    let mut keepout = pour(11, (14.0, 10.0), (12.0, 12.0), 2, TOP);
    keepout.kind = ZoneKind::Keepout;
    board.zones.push(keepout);
    assert!(ZoneOverlapRule.check(&board, &rules()).is_empty());
}

fn two_pad_part(entity: u32, refdes: &str, x: f64) -> Component {
    // Two 0.5mm square pads a millimetre apart, centre to centre.
    part(
        entity,
        refdes,
        x,
        10.0,
        vec![smd_pad("1", -0.5, 0.0, 0.5, 0.5), smd_pad("2", 0.5, 0.0, 0.5, 0.5)],
    )
}

#[test]
fn a_lone_part_keeps_its_mask_web() {
    // Pads 0.5mm apart edge to edge, less 0.05mm of expansion on each side.
    let mut board = empty_board();
    board.components.push(two_pad_part(1, "R1", 10.0));
    assert!(SolderMaskBridgeRule.check(&board, &rules()).is_empty());
}

#[test]
fn neighbours_whose_mask_openings_run_together_are_reported() {
    let mut board = empty_board();
    board.components.push(two_pad_part(1, "R1", 10.0));
    board.components.push(two_pad_part(2, "R2", 11.1));
    let violations = SolderMaskBridgeRule.check(&board, &rules());
    // R1.2 at 10.5 and R2.1 at 10.6: openings 0.35mm half-wide overlap.
    assert_eq!(violations.len(), 1);
    let v = &violations[0];
    assert_eq!(v.kind, ViolationKind::SolderMaskBridge);
    assert_eq!((v.entity, v.other_entity), (1, Some(2)));
    assert_eq!(v.location, Point::new(mm(10.55), mm(10.0)));
    assert_eq!(v.message, "Solder mask bridge violation: 0.00mm actual, 0.10mm required");
}

#[test]
fn a_wider_expansion_eats_the_web() {
    let mut board = empty_board();
    board.components.push(two_pad_part(1, "R1", 10.0));
    board.components.push(two_pad_part(2, "R2", 12.0));
    let tight = rules();
    assert!(SolderMaskBridgeRule.check(&board, &tight).is_empty());
    let generous = DesignRules { solder_mask_expansion: mm(0.3), ..tight };
    assert!(!SolderMaskBridgeRule.check(&board, &generous).is_empty());
}

#[test]
fn a_pads_own_margin_wins_over_the_boards() {
    let mut board = empty_board();
    let mut r1 = two_pad_part(1, "R1", 10.0);
    r1.pads[1].mask_margin = Some(mm(0.2));
    let mut r2 = two_pad_part(2, "R2", 12.0);
    r2.pads[0].mask_margin = Some(mm(0.2));
    board.components.push(r1);
    board.components.push(r2);
    // Facing pads a millimetre apart, each opening 0.45mm half-wide: a
    // 0.10mm web, just what the rule asks.
    assert!(SolderMaskBridgeRule.check(&board, &rules()).is_empty());
    let mut board = board;
    board.components[0].pads[1].mask_margin = Some(mm(0.21));
    board.components[1].pads[0].mask_margin = Some(mm(0.21));
    let violations = SolderMaskBridgeRule.check(&board, &rules());
    assert_eq!(violations.len(), 1);
    assert!(violations[0].message.contains("0.08mm actual"));
}

#[test]
fn openings_on_opposite_faces_do_not_bridge() {
    let mut board = empty_board();
    board.components.push(two_pad_part(1, "R1", 10.0));
    let mut r2 = two_pad_part(2, "R2", 11.1);
    for pad in r2.pads.iter_mut() {
        pad.top = false;
        pad.bottom = true;
    }
    board.components.push(r2);
    assert!(SolderMaskBridgeRule.check(&board, &rules()).is_empty());
}

#[test]
fn a_thin_stencil_web_is_reported_with_its_width() {
    let mut board = empty_board();
    board.components.push(two_pad_part(1, "R1", 10.0));
    board.components.push(two_pad_part(2, "R2", 11.55));
    let violations = PasteClearanceRule.check(&board, &rules());
    // Apertures are the pads: R1.2 ends at 10.75, R2.1 starts at 10.8.
    assert_eq!(violations.len(), 1);
    let v = &violations[0];
    assert_eq!(v.kind, ViolationKind::PasteClearance);
    assert_eq!(v.actual, Some(mm(0.05)));
    assert_eq!(v.required, Some(mm(0.1)));
    assert_eq!(v.message, "Paste stencil web is 0.050mm, 0.100mm required");
}

#[test]
fn a_through_hole_pad_gets_no_stencil_aperture() {
    let mut board = empty_board();
    board.components.push(part(1, "J1", 10.0, 10.0, vec![thru_pad("1", 0.0, 0.0, 1.5, 0.8, true)]));
    board.components.push(two_pad_part(2, "R2", 11.0));
    assert!(PasteClearanceRule.check(&board, &rules()).is_empty());
    assert!(!SolderMaskBridgeRule.check(&board, &rules()).is_empty());
}

#[test]
fn a_via_too_narrow_for_the_board_is_reported() {
    let mut board = empty_board();
    board.vias.push(Via {
        entity: 5,
        position: Point::new(mm(3.0), mm(4.0)),
        drill: mm(0.15),
        outer_diameter: mm(0.45),
        start_layer: Layer::TopCopper,
        end_layer: Layer::BottomCopper,
        net: 1,
    });
    board.vias.push(Via {
        entity: 6,
        position: Point::new(mm(5.0), mm(4.0)),
        drill: mm(0.2),
        outer_diameter: mm(0.45),
        start_layer: Layer::TopCopper,
        end_layer: Layer::BottomCopper,
        net: 1,
    });
    let violations = DrillAspectRatioRule.check(&board, &rules());
    assert_eq!(violations.len(), 1);
    assert_eq!(violations[0].entity, 5);
    assert_eq!(violations[0].required, Some(mm(0.2)));
}

#[test]
fn a_stated_stackup_sets_the_depth() {
    let mut board = empty_board();
    board.stackup_thickness = Some(mm(0.8));
    board.components.push(part(
        1,
        "J1",
        10.0,
        10.0,
        vec![thru_pad("1", 0.0, 0.0, 1.5, 0.15, true), thru_pad("2", 2.0, 0.0, 1.5, 0.05, false)],
    ));
    // 0.8mm at 8:1 plates down to 0.1mm; the bare hole is not asked.
    assert!(DrillAspectRatioRule.check(&board, &rules()).is_empty());
    board.stackup_thickness = None;
    let violations = DrillAspectRatioRule.check(&board, &rules());
    assert_eq!(violations.len(), 1);
    assert_eq!(violations[0].location, Point::new(mm(10.0), mm(10.0)));
}

#[test]
fn no_published_ratio_no_floor() {
    let mut board = empty_board();
    board.components.push(part(1, "J1", 10.0, 10.0, vec![thru_pad("1", 0.0, 0.0, 1.5, 0.05, true)]));
    let open = DesignRules { max_drill_aspect_ratio: 0, ..rules() };
    assert!(DrillAspectRatioRule.check(&board, &open).is_empty());
}

fn with_courtyard(mut c: Component, min: (f64, f64), max: (f64, f64)) -> Component {
    c.courtyard = Some(Rect {
        min: Point::new(mm(min.0), mm(min.1)),
        max: Point::new(mm(max.0), mm(max.1)),
    });
    c
}

#[test]
fn courtyards_closer_than_the_rule_are_reported() {
    let mut board = empty_board();
    board.components.push(with_courtyard(part(1, "R1", 0.0, 0.0, Vec::new()), (0.0, 0.0), (2.0, 1.0)));
    board.components.push(with_courtyard(part(2, "R2", 0.0, 0.0, Vec::new()), (2.1, 0.0), (4.0, 1.0)));
    board.components.push(with_courtyard(part(3, "R3", 0.0, 0.0, Vec::new()), (10.0, 0.0), (12.0, 1.0)));
    board.components.push(part(4, "R4", 2.0, 0.5, Vec::new()));
    let violations = CourtyardClearanceRule.check(&board, &rules());
    assert_eq!(violations.len(), 1);
    let v = &violations[0];
    assert_eq!((v.entity, v.other_entity), (1, Some(2)));
    assert_eq!(v.actual, Some(mm(0.1)));
    assert_eq!(v.location, Point::new(mm(1.0), mm(0.5)));
    assert_eq!(v.message, "Courtyard overlap: 0.10mm actual, 0.25mm required");
}

#[test]
fn diagonal_courtyards_are_measured_corner_to_corner() {
    let mut board = empty_board();
    board.components.push(with_courtyard(part(1, "R1", 0.0, 0.0, Vec::new()), (0.0, 0.0), (1.0, 1.0)));
    board.components.push(with_courtyard(part(2, "R2", 0.0, 0.0, Vec::new()), (1.1, 1.1), (2.0, 2.0)));
    let violations = CourtyardClearanceRule.check(&board, &rules());
    assert_eq!(violations.len(), 1);
    // sqrt(0.1^2 + 0.1^2) mm, rounded down to the nanometre.
    assert_eq!(violations[0].actual, Some(141_421));
}

/// A pad on `net` whose copper is a square `size` wide around its place on
/// the board, for a part at the origin.
fn netted_pad(number: &str, x: f64, y: f64, size: f64, net: u32) -> PadSite {
    let mut p = smd_pad(number, x, y, size, size);
    p.net = Some(net);
    let h = mm(size / 2.0);
    p.copper = Copper {
        core: Aabb { lower: [mm(x) - h, mm(y) - h], upper: [mm(x) + h, mm(y) + h] },
        radius: 0,
    };
    p
}

fn trace(entity: u32, net: u32, width: f64, from: (f64, f64), to: (f64, f64)) -> Trace {
    Trace {
        entity,
        net,
        width: mm(width),
        segments: vec![Segment {
            start: Point::new(mm(from.0), mm(from.1)),
            end: Point::new(mm(to.0), mm(to.1)),
        }],
        layer_bit: Some(1),
        neck: None,
        length: 0,
        thin_run: None,
    }
}

#[test]
fn a_pin_no_copper_reaches_is_reported() {
    let mut board = empty_board();
    board.components.push(part(1, "R1", 0.0, 0.0, vec![netted_pad("1", 0.0, 0.0, 1.0, 7)]));
    board.components.push(part(2, "R2", 0.0, 0.0, vec![netted_pad("1", 10.0, 0.0, 1.0, 7)]));
    // A trace of the net that stops 1mm short of R2's pad.
    board.traces.push(trace(20, 7, 0.2, (0.0, 0.0), (8.5, 0.0)));
    let violations = UnroutedPinRule.check(&board);
    assert_eq!(violations.len(), 1);
    let v = &violations[0];
    assert_eq!(v.kind, ViolationKind::UnroutedPin);
    assert_eq!(v.entity, 2);
    assert_eq!(v.location, Point::new(mm(10.0), 0));
    assert_eq!(v.message, "R2.1 is on a net that no copper reaches");
}

#[test]
fn a_trace_that_touches_the_pad_reaches_it() {
    let mut board = empty_board();
    board.components.push(part(1, "R1", 0.0, 0.0, vec![netted_pad("1", 0.0, 0.0, 1.0, 7)]));
    board.components.push(part(2, "R2", 0.0, 0.0, vec![netted_pad("1", 10.0, 0.0, 1.0, 7)]));
    // Ends 0.1mm short of the pad's edge: half the 0.2mm width closes it.
    board.traces.push(trace(20, 7, 0.2, (0.0, 0.0), (9.4, 0.0)));
    assert!(UnroutedPinRule.check(&board).is_empty());
}

#[test]
fn copper_of_another_net_or_layer_reaches_nothing() {
    let mut board = empty_board();
    board.components.push(part(1, "R1", 0.0, 0.0, vec![netted_pad("1", 0.0, 0.0, 1.0, 7)]));
    board.components.push(part(2, "R2", 0.0, 0.0, vec![netted_pad("1", 10.0, 0.0, 1.0, 7)]));
    board.traces.push(trace(20, 8, 0.2, (0.0, 0.0), (10.0, 0.0)));
    let mut other_layer = trace(21, 7, 0.2, (0.0, 0.0), (10.0, 0.0));
    other_layer.layer_bit = Some(2);
    board.traces.push(other_layer);
    assert_eq!(UnroutedPinRule.check(&board).len(), 2);
}

#[test]
fn a_via_or_a_pour_reaches_a_pad_it_touches() {
    let mut board = empty_board();
    board.components.push(part(1, "R1", 0.0, 0.0, vec![netted_pad("1", 0.0, 0.0, 1.0, 7)]));
    board.components.push(part(2, "R2", 0.0, 0.0, vec![netted_pad("1", 10.0, 0.0, 1.0, 7)]));
    board.vias.push(Via {
        entity: 30,
        position: Point::new(mm(0.8), 0),
        drill: mm(0.3),
        outer_diameter: mm(0.6),
        start_layer: Layer::TopCopper,
        end_layer: Layer::BottomCopper,
        net: 7,
    });
    let mut plane = pour(40, (12.0, 0.0), (3.0, 3.0), 7, 1);
    plane.name = Some("GND".to_string());
    board.zones.push(plane);
    assert!(UnroutedPinRule.check(&board).is_empty());
}

#[test]
fn a_net_with_one_pad_has_nothing_to_route_to() {
    let mut board = empty_board();
    board.components.push(part(1, "R1", 0.0, 0.0, vec![netted_pad("1", 0.0, 0.0, 1.0, 7)]));
    board.components.push(part(2, "R2", 0.0, 0.0, vec![netted_pad("1", 10.0, 0.0, 1.0, 8)]));
    assert!(UnroutedPinRule.check(&board).is_empty());
}

fn region(entity: u32, kind: ZoneKind, min: (f64, f64), max: (f64, f64), name: Option<&str>) -> Zone {
    let mut z = zone(entity, min, max, kind, name);
    z.layer_mask = 1;
    z
}

#[test]
fn an_area_with_no_width_contains_nothing() {
    let mut board = empty_board();
    board.zones.push(region(50, ZoneKind::Region, (10.0, 5.0), (10.0, 25.0), Some("connector_end")));
    board.zones.push(region(51, ZoneKind::Flex, (0.0, 0.0), (20.0, 20.0), None));
    board.zones.push(region(52, ZoneKind::Keepout, (3.0, 4.0), (8.0, 4.0), None));
    board.zones.push(region(53, ZoneKind::CopperPour, (3.0, 4.0), (3.0, 4.0), Some("GND")));
    let violations = EmptyAreaRule.check(&board);
    assert_eq!(violations.len(), 3);
    assert_eq!(violations[0].entity, 50);
    assert_eq!(
        violations[0].message,
        "the named area 'connector_end' has no width: it runs 20.000mm down and 0mm across, so it contains nothing: every reader of it - the fabricator's document, the 3D view, the copper filler - is being pointed at a rectangle that is not there"
    );
    assert!(violations[1].message.starts_with("the keepout with no name has no height: it runs 5.000mm across"));
    assert!(violations[2].message.starts_with("the pour 'GND' has no width and no height"));
    assert_eq!(violations[2].location, Point::new(mm(3.0), mm(4.0)));
}

#[test]
fn a_hole_in_a_bend_is_reported() {
    let mut board = empty_board();
    board.zones.push(region(60, ZoneKind::Flex, (20.0, 0.0), (30.0, 20.0), Some("ribbon")));
    board.vias.push(Via {
        entity: 5,
        position: Point::new(mm(25.0), mm(10.0)),
        drill: mm(0.3),
        outer_diameter: mm(0.6),
        start_layer: Layer::TopCopper,
        end_layer: Layer::BottomCopper,
        net: 1,
    });
    board.vias.push(Via {
        entity: 6,
        position: Point::new(mm(5.0), mm(10.0)),
        drill: mm(0.3),
        outer_diameter: mm(0.6),
        start_layer: Layer::TopCopper,
        end_layer: Layer::BottomCopper,
        net: 1,
    });
    board.components.push(part(7, "J1", 20.0, 5.0, vec![thru_pad("1", 0.0, 0.0, 1.6, 1.0, false)]));
    let violations = FlexHoleRule.check(&board);
    assert_eq!(violations.len(), 2);
    assert_eq!(violations[0].entity, 5);
    assert_eq!(
        violations[0].message,
        "a hole 0.300mm across sits in the flexible region 'ribbon': the barrel is copper and the laminate around it moves, so a plated hole in a bend cracks"
    );
    assert_eq!(violations[1].entity, 7);
    assert_eq!(violations[1].location, Point::new(mm(20.0), mm(5.0)));
}

#[test]
fn a_board_that_does_not_bend_has_no_holes_in_a_bend() {
    let mut board = empty_board();
    board.components.push(part(7, "J1", 20.0, 5.0, vec![thru_pad("1", 0.0, 0.0, 1.6, 1.0, true)]));
    assert!(FlexHoleRule.check(&board).is_empty());
}

#[test]
fn an_area_hanging_off_the_board_says_which_edge() {
    let mut board = empty_board();
    board.size = Some((mm(40.0), mm(30.0)));
    board.zones.push(region(70, ZoneKind::Keepout, (35.0, 10.0), (42.5, 20.0), Some("antenna")));
    board.zones.push(region(71, ZoneKind::Region, (50.0, 5.0), (60.0, 10.0), None));
    board.zones.push(region(72, ZoneKind::CopperPour, (-5.0, -5.0), (45.0, 35.0), None));
    board.zones.push(region(73, ZoneKind::Flex, (1.0, 1.0), (39.0, 29.0), None));
    let violations = AreaOffBoardRule.check(&board);
    assert_eq!(violations.len(), 2);
    assert_eq!(
        violations[0].message,
        "the keepout 'antenna' hangs 2.500mm off the right edge of a 40.000mm by 30.000mm board: anything pointing at it - a `covers` clause in the stackup, the fabricator's document, the 3D view - is being sent to a part of the panel that is not there"
    );
    assert!(violations[1].message.starts_with("the named area with no name sits entirely off a 40.000mm by 30.000mm board"));
}

#[test]
fn equal_overhangs_name_the_last_side() {
    let mut board = empty_board();
    board.size = Some((mm(10.0), mm(10.0)));
    board.zones.push(region(80, ZoneKind::Region, (-1.0, -1.0), (5.0, 5.0), Some("corner")));
    let violations = AreaOffBoardRule.check(&board);
    assert_eq!(violations.len(), 1);
    assert!(violations[0].message.contains("off the bottom edge"));
}

#[test]
fn no_board_no_areas_off_it() {
    let mut board = empty_board();
    board.zones.push(region(80, ZoneKind::Region, (-1.0, -1.0), (5.0, 5.0), Some("corner")));
    assert!(AreaOffBoardRule.check(&board).is_empty());
}

#[test]
fn two_named_areas_over_one_strip_are_reported() {
    let mut board = empty_board();
    board.zones.push(region(90, ZoneKind::Region, (0.0, 0.0), (22.0, 16.0), Some("left")));
    board.zones.push(region(91, ZoneKind::Region, (20.0, 0.0), (40.0, 16.0), Some("right")));
    board.zones.push(region(92, ZoneKind::Flex, (5.0, 5.0), (30.0, 10.0), Some("ribbon")));
    board.stack_areas = Some(vec![
        StackArea { name: "right".to_string(), thickness: Some(mm(0.5)) },
        StackArea { name: "left".to_string(), thickness: Some(mm(1.0)) },
    ]);
    let violations = AreaOverlapRule.check(&board);
    assert_eq!(violations.len(), 1);
    let v = &violations[0];
    assert_eq!((v.entity, v.other_entity), (91, Some(90)));
    assert_eq!(v.location, Point::new(mm(20.0), 0));
    assert_eq!(
        v.message,
        "'right' and 'left' both cover 2.000mm by 16.000mm of board from (20.000mm, 0.000mm), where one stack is 0.500mm thick and the other 1.000mm: the stack states one build per area and the handoff document writes a group for each, so this strip is described twice"
    );
}

#[test]
fn areas_the_stack_does_not_name_may_overlap() {
    let mut board = empty_board();
    board.zones.push(region(90, ZoneKind::Region, (0.0, 0.0), (22.0, 16.0), Some("left")));
    board.zones.push(region(92, ZoneKind::Flex, (5.0, 5.0), (30.0, 10.0), Some("ribbon")));
    board.stack_areas = Some(vec![
        StackArea { name: "left".to_string(), thickness: None },
        StackArea { name: "missing".to_string(), thickness: None },
    ]);
    assert!(AreaOverlapRule.check(&board).is_empty());
    board.stack_areas = None;
    assert!(AreaOverlapRule.check(&board).is_empty());
}

fn summary(found: &[lib::DrcViolation]) -> Vec<(ViolationKind, u32, Option<u32>, String)> {
    found.iter().map(|v| (v.kind, v.entity, v.other_entity, v.message.clone())).collect()
}

#[test]
fn the_rules_run_in_the_checkers_fixed_sequence() {
    let mut board = empty_board();
    board.components.push(part(1, "U1", 10.0, 10.0, vec![thru_pad("1", 10.0, 10.0, 0.5, 0.2, true)]));
    board.components.push(part(2, "U2", 10.3, 10.0, vec![thru_pad("1", 10.3, 10.0, 0.5, 0.2, true)]));
    board.zones.push(zone(9, (0.0, 0.0), (20.0, 20.0), ZoneKind::Keepout, Some("KO")));
    board.layer_count = Some(4);
    board.board_entity = Some(50);
    board.stackup = Some(stack(&[(true, "copper"), (false, "core"), (true, "copper")], 2, vec![]));
    let r = rules();

    let mut expected = Vec::new();
    expected.extend(MinDrillSizeRule.check(&board, &r));
    expected.extend(MinTraceWidthRule.check(&board, &r));
    expected.extend(UnconnectedPinRule.check(&board, &r));
    expected.extend(KeepoutRule.check(&board));
    expected.extend(EdgeClearanceRule.check(&board, &r));
    expected.extend(AnnularRingRule.check(&board, &r));
    expected.extend(HoleToHoleRule.check(&board, &r));
    expected.extend(MountingHoleClearanceRule.check(&board, &r));
    expected.extend(ViaDiameterRule.check(&board, &r));
    expected.extend(ViaDrillRule.check(&board, &r));
    expected.extend(CourtyardClearanceRule.check(&board, &r));
    expected.extend(SolderMaskBridgeRule.check(&board, &r));
    expected.extend(NeckDownRule.check(&board, &r));
    expected.extend(ZoneOverlapRule.check(&board, &r));
    expected.extend(PourIslandRule.check(&board));
    expected.extend(UnroutedPinRule.check(&board));
    expected.extend(DiffPairSkewRule.check(&board, &r));
    expected.extend(StackupRule.check(&board));
    expected.extend(PasteClearanceRule.check(&board, &r));
    expected.extend(HoleToEdgeRule.check(&board, &r));
    expected.extend(SlotClearanceRule.check(&board, &r));
    expected.extend(PadLandRule.check(&board, &r));
    expected.extend(DrillAspectRatioRule.check(&board, &r));

    let found = run_rules(&board, &r);
    assert_eq!(summary(&found), summary(&expected));
    assert_eq!(found[0].kind, ViolationKind::DrillSize);
    let keepout_at = found.iter().position(|v| v.kind == ViolationKind::KeepoutViolation).unwrap();
    let hole_at = found.iter().position(|v| v.kind == ViolationKind::HoleToHole).unwrap();
    assert!(keepout_at < hole_at, "keepouts are checked before hole spacing");
    let stackup_at = found.iter().position(|v| v.kind == ViolationKind::Stackup).unwrap();
    assert!(hole_at < stackup_at, "the stackup is checked after hole spacing");
}

fn via_between(start: Layer, end: Layer) -> Via {
    Via {
        entity: 1,
        position: Point::new(0, 0),
        drill: mm(0.3),
        outer_diameter: mm(0.6),
        start_layer: start,
        end_layer: end,
        net: 1,
    }
}

#[test]
fn a_via_is_through_blind_or_buried_by_the_faces_it_reaches() {
    let through = via_between(Layer::BottomCopper, Layer::TopCopper);
    assert_eq!(span_of(&through, 4), Some(Span::Through));
    assert_eq!(span_of(&via_between(Layer::TopCopper, Layer::Inner(0)), 4), Some(Span::Blind));
    assert_eq!(span_of(&via_between(Layer::Inner(1), Layer::BottomCopper), 4), Some(Span::Blind));
    assert_eq!(span_of(&via_between(Layer::Inner(0), Layer::Inner(1)), 4), Some(Span::Buried));
}

#[test]
fn a_via_to_a_layer_the_board_lacks_has_no_span() {
    assert_eq!(span_of(&via_between(Layer::TopCopper, Layer::Inner(3)), 4), None);
    assert_eq!(span_of(&via_between(Layer::TopCopper, Layer::NonCopper), 4), None);
    assert_eq!(span_of(&via_between(Layer::TopCopper, Layer::BottomCopper), 0), None);
}

fn stack(layers: &[(bool, &str)], copper_count: usize, touching: Vec<usize>) -> Stackup {
    Stackup {
        layers: layers.iter().map(|(copper, kind)| StackLayer { copper: *copper, kind: kind.to_string() }).collect(),
        copper_count,
        copper_touching_copper: touching,
    }
}

#[test]
fn a_stackup_with_another_copper_count_is_reported_with_its_thickness() {
    let mut board = empty_board();
    board.layer_count = Some(4);
    board.board_entity = Some(100);
    board.stackup_thickness = Some(mm(1.6));
    board.stackup = Some(stack(&[(true, "copper"), (false, "core"), (true, "copper")], 2, vec![]));
    let found = StackupRule.check(&board);
    assert_eq!(found.len(), 1);
    assert_eq!(found[0].kind, ViolationKind::Stackup);
    assert_eq!(found[0].entity, 100);
    assert_eq!(found[0].location, Point::new(0, 0));
    assert_eq!(
        found[0].message,
        "board says 4 copper layers and the stackup describes 2 (1.600mm of material)"
    );

    board.stackup_thickness = None;
    let found = StackupRule.check(&board);
    assert_eq!(found[0].message, "board says 4 copper layers and the stackup describes 2");
}

#[test]
fn copper_pressed_on_copper_is_reported_with_what_lies_between() {
    let mut board = empty_board();
    board.layer_count = Some(3);
    board.board_entity = Some(7);
    board.stackup = Some(stack(
        &[(true, "copper"), (false, "mask"), (false, "silk"), (true, "copper"), (false, "prepreg"), (true, "copper")],
        3,
        vec![0],
    ));
    let found = StackupRule.check(&board);
    assert_eq!(found.len(), 1);
    assert_eq!(
        found[0].message,
        "copper layer 1 and layer 4 touch with no dielectric between them - mask silk is a surface finish, not a dielectric"
    );

    board.stackup = Some(stack(&[(true, "copper"), (true, "copper")], 2, vec![0]));
    board.layer_count = Some(3);
    let found = StackupRule.check(&board);
    assert_eq!(found.len(), 2, "the count first, then the touching pair");
    assert_eq!(found[0].message, "board says 3 copper layers and the stackup describes 2");
    assert_eq!(found[1].message, "copper layer 1 and layer 2 touch with no dielectric between them");
}

#[test]
fn no_stackup_or_no_board_nothing_to_contradict() {
    let mut board = empty_board();
    board.stackup = Some(stack(&[(true, "copper")], 1, vec![]));
    board.board_entity = Some(1);
    assert!(StackupRule.check(&board).is_empty(), "no board to compare with");
    board.layer_count = Some(1);
    assert!(StackupRule.check(&board).is_empty(), "the stackup agrees with the board");
    board.stackup = None;
    board.layer_count = Some(4);
    assert!(StackupRule.check(&board).is_empty());
}

fn trace_over(entity: u32, from: (f64, f64), to: (f64, f64)) -> Trace {
    Trace {
        entity,
        net: 1,
        width: mm(0.2),
        segments: vec![Segment { start: Point::new(mm(from.0), mm(from.1)), end: Point::new(mm(to.0), mm(to.1)) }],
        layer_bit: Some(1),
        neck: None,
        length: 0,
        thin_run: None,
    }
}

fn flex_board() -> Board {
    let mut board = empty_board();
    board.size = Some((mm(20.0), mm(10.0)));
    // A band from the bottom edge to the top: copper should cross it left to right.
    board.zones.push(zone(40, (5.0, 0.0), (10.0, 10.0), ZoneKind::Flex, Some("hinge")));
    board
}

#[test]
fn a_trace_running_along_a_fold_is_reported_once() {
    let mut board = flex_board();
    board.traces.push(trace_over(1, (4.0, 5.0), (11.0, 5.0)));
    board.traces.push(trace_over(2, (6.0, 2.0), (6.0, 8.0)));
    board.traces.push(trace_over(3, (6.0, 2.0), (9.0, 5.0)));
    board.traces.push(trace_over(4, (15.0, 2.0), (15.0, 8.0)));
    let crossings = FlexTraceAngleRule.crossings(&board);
    assert_eq!(crossings.len(), 1, "across, at exactly 45 degrees, and off the fold all pass");
    let c = crossings[0];
    assert_eq!(c.trace, 2);
    assert_eq!(c.zone, 0);
    assert_eq!(c.middle, Point::new(mm(6.0), mm(5.0)));
    assert_eq!((c.along, c.sideways), (0, mm(6.0)));

    let v = FlexTraceAngleRule.report(&board, &c, "90");
    assert_eq!(v.kind, ViolationKind::FlexTraceAngle);
    assert_eq!(v.entity, 2);
    assert_eq!(v.location, Point::new(mm(6.0), mm(5.0)));
    assert!(v.message.starts_with("a trace in the flexible region 'hinge' runs 90 degrees off the fold's own direction"));
}

#[test]
fn a_region_spanning_both_ways_or_neither_has_no_fold() {
    let mut board = flex_board();
    board.zones[0].bounds = Rect { min: Point::new(0, 0), max: Point::new(mm(20.0), mm(10.0)) };
    board.traces.push(trace_over(2, (6.0, 2.0), (6.0, 8.0)));
    assert!(FlexTraceAngleRule.crossings(&board).is_empty());
    board.zones[0].bounds = Rect { min: Point::new(mm(5.0), mm(1.0)), max: Point::new(mm(10.0), mm(9.0)) };
    assert!(FlexTraceAngleRule.crossings(&board).is_empty());
    board.size = None;
    assert!(FlexTraceAngleRule.crossings(&board).is_empty());
}

#[test]
fn a_band_across_the_board_wants_copper_running_up_it() {
    let mut board = flex_board();
    board.zones[0].bounds = Rect { min: Point::new(0, mm(4.0)), max: Point::new(mm(20.0), mm(6.0)) };
    board.zones[0].name = None;
    board.traces.push(trace_over(7, (2.0, 5.0), (8.0, 5.5)));
    board.traces.push(trace_over(8, (3.0, 3.0), (3.5, 7.0)));
    let crossings = FlexTraceAngleRule.crossings(&board);
    assert_eq!(crossings.len(), 1);
    assert_eq!(crossings[0].trace, 7);
    let v = FlexTraceAngleRule.report(&board, &crossings[0], "85");
    assert!(v.message.starts_with("a trace in a flexible region runs 85 degrees"));
}

fn necked_trace(entity: u32, net: u32, width: f64, length: f64, thin_run: Option<f64>, neck: Option<(f64, f64)>) -> Trace {
    let mut t = trace(entity, net, width, (0.0, 0.0), (length, 0.0));
    t.length = mm(length);
    t.thin_run = thin_run.map(mm);
    t.neck = neck.map(|(w, l)| Neck { width: mm(w), length: mm(l) });
    t
}

#[test]
fn a_neck_no_narrower_than_its_trace_is_a_second_width() {
    let mut board = empty_board();
    board.traces.push(necked_trace(3, 1, 0.5, 10.0, Some(0.0), Some((0.6, 4.0))));
    let found = NeckDownRule.check(&board, &rules());
    assert_eq!(found.len(), 1);
    assert_eq!(found[0].kind, ViolationKind::NeckDown);
    assert_eq!(found[0].entity, 3);
    assert_eq!(found[0].location, Point::new(mm(5.0), 0));
    assert_eq!(
        found[0].message,
        "a neck of 0.6mm is not narrower than the 0.5mm trace it is on: a neck that does not narrow is a second width"
    );
}

#[test]
fn a_net_neck_under_the_fabricators_etch_and_overrun_is_reported_twice() {
    let mut board = empty_board();
    board.net_rules.push(NetRule { net: 3, width: None, clearance: None, neck: Some(Neck { width: mm(0.05), length: mm(1.0) }), current_ua: None });
    board.traces.push(necked_trace(8, 3, 0.3, 20.0, Some(2.0), None));
    let found = NeckDownRule.check(&board, &rules());
    assert_eq!(found.len(), 2);
    assert_eq!(
        found[0].message,
        "a neck of 0.05mm is under the 0.127mm this fabricator will etch: the board cannot be made whatever the neck is for"
    );
    assert_eq!(
        found[1].message,
        "the copper runs thin for 2mm in one stretch where the neck allows 1mm: the declaration is not what was drawn"
    );
}

#[test]
fn a_neck_longer_than_its_trace_is_the_whole_trace() {
    let mut board = empty_board();
    board.traces.push(necked_trace(4, 1, 0.3, 20.0, Some(0.0), Some((0.15, 25.0))));
    let found = NeckDownRule.check(&board, &rules());
    assert_eq!(found.len(), 1);
    assert_eq!(
        found[0].message,
        "a neck allowed to run 25mm is on a trace 20mm long: the whole trace is the neck, so nothing is carrying the current"
    );
}

#[test]
fn a_traces_own_neck_wins_over_its_nets_and_a_sound_neck_passes() {
    let mut board = empty_board();
    board.net_rules.push(NetRule { net: 3, width: None, clearance: None, neck: Some(Neck { width: mm(0.05), length: mm(1.0) }), current_ua: None });
    board.traces.push(necked_trace(8, 3, 0.3, 20.0, Some(2.0), Some((0.15, 4.0))));
    assert!(NeckDownRule.check(&board, &rules()).is_empty());
    board.traces.push(necked_trace(9, 5, 0.3, 20.0, Some(2.0), None));
    assert!(NeckDownRule.check(&board, &rules()).is_empty(), "a trace under no neck is not measured");
    let mut bare = necked_trace(10, 1, 0.3, 20.0, Some(0.0), Some((0.6, 1.0)));
    bare.segments.clear();
    board.traces.push(bare);
    assert!(NeckDownRule.check(&board, &rules()).is_empty(), "nowhere to report a trace with no copper");
}

#[test]
fn a_neck_report_sits_on_the_middle_segment() {
    let mut board = empty_board();
    let mut t = necked_trace(4, 1, 0.3, 20.0, Some(0.0), Some((0.4, 1.0)));
    t.segments = vec![
        Segment { start: Point::new(0, 0), end: Point::new(mm(2.0), 0) },
        Segment { start: Point::new(mm(2.0), 0), end: Point::new(mm(2.0), mm(4.0)) },
        Segment { start: Point::new(mm(2.0), mm(4.0)), end: Point::new(mm(8.0), mm(4.0)) },
    ];
    board.traces.push(t);
    let found = NeckDownRule.check(&board, &rules());
    assert_eq!(found.len(), 1);
    assert_eq!(found[0].location, Point::new(mm(2.0), mm(2.0)));
}

fn net(name: &str, id: u32) -> NetName {
    NetName { name: name.to_string(), id }
}

fn pair(name: &str, positive: &str, negative: &str) -> DiffPair {
    DiffPair { name: name.to_string(), positive: positive.to_string(), negative: negative.to_string() }
}

fn usb_board() -> Board {
    let mut board = empty_board();
    board.board_entity = Some(77);
    board.nets = vec![net("USB_DP", 1), net("USB_DM", 2)];
    board.diff_pairs = vec![pair("USB", "USB_DP", "USB_DM")];
    board
}

#[test]
fn halves_of_a_pair_further_apart_than_the_rule_are_reported() {
    let mut board = usb_board();
    board.traces.push(trace(10, 1, 0.2, (0.0, 0.0), (3.0, 4.0)));
    board.traces.push(trace(11, 1, 0.2, (3.0, 4.0), (3.0, 9.0)));
    board.traces.push(trace(12, 2, 0.2, (0.0, 1.0), (9.8, 1.0)));
    let found = DiffPairSkewRule.check(&board, &rules());
    assert_eq!(found.len(), 1);
    let v = &found[0];
    assert_eq!(v.kind, ViolationKind::DiffPairSkew);
    assert_eq!(v.entity, 77);
    assert_eq!(v.actual, Some(mm(0.2)), "10mm against 9.8mm");
    assert_eq!(v.required, Some(mm(0.1)));
    assert_eq!(v.location, Point::new(0, 0), "where the positive half starts");
    assert_eq!(v.message, "diffpair 'USB': USB_DP runs 10.000mm and USB_DM runs 9.800mm");
}

#[test]
fn halves_within_the_rule_pass() {
    let mut board = usb_board();
    board.traces.push(trace(10, 1, 0.2, (0.0, 0.0), (10.0, 0.0)));
    board.traces.push(trace(12, 2, 0.2, (0.0, 1.0), (9.95, 1.0)));
    assert!(DiffPairSkewRule.check(&board, &rules()).is_empty());
}

#[test]
fn a_pair_naming_a_net_the_design_lacks_is_reported() {
    let mut board = usb_board();
    board.diff_pairs = vec![pair("USB", "USB_DP", "USB_DN"), pair("ETH", "TX_P", "TX_N")];
    let found = DiffPairSkewRule.check(&board, &rules());
    assert_eq!(found.len(), 2);
    assert_eq!(found[0].message, "diffpair 'USB' names USB_DN which is not a net on this board");
    assert_eq!(found[1].message, "diffpair 'ETH' names TX_P or TX_N which is not a net on this board");
    assert_eq!(found[1].actual, None);
    assert_eq!(found[1].location, Point::new(0, 0));
}

#[test]
fn a_half_with_no_copper_is_placed_at_the_other() {
    let mut board = usb_board();
    board.traces.push(trace(12, 2, 0.2, (5.0, 1.0), (6.0, 1.0)));
    let found = DiffPairSkewRule.check(&board, &rules());
    assert_eq!(found.len(), 1);
    assert_eq!(found[0].location, Point::new(mm(5.0), mm(1.0)));
    assert_eq!(found[0].message, "diffpair 'USB': USB_DP runs 0.000mm and USB_DM runs 1.000mm");
    board.board_entity = None;
    assert!(DiffPairSkewRule.check(&board, &rules()).is_empty(), "no board to report against");
}

fn rect_mm(x1: f64, y1: f64, x2: f64, y2: f64) -> Rect {
    Rect { min: Point::new(mm(x1), mm(y1)), max: Point::new(mm(x2), mm(y2)) }
}

#[test]
fn a_pour_piece_no_spoke_reaches_is_reported_on_its_layer() {
    let mut board = empty_board();
    board.zones.push(pour(30, (10.0, 10.0), (20.0, 20.0), 1, TOP | BOTTOM));
    board.zones.push(zone(31, (0.0, 0.0), (5.0, 5.0), ZoneKind::Keepout, None));
    board.pour_fills = vec![
        PourFill {
            zone: 30,
            layer_mask: TOP,
            pieces: vec![rect_mm(0.0, 0.0, 5.0, 5.0), rect_mm(12.0, 12.0, 16.0, 14.0)],
            spokes: vec![rect_mm(4.0, 2.0, 6.0, 2.5)],
        },
        PourFill { zone: 30, layer_mask: BOTTOM, pieces: vec![], spokes: vec![] },
        PourFill { zone: 31, layer_mask: TOP, pieces: vec![rect_mm(0.0, 0.0, 1.0, 1.0)], spokes: vec![] },
    ];
    let found = PourIslandRule.check(&board);
    assert_eq!(found.len(), 1, "the keepout is no pour and the bottom fill left no copper");
    assert_eq!(found[0].kind, ViolationKind::PourIsland);
    assert_eq!(found[0].entity, 30);
    assert_eq!(found[0].area, Some(rect_mm(12.0, 12.0, 16.0, 14.0)));
    assert_eq!(found[0].location, Point::new(mm(14.0), mm(13.0)));
}

#[test]
fn a_fill_on_a_layer_the_pour_does_not_name_is_not_read() {
    let mut board = empty_board();
    board.zones.push(pour(30, (10.0, 10.0), (20.0, 20.0), 1, TOP));
    board.pour_fills = vec![PourFill {
        zone: 30,
        layer_mask: BOTTOM,
        pieces: vec![rect_mm(12.0, 12.0, 16.0, 14.0)],
        spokes: vec![],
    }];
    assert!(PourIslandRule.check(&board).is_empty());
}

/// A 2.4 x 1.0mm slot centred on the origin: the bit centres sit 0.7mm
/// either side and the bit's radius is 0.5mm.
fn slot(start: (f64, f64), end: (f64, f64)) -> Hole {
    Hole {
        entity: 1,
        start: Point::new(mm(start.0), mm(start.1)),
        end: Point::new(mm(end.0), mm(end.1)),
        radius: mm(0.5),
        span: (Layer::TopCopper, Layer::BottomCopper),
        plated: true,
    }
}

#[test]
fn the_gap_is_measured_from_the_slot_wall_not_its_centre() {
    let gap = box_to_slot_gap(&slot((-0.7, 0.0), (0.7, 0.0)), mm(1.6), mm(-0.5), mm(2.6), mm(0.5));
    assert_eq!(gap, mm(0.4), "measured {gap}nm");
}

#[test]
fn a_box_beside_the_middle_is_measured_against_the_side() {
    let gap = box_to_slot_gap(&slot((-5.0, 0.0), (5.0, 0.0)), mm(-0.5), mm(1.0), mm(0.5), mm(2.0));
    assert_eq!(gap, mm(0.5), "measured {gap}nm");
}

#[test]
fn copper_overlapping_the_slot_reads_as_negative_rather_than_far() {
    let gap = box_to_slot_gap(&slot((-0.7, 0.0), (0.7, 0.0)), mm(-0.2), mm(-0.2), mm(0.2), mm(0.2));
    assert!(gap < 0, "copper over the slot must not read as clear: {gap}nm");
}

#[test]
fn a_board_with_no_slot_has_nothing_to_measure() {
    let mut board = empty_board();
    board.size = Some((mm(20.0), mm(20.0)));
    let violations = SlotClearanceRule.check(&board, &rules());
    assert!(violations.is_empty(), "{violations:?}");
}

fn entry(entity: u32, min: (f64, f64), max: (f64, f64)) -> CopperEntry {
    CopperEntry { entity, bounds: rect_mm(min.0, min.1, max.0, max.1), layer_mask: TOP }
}

#[test]
fn other_nets_copper_by_a_slot_is_reported_and_its_own_is_not() {
    let mut board = empty_board();
    let mut pad = thru_pad("1", 0.0, 0.0, 2.0, 1.0, true);
    pad.hole_from = Point::new(mm(-0.7), 0);
    pad.hole_to = Point::new(mm(0.7), 0);
    board.components.push(part(5, "J1", 10.0, 10.0, vec![pad]));
    board.vias.push(via_between(Layer::TopCopper, Layer::BottomCopper));
    board.copper_entries = vec![
        entry(5, (8.0, 9.0), (12.0, 11.0)),
        entry(20, (11.4, 9.5), (12.4, 10.5)),
        entry(21, (11.4, 9.5), (12.4, 10.5)),
        entry(22, (20.0, 20.0), (21.0, 21.0)),
    ];
    board.net_links = vec![
        NetLink { entity: 5, nets: vec![7] },
        NetLink { entity: 20, nets: vec![3] },
        NetLink { entity: 21, nets: vec![7] },
    ];
    let found = SlotClearanceRule.check(&board, &rules());
    assert_eq!(found.len(), 1, "{found:?}");
    let v = &found[0];
    assert_eq!(v.kind, ViolationKind::SlotClearance);
    assert_eq!(v.entity, 20);
    assert_eq!(v.other_entity, Some(5));
    assert_eq!(v.actual, Some(mm(0.2)));
    assert_eq!(v.required, Some(mm(0.3)));
    assert_eq!(v.location, Point::new(mm(11.9), mm(10.0)));
    assert_eq!(v.message, "Copper is 0.200mm from a milled slot, 0.300mm required");
}

#[test]
fn a_neck_on_a_trace_whose_thin_copper_was_not_measured_says_so() {
    let mut board = empty_board();
    board.traces.push(necked_trace(6, 1, 0.3, 20.0, None, Some((0.15, 4.0))));
    let found = NeckDownRule.check(&board, &rules());
    assert_eq!(found.len(), 1);
    assert_eq!(found[0].kind, ViolationKind::NeckDown);
    assert_eq!(
        found[0].message,
        "a neck allowed to run 4mm is declared, but no segment of this trace carries a width of its own: how far the copper runs thin was not measured"
    );
}

fn opening(x_um: i64, half_width_um: i64) -> lib::rules::openings::Opening {
    lib::rules::openings::Opening {
        entity: x_um as u32,
        center: Point::new(x_um * 1000, 0),
        half_width: half_width_um * 1000,
        half_height: 1000,
        top_side: true,
    }
}

#[test]
fn a_wide_opening_further_along_is_still_measured() {
    // Narrow openings at 0 and 10um; the one at 20um is 50um wide and
    // reaches back over both.
    let os = vec![opening(0, 1), opening(10, 1), opening(20, 25)];
    let pairs = lib::rules::openings::thin_webs_of(&os, mm(0.1));
    let ids: Vec<_> = pairs.iter().map(|(a, b)| (a.entity, b.entity)).collect();
    assert_eq!(ids, vec![(0, 10), (0, 20), (10, 20)]);
}

#[test]
fn a_flexible_region_over_a_pour_is_not_a_short() {
    let mut board = empty_board();
    board.zones.push(pour(10, (10.0, 10.0), (12.0, 12.0), 1, TOP));
    board.zones.push(zone(11, (8.0, 8.0), (14.0, 14.0), ZoneKind::Flex, Some("hinge")));
    assert!(ZoneOverlapRule.check(&board, &rules()).is_empty());
}

#[test]
fn measured_webs_and_hole_gaps_carry_their_numbers() {
    let mut board = empty_board();
    board.components.push(two_pad_part(1, "R1", 10.0));
    board.components.push(two_pad_part(2, "R2", 11.1));
    let v = &SolderMaskBridgeRule.check(&board, &rules())[0];
    assert_eq!((v.actual, v.required), (Some(0), Some(mm(0.1))));
    let mut holes = empty_board();
    holes.components.push(part(1, "J1", 0.0, 0.0, vec![thru_pad("1", 0.0, 0.0, 1.0, 0.6, true)]));
    holes.components.push(part(2, "J2", 0.0, 0.0, vec![thru_pad("1", 0.8, 0.0, 1.0, 0.6, true)]));
    let v = &HoleToHoleRule.check(&holes, &rules())[0];
    assert_eq!((v.actual, v.required), (Some(mm(0.2)), Some(mm(0.5))));
}
