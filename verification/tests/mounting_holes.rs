use lib::board::{Board, Component, CopperEntry, Layer, PadSite, Segment, Trace, Via, Zone, ZoneKind};
use lib::geometry::{Point, Rect};
use lib::presets::DesignRules;
use lib::rules::clearance::{Aabb, Copper};
use lib::rules::MountingHoleClearanceRule;
use lib::ViolationKind;

fn mm(v: f64) -> i64 {
    (v * 1_000_000.0).round() as i64
}

fn rules() -> DesignRules {
    DesignRules {
        min_clearance: mm(0.127),
        min_trace_width: mm(0.127),
        min_drill_size: mm(0.3),
        min_via_drill: mm(0.3),
        min_via_diameter: mm(0.6),
        min_annular_ring: mm(0.13),
        min_silk_width: mm(0.15),
        min_edge_clearance: mm(0.3),
        min_hole_to_hole: mm(0.5),
        min_solder_mask_bridge: mm(0.1),
        min_paste_clearance: mm(0.1),
        min_pad_size: mm(0.56),
        min_slot_clearance: mm(0.3),
        min_hole_to_edge: mm(0.3),
        solder_mask_expansion: mm(0.05),
        min_silk_clearance: mm(0.15),
        min_courtyard_clearance: mm(0.25),
        copper_weight_oz_x10: 10,
        max_diff_pair_skew: mm(0.1),
        max_drill_aspect_ratio: 800,
        board_thickness: mm(1.6),
    }
}

fn board() -> Board {
    Board {
        vias: Vec::new(),
        components: Vec::new(),
        traces: Vec::new(),
        zones: Vec::new(),
        net_rules: Vec::new(),
        stackup_thickness: None,
        size: None,
        stack_areas: None,
        stackup: None,
        layer_count: None,
        board_entity: None,
        nets: Vec::new(),
        diff_pairs: Vec::new(),
        pour_fills: Vec::new(),
        copper_entries: Vec::new(),
        net_links: Vec::new(),
        net_ids: Vec::new(),
        outline: None,
    }
}

fn hole_pad(drill: f64, plated: bool) -> PadSite {
    let at = Point::new(0, 0);
    PadSite {
        number: "1".to_string(),
        offset: at,
        turned: at,
        hole_from: at,
        hole_to: at,
        width: mm(drill),
        height: mm(drill),
        drill: Some(mm(drill)),
        plated,
        smd: false,
        top: !plated,
        bottom: !plated,
        mask_margin: None,
        net: None,
        copper: Copper { core: Aabb { lower: [mm(10.0), mm(10.0)], upper: [mm(10.0), mm(10.0)] }, radius: mm(drill / 2.0) },
        copper_mask: if plated { 3 } else { 0 },
    }
}

/// A part with one hole, 3.2mm across, at (10mm, 10mm).
fn hole_part(plated: bool) -> Component {
    Component {
        entity: 1,
        refdes: "H1".to_string(),
        position: Point::new(mm(10.0), mm(10.0)),
        pads: vec![hole_pad(3.2, plated)],
        builtin: true,
        quarter_turn: false,
        courtyard: None,
    }
}

fn via_at(entity: u32, x: f64, y: f64) -> Via {
    Via {
        entity,
        position: Point::new(mm(x), mm(y)),
        drill: mm(0.3),
        outer_diameter: mm(0.6),
        start_layer: Layer::TopCopper,
        end_layer: Layer::BottomCopper,
        net: 1,
    }
}

fn entry(entity: u32, min: (f64, f64), max: (f64, f64), layer_mask: u32) -> CopperEntry {
    CopperEntry {
        entity,
        bounds: Rect { min: Point::new(mm(min.0), mm(min.1)), max: Point::new(mm(max.0), mm(max.1)) },
        layer_mask,
    }
}

#[test]
fn a_via_beside_an_unplated_hole_is_measured_from_its_disc_to_the_wall() {
    let mut b = board();
    b.components = vec![hole_part(false)];
    b.vias = vec![via_at(2, 12.0, 10.0)];
    b.copper_entries = vec![entry(2, (11.7, 9.7), (12.3, 10.3), 3)];
    let found = MountingHoleClearanceRule.check(&b, &rules());
    assert_eq!(found.len(), 1);
    let v = &found[0];
    assert_eq!(v.kind, ViolationKind::EdgeClearance);
    assert_eq!(v.entity, 2);
    assert_eq!(v.other_entity, None);
    assert_eq!(v.actual, Some(mm(0.1)));
    assert_eq!(v.required, Some(mm(0.3)));
    assert_eq!(v.location, Point::new(mm(10.0), mm(10.0)));
    assert_eq!(
        v.message,
        "Copper too close to unplated hole H1: 0.10mm actual, 0.30mm required. \
         The drill cuts this copper open and the screw touches what is left."
    );
}

#[test]
fn a_via_far_enough_from_the_wall_passes() {
    let mut b = board();
    b.components = vec![hole_part(false)];
    b.vias = vec![via_at(2, 12.3, 10.0)];
    b.copper_entries = vec![entry(2, (12.0, 9.7), (12.6, 10.3), 3)];
    assert!(MountingHoleClearanceRule.check(&b, &rules()).is_empty());
}

#[test]
fn a_plated_hole_is_not_a_mounting_hole() {
    let mut b = board();
    b.components = vec![hole_part(true)];
    b.vias = vec![via_at(2, 12.0, 10.0)];
    b.copper_entries = vec![entry(2, (11.7, 9.7), (12.3, 10.3), 3)];
    assert!(MountingHoleClearanceRule.check(&b, &rules()).is_empty());
}

#[test]
fn a_hole_is_not_measured_against_its_own_part() {
    let mut b = board();
    b.components = vec![hole_part(false)];
    b.copper_entries = vec![entry(1, (8.4, 8.4), (11.6, 11.6), 3)];
    assert!(MountingHoleClearanceRule.check(&b, &rules()).is_empty());
}

#[test]
fn a_trace_across_the_hole_is_cut_open() {
    let mut b = board();
    b.components = vec![hole_part(false)];
    b.traces = vec![Trace {
        entity: 3,
        net: 1,
        width: mm(0.2),
        segments: vec![Segment { start: Point::new(mm(5.0), mm(10.0)), end: Point::new(mm(15.0), mm(10.0)) }],
        layer_bit: Some(1),
        neck: None,
        length: mm(10.0),
        thin_run: None,
    }];
    b.copper_entries = vec![entry(3, (4.9, 9.9), (15.1, 10.1), 1)];
    let found = MountingHoleClearanceRule.check(&b, &rules());
    assert_eq!(found.len(), 1);
    assert_eq!(found[0].entity, 3);
    assert_eq!(found[0].actual, Some(0));
}

#[test]
fn a_pour_over_the_hole_is_reported_and_other_zones_are_not() {
    let mut b = board();
    b.components = vec![hole_part(false)];
    let pour = |entity: u32, kind: ZoneKind| Zone {
        entity,
        bounds: Rect { min: Point::new(0, 0), max: Point::new(mm(20.0), mm(20.0)) },
        kind,
        layer_mask: 1,
        name: None,
        net: None,
    };
    b.zones = vec![
        pour(4, ZoneKind::CopperPour),
        pour(5, ZoneKind::Keepout),
        pour(6, ZoneKind::Flex),
        pour(7, ZoneKind::Region),
    ];
    let found = MountingHoleClearanceRule.check(&b, &rules());
    assert_eq!(found.len(), 1);
    assert_eq!(found[0].entity, 4);
}

#[test]
fn copper_on_no_copper_layer_is_not_measured() {
    let mut b = board();
    b.components = vec![hole_part(false)];
    b.copper_entries = vec![entry(6, (9.0, 9.0), (11.0, 11.0), 0)];
    assert!(MountingHoleClearanceRule.check(&b, &rules()).is_empty());
}
