use lib::board::{Board, NetName, NetRule};
use lib::net_rules::ruleset_for_world;
use lib::presets::DesignConstraints;

fn mm(v: f64) -> i64 {
    (v * 1_000_000.0).round() as i64
}

/// The standard two-layer table of the fab the checker was first written
/// for: 0.127mm traces and gaps.
fn preset() -> DesignConstraints {
    DesignConstraints {
        min_clearance: mm(0.127),
        min_trace_width: mm(0.127),
        min_drill_size: mm(0.3),
        min_via_drill: mm(0.3),
        min_via_diameter: Some(mm(0.6)),
        min_annular_ring: mm(0.18),
        min_silk_width: mm(0.15),
        min_edge_clearance: mm(0.3),
        min_hole_to_hole: mm(0.5),
        min_solder_mask_bridge: mm(0.1),
        min_paste_clearance: mm(0.1),
        min_pad_size: None,
        min_slot_clearance: mm(0.3),
        min_hole_to_edge: mm(0.3),
        solder_mask_expansion: mm(0.05),
        min_silk_clearance: None,
        min_courtyard_clearance: None,
        copper_weight_oz_x10: 10,
        length_match_tolerance: mm(0.1),
        max_drill_aspect_ratio: 800,
        board_thickness: mm(1.6),
    }
}

/// A board with one net, carrying whatever the design stated about it.
fn board_with_net(name: &str, width: Option<i64>, clearance: Option<i64>) -> (Board, u32) {
    let id = 1;
    let board = Board {
        vias: Vec::new(),
        components: Vec::new(),
        traces: Vec::new(),
        zones: Vec::new(),
        net_rules: vec![NetRule { net: id, width, clearance, neck: None, current_ua: None }],
        stackup_thickness: None,
        size: None,
        stack_areas: None,
        stackup: None,
        layer_count: None,
        board_entity: None,
        nets: vec![NetName { name: name.to_string(), id }],
        diff_pairs: Vec::new(),
        pour_fills: Vec::new(),
        copper_entries: Vec::new(),
        net_links: Vec::new(),
        net_ids: Vec::new(),
        outline: None,
    };
    (board, id)
}

#[test]
fn a_stated_width_reaches_the_router() {
    let (board, id) = board_with_net("POWER", Some(mm(0.5)), None);
    let rules = ruleset_for_world(&preset(), &board);
    assert_eq!(
        rules.constraints_for_net(id).min_trace_width,
        mm(0.5),
        "the design asked for 0.5mm and the router has to be told"
    );
    assert_eq!(
        rules.constraints_for_net(9999).min_trace_width,
        preset().min_trace_width,
        "a net the design says nothing about routes on the preset"
    );
}

#[test]
fn a_stated_clearance_reaches_the_router() {
    let (board, id) = board_with_net("MAINS", None, Some(mm(3.0)));
    let rules = ruleset_for_world(&preset(), &board);
    assert_eq!(rules.constraints_for_net(id).min_clearance, mm(3.0));
}

#[test]
fn a_narrower_ask_than_the_fab_allows_does_not_lower_the_floor() {
    let floor = preset().min_trace_width;
    let (board, id) = board_with_net("SIGNAL", Some(floor / 2), Some(preset().min_clearance / 2));
    let rules = ruleset_for_world(&preset(), &board);
    let got = rules.constraints_for_net(id);
    assert_eq!(got.min_trace_width, floor);
    assert_eq!(got.min_clearance, preset().min_clearance);
}

#[test]
fn current_alone_is_not_yet_a_width() {
    // A net stating nothing but a current states nothing this reads.
    let (board, id) = board_with_net("COIL", None, None);
    let rules = ruleset_for_world(&preset(), &board);
    assert!(rules.overrides.is_empty());
    assert_eq!(
        rules.constraints_for_net(id).min_trace_width,
        preset().min_trace_width,
        "deriving a width from current needs the layer, which the router picks"
    );
}

#[test]
fn an_override_raises_only_width_and_clearance() {
    let (board, id) = board_with_net("POWER", Some(mm(0.5)), Some(mm(0.4)));
    let rules = ruleset_for_world(&preset(), &board);
    let got = rules.constraints_for_net(id);
    let mut expected = preset();
    expected.min_trace_width = mm(0.5);
    expected.min_clearance = mm(0.4);
    assert_eq!(got, expected);
    assert_eq!(rules.overrides.len(), 1);
}
