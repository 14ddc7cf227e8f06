use lib::board::{Board, CopperEntry, NetLink, NetRule, NetTag, Segment, Trace};
use lib::geometry::{Point, Rect};
use lib::presets::DesignRules;
use lib::rules::clearance::{
    copper_distance, point_to_segment_distance, Aabb, ClearanceRule, Copper, Side,
};
use lib::rules::contacts::{one_row_per_place, Contact, Stretch};
use lib::rules::copper_pairs::{clearances_fit, contact_fits, Gap, Probe};
use lib::{DrcViolation, ViolationKind};

const TOP: u32 = 1;

fn mm(v: f64) -> i64 {
    (v * 1_000_000.0).round() as i64
}

fn rules() -> DesignRules {
    DesignRules {
        min_clearance: mm(0.127),
        min_trace_width: mm(0.127),
        min_drill_size: mm(0.3),
        min_via_drill: mm(0.3),
        min_via_diameter: mm(0.6),
        min_annular_ring: mm(0.13),
        min_silk_width: mm(0.15),
        min_edge_clearance: mm(0.3),
        min_hole_to_hole: mm(0.5),
        min_solder_mask_bridge: mm(0.1),
        min_paste_clearance: mm(0.1),
        min_pad_size: mm(0.56),
        min_slot_clearance: mm(0.3),
        min_hole_to_edge: mm(0.3),
        solder_mask_expansion: mm(0.05),
        min_silk_clearance: mm(0.15),
        min_courtyard_clearance: mm(0.25),
        copper_weight_oz_x10: 10,
        max_diff_pair_skew: mm(0.1),
        max_drill_aspect_ratio: 800,
        board_thickness: mm(1.6),
    }
}

fn board() -> Board {
    Board {
        vias: Vec::new(),
        components: Vec::new(),
        traces: Vec::new(),
        zones: Vec::new(),
        net_rules: Vec::new(),
        stackup_thickness: None,
        size: None,
        stack_areas: None,
        stackup: None,
        layer_count: None,
        board_entity: None,
        nets: Vec::new(),
        diff_pairs: Vec::new(),
        pour_fills: Vec::new(),
        copper_entries: Vec::new(),
        net_links: Vec::new(),
        net_ids: Vec::new(),
        outline: None,
    }
}

fn entry(entity: u32, min: (f64, f64), max: (f64, f64), layer_mask: u32) -> CopperEntry {
    CopperEntry {
        entity,
        bounds: Rect { min: Point::new(mm(min.0), mm(min.1)), max: Point::new(mm(max.0), mm(max.1)) },
        layer_mask,
    }
}

fn trace(entity: u32, net: u32, width: f64, points: &[(f64, f64)]) -> Trace {
    let segments: Vec<Segment> = points
        .windows(2)
        .map(|w| Segment {
            start: Point::new(mm(w[0].0), mm(w[0].1)),
            end: Point::new(mm(w[1].0), mm(w[1].1)),
        })
        .collect();
    Trace {
        entity,
        net,
        width: mm(width),
        segments,
        layer_bit: Some(TOP),
        neck: None,
        length: 0,
        thin_run: None,
    }
}

fn tag(entity: u32, net: u32) -> NetTag {
    NetTag { entity, net }
}

// Where along the copper a gap lies is found in floating point, which the
// library leaves to its caller; this is the same walk the checker's caller
// makes, so the rows below are the rows the checker reports.
fn stretch(segment: Stretch, limit: i64, distance: impl Fn([i64; 2]) -> i64) -> Stretch {
    let (a, b) = segment;
    let at = |u: f64| {
        [
            (a[0] as f64 + u * (b[0] - a[0]) as f64).round() as i64,
            (a[1] as f64 + u * (b[1] - a[1]) as f64).round() as i64,
        ]
    };
    let f = |u: f64| distance(at(u));
    let (mut lo, mut hi) = (0.0_f64, 1.0_f64);
    for _ in 0..64 {
        let (m1, m2) = (lo + (hi - lo) / 3.0, hi - (hi - lo) / 3.0);
        if f(m1) <= f(m2) {
            hi = m2;
        } else {
            lo = m1;
        }
    }
    let best = (lo + hi) / 2.0;
    if f(best) >= limit {
        let p = at(best);
        return (p, p);
    }
    let edge = |mut inside: f64, mut outside: f64| {
        if f(outside) < limit {
            return outside;
        }
        for _ in 0..64 {
            let middle = (inside + outside) / 2.0;
            if f(middle) < limit {
                inside = middle;
            } else {
                outside = middle;
            }
        }
        inside
    };
    (at(edge(best, 0.0)), at(edge(best, 1.0)))
}

fn contact_of(probe: &Probe) -> Contact {
    let (at, stretch) = match probe.gap {
        Gap::AtPoint(at) => {
            let p = [at.x, at.y];
            (at, [(p, p); 2])
        }
        Gap::Segments(s, t) => {
            let on_s = stretch(s, probe.limit, |p| point_to_segment_distance(p, t.0, t.1));
            let on_t = stretch(t, probe.limit, |p| point_to_segment_distance(p, s.0, s.1));
            let at = Point::new((on_s.0[0] + on_t.0[0]) / 2, (on_s.0[1] + on_t.0[1]) / 2);
            (at, [on_s, on_t])
        }
        Gap::ToCopper(s, copper) => {
            let run = stretch(s, probe.limit, |p| copper_distance(&Copper::circle(p, 0), &copper));
            (Point::new(run.0[0], run.0[1]), [run; 2])
        }
    };
    Contact {
        sides: probe.sides,
        entities: probe.entities,
        at,
        distance: probe.distance,
        required: probe.required,
        reach: probe.reach,
        stretch,
    }
}

fn check(board: &Board, rules: &DesignRules) -> Vec<DrcViolation> {
    assert!(clearances_fit(&board.net_rules));
    let found: Vec<Contact> = ClearanceRule.probes(board, rules).iter().map(contact_of).collect();
    assert!(found.iter().all(contact_fits));
    one_row_per_place(found)
}

fn two_boxes(gap: f64) -> Board {
    let mut b = board();
    b.copper_entries = vec![
        entry(0, (0.0, 0.0), (1.0, 1.0), 0b01),
        entry(1, (1.0 + gap, 0.0), (2.0 + gap, 1.0), 0b01),
    ];
    b
}

#[test]
fn a_net_that_asks_for_more_clearance_gets_it() {
    let mut b = board();
    b.net_ids = vec![tag(0, 1), tag(1, 2)];
    b.copper_entries = vec![
        entry(0, (0.0, 0.0), (1.0, 1.0), 0b01),
        entry(1, (1.2, 0.0), (2.2, 1.0), 0b01),
    ];
    assert!(check(&b, &rules()).is_empty(), "0.2mm clears the 0.127mm preset");

    b.net_rules = vec![NetRule { net: 2, width: None, clearance: Some(mm(0.5)), neck: None, current_ua: None }];
    let violations = check(&b, &rules());
    assert_eq!(violations.len(), 1, "0.2mm does not clear a stated 0.5mm");
    assert!(
        violations[0].message.contains("0.50mm required"),
        "the reported requirement is the net's, not the preset's: {}",
        violations[0].message
    );
}

#[test]
fn test_no_violation_when_far_apart() {
    let b = two_boxes(9.0);
    let violations = check(&b, &rules());
    assert!(violations.is_empty(), "Should have no violations");
}

#[test]
fn test_violation_when_too_close() {
    let b = two_boxes(0.1);
    let violations = check(&b, &rules());
    assert_eq!(violations.len(), 1, "Should have one violation");
    assert_eq!(violations[0].kind, ViolationKind::Clearance);
}

#[test]
fn violation_is_reported_the_same_way_round_whatever_the_index_order() {
    let a = entry(0, (0.0, 0.0), (1.0, 1.0), 0b01);
    let c = entry(1, (1.1, 0.0), (2.1, 1.0), 0b01);
    let mut forward_board = board();
    forward_board.copper_entries = vec![a, c];
    let mut reversed_board = board();
    reversed_board.copper_entries = vec![c, a];

    let forward = check(&forward_board, &rules());
    let reversed = check(&reversed_board, &rules());

    assert_eq!(forward.len(), 1);
    assert_eq!(reversed.len(), 1);
    assert_eq!(forward[0].entity, reversed[0].entity);
    assert_eq!(forward[0].other_entity, reversed[0].other_entity);
    assert_eq!(forward[0].location, reversed[0].location);

    assert_eq!(forward[0].entity, 0);
    assert_eq!(forward[0].other_entity, Some(1));
    assert_eq!(forward[0].location, Point::new(mm(1.05), mm(0.5)));
}

#[test]
fn test_no_violation_different_layers() {
    let mut b = board();
    b.copper_entries = vec![
        entry(0, (0.0, 0.0), (1.0, 1.0), 0b01),
        entry(1, (0.5, 0.5), (1.5, 1.5), 0b10),
    ];
    let violations = check(&b, &rules());
    assert!(violations.is_empty(), "Different layers should not cause violation");
}

#[test]
fn test_no_duplicate_violations() {
    let b = two_boxes(0.05);
    let violations = check(&b, &rules());
    assert_eq!(violations.len(), 1, "Should only report once");
}

#[test]
fn test_same_net_exemption() {
    let mut b = two_boxes(0.05);
    b.net_ids = vec![tag(0, 42), tag(1, 42)];
    let violations = check(&b, &rules());
    assert!(violations.is_empty(), "Same-net pads should be exempt from clearance check");
}

#[test]
fn test_different_net_still_violates() {
    let mut b = two_boxes(0.05);
    b.net_ids = vec![tag(0, 1), tag(1, 2)];
    let violations = check(&b, &rules());
    assert_eq!(violations.len(), 1, "Different-net pads should still violate");
}

#[test]
fn test_no_net_still_violates() {
    let b = two_boxes(0.05);
    let violations = check(&b, &rules());
    assert_eq!(violations.len(), 1, "Entities without nets should still be checked");
}

fn pad_and_trace(points: &[(f64, f64)], trace_box: ((f64, f64), (f64, f64))) -> Board {
    let mut b = board();
    b.traces = vec![trace(1, 2, 0.2, points)];
    b.net_ids = vec![tag(0, 1), tag(1, 2)];
    b.copper_entries = vec![
        entry(0, (0.0, 0.0), (1.0, 1.0), TOP),
        entry(1, trace_box.0, trace_box.1, TOP),
    ];
    b
}

#[test]
fn test_trace_to_pad_clearance_violation() {
    let b = pad_and_trace(&[(0.0, 1.1), (1.0, 1.1)], ((-0.1, 1.0), (1.1, 1.2)));
    let violations = check(&b, &rules());
    assert!(!violations.is_empty(), "Trace 0.0mm from pad should violate 0.15mm clearance");
    assert_eq!(violations[0].kind, ViolationKind::Clearance);
}

#[test]
fn one_gap_is_one_violation_even_when_two_segments_share_it() {
    let b = pad_and_trace(&[(-0.5, 1.6), (0.5, 1.1), (1.5, 1.6)], ((-0.6, 1.0), (1.6, 1.7)));
    let violations = check(&b, &rules());
    assert_eq!(
        violations.len(),
        1,
        "one corner too close to one pad is one violation, got {:?}",
        violations.iter().map(|v| (v.location, &v.message)).collect::<Vec<_>>()
    );
}

#[test]
fn two_traces_meeting_corner_to_corner_are_one_violation() {
    let mut b = board();
    b.traces = vec![
        trace(0, 1, 0.2, &[(-0.5, 0.5), (0.5, 1.0), (1.5, 0.5)]),
        trace(1, 2, 0.2, &[(-0.5, 1.7), (0.5, 1.2), (1.5, 1.7)]),
    ];
    b.net_ids = vec![tag(0, 1), tag(1, 2)];
    b.copper_entries = vec![
        entry(0, (-0.6, 0.4), (1.6, 1.1), TOP),
        entry(1, (-0.6, 1.1), (1.6, 1.8), TOP),
    ];
    let violations = check(&b, &rules());
    assert_eq!(
        violations.len(),
        1,
        "two corners 0.2mm apart are one gap, got {:?}",
        violations.iter().map(|v| (v.location, &v.message)).collect::<Vec<_>>()
    );
}

#[test]
fn test_trace_to_pad_no_violation_when_far() {
    let b = pad_and_trace(&[(0.0, 5.0), (10.0, 5.0)], ((-0.1, 4.9), (10.1, 5.1)));
    let violations = check(&b, &rules());
    assert!(violations.is_empty(), "Trace 2mm from pad should not violate");
}

fn two_traces(second_y: f64) -> Board {
    let mut b = board();
    b.traces = vec![
        trace(0, 1, 0.2, &[(0.0, 0.0), (10.0, 0.0)]),
        trace(1, 2, 0.2, &[(0.0, second_y), (10.0, second_y)]),
    ];
    b.net_ids = vec![tag(0, 1), tag(1, 2)];
    b.copper_entries = vec![
        entry(0, (-0.1, -0.1), (10.1, 0.1), TOP),
        entry(1, (-0.1, second_y - 0.1), (10.1, second_y + 0.1), TOP),
    ];
    b
}

#[test]
fn test_trace_to_trace_clearance_violation() {
    let violations = check(&two_traces(0.2), &rules());
    assert!(!violations.is_empty(), "Two traces 0mm copper gap should violate 0.15mm clearance");
}

#[test]
fn test_trace_to_trace_no_violation_when_far() {
    let violations = check(&two_traces(5.0), &rules());
    assert!(violations.is_empty(), "Traces 5mm apart should not violate");
}

fn part_and_trace(part_nets: Vec<u32>, trace_net: u32) -> Board {
    let mut b = board();
    b.traces = vec![trace(1, trace_net, 0.2, &[(1.0, 0.5), (5.0, 0.5)])];
    b.net_links = vec![NetLink { entity: 0, nets: part_nets }];
    b.net_ids = vec![tag(1, trace_net)];
    b.copper_entries = vec![
        entry(0, (0.0, 0.0), (1.0, 1.0), TOP),
        entry(1, (0.9, 0.4), (5.1, 0.6), TOP),
    ];
    b
}

#[test]
fn test_trace_touching_own_component_pad_no_violation() {
    let violations = check(&part_and_trace(vec![1, 2], 1), &rules());
    assert!(
        violations.is_empty(),
        "Trace on VCC touching component with VCC pin should NOT violate clearance"
    );
}

#[test]
fn test_trace_near_component_different_net_still_violates() {
    let violations = check(&part_and_trace(vec![1, 2], 3), &rules());
    assert_eq!(violations.len(), 1, "Trace on unrelated net near component should still violate");
}

// A probe carries what the report needs: the pair the lower side first, the
// gap as measured, and what the pair asked for.
#[test]
fn a_probe_names_the_lower_side_first_with_its_gap_and_rule() {
    let probes = ClearanceRule.probes(&two_boxes(0.05), &rules());
    assert_eq!(probes.len(), 1);
    let p = probes[0];
    assert_eq!(p.sides, (Side::Piece(0), Side::Piece(1)));
    assert_eq!(p.entities, (0, 1));
    assert_eq!(p.distance, mm(0.05));
    assert_eq!(p.required, mm(0.127));
    assert_eq!(p.gap, Gap::AtPoint(Point::new(mm(1.025), mm(0.5))));
}

// Two traces are measured segment against segment, less both half-widths:
// centrelines 0.2mm apart with 0.1mm either side of each touch.
#[test]
fn two_traces_are_measured_centreline_less_both_half_widths() {
    let probes = ClearanceRule.probes(&two_traces(0.25), &rules());
    assert_eq!(probes.len(), 1);
    assert_eq!(probes[0].distance, mm(0.05));
    assert_eq!(probes[0].reach, mm(0.2));
    assert_eq!(probes[0].limit, mm(0.127) + mm(0.2));
    assert_eq!(probes[0].sides, (Side::Trace { net: 1, layers: TOP }, Side::Trace { net: 2, layers: TOP }));
}

// A trace against a box is measured segment by segment against the box, and
// the box is named by the corner of its copper.
#[test]
fn a_trace_against_a_box_names_the_box_by_its_corner() {
    let b = pad_and_trace(&[(0.0, 1.15), (1.0, 1.15)], ((-0.1, 1.05), (1.1, 1.25)));
    let probes = ClearanceRule.probes(&b, &rules());
    assert_eq!(probes.len(), 1);
    assert_eq!(probes[0].distance, mm(0.05));
    assert_eq!(probes[0].sides.0, Side::Trace { net: 2, layers: TOP });
    assert_eq!(probes[0].sides.1, Side::Pad { part: 0, at: [0, 0] });
    assert_eq!(probes[0].entities, (1, 0));
    let box_copper = Copper { core: Aabb { lower: [0, 0], upper: [mm(1.0), mm(1.0)] }, radius: 0 };
    assert_eq!(probes[0].gap, Gap::ToCopper(([0, mm(1.15)], [mm(1.0), mm(1.15)]), box_copper));
}

// A trace whose entity has two entries is paired once.
#[test]
fn an_entity_with_two_entries_is_paired_once() {
    let mut b = two_boxes(0.05);
    b.copper_entries.push(entry(1, (1.05, 0.0), (2.05, 1.0), 0b01));
    assert_eq!(ClearanceRule.probes(&b, &rules()).len(), 1);
}

// A clearance a net states beyond the range the checker carries is refused
// before anything is measured.
#[test]
fn a_stated_clearance_beyond_the_carried_range_does_not_fit() {
    assert!(clearances_fit(&vec![NetRule { net: 1, width: None, clearance: Some(mm(0.5)), neck: None, current_ua: None }]));
    assert!(!clearances_fit(&vec![NetRule {
        net: 1,
        width: None,
        clearance: Some(2_000_000_000_000),
        neck: None,
        current_ua: None,
    }]));
}
