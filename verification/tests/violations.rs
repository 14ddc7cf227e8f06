use lib::rules::impedance::format_ohms;
use lib::geometry::Point;
use lib::violation::{pair_of, smallest_platable_drill, SourceSpan};
use lib::{DrcViolation, ViolationKind};

fn mm(v: f64) -> i64 {
    (v * 1_000_000.0).round() as i64
}

#[test]
fn test_clearance_violation() {
    let v = DrcViolation::clearance(1, 2, mm(0.1), mm(0.15), Point::origin());
    assert_eq!(v.kind, ViolationKind::Clearance);
    assert!(v.other_entity.is_some());
    assert!(v.message.contains("0.10"));
    assert!(v.message.contains("0.15"));
}

#[test]
fn test_drill_size_violation() {
    let v = DrcViolation::drill_size(1, mm(0.2), mm(0.3), Point::origin());
    assert_eq!(v.kind, ViolationKind::DrillSize);
    assert!(v.other_entity.is_none());
    assert!(v.message.contains("0.20"));
    assert!(v.message.contains("0.30"));
}

#[test]
fn test_unconnected_pin_violation() {
    let v = DrcViolation::unconnected_pin(1, "1", "R1", Point::origin());
    assert_eq!(v.kind, ViolationKind::UnconnectedPin);
    assert!(v.message.contains("R1.1"));
}

#[test]
fn test_with_source_span() {
    let v = DrcViolation::unconnected_pin(1, "1", "R1", Point::origin())
        .with_source_span(SourceSpan { start: 10, end: 20 });
    assert!(v.source_span.is_some());
    assert_eq!(v.source_span.unwrap().start, 10);
    assert_eq!(v.source_span.unwrap().end, 20);
}

#[test]
fn test_keepout_violation() {
    let v = DrcViolation::keepout(1, 2, "R1", Some("antenna_area"), Point::new(mm(15.0), mm(15.0)));
    assert_eq!(v.kind, ViolationKind::KeepoutViolation);
    assert!(v.other_entity.is_some());
    assert!(v.message.contains("R1"));
    assert!(v.message.contains("antenna_area"));
}

#[test]
fn test_keepout_violation_no_name() {
    let v = DrcViolation::keepout(1, 2, "U1", None, Point::origin());
    assert_eq!(v.kind, ViolationKind::KeepoutViolation);
    assert!(v.message.contains("U1"));
    assert!(v.message.contains("keepout zone"));
}

#[test]
fn the_smallest_platable_drill_is_the_thickness_over_the_ratio() {
    assert_eq!(smallest_platable_drill(mm(1.6), 800), mm(0.2));
    assert_eq!(smallest_platable_drill(mm(1.6), 1_200), 133_334);
    assert_eq!(smallest_platable_drill(mm(0.4), 800), mm(0.05));
    assert_eq!(smallest_platable_drill(mm(1.0), 300), 333_334);
}

#[test]
fn a_fab_that_publishes_no_ratio_puts_no_floor_under_a_drill() {
    assert_eq!(smallest_platable_drill(mm(1.6), 0), 0);
}

#[test]
fn clearance_message_states_both_lengths() {
    let v = DrcViolation::clearance(1, 2, 100_000, 127_000, Point::origin());
    assert_eq!(v.message, "Clearance violation: 0.10mm actual, 0.13mm required");
    assert_eq!(v.actual, Some(100_000));
    assert_eq!(v.required, Some(127_000));
}

#[test]
fn a_half_way_length_rounds_to_even() {
    // 0.125mm at two places sits exactly between 0.12 and 0.13.
    let v = DrcViolation::clearance(1, 2, 125_000, 135_000, Point::origin());
    assert_eq!(v.message, "Clearance violation: 0.12mm actual, 0.14mm required");
}

#[test]
fn a_negative_length_keeps_its_sign() {
    let v = DrcViolation::trace_width(3, -50_000, 100_000, Point::origin());
    assert!(v.message.contains("-0.05"));
}

#[test]
fn the_pair_is_the_part_before_the_first_colon() {
    assert_eq!(pair_of("R1 ↔ R2: Clearance violation: 0.10mm"), "R1 ↔ R2");
    assert_eq!(pair_of("  trace 'GND' : gap"), "trace 'GND'");
    assert_eq!(pair_of("no colon here"), "no colon here");
}

#[test]
fn a_drill_aspect_message_gives_the_ratio() {
    let v = DrcViolation::drill_aspect_ratio(7, 150_000, 1_600_000, 800, Point::new(1, 2));
    assert_eq!(v.kind, ViolationKind::DrillAspectRatio);
    assert_eq!(v.required, Some(200_000));
    assert_eq!(
        v.message,
        "A 0.150mm hole through a 1.60mm board is 10.7:1, more than the 8.0:1 this fab plates - 0.200mm is the smallest that reaches"
    );
}

#[test]
fn whole_ohms_print_without_decimals_and_others_with_two() {
    assert_eq!(format_ohms(5000), "50ohm");
    assert_eq!(format_ohms(9050), "90.50ohm");
    assert_eq!(format_ohms(4205), "42.05ohm");
    assert_eq!(format_ohms(7), "0.07ohm");
    assert_eq!(format_ohms(0), "0ohm");
}
