use lib::rules::{
    AnnularRingRule, ClearanceRule, CourtyardClearanceRule, DrillAspectRatioRule, EdgeClearanceRule,
    HoleToHoleRule, KeepoutRule, MinDrillSizeRule, MinTraceWidthRule, PadLandRule,
    PasteClearanceRule, SilkClearanceRule, SolderMaskBridgeRule, UnconnectedPinRule,
    ViaDiameterRule, ViaDrillRule, ZoneOverlapRule,
};
use lib::ViolationKind;

#[test]
fn annular_ring_test_rule_name() {
    assert_eq!(AnnularRingRule.name(), "annular-ring");
}

#[test]
fn connectivity_test_rule_name() {
    assert_eq!(UnconnectedPinRule.name(), "unconnected-pin");
}

#[test]
fn drill_size_test_rule_name() {
    assert_eq!(MinDrillSizeRule.name(), "min-drill-size");
}

#[test]
fn trace_width_test_rule_name() {
    assert_eq!(MinTraceWidthRule.name(), "min-trace-width");
}

#[test]
fn rule_name() {
    assert_eq!(SolderMaskBridgeRule.name(), "solder-mask-bridge");
}

#[test]
fn test_rule_names() {
    assert_eq!(ClearanceRule.name(), "clearance");
    assert_eq!(MinDrillSizeRule.name(), "min-drill-size");
    assert_eq!(MinTraceWidthRule.name(), "min-trace-width");
    assert_eq!(UnconnectedPinRule.name(), "unconnected-pin");
    assert_eq!(KeepoutRule.name(), "keepout");
    assert_eq!(EdgeClearanceRule.name(), "edge-clearance");
    assert_eq!(AnnularRingRule.name(), "annular-ring");
    assert_eq!(HoleToHoleRule.name(), "hole-to-hole");
    assert_eq!(ViaDiameterRule.name(), "via-diameter");
    assert_eq!(CourtyardClearanceRule.name(), "courtyard-clearance");
    assert_eq!(SolderMaskBridgeRule.name(), "solder-mask-bridge");
    assert_eq!(SilkClearanceRule.name(), "silk-clearance");
}

#[test]
fn more_rule_names() {
    assert_eq!(ViaDrillRule.name(), "via-drill");
    assert_eq!(PadLandRule.name(), "pad-land");
    assert_eq!(PasteClearanceRule.name(), "paste-clearance");
    assert_eq!(DrillAspectRatioRule.name(), "drill-aspect-ratio");
    assert_eq!(ZoneOverlapRule.name(), "zone-overlap");
}

#[test]
fn test_violation_kind_display() {
    assert_eq!(ViolationKind::Clearance.to_string(), "clearance");
    assert_eq!(ViolationKind::DrillSize.to_string(), "drill-size");
    assert_eq!(ViolationKind::UnconnectedPin.to_string(), "unconnected-pin");
}

#[test]
fn test_violation_kind_display_keepout() {
    assert_eq!(ViolationKind::KeepoutViolation.to_string(), "keepout-violation");
}
