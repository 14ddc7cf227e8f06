//! The checker's fixed sequence of rules, run one after another over a board.
use vstd::prelude::*;

use crate::board::{board_ok, Board};
use crate::presets::{rules_ok, DesignRules};
use crate::rules::annular_ring::found_by_annular_ring;
use crate::rules::connectivity::found_by_unconnected_pin;
use crate::rules::courtyard_clearance::found_by_courtyard;
use crate::rules::diff_pair::found_by_diff_pair;
use crate::rules::drill_aspect_ratio::found_by_drill_aspect;
use crate::rules::drill_size::found_by_drill_size;
use crate::rules::hole_to_hole::found_by_hole_to_hole;
use crate::rules::mounting_hole_clearance::{found_by_mounting_hole, MountingHoleClearanceRule};
use crate::rules::edge_clearance::{found_by_edge, EdgeClearanceRule};
use crate::rules::hole_to_edge::{found_by_hole_to_edge, HoleToEdgeRule};
use crate::rules::neck_down::found_by_neck_down;
use crate::rules::pad_land::found_by_pad_land;
use crate::rules::paste_clearance::found_by_paste_clearance;
use crate::rules::pour_island::found_by_pour_island;
use crate::rules::slot_clearance::found_by_slot;
use crate::rules::solder_mask_bridge::found_by_mask_bridge;
use crate::rules::stackup::found_by_stackup;
use crate::rules::trace_width::found_by_trace_width;
use crate::rules::unrouted_pin::found_by_unrouted_pin;
use crate::rules::via_diameter::found_by_via_diameter;
use crate::rules::via_drill::found_by_via_drill;
use crate::rules::zone_overlap::found_by_zone_overlap;
use crate::rules::{
    found_by_keepout, AnnularRingRule, CourtyardClearanceRule, DiffPairSkewRule, DrillAspectRatioRule,
    HoleToHoleRule, KeepoutRule, MinDrillSizeRule, NeckDownRule, MinTraceWidthRule, PadLandRule,
    PasteClearanceRule, PourIslandRule, SlotClearanceRule, SolderMaskBridgeRule, StackupRule, UnconnectedPinRule, UnroutedPinRule,
    ViaDiameterRule, ViaDrillRule, ZoneOverlapRule,
};
use crate::violation::DrcViolation;

verus! {

/// The lists one after another, in order.
pub open spec fn joined(parts: Seq<Seq<DrcViolation>>) -> Seq<DrcViolation>
    decreases parts.len(),
{
    if parts.len() == 0 {
        Seq::empty()
    } else {
        joined(parts.drop_last()) + parts.last()
    }
}

/// What each rule of the checker's sequence finds on the board, in the
/// sequence's order: drill size, trace width, unconnected pins, keepouts,
/// copper by the board edge, annular rings, hole spacing, copper by
/// unplated holes, via diameter, via drill, courtyards, mask
/// webs, declared necks, shorted pours, pour islands, unrouted pins,
/// differential pairs, the declared stackup, stencil webs, holes by the
/// board edge, copper by milled slots, pad lands and drill aspect ratio.
pub open spec fn found_in_sequence(board: Board, rules: DesignRules, parts: Seq<Seq<DrcViolation>>) -> bool {
    &&& parts.len() == 23
    &&& found_by_drill_size(board, rules, parts[0])
    &&& found_by_trace_width(board, rules, parts[1])
    &&& found_by_unconnected_pin(board, rules, parts[2])
    &&& found_by_keepout(board, parts[3])
    &&& found_by_edge(board, rules, parts[4])
    &&& found_by_annular_ring(board, rules, parts[5])
    &&& found_by_hole_to_hole(board, rules, parts[6])
    &&& found_by_mounting_hole(board, rules, parts[7])
    &&& found_by_via_diameter(board, rules, parts[8])
    &&& found_by_via_drill(board, rules, parts[9])
    &&& found_by_courtyard(board, rules, parts[10])
    &&& found_by_mask_bridge(board, rules, parts[11])
    &&& found_by_neck_down(board, rules, parts[12])
    &&& found_by_zone_overlap(board, rules, parts[13])
    &&& found_by_pour_island(board, parts[14])
    &&& found_by_unrouted_pin(board, parts[15])
    &&& found_by_diff_pair(board, rules, parts[16])
    &&& found_by_stackup(board, parts[17])
    &&& found_by_paste_clearance(board, rules, parts[18])
    &&& found_by_hole_to_edge(board, rules, parts[19])
    &&& found_by_slot(board, rules, parts[20])
    &&& found_by_pad_land(board, rules, parts[21])
    &&& found_by_drill_aspect(board, rules, parts[22])
}

proof fn lemma_joined_push(parts: Seq<Seq<DrcViolation>>, last: Seq<DrcViolation>)
    ensures
        joined(parts.push(last)) == joined(parts) + last,
{
    assert(parts.push(last).drop_last() =~= parts);
}

/// Appends what one rule found to the list so far.
fn add_part(
    found: &mut Vec<DrcViolation>,
    part: Vec<DrcViolation>,
    Ghost(parts): Ghost<Seq<Seq<DrcViolation>>>,
) -> (now: Ghost<Seq<Seq<DrcViolation>>>)
    requires
        old(found)@ == joined(parts),
    ensures
        now@ == parts.push(part@),
        final(found)@ == joined(now@),
{
    let mut part = part;
    let ghost taken = part@;
    found.append(&mut part);
    proof {
        lemma_joined_push(parts, taken);
    }
    Ghost(parts.push(taken))
}

/// Runs every rule the checker implements over the board, in the checker's
/// fixed sequence, and returns what they found, rule after rule.
pub fn run_rules(board: &Board, rules: &DesignRules) -> (found: Vec<DrcViolation>)
    requires
        board_ok(*board),
        rules_ok(*rules),
    ensures
        exists|parts: Seq<Seq<DrcViolation>>|
            #[trigger] found_in_sequence(*board, *rules, parts) && found@ == joined(parts),
{
    let mut found: Vec<DrcViolation> = Vec::new();
    let g = Ghost(Seq::<Seq<DrcViolation>>::empty());
    let g = add_part(&mut found, MinDrillSizeRule.check(board, rules), g);
    let g = add_part(&mut found, MinTraceWidthRule.check(board, rules), g);
    let g = add_part(&mut found, UnconnectedPinRule.check(board, rules), g);
    let g = add_part(&mut found, KeepoutRule.check(board), g);
    let g = add_part(&mut found, EdgeClearanceRule.check(board, rules), g);
    let g = add_part(&mut found, AnnularRingRule.check(board, rules), g);
    let g = add_part(&mut found, HoleToHoleRule.check(board, rules), g);
    let g = add_part(&mut found, MountingHoleClearanceRule.check(board, rules), g);
    let g = add_part(&mut found, ViaDiameterRule.check(board, rules), g);
    let g = add_part(&mut found, ViaDrillRule.check(board, rules), g);
    let g = add_part(&mut found, CourtyardClearanceRule.check(board, rules), g);
    let g = add_part(&mut found, SolderMaskBridgeRule.check(board, rules), g);
    let g = add_part(&mut found, NeckDownRule.check(board, rules), g);
    let g = add_part(&mut found, ZoneOverlapRule.check(board, rules), g);
    let g = add_part(&mut found, PourIslandRule.check(board), g);
    let g = add_part(&mut found, UnroutedPinRule.check(board), g);
    let g = add_part(&mut found, DiffPairSkewRule.check(board, rules), g);
    let g = add_part(&mut found, StackupRule.check(board), g);
    let g = add_part(&mut found, PasteClearanceRule.check(board, rules), g);
    let g = add_part(&mut found, HoleToEdgeRule.check(board, rules), g);
    let g = add_part(&mut found, SlotClearanceRule.check(board, rules), g);
    let g = add_part(&mut found, PadLandRule.check(board, rules), g);
    let g = add_part(&mut found, DrillAspectRatioRule.check(board, rules), g);
    proof {
        assert(found_in_sequence(*board, *rules, g@));
    }
    found
}

} // verus!
