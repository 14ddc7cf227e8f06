//! Vias narrower than the fab makes.
use vstd::prelude::*;

use crate::board::{board_ok, picked_vias, via_ok, Board, Via};
use crate::presets::{rules_ok, DesignRules};
use crate::violation::{describes, two_lengths, DrcViolation, ViolationKind};

verus! {

/// Rule for vias narrower than the fab makes.
pub struct ViaDiameterRule;

/// The vias whose copper is narrower than the rule.
pub open spec fn narrow_via(min: i64) -> spec_fn(Via) -> bool {
    |v: Via| v.outer_diameter < min
}

/// `r` reports `v` against the minimum `min`.
pub open spec fn reports_via_diameter(r: DrcViolation, v: Via, min: i64) -> bool {
    describes(
        r,
        ViolationKind::ViaDiameter,
        v.entity,
        None,
        Some(v.outer_diameter),
        Some(min),
        v.position,
        two_lengths("Via diameter violation: "@, v.outer_diameter, "mm actual, "@, min, "mm required"@, 2),
    )
}

impl ViaDiameterRule {
    /// The rule's identifier in reports and filters.
    pub fn name(&self) -> (n: &'static str)
        ensures
            n@ == "via-diameter"@,
    {
        "via-diameter"
    }

    /// Every via whose copper is narrower than the rule, one violation each, in board order.
    pub fn check(&self, board: &Board, rules: &DesignRules) -> (out: Vec<DrcViolation>)
        requires
            board_ok(*board),
            rules_ok(*rules),
        ensures
            found_by_via_diameter(*board, *rules, out@),
    {
        let min = rules.min_via_diameter;
        let ghost keep = narrow_via(min);
        let mut out: Vec<DrcViolation> = Vec::new();
        let mut i: usize = 0;
        while i < board.vias.len()
            invariant
                i <= board.vias@.len(),
                board_ok(*board),
                rules_ok(*rules),
                min == rules.min_via_diameter,
                keep == narrow_via(min),
                out@.len() == picked_vias(board.vias@.take(i as int), keep).len(),
                forall|k: int|
                    0 <= k < out@.len() ==> reports_via_diameter(
                        #[trigger] out@[k],
                        picked_vias(board.vias@.take(i as int), keep)[k],
                        min,
                    ),
            decreases board.vias@.len() - i,
        {
            let v = board.vias[i];
            proof {
                assert(board.vias@.take(i + 1).drop_last() =~= board.vias@.take(i as int));
                assert(board.vias@.take(i + 1).last() == v);
                assert(via_ok(board.vias@[i as int]));
            }
            if v.outer_diameter < min {
                out.push(DrcViolation::via_diameter(v.entity, v.outer_diameter, min, v.position));
            }
            i = i + 1;
        }
        assert(board.vias@.take(i as int) =~= board.vias@);
        out
    }
}

/// What the rule finds on a board: the vias narrower than the rule, in the
/// order the check walks them.
pub open spec fn found_by_via_diameter(board: Board, rules: DesignRules, out: Seq<DrcViolation>) -> bool {
    &&& out.len() == picked_vias(board.vias@, narrow_via(rules.min_via_diameter)).len()
    &&& forall|k: int|
        0 <= k < out.len() ==> reports_via_diameter(
            #[trigger] out[k],
            picked_vias(board.vias@, narrow_via(rules.min_via_diameter))[k],
            rules.min_via_diameter,
        )
}

} // verus!
