//! Vias drilled smaller than the fab drills.
use vstd::prelude::*;

use crate::board::{board_ok, picked_vias, via_ok, Board, Via};
use crate::presets::{rules_ok, DesignRules};
use crate::violation::{describes, two_lengths, DrcViolation, ViolationKind};

verus! {

/// Rule for vias drilled smaller than the fab drills: a hole the fab cannot drill is a board it will refuse.
pub struct ViaDrillRule;

/// The vias drilled smaller than the rule.
pub open spec fn small_via_drill(min: i64) -> spec_fn(Via) -> bool {
    |v: Via| v.drill < min
}

/// `r` reports `v` against the minimum `min`.
pub open spec fn reports_via_drill(r: DrcViolation, v: Via, min: i64) -> bool {
    describes(
        r,
        ViolationKind::ViaDrill,
        v.entity,
        None,
        Some(v.drill),
        Some(min),
        v.position,
        two_lengths("Via drill violation: "@, v.drill, "mm actual, "@, min, "mm required"@, 2),
    )
}

impl ViaDrillRule {
    /// The rule's identifier in reports and filters.
    pub fn name(&self) -> (n: &'static str)
        ensures
            n@ == "via-drill"@,
    {
        "via-drill"
    }

    /// Every via drilled smaller than the rule, one violation each, in board order.
    pub fn check(&self, board: &Board, rules: &DesignRules) -> (out: Vec<DrcViolation>)
        requires
            board_ok(*board),
            rules_ok(*rules),
        ensures
            found_by_via_drill(*board, *rules, out@),
    {
        let min = rules.min_via_drill;
        let ghost keep = small_via_drill(min);
        let mut out: Vec<DrcViolation> = Vec::new();
        let mut i: usize = 0;
        while i < board.vias.len()
            invariant
                i <= board.vias@.len(),
                board_ok(*board),
                rules_ok(*rules),
                min == rules.min_via_drill,
                keep == small_via_drill(min),
                out@.len() == picked_vias(board.vias@.take(i as int), keep).len(),
                forall|k: int|
                    0 <= k < out@.len() ==> reports_via_drill(
                        #[trigger] out@[k],
                        picked_vias(board.vias@.take(i as int), keep)[k],
                        min,
                    ),
            decreases board.vias@.len() - i,
        {
            let v = board.vias[i];
            proof {
                assert(board.vias@.take(i + 1).drop_last() =~= board.vias@.take(i as int));
                assert(board.vias@.take(i + 1).last() == v);
                assert(via_ok(board.vias@[i as int]));
            }
            if v.drill < min {
                out.push(DrcViolation::via_drill(v.entity, v.drill, min, v.position));
            }
            i = i + 1;
        }
        assert(board.vias@.take(i as int) =~= board.vias@);
        out
    }
}

/// What the rule finds on a board: the vias drilled smaller than the rule, in
/// the order the check walks them.
pub open spec fn found_by_via_drill(board: Board, rules: DesignRules, out: Seq<DrcViolation>) -> bool {
    &&& out.len() == picked_vias(board.vias@, small_via_drill(rules.min_via_drill)).len()
    &&& forall|k: int|
        0 <= k < out.len() ==> reports_via_drill(
            #[trigger] out[k],
            picked_vias(board.vias@, small_via_drill(rules.min_via_drill))[k],
            rules.min_via_drill,
        )
}

} // verus!
