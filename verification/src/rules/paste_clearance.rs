//! Checking the web of steel between paste stencil openings.
//!
//! A stencil aperture is the pad itself, and only a surface-mount pad gets
//! one. Where two apertures on one face come closer than the rule, the web
//! of steel between them tears and the parts bridge with solder on reflow.
use vstd::prelude::*;

use crate::board::{board_ok, Board};
use crate::geometry::{mid, midpoint};
use crate::presets::{rules_ok, DesignRules};
use crate::rules::openings::{
    board_openings, lemma_thin_webs_ok, opening_ok, shown_web, sorted_by_x, sorted_openings, thin_webs,
    thin_webs_of, web_between, Opening,
};
use crate::violation::{describes, two_lengths, DrcViolation, ViolationKind};

verus! {

/// Rule for the web between two paste stencil openings.
pub struct PasteClearanceRule;

/// The board's stencil apertures in sweep order.
pub open spec fn paste_openings(board: Board) -> Seq<Opening> {
    sorted_by_x(board_openings(board.components@, 0, true))
}

/// `r` reports the stencil web between apertures `a` and `b` as thinner than
/// `min`.
pub open spec fn reports_paste_web(r: DrcViolation, a: Opening, b: Opening, min: i64) -> bool {
    describes(
        r,
        ViolationKind::PasteClearance,
        a.entity,
        Some(b.entity),
        Some(shown_web(a, b) as i64),
        Some(min),
        mid(a.center, b.center),
        two_lengths(
            "Paste stencil web is "@,
            shown_web(a, b) as i64,
            "mm, "@,
            min,
            "mm required"@,
            3,
        ),
    )
}

impl PasteClearanceRule {
    /// The rule's identifier in reports and filters.
    pub fn name(&self) -> (n: &'static str)
        ensures
            n@ == "paste-clearance"@,
    {
        "paste-clearance"
    }

    /// Every pair of stencil apertures on one face with less web between them
    /// than the rule, in the order the sweep by x finds them.
    pub fn check(&self, board: &Board, rules: &DesignRules) -> (out: Vec<DrcViolation>)
        requires
            board_ok(*board),
            rules_ok(*rules),
        ensures
            found_by_paste_clearance(*board, *rules, out@),
    {
        let min = rules.min_paste_clearance;
        let openings = sorted_openings(board, 0, true);
        let pairs = thin_webs_of(&openings, min);
        proof {
            lemma_thin_webs_ok(openings@, min);
        }
        let mut out: Vec<DrcViolation> = Vec::new();
        let mut k: usize = 0;
        while k < pairs.len()
            invariant
                k <= pairs@.len(),
                pairs@ == thin_webs(openings@, min, 0, 1),
                openings@ == paste_openings(*board),
                min == rules.min_paste_clearance,
                rules_ok(*rules),
                forall|t: int|
                    0 <= t < pairs@.len() ==> opening_ok(
                        (#[trigger] pairs@[t]).0,
                    ) && opening_ok(pairs@[t].1),
                out@.len() == k,
                forall|t: int|
                    0 <= t < k ==> reports_paste_web(
                        #[trigger] out@[t],
                        pairs@[t].0,
                        pairs@[t].1,
                        min,
                    ),
            decreases pairs@.len() - k,
        {
            let (a, b) = pairs[k];
            proof {
                assert(opening_ok(pairs@[k as int].0));
            }
            let web = web_between(&a, &b);
            let shown = if web > 0 {
                web
            } else {
                0
            };
            let location = midpoint(a.center, b.center);
            out.push(DrcViolation::paste_clearance(a.entity, b.entity, shown, min, location));
            k = k + 1;
        }
        out
    }
}

/// What the rule finds on a board: the stencil webs between neighbouring
/// apertures thinner than the rule, in the order the check walks them.
pub open spec fn found_by_paste_clearance(board: Board, rules: DesignRules, out: Seq<DrcViolation>) -> bool {
    &&& out.len() == thin_webs(
        paste_openings(board),
        rules.min_paste_clearance,
        0,
        1,
    ).len()
    &&& forall|k: int|
        0 <= k < out.len() ==> reports_paste_web(
            #[trigger] out[k],
            thin_webs(paste_openings(board), rules.min_paste_clearance, 0, 1)[k].0,
            thin_webs(paste_openings(board), rules.min_paste_clearance, 0, 1)[k].1,
            rules.min_paste_clearance,
        )
}

} // verus!
