//! Checking a drilled hole too close to the board edge.
//!
//! A hole too near the edge breaks out of it when the board is routed. Each
//! hole's box - the bit's travel grown by its radius - is measured against
//! the edge the way copper is.
use vstd::prelude::*;

use crate::board::{board_ok, Board};
use crate::geometry::{mid, pt_ok};
use crate::presets::{rules_ok, DesignRules};
use crate::rules::copper_pairs::clip;
use crate::rules::edge_clearance::{distance_to_edge, edge_gap};
use crate::rules::{board_holes, hole_bounds, hole_ok, holes_of, Hole};
use crate::violation::{describes, two_lengths, DrcViolation, ViolationKind};

verus! {

/// Rule for a drilled hole too close to the board edge.
pub struct HoleToEdgeRule;

impl HoleToEdgeRule {
    /// The rule's identifier in reports and filters.
    pub fn name(&self) -> (n: &'static str)
        ensures
            n@ == "hole-to-edge"@,
    {
        "hole-to-edge"
    }
}

/// A hole whose box lies inside the range the edge is measured in.
pub open spec fn hole_in_range(h: Hole) -> bool {
    let (lx, ly, hx, hy) = hole_bounds(h);
    pt_ok([lx as i64, ly as i64]) && pt_ok([hx as i64, hy as i64]) && lx == lx as i64 && ly == ly as i64
        && hx == hx as i64 && hy == hy as i64
}

/// How far a hole's box sits inside the board's edge.
pub open spec fn hole_edge_gap(b: Board, h: Hole) -> int {
    let (lx, ly, hx, hy) = hole_bounds(h);
    edge_gap(b, lx as i64, ly as i64, hx as i64, hy as i64)
}

/// The holes among `hs` closer to the edge than `required`.
pub open spec fn hole_edge_hits(b: Board, hs: Seq<Hole>, required: i64) -> Seq<Hole>
    decreases hs.len(),
{
    if hs.len() == 0 {
        Seq::empty()
    } else {
        let rest = hole_edge_hits(b, hs.drop_last(), required);
        let h = hs.last();
        if hole_in_range(h) && hole_edge_gap(b, h) < required {
            rest.push(h)
        } else {
            rest
        }
    }
}

/// `v` reports hole `h` too close to the edge.
pub open spec fn reports_hole_edge(v: DrcViolation, b: Board, h: Hole, required: i64) -> bool {
    let actual = clip(hole_edge_gap(b, h)) as i64;
    describes(
        v,
        ViolationKind::HoleToEdge,
        h.entity,
        None,
        Some(actual),
        Some(required),
        mid(h.start, h.end),
        two_lengths("Hole is "@, actual, "mm from the board edge, "@, required, "mm required"@, 3),
    )
}

/// What the rule finds on a board: nothing where the design declares no
/// board; otherwise each hole, vias first and then drilled pads, whose box
/// is closer to the edge than the rule. A hole whose box reaches past the
/// range coordinates are carried in is not measured.
pub open spec fn found_by_hole_to_edge(b: Board, r: DesignRules, out: Seq<DrcViolation>) -> bool {
    if b.size is None {
        out.len() == 0
    } else {
        let hits = hole_edge_hits(b, board_holes(b), r.min_hole_to_edge);
        &&& out.len() == hits.len()
        &&& forall|k: int| 0 <= k < out.len() ==> reports_hole_edge(#[trigger] out[k], b, hits[k], r.min_hole_to_edge)
    }
}

/// Whether a coordinate is inside the range the edge is measured in.
fn fits(v: i64) -> (r: bool)
    ensures
        r == crate::geometry::coord_ok(v as int),
{
    -1_073_741_824 < v && v < 1_073_741_824
}

impl HoleToEdgeRule {
    /// Every hole, vias first and then drilled pads part by part, whose box
    /// sits closer to the board's edge than the rule allows, each reported
    /// at the middle of the hole with the gap, never below zero. Nothing
    /// where the design declares no board.
    pub fn check(&self, board: &Board, rules: &DesignRules) -> (out: Vec<DrcViolation>)
        requires
            board_ok(*board),
            rules_ok(*rules),
        ensures
            found_by_hole_to_edge(*board, *rules, out@),
    {
        let mut out: Vec<DrcViolation> = Vec::new();
        if board.size.is_none() {
            return out;
        }
        let required = rules.min_hole_to_edge;
        let hs = holes_of(board);
        let mut k: usize = 0;
        while k < hs.len()
            invariant
                k <= hs@.len(),
                board_ok(*board),
                rules_ok(*rules),
                board.size is Some,
                required == rules.min_hole_to_edge,
                hs@ == board_holes(*board),
                forall|j: int| 0 <= j < hs@.len() ==> hole_ok(#[trigger] hs@[j]),
                out@.len() == hole_edge_hits(*board, hs@.take(k as int), required).len(),
                forall|j: int|
                    0 <= j < out@.len() ==> reports_hole_edge(
                        #[trigger] out@[j],
                        *board,
                        hole_edge_hits(*board, hs@.take(k as int), required)[j],
                        required,
                    ),
            decreases hs@.len() - k,
        {
            let h = hs[k];
            let ghost prior = hole_edge_hits(*board, hs@.take(k as int), required);
            proof {
                assert(hs@.take(k + 1).drop_last() =~= hs@.take(k as int));
                assert(hs@.take(k + 1).last() == h);
                assert(hole_ok(hs@[k as int]));
            }
            let (lx, ly, hx, hy) = h.bounds();
            if fits(lx) && fits(ly) && fits(hx) && fits(hy) {
                let gap = distance_to_edge(board, lx, ly, hx, hy);
                if gap < required {
                    let actual: i64 = if gap > 0 {
                        gap
                    } else {
                        0
                    };
                    let ghost old_out = out@;
                    out.push(DrcViolation::hole_to_edge(h.entity, actual, required, h.centre()));
                    proof {
                        let whole = hole_edge_hits(*board, hs@.take(k + 1), required);
                        assert(whole == prior.push(h));
                        assert forall|j: int| 0 <= j < out@.len() implies reports_hole_edge(
                            #[trigger] out@[j],
                            *board,
                            whole[j],
                            required,
                        ) by {
                            if j < old_out.len() {
                                assert(out@[j] == old_out[j]);
                            }
                        }
                    }
                } else {
                    proof {
                        assert(hole_edge_hits(*board, hs@.take(k + 1), required) == prior);
                    }
                }
            } else {
                proof {
                    assert(hole_edge_hits(*board, hs@.take(k + 1), required) == prior);
                }
            }
            k = k + 1;
        }
        proof {
            assert(hs@.take(k as int) =~= hs@);
        }
        out
    }
}

} // verus!
