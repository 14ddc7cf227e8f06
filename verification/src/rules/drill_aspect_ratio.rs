//! Checking holes too deep for their width for the plating to reach.
//!
//! Plating pulls copper down the barrel out of solution; past the depth to
//! width ratio a fab publishes, the middle of the hole comes back thin or
//! open. The depth is the board's thickness: the one its own stackup states,
//! or the fab's standard one where the design says nothing. Only plated
//! holes are asked - a bare mounting hole has no plating to fail.
use vstd::prelude::*;

use crate::board::{
    board_ok, component_ok, pad_centre, pad_ok, picked, picked_pads, picked_vias, via_ok, Board,
    Component, PadSite, Via,
};
use crate::geometry::Point;
use crate::presets::{rules_ok, DesignRules};
use crate::violation::{
    aspect_text, describes, platable_drill, smallest_platable_drill, DrcViolation, ViolationKind,
};

verus! {

/// Rule for holes too deep for their width for the plating to reach.
pub struct DrillAspectRatioRule;

/// How thick the board is: what its own stackup states, or the fab's
/// standard thickness where it states nothing.
pub open spec fn depth_of(board: Board, rules: DesignRules) -> i64 {
    match board.stackup_thickness {
        Some(t) => t,
        None => rules.board_thickness,
    }
}

/// The smallest hole the fab plates through this board.
pub open spec fn smallest_of(board: Board, rules: DesignRules) -> int {
    platable_drill(depth_of(board, rules) as int, rules.max_drill_aspect_ratio as int)
}

/// The vias drilled smaller than `smallest`.
pub open spec fn deep_vias(smallest: int) -> spec_fn(Via) -> bool {
    |v: Via| v.drill < smallest
}

/// The plated drilled pads drilled smaller than `smallest`.
pub open spec fn deep_pads(smallest: int) -> spec_fn(Component, PadSite) -> bool {
    |c: Component, p: PadSite| p.plated && p.drill is Some && p.drill.unwrap() < smallest
}

/// `r` reports a hole of drill `drill`, owned by `entity` at `location`, as
/// too deep for its width on a board `thickness` thick.
pub open spec fn reports_aspect(
    r: DrcViolation,
    entity: u32,
    drill: i64,
    thickness: i64,
    max_ratio_x100: u32,
    location: Point,
) -> bool {
    describes(
        r,
        ViolationKind::DrillAspectRatio,
        entity,
        None,
        Some(drill),
        Some(platable_drill(thickness as int, max_ratio_x100 as int) as i64),
        location,
        aspect_text(drill, thickness, max_ratio_x100),
    )
}

impl DrillAspectRatioRule {
    /// The rule's identifier in reports and filters.
    pub fn name(&self) -> (n: &'static str)
        ensures
            n@ == "drill-aspect-ratio"@,
    {
        "drill-aspect-ratio"
    }

    /// Every via, then every plated drilled pad part by part, drilled smaller
    /// than the smallest hole the fab plates through this board. Nothing
    /// where the fab publishes no ratio.
    pub fn check(&self, board: &Board, rules: &DesignRules) -> (out: Vec<DrcViolation>)
        requires
            board_ok(*board),
            rules_ok(*rules),
        ensures
            found_by_drill_aspect(*board, *rules, out@),
    {
        let thickness = match board.stackup_thickness {
            Some(t) => t,
            None => rules.board_thickness,
        };
        let ratio = rules.max_drill_aspect_ratio;
        let smallest = smallest_platable_drill(thickness, ratio);
        if smallest <= 0 {
            return Vec::new();
        }
        let ghost vkeep = deep_vias(smallest as int);
        let ghost pkeep = deep_pads(smallest as int);
        let mut out: Vec<DrcViolation> = Vec::new();
        let mut i: usize = 0;
        while i < board.vias.len()
            invariant
                i <= board.vias@.len(),
                board_ok(*board),
                thickness == depth_of(*board, *rules),
                ratio == rules.max_drill_aspect_ratio,
                0 <= thickness <= 1_000_000_000_000,
                smallest == smallest_of(*board, *rules),
                vkeep == deep_vias(smallest as int),
                out@.len() == picked_vias(board.vias@.take(i as int), vkeep).len(),
                forall|k: int|
                    0 <= k < out@.len() ==> reports_aspect(
                        #[trigger] out@[k],
                        picked_vias(board.vias@.take(i as int), vkeep)[k].entity,
                        picked_vias(board.vias@.take(i as int), vkeep)[k].drill,
                        thickness,
                        ratio,
                        picked_vias(board.vias@.take(i as int), vkeep)[k].position,
                    ),
            decreases board.vias@.len() - i,
        {
            let v = board.vias[i];
            proof {
                assert(board.vias@.take(i + 1).drop_last() =~= board.vias@.take(i as int));
                assert(board.vias@.take(i + 1).last() == v);
                assert(via_ok(board.vias@[i as int]));
            }
            if v.drill < smallest {
                out.push(DrcViolation::drill_aspect_ratio(v.entity, v.drill, thickness, ratio, v.position));
            }
            i = i + 1;
        }
        proof {
            assert(board.vias@.take(i as int) =~= board.vias@);
        }
        let ghost vias = out@;
        let ghost cs = board.components@;
        let mut i: usize = 0;
        while i < board.components.len()
            invariant
                i <= cs.len(),
                cs == board.components@,
                board_ok(*board),
                thickness == depth_of(*board, *rules),
                ratio == rules.max_drill_aspect_ratio,
                0 <= thickness <= 1_000_000_000_000,
                pkeep == deep_pads(smallest as int),
                vkeep == deep_vias(smallest as int),
                smallest == smallest_of(*board, *rules),
                vias.len() == picked_vias(board.vias@, vkeep).len(),
                forall|k: int|
                    0 <= k < vias.len() ==> reports_aspect(
                        #[trigger] vias[k],
                        picked_vias(board.vias@, vkeep)[k].entity,
                        picked_vias(board.vias@, vkeep)[k].drill,
                        thickness,
                        ratio,
                        picked_vias(board.vias@, vkeep)[k].position,
                    ),
                out@.len() == vias.len() + picked(cs.take(i as int), pkeep).len(),
                forall|k: int| 0 <= k < vias.len() ==> #[trigger] out@[k] == vias[k],
                forall|k: int|
                    0 <= k < picked(cs.take(i as int), pkeep).len() ==> reports_aspect(
                        #[trigger] out@[vias.len() + k],
                        picked(cs.take(i as int), pkeep)[k].0.entity,
                        picked(cs.take(i as int), pkeep)[k].1.drill.unwrap(),
                        thickness,
                        ratio,
                        pad_centre(picked(cs.take(i as int), pkeep)[k].0, picked(cs.take(i as int), pkeep)[k].1),
                    ),
            decreases cs.len() - i,
        {
            let c = &board.components[i];
            let ghost done = picked(cs.take(i as int), pkeep);
            proof {
                assert(component_ok(cs[i as int]));
            }
            let mut j: usize = 0;
            while j < c.pads.len()
                invariant
                    j <= c.pads@.len(),
                    *c == cs[i as int],
                    component_ok(*c),
                    0 <= thickness <= 1_000_000_000_000,
                    pkeep == deep_pads(smallest as int),
                    out@.len() == vias.len() + (done + picked_pads(*c, c.pads@.take(j as int), pkeep)).len(),
                    forall|k: int| 0 <= k < vias.len() ==> #[trigger] out@[k] == vias[k],
                    forall|k: int|
                        0 <= k < (done + picked_pads(*c, c.pads@.take(j as int), pkeep)).len()
                            ==> reports_aspect(
                            #[trigger] out@[vias.len() + k],
                            (done + picked_pads(*c, c.pads@.take(j as int), pkeep))[k].0.entity,
                            (done + picked_pads(*c, c.pads@.take(j as int), pkeep))[k].1.drill.unwrap(),
                            thickness,
                            ratio,
                            pad_centre(
                                (done + picked_pads(*c, c.pads@.take(j as int), pkeep))[k].0,
                                (done + picked_pads(*c, c.pads@.take(j as int), pkeep))[k].1,
                            ),
                        ),
                decreases c.pads@.len() - j,
            {
                let p = &c.pads[j];
                proof {
                    assert(pad_ok(c.pads@[j as int]));
                    assert(c.pads@.take(j + 1).drop_last() =~= c.pads@.take(j as int));
                    assert(c.pads@.take(j + 1).last() == *p);
                }
                let ghost before = done + picked_pads(*c, c.pads@.take(j as int), pkeep);
                if p.plated {
                    if let Some(drill) = p.drill {
                        if drill < smallest {
                            let location = Point {
                                x: c.position.x + p.turned.x,
                                y: c.position.y + p.turned.y,
                            };
                            out.push(DrcViolation::drill_aspect_ratio(c.entity, drill, thickness, ratio, location));
                            proof {
                                assert(done + picked_pads(*c, c.pads@.take(j + 1), pkeep) =~= before.push((*c, *p)));
                            }
                        }
                    }
                }
                j = j + 1;
            }
            proof {
                assert(c.pads@.take(j as int) =~= c.pads@);
                assert(cs.take(i + 1).drop_last() =~= cs.take(i as int));
                assert(picked(cs.take(i + 1), pkeep) == done + picked_pads(*c, c.pads@, pkeep));
            }
            i = i + 1;
        }
        proof {
            assert(cs.take(i as int) =~= cs);
        }
        out
    }
}

/// What the rule finds on a board: the vias and then the plated pad holes too
/// deep for their drill, in the order the check walks them.
pub open spec fn found_by_drill_aspect(board: Board, rules: DesignRules, out: Seq<DrcViolation>) -> bool {
    &&& smallest_of(board, rules) <= 0 ==> out.len() == 0
    &&& smallest_of(board, rules) > 0 ==> {
        let vias = picked_vias(board.vias@, deep_vias(smallest_of(board, rules)));
        let pads = picked(board.components@, deep_pads(smallest_of(board, rules)));
        let t = depth_of(board, rules);
        let ratio = rules.max_drill_aspect_ratio;
        &&& out.len() == vias.len() + pads.len()
        &&& forall|k: int|
            0 <= k < vias.len() ==> reports_aspect(
                #[trigger] out[k],
                vias[k].entity,
                vias[k].drill,
                t,
                ratio,
                vias[k].position,
            )
        &&& forall|k: int|
            0 <= k < pads.len() ==> reports_aspect(
                #[trigger] out[vias.len() + k],
                pads[k].0.entity,
                pads[k].1.drill.unwrap(),
                t,
                ratio,
                pad_centre(pads[k].0, pads[k].1),
            )
    }
}

} // verus!
