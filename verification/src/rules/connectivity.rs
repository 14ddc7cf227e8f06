//! Pins the design connects to no net.
use vstd::prelude::*;

use crate::board::{board_ok, component_ok, pad_location, pad_ok, picked, picked_pads, Board, Component, PadSite};
use crate::geometry::Point;
use crate::presets::{rules_ok, DesignRules};
use crate::violation::{describes, DrcViolation, ViolationKind};

verus! {

/// Rule for pins the design connects to no net.
///
/// Only parts whose footprint is one of the built-in library's are asked.
pub struct UnconnectedPinRule;

/// The pins of built-in footprints the design connects to no net.
pub open spec fn unconnected() -> spec_fn(Component, PadSite) -> bool {
    |c: Component, p: PadSite| c.builtin && p.net is None
}

/// `r` reports pin `p` of part `c` as connected to nothing.
pub open spec fn reports_unconnected_pin(r: DrcViolation, c: Component, p: PadSite) -> bool {
    describes(
        r,
        ViolationKind::UnconnectedPin,
        c.entity,
        None,
        None,
        None,
        pad_location(c, p),
        "Unconnected pin: "@ + c.refdes@ + "."@ + p.number@ + ""@,
    )
}

impl UnconnectedPinRule {
    /// The rule's identifier in reports and filters.
    pub fn name(&self) -> (n: &'static str)
        ensures
            n@ == "unconnected-pin"@,
    {
        "unconnected-pin"
    }

    /// Every pin of a built-in footprint that the design connects to no net,
    /// part by part and pad by pad.
    pub fn check(&self, board: &Board, rules: &DesignRules) -> (out: Vec<DrcViolation>)
        requires
            board_ok(*board),
            rules_ok(*rules),
        ensures
            found_by_unconnected_pin(*board, *rules, out@),
    {
        let ghost keep = unconnected();
        let ghost cs = board.components@;
        let mut out: Vec<DrcViolation> = Vec::new();
        let mut i: usize = 0;
        while i < board.components.len()
            invariant
                i <= cs.len(),
                cs == board.components@,
                board_ok(*board),
                rules_ok(*rules),
                keep == unconnected(),
                out@.len() == picked(cs.take(i as int), keep).len(),
                forall|k: int|
                    0 <= k < out@.len() ==> reports_unconnected_pin(
                        #[trigger] out@[k],
                        picked(cs.take(i as int), keep)[k].0,
                        picked(cs.take(i as int), keep)[k].1,
                    ),
            decreases cs.len() - i,
        {
            let c = &board.components[i];
            let ghost done = picked(cs.take(i as int), keep);
            proof {
                assert(component_ok(cs[i as int]));
            }
            let mut j: usize = 0;
            while j < c.pads.len()
                invariant
                    j <= c.pads@.len(),
                    *c == cs[i as int],
                    component_ok(*c),
                    keep == unconnected(),
                    out@.len() == (done + picked_pads(*c, c.pads@.take(j as int), keep)).len(),
                    forall|k: int|
                        0 <= k < out@.len() ==> reports_unconnected_pin(
                            #[trigger] out@[k],
                            (done + picked_pads(*c, c.pads@.take(j as int), keep))[k].0,
                            (done + picked_pads(*c, c.pads@.take(j as int), keep))[k].1,
                        ),
                decreases c.pads@.len() - j,
            {
                let p = &c.pads[j];
                proof {
                    assert(c.pads@.take(j + 1).drop_last() =~= c.pads@.take(j as int));
                    assert(c.pads@.take(j + 1).last() == *p);
                    assert(pad_ok(c.pads@[j as int]));
                }
                let ghost before = done + picked_pads(*c, c.pads@.take(j as int), keep);
                if c.builtin && p.net.is_none() {
                    let at = Point::new(c.position.x + p.offset.x, c.position.y + p.offset.y);
                    let v = DrcViolation::unconnected_pin(c.entity, p.number.as_str(), c.refdes.as_str(), at);
                    out.push(v);
                }
                proof {
                    let after = done + picked_pads(*c, c.pads@.take(j + 1), keep);
                    if keep(*c, *p) {
                        assert(after =~= before.push((*c, *p)));
                    } else {
                        assert(after =~= before);
                    }
                }
                j = j + 1;
            }
            proof {
                assert(c.pads@.take(c.pads@.len() as int) =~= c.pads@);
                assert(cs.take(i + 1).drop_last() =~= cs.take(i as int));
                assert(cs.take(i + 1).last() == *c);
            }
            i = i + 1;
        }
        assert(cs.take(i as int) =~= cs);
        out
    }
}

/// What the rule finds on a board: the pads that no net names, each reported
/// against its part, in the order the check walks them.
pub open spec fn found_by_unconnected_pin(board: Board, rules: DesignRules, out: Seq<DrcViolation>) -> bool {
    &&& out.len() == picked(board.components@, unconnected()).len()
    &&& forall|k: int|
        0 <= k < out.len() ==> reports_unconnected_pin(
            #[trigger] out[k],
            picked(board.components@, unconnected())[k].0,
            picked(board.components@, unconnected())[k].1,
        )
}

} // verus!
