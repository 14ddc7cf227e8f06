//! The land around a drilled hole.
use vstd::prelude::*;

use crate::board::{board_ok, component_ok, pad_location, pad_ok, picked, picked_pads, Board, Component, PadSite};
use crate::geometry::Point;
use crate::presets::{rules_ok, DesignRules};
use crate::violation::{describes, printable, two_lengths, DrcViolation, ViolationKind};
use crate::text::mm_text;

verus! {

/// Rule for the land around a drilled hole: a plated hole's pad must be at
/// least the fab's land minimum across its narrower side.
pub struct PadLandRule;

/// A pad's land: its narrower side.
pub open spec fn land_of(p: PadSite) -> i64 {
    if p.width <= p.height {
        p.width
    } else {
        p.height
    }
}

/// The plated drilled pads whose land is smaller than the rule.
pub open spec fn small_land(min: i64) -> spec_fn(Component, PadSite) -> bool {
    |c: Component, p: PadSite| p.plated && p.drill is Some && land_of(p) < min
}

/// `r` reports the land of pad `p` of part `c` as smaller than `min`.
pub open spec fn reports_pad_land(r: DrcViolation, c: Component, p: PadSite, min: i64) -> bool {
    describes(
        r,
        ViolationKind::PadLand,
        c.entity,
        None,
        Some(land_of(p)),
        Some(min),
        pad_location(c, p),
        c.refdes@ + "."@ + p.number@ + ": land is "@ + mm_text(land_of(p) as int, 3) + two_lengths(
            "mm around a "@,
            p.drill.unwrap(),
            "mm hole, "@,
            min,
            "mm required"@,
            3,
        ),
    )
}

impl PadLandRule {
    /// The rule's identifier in reports and filters.
    pub fn name(&self) -> (n: &'static str)
        ensures
            n@ == "pad-land"@,
    {
        "pad-land"
    }

    /// Every plated hole whose land is under the fab's minimum, part by part
    /// and pad by pad.
    pub fn check(&self, board: &Board, rules: &DesignRules) -> (out: Vec<DrcViolation>)
        requires
            board_ok(*board),
            rules_ok(*rules),
        ensures
            found_by_pad_land(*board, *rules, out@),
    {
        let min = rules.min_pad_size;
        let ghost keep = small_land(min);
        let ghost cs = board.components@;
        let mut out: Vec<DrcViolation> = Vec::new();
        let mut i: usize = 0;
        while i < board.components.len()
            invariant
                i <= cs.len(),
                cs == board.components@,
                board_ok(*board),
                rules_ok(*rules),
                min == rules.min_pad_size,
                keep == small_land(min),
                out@.len() == picked(cs.take(i as int), keep).len(),
                forall|k: int|
                    0 <= k < out@.len() ==> reports_pad_land(
                        #[trigger] out@[k],
                        picked(cs.take(i as int), keep)[k].0,
                        picked(cs.take(i as int), keep)[k].1,
                        min,
                    ),
            decreases cs.len() - i,
        {
            let c = &board.components[i];
            let ghost done = picked(cs.take(i as int), keep);
            proof {
                assert(component_ok(cs[i as int]));
            }
            let mut j: usize = 0;
            while j < c.pads.len()
                invariant
                    j <= c.pads@.len(),
                    *c == cs[i as int],
                    component_ok(*c),
                    printable(min),
                    keep == small_land(min),
                    out@.len() == (done + picked_pads(*c, c.pads@.take(j as int), keep)).len(),
                    forall|k: int|
                        0 <= k < out@.len() ==> reports_pad_land(
                            #[trigger] out@[k],
                            (done + picked_pads(*c, c.pads@.take(j as int), keep))[k].0,
                            (done + picked_pads(*c, c.pads@.take(j as int), keep))[k].1,
                            min,
                        ),
                decreases c.pads@.len() - j,
            {
                let p = &c.pads[j];
                proof {
                    assert(c.pads@.take(j + 1).drop_last() =~= c.pads@.take(j as int));
                    assert(c.pads@.take(j + 1).last() == *p);
                    assert(pad_ok(c.pads@[j as int]));
                }
                let ghost before = done + picked_pads(*c, c.pads@.take(j as int), keep);
                if p.plated {
                    if let Some(drill) = p.drill {
                        let land = if p.width <= p.height {
                            p.width
                        } else {
                            p.height
                        };
                        if land < min {
                            let at = Point::new(c.position.x + p.offset.x, c.position.y + p.offset.y);
                            let pin = crate::violation::sentence(c.refdes.as_str(), ".", p.number.as_str(), "", "");
                            proof {
                                reveal_strlit("");
                                assert(pin@ =~= c.refdes@ + "."@ + p.number@);
                            }
                            let v = DrcViolation::pad_land(c.entity, pin, land, drill, min, at);
                            out.push(v);
                        }
                    }
                }
                proof {
                    let after = done + picked_pads(*c, c.pads@.take(j + 1), keep);
                    if keep(*c, *p) {
                        assert(after =~= before.push((*c, *p)));
                    } else {
                        assert(after =~= before);
                    }
                }
                j = j + 1;
            }
            proof {
                assert(c.pads@.take(c.pads@.len() as int) =~= c.pads@);
                assert(cs.take(i + 1).drop_last() =~= cs.take(i as int));
                assert(cs.take(i + 1).last() == *c);
            }
            i = i + 1;
        }
        assert(cs.take(i as int) =~= cs);
        out
    }
}

/// What the rule finds on a board: the pads smaller than the rule, each
/// reported against its part, in the order the check walks them.
pub open spec fn found_by_pad_land(board: Board, rules: DesignRules, out: Seq<DrcViolation>) -> bool {
    &&& out.len() == picked(board.components@, small_land(rules.min_pad_size)).len()
    &&& forall|k: int|
        0 <= k < out.len() ==> reports_pad_land(
            #[trigger] out[k],
            picked(board.components@, small_land(rules.min_pad_size))[k].0,
            picked(board.components@, small_land(rules.min_pad_size))[k].1,
            rules.min_pad_size,
        )
}

} // verus!
