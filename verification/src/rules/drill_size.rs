//! Drilled pads smaller than the fab drills.
use vstd::prelude::*;

use crate::board::{board_ok, component_ok, pad_location, pad_ok, picked, picked_pads, Board, Component, PadSite};
use crate::geometry::Point;
use crate::presets::{rules_ok, DesignRules};
use crate::violation::{describes, pad_info_text, printable, two_lengths, DrcViolation, ViolationKind};

verus! {

/// Rule for drilled pads smaller than the fab drills.
///
/// Only parts whose footprint is one of the built-in library's are asked.
pub struct MinDrillSizeRule;

/// The pads with a hole smaller than the rule, on parts whose footprint is
/// built in.
pub open spec fn small_drill(min: i64) -> spec_fn(Component, PadSite) -> bool {
    |c: Component, p: PadSite| c.builtin && (p.drill matches Some(d) && d < min)
}

/// `r` reports the pad `p` of part `c` as drilled smaller than `min`.
pub open spec fn reports_drill_size(r: DrcViolation, c: Component, p: PadSite, min: i64) -> bool {
    describes(
        r,
        ViolationKind::DrillSize,
        c.entity,
        None,
        p.drill,
        Some(min),
        pad_location(c, p),
        pad_info_text(
            ViolationKind::DrillSize,
            two_lengths("Drill size violation: "@, p.drill.unwrap(), "mm actual, "@, min, "mm minimum"@, 2),
            c.refdes@,
            p.number@,
        ),
    )
}

impl MinDrillSizeRule {
    /// The rule's identifier in reports and filters.
    pub fn name(&self) -> (n: &'static str)
        ensures
            n@ == "min-drill-size"@,
    {
        "min-drill-size"
    }

    /// Every drilled pad smaller than the rule, part by part and pad by pad.
    pub fn check(&self, board: &Board, rules: &DesignRules) -> (out: Vec<DrcViolation>)
        requires
            board_ok(*board),
            rules_ok(*rules),
        ensures
            found_by_drill_size(*board, *rules, out@),
    {
        let min = rules.min_drill_size;
        let ghost keep = small_drill(min);
        let ghost cs = board.components@;
        let mut out: Vec<DrcViolation> = Vec::new();
        let mut i: usize = 0;
        while i < board.components.len()
            invariant
                i <= cs.len(),
                cs == board.components@,
                board_ok(*board),
                rules_ok(*rules),
                min == rules.min_drill_size,
                keep == small_drill(min),
                out@.len() == picked(cs.take(i as int), keep).len(),
                forall|k: int|
                    0 <= k < out@.len() ==> reports_drill_size(
                        #[trigger] out@[k],
                        picked(cs.take(i as int), keep)[k].0,
                        picked(cs.take(i as int), keep)[k].1,
                        min,
                    ),
            decreases cs.len() - i,
        {
            let c = &board.components[i];
            let ghost done = picked(cs.take(i as int), keep);
            proof {
                assert(component_ok(cs[i as int]));
            }
            let mut j: usize = 0;
            while j < c.pads.len()
                invariant
                    j <= c.pads@.len(),
                    *c == cs[i as int],
                    component_ok(*c),
                    printable(min),
                    keep == small_drill(min),
                    out@.len() == (done + picked_pads(*c, c.pads@.take(j as int), keep)).len(),
                    forall|k: int|
                        0 <= k < out@.len() ==> reports_drill_size(
                            #[trigger] out@[k],
                            (done + picked_pads(*c, c.pads@.take(j as int), keep))[k].0,
                            (done + picked_pads(*c, c.pads@.take(j as int), keep))[k].1,
                            min,
                        ),
                decreases c.pads@.len() - j,
            {
                let p = &c.pads[j];
                proof {
                    assert(c.pads@.take(j + 1).drop_last() =~= c.pads@.take(j as int));
                    assert(c.pads@.take(j + 1).last() == *p);
                    assert(pad_ok(c.pads@[j as int]));
                }
                let ghost before = done + picked_pads(*c, c.pads@.take(j as int), keep);
                if c.builtin {
                    if let Some(drill) = p.drill {
                        if drill < min {
                            let at = Point::new(c.position.x + p.offset.x, c.position.y + p.offset.y);
                            let v = DrcViolation::drill_size(c.entity, drill, min, at).with_pad_info(
                                c.refdes.as_str(),
                                p.number.as_str(),
                            );
                            out.push(v);
                        }
                    }
                }
                proof {
                    let after = done + picked_pads(*c, c.pads@.take(j + 1), keep);
                    if keep(*c, *p) {
                        assert(after =~= before.push((*c, *p)));
                    } else {
                        assert(after =~= before);
                    }
                }
                j = j + 1;
            }
            proof {
                assert(c.pads@.take(c.pads@.len() as int) =~= c.pads@);
                assert(cs.take(i + 1).drop_last() =~= cs.take(i as int));
                assert(cs.take(i + 1).last() == *c);
            }
            i = i + 1;
        }
        assert(cs.take(i as int) =~= cs);
        out
    }
}

/// What the rule finds on a board: the holes drilled smaller than the rule
/// allows, each reported against its part and pad, in the order the check walks
/// them.
pub open spec fn found_by_drill_size(board: Board, rules: DesignRules, out: Seq<DrcViolation>) -> bool {
    &&& out.len() == picked(board.components@, small_drill(rules.min_drill_size)).len()
    &&& forall|k: int|
        0 <= k < out.len() ==> reports_drill_size(
            #[trigger] out[k],
            picked(board.components@, small_drill(rules.min_drill_size))[k].0,
            picked(board.components@, small_drill(rules.min_drill_size))[k].1,
            rules.min_drill_size,
        )
}

} // verus!
