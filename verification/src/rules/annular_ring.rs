//! The ring of copper around a drilled pad.
use vstd::prelude::*;

use crate::board::{board_ok, component_ok, pad_location, pad_ok, picked, picked_pads, Board, Component, PadSite};
use crate::geometry::Point;
use crate::presets::{rules_ok, DesignRules};
use crate::violation::{describes, pad_info_text, printable, two_lengths, DrcViolation, ViolationKind};

verus! {

/// Rule for the ring of copper around a drilled pad: half of what the pad's
/// narrower side leaves once the drill is taken out.
pub struct AnnularRingRule;

/// The ring a drilled pad leaves: its narrower side less the drill, halved
/// toward zero.
pub open spec fn ring_of(p: PadSite, drill: i64) -> int {
    let narrow = if p.width <= p.height {
        p.width
    } else {
        p.height
    };
    let spare = narrow - drill;
    if spare >= 0 {
        spare / 2
    } else {
        -((-spare) / 2)
    }
}

/// **The ring is measured across the narrower side**: twice the ring is
/// what the narrower side leaves once the drill is out, cut toward zero to
/// an even number - never more than either side leaves, save the one
/// nanometre that rounding toward zero gives back on a drill wider than the
/// pad, and no more than a nanometre short of what the narrower side leaves.
pub proof fn lemma_ring_is_across_the_narrower_side(p: PadSite, drill: i64)
    ensures
        2 * ring_of(p, drill) <= p.width - drill + 1,
        2 * ring_of(p, drill) <= p.height - drill + 1,
        2 * ring_of(p, drill) >= p.width - drill - 1 || 2 * ring_of(p, drill) >= p.height - drill - 1,
        p.width - drill >= 0 && p.height - drill >= 0 ==> {
            &&& 2 * ring_of(p, drill) <= p.width - drill
            &&& 2 * ring_of(p, drill) <= p.height - drill
            &&& ring_of(p, drill) >= 0
        },
        p.width - drill < 0 || p.height - drill < 0 ==> {
            &&& ring_of(p, drill) <= 0
            &&& (2 * ring_of(p, drill) >= p.width - drill || 2 * ring_of(p, drill) >= p.height - drill)
        },
        ring_of(p, drill) == ring_of(PadSite { width: p.height, height: p.width, ..p }, drill),
{
}

/// The drilled pads whose ring is thinner than the rule.
pub open spec fn thin_ring(min: i64) -> spec_fn(Component, PadSite) -> bool {
    |c: Component, p: PadSite| p.drill matches Some(d) && ring_of(p, d) < min
}

/// `r` reports the ring of pad `p` of part `c` as thinner than `min`.
pub open spec fn reports_annular_ring(r: DrcViolation, c: Component, p: PadSite, min: i64) -> bool {
    let ring = ring_of(p, p.drill.unwrap()) as i64;
    describes(
        r,
        ViolationKind::AnnularRing,
        c.entity,
        None,
        Some(ring),
        Some(min),
        pad_location(c, p),
        pad_info_text(
            ViolationKind::AnnularRing,
            two_lengths("Annular ring violation: "@, ring, "mm actual, "@, min, "mm required"@, 3),
            c.refdes@,
            p.number@,
        ),
    )
}

impl AnnularRingRule {
    /// The rule's identifier in reports and filters.
    pub fn name(&self) -> (n: &'static str)
        ensures
            n@ == "annular-ring"@,
    {
        "annular-ring"
    }

    /// Every drilled pad whose ring is thinner than the rule, part by part and
    /// pad by pad.
    pub fn check(&self, board: &Board, rules: &DesignRules) -> (out: Vec<DrcViolation>)
        requires
            board_ok(*board),
            rules_ok(*rules),
        ensures
            found_by_annular_ring(*board, *rules, out@),
    {
        let min = rules.min_annular_ring;
        let ghost keep = thin_ring(min);
        let ghost cs = board.components@;
        let mut out: Vec<DrcViolation> = Vec::new();
        let mut i: usize = 0;
        while i < board.components.len()
            invariant
                i <= cs.len(),
                cs == board.components@,
                board_ok(*board),
                rules_ok(*rules),
                min == rules.min_annular_ring,
                keep == thin_ring(min),
                out@.len() == picked(cs.take(i as int), keep).len(),
                forall|k: int|
                    0 <= k < out@.len() ==> reports_annular_ring(
                        #[trigger] out@[k],
                        picked(cs.take(i as int), keep)[k].0,
                        picked(cs.take(i as int), keep)[k].1,
                        min,
                    ),
            decreases cs.len() - i,
        {
            let c = &board.components[i];
            let ghost done = picked(cs.take(i as int), keep);
            proof {
                assert(component_ok(cs[i as int]));
            }
            let mut j: usize = 0;
            while j < c.pads.len()
                invariant
                    j <= c.pads@.len(),
                    *c == cs[i as int],
                    component_ok(*c),
                    printable(min),
                    keep == thin_ring(min),
                    out@.len() == (done + picked_pads(*c, c.pads@.take(j as int), keep)).len(),
                    forall|k: int|
                        0 <= k < out@.len() ==> reports_annular_ring(
                            #[trigger] out@[k],
                            (done + picked_pads(*c, c.pads@.take(j as int), keep))[k].0,
                            (done + picked_pads(*c, c.pads@.take(j as int), keep))[k].1,
                            min,
                        ),
                decreases c.pads@.len() - j,
            {
                let p = &c.pads[j];
                proof {
                    assert(c.pads@.take(j + 1).drop_last() =~= c.pads@.take(j as int));
                    assert(c.pads@.take(j + 1).last() == *p);
                    assert(pad_ok(c.pads@[j as int]));
                }
                let ghost before = done + picked_pads(*c, c.pads@.take(j as int), keep);
                if let Some(drill) = p.drill {
                    let narrow = if p.width <= p.height {
                        p.width
                    } else {
                        p.height
                    };
                    let ring = (narrow - drill) / 2;
                    if ring < min {
                        let at = Point::new(c.position.x + p.offset.x, c.position.y + p.offset.y);
                        let v = DrcViolation::annular_ring(c.entity, ring, min, at).with_pad_info(
                            c.refdes.as_str(),
                            p.number.as_str(),
                        );
                        out.push(v);
                    }
                }
                proof {
                    let after = done + picked_pads(*c, c.pads@.take(j + 1), keep);
                    if keep(*c, *p) {
                        assert(after =~= before.push((*c, *p)));
                    } else {
                        assert(after =~= before);
                    }
                }
                j = j + 1;
            }
            proof {
                assert(c.pads@.take(c.pads@.len() as int) =~= c.pads@);
                assert(cs.take(i + 1).drop_last() =~= cs.take(i as int));
                assert(cs.take(i + 1).last() == *c);
            }
            i = i + 1;
        }
        assert(cs.take(i as int) =~= cs);
        out
    }
}

/// What the rule finds on a board: the plated holes whose copper ring is
/// thinner than the rule, each reported against its part and pad, in the order
/// the check walks them.
pub open spec fn found_by_annular_ring(board: Board, rules: DesignRules, out: Seq<DrcViolation>) -> bool {
    &&& out.len() == picked(board.components@, thin_ring(rules.min_annular_ring)).len()
    &&& forall|k: int|
        0 <= k < out.len() ==> reports_annular_ring(
            #[trigger] out[k],
            picked(board.components@, thin_ring(rules.min_annular_ring))[k].0,
            picked(board.components@, thin_ring(rules.min_annular_ring))[k].1,
            rules.min_annular_ring,
        )
}

} // verus!
