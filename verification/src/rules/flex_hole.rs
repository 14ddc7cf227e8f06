//! Checking that nothing is drilled where the board bends.
//!
//! The barrel of a plated hole is copper, and the laminate around it moves
//! every time a flexible region is folded: the barrel work-hardens and
//! splits. Any hole in a bend is reported - one that is not plated tears
//! the laminate instead of the copper.
use vstd::prelude::*;

use crate::board::{board_ok, rect_contains, Board, Zone, ZoneKind};
use crate::rules::{board_holes, hole_ok, holes_of, Hole};
use crate::text::{mm, mm_text};
use crate::violation::{describes, sentence, DrcViolation, ViolationKind};

verus! {

/// Rule for checking that nothing is drilled where the board bends.
pub struct FlexHoleRule;

/// The first flexible region among `zs` that holds `h`'s start, its edges
/// included.
pub open spec fn bend_holding(zs: Seq<Zone>, h: Hole) -> Option<Zone>
    decreases zs.len(),
{
    if zs.len() == 0 {
        None
    } else if zs[0].kind == ZoneKind::Flex && rect_contains(zs[0].bounds, h.start) {
        Some(zs[0])
    } else {
        bend_holding(zs.drop_first(), h)
    }
}

/// The holes that sit in a flexible region, each with the first region
/// that holds it, in the order of `hs`.
pub open spec fn holes_in_bends(hs: Seq<Hole>, zs: Seq<Zone>) -> Seq<(Hole, Zone)>
    decreases hs.len(),
{
    if hs.len() == 0 {
        Seq::empty()
    } else {
        let rest = holes_in_bends(hs.drop_last(), zs);
        match bend_holding(zs, hs.last()) {
            Some(z) => rest.push((hs.last(), z)),
            None => rest,
        }
    }
}

/// `r` reports hole `h` as sitting in region `z`.
pub open spec fn reports_flex_hole(r: DrcViolation, h: Hole, z: Zone) -> bool {
    describes(
        r,
        ViolationKind::FlexHole,
        h.entity,
        None,
        None,
        None,
        h.start,
        "a hole "@ + mm_text(h.radius * 2, 3) + "mm across sits in "@ + (match z.name {
            Some(n) => "the flexible region '"@ + n@ + "'"@,
            None => "a flexible region"@,
        }) + ": the barrel is copper and the laminate around it moves, so a plated hole in a bend cracks"@,
    )
}

/// The first flexible region that holds a hole's start.
fn find_bend<'a>(zones: &'a Vec<Zone>, h: &Hole) -> (r: Option<&'a Zone>)
    ensures
        match r {
            Some(z) => bend_holding(zones@, *h) == Some(*z),
            None => bend_holding(zones@, *h) is None,
        },
{
    let mut k: usize = 0;
    proof {
        assert(zones@.skip(0) =~= zones@);
    }
    while k < zones.len()
        invariant
            k <= zones@.len(),
            bend_holding(zones@, *h) == bend_holding(zones@.skip(k as int), *h),
        decreases zones@.len() - k,
    {
        proof {
            assert(zones@.skip(k as int).drop_first() =~= zones@.skip(k + 1));
            assert(zones@.skip(k as int)[0] == zones@[k as int]);
        }
        if zones[k].is_flex() && zones[k].contains(h.start) {
            return Some(&zones[k]);
        }
        k = k + 1;
    }
    None
}

impl FlexHoleRule {
    /// The rule's identifier in reports and filters.
    pub fn name(&self) -> (n: &'static str)
        ensures
            n@ == "flex-hole"@,
    {
        "flex-hole"
    }

    /// Every hole - the vias, then the drilled pads part by part - whose
    /// start lies in a flexible region, reported against the first region
    /// that holds it.
    pub fn check(&self, board: &Board) -> (out: Vec<DrcViolation>)
        requires
            board_ok(*board),
        ensures
            out@.len() == holes_in_bends(board_holes(*board), board.zones@).len(),
            forall|k: int|
                0 <= k < out@.len() ==> reports_flex_hole(
                    #[trigger] out@[k],
                    holes_in_bends(board_holes(*board), board.zones@)[k].0,
                    holes_in_bends(board_holes(*board), board.zones@)[k].1,
                ),
    {
        let holes = holes_of(board);
        let ghost hs = holes@;
        let mut out: Vec<DrcViolation> = Vec::new();
        let mut i: usize = 0;
        while i < holes.len()
            invariant
                i <= hs.len(),
                hs == holes@,
                hs == board_holes(*board),
                forall|k: int| 0 <= k < hs.len() ==> hole_ok(#[trigger] hs[k]),
                out@.len() == holes_in_bends(hs.take(i as int), board.zones@).len(),
                forall|k: int|
                    0 <= k < out@.len() ==> reports_flex_hole(
                        #[trigger] out@[k],
                        holes_in_bends(hs.take(i as int), board.zones@)[k].0,
                        holes_in_bends(hs.take(i as int), board.zones@)[k].1,
                    ),
            decreases hs.len() - i,
        {
            let h = &holes[i];
            proof {
                assert(hole_ok(hs[i as int]));
                assert(hs.take(i + 1).drop_last() =~= hs.take(i as int));
                assert(hs.take(i + 1).last() == *h);
            }
            if let Some(z) = find_bend(&board.zones, h) {
                let where_it_is = match &z.name {
                    Some(n) => sentence("the flexible region '", n.as_str(), "'", "", ""),
                    None => String::from_str("a flexible region"),
                };
                let message = sentence(
                    "a hole ",
                    mm(h.radius * 2, 3).as_str(),
                    "mm across sits in ",
                    where_it_is.as_str(),
                    ": the barrel is copper and the laminate around it moves, so a plated hole in a bend cracks",
                );
                proof {
                    reveal_strlit("");
                    reveal_strlit("a flexible region");
                }
                out.push(DrcViolation::flex_hole(h.entity, message, h.start));
            }
            i = i + 1;
        }
        proof {
            assert(hs.take(i as int) =~= hs);
        }
        out
    }
}

} // verus!
