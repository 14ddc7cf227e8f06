//! Checking copper too close to a milled slot.
//!
//! A slot is a routed opening made by the same mill as the board outline, so
//! copper against a slot is the routed-edge question asked of the slot. A
//! plated slot has its own annulus around it by construction, so the rule
//! measures other nets' copper only: the slot's own part is skipped, and so
//! is copper on any net that part connects to. A drilled hole is a slot of
//! no travel, and the rule has nothing to say about it.
use vstd::prelude::*;

use crate::board::{board_ok, Board, CopperEntry, NetLink};
use crate::geometry::{mid, midpoint, point_ok, round_seg, Point};
use crate::presets::{rules_ok, DesignRules};
use crate::rules::{board_holes, hole_ok, holes_of, segment_distance, Hole};
use crate::violation::{describes, two_lengths, DrcViolation, ViolationKind};

verus! {

/// Rule for copper too close to a milled slot.
pub struct SlotClearanceRule;

/// The least of four numbers.
pub open spec fn least4(a: int, b: int, c: int, d: int) -> int {
    let ab = if a <= b {
        a
    } else {
        b
    };
    let cd = if c <= d {
        c
    } else {
        d
    };
    if ab <= cd {
        ab
    } else {
        cd
    }
}

/// Laminate between the box from `(min_x, min_y)` to `(max_x, max_y)` and the
/// wall of a slot: the least distance from a side of the box to the slot's
/// axis, less the bit's radius. Negative where the box reaches into the
/// slot.
pub open spec fn box_slot_gap(slot: Hole, min_x: i64, min_y: i64, max_x: i64, max_y: i64) -> int {
    let (a, b, c, d) = ([min_x, min_y], [max_x, min_y], [max_x, max_y], [min_x, max_y]);
    let (s, e) = (slot.start.raw(), slot.end.raw());
    least4(round_seg(a, b, s, e), round_seg(b, c, s, e), round_seg(c, d, s, e), round_seg(d, a, s, e))
        - slot.radius
}

/// Laminate between a box and the wall of a milled slot.
///
/// The slot is a capsule, a segment with a radius, which is what the mill
/// leaves: each of the box's four sides is measured against the slot's axis
/// and the radius taken off, so a box beside the middle of a long slot is
/// measured against the slot's side rather than its end.
pub fn box_to_slot_gap(slot: &Hole, min_x: i64, min_y: i64, max_x: i64, max_y: i64) -> (g: i64)
    requires
        hole_ok(*slot),
        point_ok(Point { x: min_x, y: min_y }),
        point_ok(Point { x: max_x, y: max_y }),
    ensures
        g == box_slot_gap(*slot, min_x, min_y, max_x, max_y),
{
    let a = Point { x: min_x, y: min_y };
    let b = Point { x: max_x, y: min_y };
    let c = Point { x: max_x, y: max_y };
    let d = Point { x: min_x, y: max_y };
    let one = segment_distance(a, b, slot.start, slot.end);
    let two = segment_distance(b, c, slot.start, slot.end);
    let three = segment_distance(c, d, slot.start, slot.end);
    let four = segment_distance(d, a, slot.start, slot.end);
    let ab = if one <= two {
        one
    } else {
        two
    };
    let cd = if three <= four {
        three
    } else {
        four
    };
    let nearest = if ab <= cd {
        ab
    } else {
        cd
    };
    nearest - slot.radius
}

/// The nets an entity carries: those of the first link listed for it, or
/// none.
pub open spec fn nets_of(links: Seq<NetLink>, e: u32) -> Seq<u32>
    decreases links.len(),
{
    if links.len() == 0 {
        Seq::empty()
    } else if links[0].entity == e {
        links[0].nets@
    } else {
        nets_of(links.drop_first(), e)
    }
}

/// Copper on a net the slot's own part connects to: it belongs there.
pub open spec fn shares_a_net(own: Seq<u32>, theirs: Seq<u32>) -> bool {
    own.len() > 0 && exists|k: int| 0 <= k < theirs.len() && own.contains(#[trigger] theirs[k])
}

/// The copper the rule measures against a slot: each entry, among the
/// first `n`, that is not the slot's own and carries none of its nets, with
/// its gap to the slot where that is under `required`.
pub open spec fn slot_hits_upto(b: Board, slot: Hole, required: i64, n: int) -> Seq<(CopperEntry, int)>
    decreases n,
{
    if n <= 0 {
        Seq::empty()
    } else {
        let rest = slot_hits_upto(b, slot, required, n - 1);
        let e = b.copper_entries@[n - 1];
        let gap = box_slot_gap(slot, e.bounds.min.x, e.bounds.min.y, e.bounds.max.x, e.bounds.max.y);
        if e.entity == slot.entity || shares_a_net(nets_of(b.net_links@, slot.entity), nets_of(b.net_links@, e.entity))
            || gap >= required {
            rest
        } else {
            rest.push((e, gap))
        }
    }
}

/// Every piece of copper too close to a slot, among the first `n` holes,
/// slot by slot, each with its slot and its gap.
pub open spec fn slot_findings_upto(b: Board, holes: Seq<Hole>, required: i64, n: int) -> Seq<(Hole, CopperEntry, int)>
    decreases n,
{
    if n <= 0 {
        Seq::empty()
    } else {
        let rest = slot_findings_upto(b, holes, required, n - 1);
        let h = holes[n - 1];
        if h.start == h.end {
            rest
        } else {
            rest + slot_hits_upto(b, h, required, b.copper_entries@.len() as int).map_values(
                |x: (CopperEntry, int)| (h, x.0, x.1),
            )
        }
    }
}

/// `r` reports the copper `e` at `gap` from the wall of the slot `s`.
pub open spec fn reports_slot(r: DrcViolation, s: Hole, e: CopperEntry, gap: int, required: i64) -> bool {
    let actual = if gap > 0 {
        gap
    } else {
        0
    };
    describes(
        r,
        ViolationKind::SlotClearance,
        e.entity,
        Some(s.entity),
        Some(actual as i64),
        Some(required),
        mid(e.bounds.min, e.bounds.max),
        two_lengths("Copper is "@, actual as i64, "mm from a milled slot, "@, required, "mm required"@, 3),
    )
}

/// What the rule finds on a board: each piece of copper closer to a milled
/// slot's wall than the rule allows, other than the slot's own and copper on
/// a net its part connects to, slot by slot and then in the order of the
/// copper.
pub open spec fn found_by_slot(board: Board, rules: DesignRules, out: Seq<DrcViolation>) -> bool {
    let found = slot_findings_upto(
        board,
        board_holes(board),
        rules.min_slot_clearance,
        board_holes(board).len() as int,
    );
    &&& out.len() == found.len()
    &&& forall|k: int|
        0 <= k < out.len() ==> reports_slot(
            #[trigger] out[k],
            found[k].0,
            found[k].1,
            found[k].2,
            rules.min_slot_clearance,
        )
}

/// Where the first link listed for an entity is.
pub fn find_link(links: &Vec<NetLink>, e: u32) -> (r: Option<usize>)
    ensures
        match r {
            Some(k) => k < links@.len() && nets_of(links@, e) == links@[k as int].nets@,
            None => nets_of(links@, e) == Seq::<u32>::empty(),
        },
{
    let mut k: usize = 0;
    proof {
        assert(links@.skip(0) =~= links@);
    }
    while k < links.len()
        invariant
            k <= links@.len(),
            nets_of(links@, e) == nets_of(links@.skip(k as int), e),
        decreases links@.len() - k,
    {
        proof {
            assert(links@.skip(k as int).drop_first() =~= links@.skip(k + 1));
            assert(links@.skip(k as int)[0] == links@[k as int]);
        }
        if links[k].entity == e {
            return Some(k);
        }
        k = k + 1;
    }
    proof {
        assert(links@.skip(k as int) =~= Seq::<NetLink>::empty());
    }
    None
}

/// Whether copper on `theirs` is on a net of `own`, a non-empty list.
fn any_shared(own: &Vec<u32>, theirs: &Vec<u32>) -> (r: bool)
    ensures
        r == shares_a_net(own@, theirs@),
{
    if own.len() == 0 {
        return false;
    }
    let mut k: usize = 0;
    while k < theirs.len()
        invariant
            own@.len() > 0,
            k <= theirs@.len(),
            forall|j: int| 0 <= j < k ==> !own@.contains(#[trigger] theirs@[j]),
        decreases theirs@.len() - k,
    {
        let mut j: usize = 0;
        let mut hit = false;
        while j < own.len()
            invariant
                j <= own@.len(),
                k < theirs@.len(),
                hit == exists|q: int| 0 <= q < j && own@[q] == theirs@[k as int],
            decreases own@.len() - j,
        {
            if own[j] == theirs[k] {
                hit = true;
            }
            j = j + 1;
        }
        if hit {
            proof {
                let q = choose|q: int| 0 <= q < j && own@[q] == theirs@[k as int];
                assert(own@.contains(theirs@[k as int]));
            }
            return true;
        }
        proof {
            assert(!own@.contains(theirs@[k as int])) by {
                if own@.contains(theirs@[k as int]) {
                    let q = choose|q: int| 0 <= q < own@.len() && own@[q] == theirs@[k as int];
                    assert(0 <= q < j && own@[q] == theirs@[k as int]);
                }
            }
        }
        k = k + 1;
    }
    false
}

impl SlotClearanceRule {
    /// The rule's identifier in reports and filters.
    pub fn name(&self) -> (n: &'static str)
        ensures
            n@ == "slot-clearance"@,
    {
        "slot-clearance"
    }

    /// Every piece of copper closer to the wall of a milled slot than the
    /// rule allows, slot by slot in the order of the board's holes and then
    /// in the order of the copper; the slot's own copper and copper on a net
    /// its part connects to are not measured. Each is reported at the middle
    /// of the copper's box with the gap, never below zero.
    pub fn check(&self, board: &Board, rules: &DesignRules) -> (out: Vec<DrcViolation>)
        requires
            board_ok(*board),
            rules_ok(*rules),
        ensures
            found_by_slot(*board, *rules, out@),
    {
        let required = rules.min_slot_clearance;
        let holes = holes_of(board);
        let ghost hs = holes@;
        let mut out: Vec<DrcViolation> = Vec::new();
        let mut i: usize = 0;
        while i < holes.len()
            invariant
                board_ok(*board),
                rules_ok(*rules),
                required == rules.min_slot_clearance,
                hs == holes@,
                hs == board_holes(*board),
                forall|k: int| 0 <= k < hs.len() ==> hole_ok(#[trigger] hs[k]),
                i <= hs.len(),
                out@.len() == slot_findings_upto(*board, hs, required, i as int).len(),
                forall|k: int|
                    0 <= k < out@.len() ==> reports_slot(
                        #[trigger] out@[k],
                        slot_findings_upto(*board, hs, required, i as int)[k].0,
                        slot_findings_upto(*board, hs, required, i as int)[k].1,
                        slot_findings_upto(*board, hs, required, i as int)[k].2,
                        required,
                    ),
            decreases hs.len() - i,
        {
            let slot = holes[i];
            proof {
                assert(hole_ok(hs[i as int]));
            }
            if slot.start != slot.end {
                let none: Vec<u32> = Vec::new();
                let own: &Vec<u32> = match find_link(&board.net_links, slot.entity) {
                    Some(k) => &board.net_links[k].nets,
                    None => &none,
                };
                let ghost before = slot_findings_upto(*board, hs, required, i as int);
                let mut j: usize = 0;
                while j < board.copper_entries.len()
                    invariant
                        board_ok(*board),
                        rules_ok(*rules),
                        required == rules.min_slot_clearance,
                        hole_ok(slot),
                        slot == hs[i as int],
                        own@ == nets_of(board.net_links@, slot.entity),
                        none@ == Seq::<u32>::empty(),
                        j <= board.copper_entries@.len(),
                        out@.len() == (before + slot_hits_upto(*board, slot, required, j as int).map_values(
                            |x: (CopperEntry, int)| (slot, x.0, x.1),
                        )).len(),
                        forall|k: int|
                            0 <= k < out@.len() ==> reports_slot(
                                #[trigger] out@[k],
                                (before + slot_hits_upto(*board, slot, required, j as int).map_values(
                                    |x: (CopperEntry, int)| (slot, x.0, x.1),
                                ))[k].0,
                                (before + slot_hits_upto(*board, slot, required, j as int).map_values(
                                    |x: (CopperEntry, int)| (slot, x.0, x.1),
                                ))[k].1,
                                (before + slot_hits_upto(*board, slot, required, j as int).map_values(
                                    |x: (CopperEntry, int)| (slot, x.0, x.1),
                                ))[k].2,
                                required,
                            ),
                    decreases board.copper_entries@.len() - j,
                {
                    let e = board.copper_entries[j];
                    proof {
                        assert(point_ok(board.copper_entries@[j as int].bounds.min));
                        assert(point_ok(board.copper_entries@[j as int].bounds.max));
                    }
                    let ghost prior = slot_hits_upto(*board, slot, required, j as int);
                    let ghost whole = slot_hits_upto(*board, slot, required, j + 1);
                    if e.entity != slot.entity {
                        let theirs: &Vec<u32> = match find_link(&board.net_links, e.entity) {
                            Some(k) => &board.net_links[k].nets,
                            None => &none,
                        };
                        if !any_shared(own, theirs) {
                            let gap = box_to_slot_gap(&slot, e.bounds.min.x, e.bounds.min.y, e.bounds.max.x, e.bounds.max.y);
                            if gap < required {
                                let actual = if gap > 0 {
                                    gap
                                } else {
                                    0
                                };
                                let at = midpoint(e.bounds.min, e.bounds.max);
                                let ghost old_out = out@;
                                out.push(DrcViolation::slot_clearance(e.entity, slot.entity, actual, required, at));
                                proof {
                                    let f = |x: (CopperEntry, int)| (slot, x.0, x.1);
                                    assert(whole == prior.push((e, gap as int)));
                                    assert(whole.map_values(f) =~= prior.map_values(f).push((slot, e, gap as int)));
                                    assert((before + whole.map_values(f)) =~= (before + prior.map_values(f)).push(
                                        (slot, e, gap as int),
                                    ));
                                    assert forall|k: int| 0 <= k < out@.len() implies reports_slot(
                                        #[trigger] out@[k],
                                        (before + whole.map_values(f))[k].0,
                                        (before + whole.map_values(f))[k].1,
                                        (before + whole.map_values(f))[k].2,
                                        required,
                                    ) by {
                                        if k < old_out.len() {
                                            assert(out@[k] == old_out[k]);
                                        }
                                    }
                                }
                            }
                        }
                    }
                    j = j + 1;
                }
            }
            i = i + 1;
        }
        out
    }
}

} // verus!
