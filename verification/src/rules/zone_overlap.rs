//! Checking pours of different nets over the same copper.
//!
//! A pour is cut against pads, traces and vias, and not against another
//! pour, so two pours declared over the same area both fill it. On different
//! nets that is a short across their whole overlap. Which plane owns the
//! contested copper is the designer's decision; the checker refuses to let it
//! pass quietly.
use vstd::prelude::*;

use crate::board::{board_ok, zone_ok, Board, Zone, ZoneKind};
use crate::geometry::{half, Point};
use crate::presets::{rules_ok, DesignRules};
use crate::violation::{describes, two_lengths, DrcViolation, ViolationKind};

verus! {

/// Rule for pours of different nets over the same copper.
pub struct ZoneOverlapRule;

/// The zones among `zs` that are copper pours, in order.
pub open spec fn pours(zs: Seq<Zone>) -> Seq<Zone>
    decreases zs.len(),
{
    if zs.len() == 0 {
        Seq::empty()
    } else {
        let rest = pours(zs.drop_last());
        if zs.last().kind == ZoneKind::CopperPour {
            rest.push(zs.last())
        } else {
            rest
        }
    }
}

/// Two pours short each other: they share a copper layer, are not one net
/// drawn twice, and their areas overlap by more than an edge.
pub open spec fn pours_short(a: Zone, b: Zone) -> bool {
    &&& a.layer_mask & b.layer_mask != 0
    &&& !(a.net is Some && a.net == b.net)
    &&& a.bounds.min.x < b.bounds.max.x && b.bounds.min.x < a.bounds.max.x
    &&& a.bounds.min.y < b.bounds.max.y && b.bounds.min.y < a.bounds.max.y
}

/// The middle of the copper two overlapping pours contest.
pub open spec fn contested_centre(a: Zone, b: Zone) -> Point {
    let lo_x = if a.bounds.min.x >= b.bounds.min.x { a.bounds.min.x } else { b.bounds.min.x };
    let hi_x = if a.bounds.max.x <= b.bounds.max.x { a.bounds.max.x } else { b.bounds.max.x };
    let lo_y = if a.bounds.min.y >= b.bounds.min.y { a.bounds.min.y } else { b.bounds.min.y };
    let hi_y = if a.bounds.max.y <= b.bounds.max.y { a.bounds.max.y } else { b.bounds.max.y };
    Point { x: half(lo_x + hi_x) as i64, y: half(lo_y + hi_y) as i64 }
}

/// The pairs of pours that short, scanning from pair `(i, j)`: each pour
/// against every later one, in order.
pub open spec fn shorted_pours(ps: Seq<Zone>, i: int, j: int) -> Seq<(Zone, Zone)>
    decreases ps.len() - i, ps.len() - j,
{
    if i < 0 || i >= ps.len() {
        Seq::empty()
    } else if j >= ps.len() || j <= i {
        shorted_pours(ps, i + 1, i + 2)
    } else {
        let rest = shorted_pours(ps, i, j + 1);
        if pours_short(ps[i], ps[j]) {
            seq![(ps[i], ps[j])] + rest
        } else {
            rest
        }
    }
}

/// `r` reports pours `a` and `b` as shorting, at the middle of their
/// overlap, against the board's clearance.
pub open spec fn reports_pour_short(r: DrcViolation, a: Zone, b: Zone, min: i64) -> bool {
    describes(
        r,
        ViolationKind::Clearance,
        a.entity,
        Some(b.entity),
        Some(0),
        Some(min),
        contested_centre(a, b),
        two_lengths("Clearance violation: "@, 0, "mm actual, "@, min, "mm required"@, 2),
    )
}

/// Whether two pours short each other is the same question either way
/// round.
pub proof fn lemma_pours_short_symmetric(a: Zone, b: Zone)
    ensures
        pours_short(a, b) == pours_short(b, a),
{
    let (x, y) = (a.layer_mask, b.layer_mask);
    assert(x & y == y & x) by (bit_vector);
}

impl ZoneOverlapRule {
    /// The rule's identifier in reports and filters.
    pub fn name(&self) -> (n: &'static str)
        ensures
            n@ == "zone-overlap"@,
    {
        "zone-overlap"
    }

    /// Every pair of pours that short each other, each pour against every
    /// later one in board order.
    pub fn check(&self, board: &Board, rules: &DesignRules) -> (out: Vec<DrcViolation>)
        requires
            board_ok(*board),
            rules_ok(*rules),
        ensures
            found_by_zone_overlap(*board, *rules, out@),
    {
        let ghost zs = board.zones@;
        let mut idx: Vec<usize> = Vec::new();
        let mut z: usize = 0;
        while z < board.zones.len()
            invariant
                z <= zs.len(),
                zs == board.zones@,
                idx@.len() == pours(zs.take(z as int)).len(),
                forall|k: int|
                    0 <= k < idx@.len() ==> #[trigger] idx@[k] < zs.len() && zs[idx@[k] as int]
                        == pours(zs.take(z as int))[k],
            decreases zs.len() - z,
        {
            proof {
                assert(zs.take(z + 1).drop_last() =~= zs.take(z as int));
                assert(zs.take(z + 1).last() == zs[z as int]);
            }
            if board.zones[z].is_copper_pour() {
                idx.push(z);
            }
            z = z + 1;
        }
        proof {
            assert(zs.take(z as int) =~= zs);
        }
        let ghost ps = pours(zs);
        let ghost total = shorted_pours(ps, 0, 1);
        let min = rules.min_clearance;
        let mut out: Vec<DrcViolation> = Vec::new();
        let ghost mut done: Seq<(Zone, Zone)> = Seq::empty();
        let n = idx.len();
        let mut i: usize = 0;
        while i < n
            invariant
                n == ps.len(),
                n == idx@.len(),
                i <= n,
                zs == board.zones@,
                ps == pours(zs),
                board_ok(*board),
                rules_ok(*rules),
                min == rules.min_clearance,
                forall|k: int| 0 <= k < idx@.len() ==> #[trigger] idx@[k] < zs.len() && zs[idx@[k] as int] == ps[k],
                done + shorted_pours(ps, i as int, i + 1) == total,
                out@.len() == done.len(),
                forall|k: int|
                    0 <= k < out@.len() ==> reports_pour_short(#[trigger] out@[k], done[k].0, done[k].1, min),
            decreases n - i,
        {
            let mut j: usize = i + 1;
            while j < n
                invariant
                    n == ps.len(),
                    n == idx@.len(),
                    i < n,
                    i + 1 <= j <= n,
                    zs == board.zones@,
                    board_ok(*board),
                    rules_ok(*rules),
                    min == rules.min_clearance,
                    forall|k: int| 0 <= k < idx@.len() ==> #[trigger] idx@[k] < zs.len() && zs[idx@[k] as int] == ps[k],
                    done + shorted_pours(ps, i as int, j as int) == total,
                    out@.len() == done.len(),
                    forall|k: int|
                        0 <= k < out@.len() ==> reports_pour_short(#[trigger] out@[k], done[k].0, done[k].1, min),
                decreases n - j,
            {
                proof {
                    assert(idx@[i as int] < zs.len() && idx@[j as int] < zs.len());
                }
                let a = &board.zones[idx[i]];
                let b = &board.zones[idx[j]];
                proof {
                    assert(zone_ok(zs[idx@[i as int] as int]));
                    assert(zone_ok(zs[idx@[j as int] as int]));
                }
                let ghost rest = shorted_pours(ps, i as int, j + 1);
                let shares_layer = a.layer_mask & b.layer_mask != 0;
                let same_net = match (a.net, b.net) {
                    (Some(x), Some(y)) => x == y,
                    _ => false,
                };
                let overlap_x = a.bounds.min.x < b.bounds.max.x && b.bounds.min.x < a.bounds.max.x;
                let overlap_y = a.bounds.min.y < b.bounds.max.y && b.bounds.min.y < a.bounds.max.y;
                if shares_layer && !same_net && overlap_x && overlap_y {
                    let lo_x = if a.bounds.min.x >= b.bounds.min.x { a.bounds.min.x } else { b.bounds.min.x };
                    let hi_x = if a.bounds.max.x <= b.bounds.max.x { a.bounds.max.x } else { b.bounds.max.x };
                    let lo_y = if a.bounds.min.y >= b.bounds.min.y { a.bounds.min.y } else { b.bounds.min.y };
                    let hi_y = if a.bounds.max.y <= b.bounds.max.y { a.bounds.max.y } else { b.bounds.max.y };
                    let centre = Point { x: (lo_x + hi_x) / 2, y: (lo_y + hi_y) / 2 };
                    out.push(DrcViolation::clearance(a.entity, b.entity, 0, min, centre));
                    proof {
                        assert(pours_short(ps[i as int], ps[j as int]));
                        assert(done.push((ps[i as int], ps[j as int])) + rest =~= done + shorted_pours(ps, i as int, j as int));
                        done = done.push((ps[i as int], ps[j as int]));
                    }
                } else {
                    proof {
                        assert(!pours_short(ps[i as int], ps[j as int]));
                    }
                }
                j = j + 1;
            }
            i = i + 1;
        }
        proof {
            assert(done =~= total);
        }
        out
    }
}

/// What the rule finds on a board: the pairs of pours of different nets that
/// share copper, in the order the check walks them.
pub open spec fn found_by_zone_overlap(board: Board, rules: DesignRules, out: Seq<DrcViolation>) -> bool {
    &&& out.len() == shorted_pours(pours(board.zones@), 0, 1).len()
    &&& forall|k: int|
        0 <= k < out.len() ==> reports_pour_short(
            #[trigger] out[k],
            shorted_pours(pours(board.zones@), 0, 1)[k].0,
            shorted_pours(pours(board.zones@), 0, 1)[k].1,
            rules.min_clearance,
        )
}

} // verus!
