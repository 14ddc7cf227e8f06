//! Checking the space between component courtyards.
//!
//! A courtyard is the area a part needs around it to be placed and
//! reworked. Two courtyards that overlap, or come closer than the rule, are
//! parts that interfere during assembly.
use vstd::prelude::*;

use crate::board::{board_ok, component_ok, Board, Component};
use crate::geometry::{half, is_floor_sqrt, isqrt, Point, Rect};
use crate::presets::{rules_ok, DesignRules};
use crate::violation::{describes, two_lengths, DrcViolation, ViolationKind};

verus! {

/// Rule for the space between component courtyards.
pub struct CourtyardClearanceRule;

/// The parts among `cs` whose footprint has a courtyard, in order.
pub open spec fn with_courtyard(cs: Seq<Component>) -> Seq<Component>
    decreases cs.len(),
{
    if cs.len() == 0 {
        Seq::empty()
    } else {
        let rest = with_courtyard(cs.drop_last());
        if cs.last().courtyard is Some {
            rest.push(cs.last())
        } else {
            rest
        }
    }
}

/// The gap between two spans along one axis, nothing where they overlap.
pub open spec fn span_gap(lo_a: int, hi_a: int, lo_b: int, hi_b: int) -> int {
    let lo = if lo_a >= lo_b { lo_a } else { lo_b };
    let hi = if hi_a <= hi_b { hi_a } else { hi_b };
    if lo - hi > 0 {
        lo - hi
    } else {
        0
    }
}

/// The square of the distance between two boxes.
pub open spec fn box_gap2(a: Rect, b: Rect) -> int {
    let dx = span_gap(a.min.x as int, a.max.x as int, b.min.x as int, b.max.x as int);
    let dy = span_gap(a.min.y as int, a.max.y as int, b.min.y as int, b.max.y as int);
    dx * dx + dy * dy
}

/// **The gap between two spans is how far apart they are, whichever comes
/// first**: the space from the end of the one on the left to the start of
/// the one on the right, nothing where they meet or overlap, and the same
/// with the two spans swapped.
pub proof fn lemma_span_gap_is_the_space_between(lo_a: int, hi_a: int, lo_b: int, hi_b: int)
    requires
        lo_a <= hi_a,
        lo_b <= hi_b,
    ensures
        span_gap(lo_a, hi_a, lo_b, hi_b) == span_gap(lo_b, hi_b, lo_a, hi_a),
        hi_a <= lo_b ==> span_gap(lo_a, hi_a, lo_b, hi_b) == lo_b - hi_a,
        hi_b <= lo_a ==> span_gap(lo_a, hi_a, lo_b, hi_b) == lo_a - hi_b,
        lo_b <= hi_a && lo_a <= hi_b ==> span_gap(lo_a, hi_a, lo_b, hi_b) == 0,
{
}

/// **The distance between two courtyards is the gap between the boxes,
/// whichever box comes first**: the same with the boxes swapped; on each
/// axis the space between the two spans, nothing where they overlap; and
/// so no less than the space along either axis alone.
pub proof fn lemma_box_gap_is_the_space_between(a: Rect, b: Rect)
    requires
        a.min.x <= a.max.x,
        a.min.y <= a.max.y,
        b.min.x <= b.max.x,
        b.min.y <= b.max.y,
    ensures
        box_gap2(a, b) == box_gap2(b, a),
        a.max.x <= b.min.x ==> box_gap2(a, b) >= (b.min.x - a.max.x) * (b.min.x - a.max.x),
        b.max.x <= a.min.x ==> box_gap2(a, b) >= (a.min.x - b.max.x) * (a.min.x - b.max.x),
        a.max.y <= b.min.y ==> box_gap2(a, b) >= (b.min.y - a.max.y) * (b.min.y - a.max.y),
        b.max.y <= a.min.y ==> box_gap2(a, b) >= (a.min.y - b.max.y) * (a.min.y - b.max.y),
        (b.min.x <= a.max.x && a.min.x <= b.max.x && b.min.y <= a.max.y && a.min.y <= b.max.y) ==> box_gap2(a, b) == 0,
        box_gap2(a, b) >= 0,
        a.max.x <= b.min.x && b.min.y <= a.max.y && a.min.y <= b.max.y ==> box_gap2(a, b) == (b.min.x
            - a.max.x) * (b.min.x - a.max.x),
        a.max.y <= b.min.y && b.min.x <= a.max.x && a.min.x <= b.max.x ==> box_gap2(a, b) == (b.min.y
            - a.max.y) * (b.min.y - a.max.y),
        a.max.x <= b.min.x && a.max.y <= b.min.y ==> box_gap2(a, b) == (b.min.x - a.max.x) * (b.min.x
            - a.max.x) + (b.min.y - a.max.y) * (b.min.y - a.max.y),
{
    lemma_span_gap_is_the_space_between(a.min.x as int, a.max.x as int, b.min.x as int, b.max.x as int);
    lemma_span_gap_is_the_space_between(a.min.y as int, a.max.y as int, b.min.y as int, b.max.y as int);
    let dx = span_gap(a.min.x as int, a.max.x as int, b.min.x as int, b.max.x as int);
    let dy = span_gap(a.min.y as int, a.max.y as int, b.min.y as int, b.max.y as int);
    assert(dx * dx >= 0 && dy * dy >= 0) by (nonlinear_arith);
}

/// Two parts whose courtyards come closer than `min`: different parts, and
/// the distance between their boxes, rounded down to the nanometre, under
/// the rule.
pub open spec fn crowded(a: Component, b: Component, min: i64) -> bool {
    &&& a.entity != b.entity
    &&& min > 0
    &&& box_gap2(a.courtyard.unwrap(), b.courtyard.unwrap()) < min * min
}

/// The pairs of parts whose courtyards crowd each other, scanning from pair
/// `(i, j)`: each part against every later one, in order.
pub open spec fn crowded_pairs(ps: Seq<Component>, min: i64, i: int, j: int) -> Seq<(Component, Component)>
    decreases ps.len() - i, ps.len() - j,
{
    if i < 0 || i >= ps.len() {
        Seq::empty()
    } else if j >= ps.len() || j <= i {
        crowded_pairs(ps, min, i + 1, i + 2)
    } else {
        let rest = crowded_pairs(ps, min, i, j + 1);
        if crowded(ps[i], ps[j], min) {
            seq![(ps[i], ps[j])] + rest
        } else {
            rest
        }
    }
}

/// The centre of a box, rounded toward zero.
pub open spec fn box_centre(r: Rect) -> Point {
    Point { x: half(r.min.x + r.max.x) as i64, y: half(r.min.y + r.max.y) as i64 }
}

/// `r` reports the courtyards of parts `a` and `b` as `d` apart, the
/// distance between their boxes rounded down, at the centre of `a`'s.
pub open spec fn reports_courtyard(r: DrcViolation, a: Component, b: Component, min: i64) -> bool {
    &&& r.actual matches Some(d) && is_floor_sqrt(
        d as int,
        box_gap2(a.courtyard.unwrap(), b.courtyard.unwrap()),
        1,
    )
    &&& describes(
        r,
        ViolationKind::CourtyardClearance,
        a.entity,
        Some(b.entity),
        r.actual,
        Some(min),
        box_centre(a.courtyard.unwrap()),
        two_lengths("Courtyard overlap: "@, r.actual.unwrap(), "mm actual, "@, min, "mm required"@, 2),
    )
}

/// The distance between two boxes, rounded down to the nanometre.
fn box_distance(a: Rect, b: Rect) -> (d: i64)
    requires
        crate::geometry::point_ok(a.min),
        crate::geometry::point_ok(a.max),
        crate::geometry::point_ok(b.min),
        crate::geometry::point_ok(b.max),
    ensures
        is_floor_sqrt(d as int, box_gap2(a, b), 1),
{
    let lo_x = if a.min.x >= b.min.x { a.min.x } else { b.min.x };
    let hi_x = if a.max.x <= b.max.x { a.max.x } else { b.max.x };
    let lo_y = if a.min.y >= b.min.y { a.min.y } else { b.min.y };
    let hi_y = if a.max.y <= b.max.y { a.max.y } else { b.max.y };
    let dx: i64 = if lo_x - hi_x > 0 { lo_x - hi_x } else { 0 };
    let dy: i64 = if lo_y - hi_y > 0 { lo_y - hi_y } else { 0 };
    assert(0 <= dx * dx <= 4_611_686_018_427_387_904) by (nonlinear_arith)
        requires
            0 <= dx <= 2_147_483_648,
    ;
    assert(0 <= dy * dy <= 4_611_686_018_427_387_904) by (nonlinear_arith)
        requires
            0 <= dy <= 2_147_483_648,
    ;
    let ux = dx as u64;
    let uy = dy as u64;
    let q = ux * ux + uy * uy;
    let r = isqrt(q);
    r as i64
}

impl CourtyardClearanceRule {
    /// The rule's identifier in reports and filters.
    pub fn name(&self) -> (n: &'static str)
        ensures
            n@ == "courtyard-clearance"@,
    {
        "courtyard-clearance"
    }

    /// Every pair of parts whose courtyards come closer than the rule, each
    /// part against every later one in board order. A part whose footprint
    /// has no courtyard is not asked.
    pub fn check(&self, board: &Board, rules: &DesignRules) -> (out: Vec<DrcViolation>)
        requires
            board_ok(*board),
            rules_ok(*rules),
        ensures
            found_by_courtyard(*board, *rules, out@),
    {
        let ghost cs = board.components@;
        let mut idx: Vec<usize> = Vec::new();
        let mut z: usize = 0;
        while z < board.components.len()
            invariant
                z <= cs.len(),
                cs == board.components@,
                idx@.len() == with_courtyard(cs.take(z as int)).len(),
                forall|k: int|
                    0 <= k < idx@.len() ==> #[trigger] idx@[k] < cs.len() && cs[idx@[k] as int]
                        == with_courtyard(cs.take(z as int))[k],
            decreases cs.len() - z,
        {
            proof {
                assert(cs.take(z + 1).drop_last() =~= cs.take(z as int));
                assert(cs.take(z + 1).last() == cs[z as int]);
            }
            if board.components[z].courtyard.is_some() {
                idx.push(z);
            }
            z = z + 1;
        }
        proof {
            assert(cs.take(z as int) =~= cs);
        }
        let ghost ps = with_courtyard(cs);
        let min = rules.min_courtyard_clearance;
        let ghost total = crowded_pairs(ps, min, 0, 1);
        let mut out: Vec<DrcViolation> = Vec::new();
        let ghost mut done: Seq<(Component, Component)> = Seq::empty();
        let n = idx.len();
        let mut i: usize = 0;
        while i < n
            invariant
                n == ps.len(),
                n == idx@.len(),
                i <= n,
                cs == board.components@,
                ps == with_courtyard(cs),
                board_ok(*board),
                rules_ok(*rules),
                min == rules.min_courtyard_clearance,
                forall|k: int| 0 <= k < idx@.len() ==> #[trigger] idx@[k] < cs.len() && cs[idx@[k] as int] == ps[k],
                done + crowded_pairs(ps, min, i as int, i + 1) == total,
                out@.len() == done.len(),
                forall|k: int|
                    0 <= k < out@.len() ==> reports_courtyard(#[trigger] out@[k], done[k].0, done[k].1, min),
            decreases n - i,
        {
            let mut j: usize = i + 1;
            while j < n
                invariant
                    n == ps.len(),
                    n == idx@.len(),
                    i < n,
                    i + 1 <= j <= n,
                    cs == board.components@,
                    ps == with_courtyard(cs),
                    board_ok(*board),
                    rules_ok(*rules),
                    min == rules.min_courtyard_clearance,
                    forall|k: int| 0 <= k < idx@.len() ==> #[trigger] idx@[k] < cs.len() && cs[idx@[k] as int] == ps[k],
                    done + crowded_pairs(ps, min, i as int, j as int) == total,
                    out@.len() == done.len(),
                    forall|k: int|
                        0 <= k < out@.len() ==> reports_courtyard(#[trigger] out@[k], done[k].0, done[k].1, min),
                decreases n - j,
            {
                proof {
                    assert(idx@[i as int] < cs.len() && idx@[j as int] < cs.len());
                    lemma_with_courtyard_has(cs, i as int);
                    lemma_with_courtyard_has(cs, j as int);
                }
                let a = &board.components[idx[i]];
                let b = &board.components[idx[j]];
                proof {
                    assert(component_ok(cs[idx@[i as int] as int]));
                    assert(component_ok(cs[idx@[j as int] as int]));
                }
                let ghost rest = crowded_pairs(ps, min, i as int, j + 1);
                let ra = a.courtyard.unwrap();
                let rb = b.courtyard.unwrap();
                let mut flagged = false;
                if a.entity != b.entity {
                    let distance = box_distance(ra, rb);
                    proof {
                        let g = box_gap2(ra, rb);
                        let d = distance as int;
                        if min > 0 {
                            if d < min {
                                assert(g < min * min) by (nonlinear_arith)
                                    requires
                                        g < (d + 1) * (d + 1),
                                        0 <= d,
                                        d + 1 <= min,
                                ;
                            } else {
                                assert(g >= min * min) by (nonlinear_arith)
                                    requires
                                        d * d <= g,
                                        0 < min <= d,
                                ;
                            }
                        }
                    }
                    if distance < min {
                        let location = Point {
                            x: (ra.min.x + ra.max.x) / 2,
                            y: (ra.min.y + ra.max.y) / 2,
                        };
                        out.push(DrcViolation::courtyard_clearance(a.entity, b.entity, distance, min, location));
                        flagged = true;
                    }
                }
                proof {
                    assert(flagged == crowded(ps[i as int], ps[j as int], min));
                    if flagged {
                        assert(done.push((ps[i as int], ps[j as int])) + rest =~= done + crowded_pairs(ps, min, i as int, j as int));
                        done = done.push((ps[i as int], ps[j as int]));
                    }
                }
                j = j + 1;
            }
            i = i + 1;
        }
        proof {
            assert(done =~= total);
        }
        out
    }
}

/// Every part `with_courtyard` keeps has a courtyard.
proof fn lemma_with_courtyard_has(cs: Seq<Component>, k: int)
    requires
        0 <= k < with_courtyard(cs).len(),
    ensures
        with_courtyard(cs)[k].courtyard is Some,
    decreases cs.len(),
{
    let rest = with_courtyard(cs.drop_last());
    if k < rest.len() {
        lemma_with_courtyard_has(cs.drop_last(), k);
    }
}

/// What the rule finds on a board: the pairs of parts whose courtyards come
/// closer than the rule, in the order the check walks them.
pub open spec fn found_by_courtyard(board: Board, rules: DesignRules, out: Seq<DrcViolation>) -> bool {
    &&& out.len() == crowded_pairs(
        with_courtyard(board.components@),
        rules.min_courtyard_clearance,
        0,
        1,
    ).len()
    &&& forall|k: int|
        0 <= k < out.len() ==> reports_courtyard(
            #[trigger] out[k],
            crowded_pairs(with_courtyard(board.components@), rules.min_courtyard_clearance, 0, 1)[k].0,
            crowded_pairs(with_courtyard(board.components@), rules.min_courtyard_clearance, 0, 1)[k].1,
            rules.min_courtyard_clearance,
        )
}

} // verus!
