//! Holes closer together than the fab drills.
use vstd::prelude::*;

use crate::board::{board_ok, Board, Layer};
use crate::geometry::mid;
use crate::presets::{rules_ok, DesignRules};
use crate::rules::{board_holes, hole_gap, hole_ok, holes_of, Hole};
use crate::violation::{describes, two_lengths, DrcViolation, ViolationKind};

verus! {

/// Rule for holes closer together than the fab drills, wall to wall.
///
/// Two holes meet only if one drill pass makes both: a buried via between
/// two inner layers and a blind via from the top that stops above it are
/// drilled in different cycles and never share laminate.
pub struct HoleToHoleRule;

/// How deep a layer is in the drill sequence: the top first, inner layers
/// in order, and anything else - the bottom among them - deepest of all.
pub open spec fn layer_depth(layer: Layer) -> int {
    match layer {
        Layer::TopCopper => 0,
        Layer::Inner(n) => n + 1,
        _ => 65535,
    }
}

/// How deep a layer is in the drill sequence.
pub fn depth(layer: Layer) -> (d: u16)
    ensures
        d == layer_depth(layer),
{
    match layer {
        Layer::TopCopper => 0,
        Layer::Inner(n) => n as u16 + 1,
        _ => u16::MAX,
    }
}

/// Two spans share a drill pass: the stretches of depth they cover overlap,
/// more than at a single layer.
pub open spec fn spans_overlap(a: (Layer, Layer), b: (Layer, Layer)) -> bool {
    let (a0, a1) = (layer_depth(a.0), layer_depth(a.1));
    let (b0, b1) = (layer_depth(b.0), layer_depth(b.1));
    let (a_start, a_end) = (if a0 < a1 { a0 } else { a1 }, if a0 > a1 { a0 } else { a1 });
    let (b_start, b_end) = (if b0 < b1 { b0 } else { b1 }, if b0 > b1 { b0 } else { b1 });
    a_start < b_end && b_start < a_end
}

/// Whether two holes are made in the same drill pass.
pub fn passes_overlap(a: (Layer, Layer), b: (Layer, Layer)) -> (o: bool)
    ensures
        o == spans_overlap(a, b),
{
    let (a0, a1) = (depth(a.0), depth(a.1));
    let (b0, b1) = (depth(b.0), depth(b.1));
    let (a_start, a_end) = (if a0 < a1 { a0 } else { a1 }, if a0 > a1 { a0 } else { a1 });
    let (b_start, b_end) = (if b0 < b1 { b0 } else { b1 }, if b0 > b1 { b0 } else { b1 });
    a_start < b_end && b_start < a_end
}

/// Two holes of different owners, made in the same pass, with less
/// laminate between them than `min`.
pub open spec fn too_close(a: Hole, b: Hole, min: i64) -> bool {
    a.entity != b.entity && spans_overlap(a.span, b.span) && hole_gap(a, b) < min
}

/// The pairs of holes too close together, scanning from pair `(i, j)`: for
/// each hole, every later hole, in order.
pub open spec fn close_pairs(hs: Seq<Hole>, min: i64, i: int, j: int) -> Seq<(Hole, Hole)>
    decreases hs.len() - i, hs.len() - j,
{
    if i < 0 || i >= hs.len() {
        Seq::empty()
    } else if j >= hs.len() || j <= i {
        close_pairs(hs, min, i + 1, i + 2)
    } else {
        let rest = close_pairs(hs, min, i, j + 1);
        if too_close(hs[i], hs[j], min) {
            seq![(hs[i], hs[j])] + rest
        } else {
            rest
        }
    }
}

/// `r` reports holes `a` and `b` as too close together.
pub open spec fn reports_hole_to_hole(r: DrcViolation, a: Hole, b: Hole, min: i64) -> bool {
    let gap = hole_gap(a, b);
    describes(
        r,
        ViolationKind::HoleToHole,
        a.entity,
        Some(b.entity),
        Some(
            (if gap > 0 {
                gap
            } else {
                0
            }) as i64,
        ),
        Some(min),
        mid(mid(a.start, a.end), mid(b.start, b.end)),
        two_lengths(
            "Hole-to-hole violation: "@,
            (if gap > 0 {
                gap
            } else {
                0
            }) as i64,
            "mm actual, "@,
            min,
            "mm required"@,
            2,
        ),
    )
}

impl HoleToHoleRule {
    /// The rule's identifier in reports and filters.
    pub fn name(&self) -> (n: &'static str)
        ensures
            n@ == "hole-to-hole"@,
    {
        "hole-to-hole"
    }

    /// Every pair of holes with less laminate between them than the rule,
    /// each hole against every later one in `holes_of` order.
    pub fn check(&self, board: &Board, rules: &DesignRules) -> (out: Vec<DrcViolation>)
        requires
            board_ok(*board),
            rules_ok(*rules),
        ensures
            found_by_hole_to_hole(*board, *rules, out@),
    {
        let min = rules.min_hole_to_hole;
        let holes = holes_of(board);
        let ghost hs = holes@;
        let ghost total = close_pairs(hs, min, 0, 1);
        let ghost mut done: Seq<(Hole, Hole)> = Seq::empty();
        let mut out: Vec<DrcViolation> = Vec::new();
        let n = holes.len();
        let mut i: usize = 0;
        while i < n
            invariant
                n == hs.len(),
                hs == holes@,
                i <= n,
                rules_ok(*rules),
                min == rules.min_hole_to_hole,
                forall|k: int| 0 <= k < hs.len() ==> hole_ok(#[trigger] hs[k]),
                done + close_pairs(hs, min, i as int, i + 1) == total,
                out@.len() == done.len(),
                forall|k: int|
                    0 <= k < out@.len() ==> reports_hole_to_hole(#[trigger] out@[k], done[k].0, done[k].1, min),
            decreases n - i,
        {
            let mut j: usize = i + 1;
            while j < n
                invariant
                    n == hs.len(),
                    hs == holes@,
                    i < n,
                    i + 1 <= j <= n,
                    rules_ok(*rules),
                    min == rules.min_hole_to_hole,
                    forall|k: int| 0 <= k < hs.len() ==> hole_ok(#[trigger] hs[k]),
                    done + close_pairs(hs, min, i as int, j as int) == total,
                    out@.len() == done.len(),
                    forall|k: int|
                        0 <= k < out@.len() ==> reports_hole_to_hole(
                            #[trigger] out@[k],
                            done[k].0,
                            done[k].1,
                            min,
                        ),
                decreases n - j,
            {
                let a = &holes[i];
                let b = &holes[j];
                proof {
                    assert(hole_ok(hs[i as int]) && hole_ok(hs[j as int]));
                }
                let mut flagged = false;
                if a.entity != b.entity && passes_overlap(a.span, b.span) {
                    let gap = a.gap_to(b);
                    if gap < min {
                        let centre_a = a.centre();
                        let centre_b = b.centre();
                        let location = crate::geometry::midpoint(centre_a, centre_b);
                        let shown = if gap > 0 {
                            gap
                        } else {
                            0
                        };
                        out.push(DrcViolation::hole_to_hole(a.entity, b.entity, shown, min, location));
                        flagged = true;
                    }
                }
                proof {
                    let rest = close_pairs(hs, min, i as int, j + 1);
                    assert(flagged == too_close(hs[i as int], hs[j as int], min));
                    if flagged {
                        assert(close_pairs(hs, min, i as int, j as int) == seq![(hs[i as int], hs[j as int])] + rest);
                        assert(done.push((hs[i as int], hs[j as int])) + rest =~= done + close_pairs(hs, min, i as int, j as int));
                        done = done.push((hs[i as int], hs[j as int]));
                    } else {
                        assert(close_pairs(hs, min, i as int, j as int) == rest);
                    }
                }
                j = j + 1;
            }
            proof {
                assert(close_pairs(hs, min, i as int, j as int) == close_pairs(hs, min, i + 1, i + 2));
            }
            i = i + 1;
        }
        proof {
            assert(close_pairs(hs, min, i as int, i + 1) == Seq::<(Hole, Hole)>::empty());
            assert(done =~= total);
        }
        out
    }
}

/// What the rule finds on a board: the pairs of holes closer than the rule,
/// each pair reported once, in the order the check walks them.
pub open spec fn found_by_hole_to_hole(board: Board, rules: DesignRules, out: Seq<DrcViolation>) -> bool {
    &&& out.len() == close_pairs(board_holes(board), rules.min_hole_to_hole, 0, 1).len()
    &&& forall|k: int|
        0 <= k < out.len() ==> reports_hole_to_hole(
            #[trigger] out[k],
            close_pairs(board_holes(board), rules.min_hole_to_hole, 0, 1)[k].0,
            close_pairs(board_holes(board), rules.min_hole_to_hole, 0, 1)[k].1,
            rules.min_hole_to_hole,
        )
}

} // verus!
