//! The rule for copper meeting copper at an angle sharp enough to trap
//! etchant: its identifier, and the exact tests it decides a junction by.
//!
//! Inside a corner sharper than a right angle the etchant is trapped against
//! two faces at once and keeps working after the rest of the board is done.
//! Ninety degrees is the line, and it is geometry: a corner drawn square
//! drains, so the test is strictly below ninety. Walking a board's junctions
//! is not part of this library: its violations have no kind for an acid
//! trap and no constructor that words one, so there is nothing a sharp
//! corner could be reported as.
use vstd::prelude::*;

use crate::geometry::{point_ok, Point};

verus! {

/// The rule for copper meeting copper at an angle sharp enough to trap
/// etchant.
pub struct AcuteAngleRule;

impl AcuteAngleRule {
    /// The rule's identifier in reports and filters.
    pub fn name(&self) -> (n: &'static str)
        ensures
            n@ == "acute-angle"@,
    {
        "acute-angle"
    }
}

/// The dot product of the two arms leaving `p` towards `a` and `b`.
pub open spec fn arm_dot(p: Point, a: Point, b: Point) -> int {
    (a.x - p.x) * (b.x - p.x) + (a.y - p.y) * (b.y - p.y)
}

/// The cross product of the two arms leaving `p` towards `a` and `b`.
pub open spec fn arm_cross(p: Point, a: Point, b: Point) -> int {
    (a.x - p.x) * (b.y - p.y) - (a.y - p.y) * (b.x - p.x)
}

/// The products of two coordinate differences stay well inside the range
/// the arithmetic carries.
proof fn lemma_product_bound(u: int, v: int)
    requires
        -2_147_483_648 <= u <= 2_147_483_648,
        -2_147_483_648 <= v <= 2_147_483_648,
    ensures
        -4_611_686_018_427_387_904 <= u * v <= 4_611_686_018_427_387_904,
{
    assert(-4_611_686_018_427_387_904 <= u * v <= 4_611_686_018_427_387_904) by (nonlinear_arith)
        requires
            -2_147_483_648 <= u <= 2_147_483_648,
            -2_147_483_648 <= v <= 2_147_483_648,
    ;
}

/// Whether the angle at `p` between the arms to `a` and `b` is sharper than
/// a right angle: the two directions point the same way at all, which is
/// the sign of their dot product. A square corner is not acute.
pub fn is_acute(p: Point, a: Point, b: Point) -> (r: bool)
    requires
        point_ok(p),
        point_ok(a),
        point_ok(b),
    ensures
        r == (arm_dot(p, a, b) > 0),
{
    let (ax, ay) = (a.x as i128 - p.x as i128, a.y as i128 - p.y as i128);
    let (bx, by) = (b.x as i128 - p.x as i128, b.y as i128 - p.y as i128);
    proof {
        lemma_product_bound(ax as int, bx as int);
        lemma_product_bound(ay as int, by as int);
    }
    ax * bx + ay * by > 0
}

/// Whether the arms to `a` and `b` leave `p` along one line: then the
/// copper is drawn over itself rather than bent.
pub fn is_collinear(p: Point, a: Point, b: Point) -> (r: bool)
    requires
        point_ok(p),
        point_ok(a),
        point_ok(b),
    ensures
        r == (arm_cross(p, a, b) == 0),
{
    let (ax, ay) = (a.x as i128 - p.x as i128, a.y as i128 - p.y as i128);
    let (bx, by) = (b.x as i128 - p.x as i128, b.y as i128 - p.y as i128);
    proof {
        lemma_product_bound(ax as int, by as int);
        lemma_product_bound(ay as int, bx as int);
    }
    ax * by - ay * bx == 0
}

/// `p` lies strictly inside the segment from `a` to `b`: on its line,
/// between its ends, and neither end.
pub open spec fn strictly_inside(p: Point, a: Point, b: Point) -> bool {
    let (dx, dy) = (b.x - a.x, b.y - a.y);
    let (px, py) = (p.x - a.x, p.y - a.y);
    let along = px * dx + py * dy;
    &&& p != a
    &&& p != b
    &&& dx * py - dy * px == 0
    &&& 0 < along < dx * dx + dy * dy
}

/// Whether `p` lies strictly inside the segment from `a` to `b`: a copper
/// end landing in the middle of a segment, whose angle is not measured.
pub fn inside(p: Point, a: Point, b: Point) -> (r: bool)
    requires
        point_ok(p),
        point_ok(a),
        point_ok(b),
    ensures
        r == strictly_inside(p, a, b),
{
    if (p.x == a.x && p.y == a.y) || (p.x == b.x && p.y == b.y) {
        return false;
    }
    let (dx, dy) = (b.x as i128 - a.x as i128, b.y as i128 - a.y as i128);
    let (px, py) = (p.x as i128 - a.x as i128, p.y as i128 - a.y as i128);
    proof {
        lemma_product_bound(dx as int, py as int);
        lemma_product_bound(dy as int, px as int);
        lemma_product_bound(px as int, dx as int);
        lemma_product_bound(py as int, dy as int);
        lemma_product_bound(dx as int, dx as int);
        lemma_product_bound(dy as int, dy as int);
    }
    if dx * py - dy * px != 0 {
        return false;
    }
    let along = px * dx + py * dy;
    along > 0 && along < dx * dx + dy * dy
}

} // verus!
