//! Checking copper too close to the board edge.
//!
//! Copper near the edge is exposed when the board is routed to shape. The
//! edge is the ring the design draws where it draws one, and otherwise the
//! rectangle from the origin to the board's size. A box is measured from its
//! own four sides to every edge of the ring, which is exact for a box that
//! does not cross the edge; a box whose centre is off the board reads as no
//! distance at all. Copper pours are measured too: only a pour among the
//! zones is copper.
use vstd::prelude::*;

use crate::board::{board_ok, Board, CopperEntry, Zone, ZoneKind};
use crate::geometry::{floor_seg, half, lemma_floor_seg_exists, lemma_floor_seg_unique, point_ok, pt_ok, Point};
use crate::presets::{rules_ok, DesignRules};
use crate::rules::clearance::{least, segment_distance};
use crate::rules::copper_pairs::clip;
use crate::rules::mounting_hole_clearance::entry_ok;
use crate::rules::slot_clearance::least4;
use crate::violation::{describes, two_lengths, DrcViolation, ViolationKind};

verus! {

/// Rule for copper too close to the board edge.
pub struct EdgeClearanceRule;

impl EdgeClearanceRule {
    /// The rule's identifier in reports and filters.
    pub fn name(&self) -> (n: &'static str)
        ensures
            n@ == "edge-clearance"@,
    {
        "edge-clearance"
    }
}

/// The edge from corner `k` of a ring to the next, the last closing back to
/// the first.
pub open spec fn ring_edge(ring: Seq<Point>, k: int) -> (Point, Point) {
    (ring[k], ring[(k + 1) % (ring.len() as int)])
}

/// The ray from `p` towards larger x crosses the edge from `a` to `b`: the
/// edge has one end above `p` and one not, and meets `p`'s height to the
/// right of it.
pub open spec fn crosses_ray(p: Point, a: Point, b: Point) -> bool {
    let lhs = (p.x - a.x) * (b.y - a.y);
    let rhs = (b.x - a.x) * (p.y - a.y);
    &&& (a.y > p.y) != (b.y > p.y)
    &&& if b.y > a.y {
        lhs < rhs
    } else {
        lhs > rhs
    }
}

/// How many of the first `n` edges of the ring the ray from `p` crosses.
pub open spec fn crossings(ring: Seq<Point>, p: Point, n: int) -> nat
    decreases n,
{
    if n <= 0 {
        0
    } else {
        crossings(ring, p, n - 1) + if crosses_ray(p, ring_edge(ring, n - 1).0, ring_edge(ring, n - 1).1) {
            1nat
        } else {
            0nat
        }
    }
}

/// A point is on the board the ring draws: the ray from it crosses the ring
/// an odd number of times.
pub open spec fn inside_ring(ring: Seq<Point>, p: Point) -> bool {
    crossings(ring, p, ring.len() as int) % 2 == 1
}

/// How close a box's four sides come to one edge, rounded down.
pub open spec fn box_edge_gap(min_x: i64, min_y: i64, max_x: i64, max_y: i64, a: Point, b: Point) -> int {
    let (e0, e1) = (a.raw(), b.raw());
    least4(
        floor_seg([min_x, min_y], [max_x, min_y], e0, e1),
        floor_seg([max_x, min_y], [max_x, max_y], e0, e1),
        floor_seg([max_x, max_y], [min_x, max_y], e0, e1),
        floor_seg([min_x, max_y], [min_x, min_y], e0, e1),
    )
}

/// How close a box comes to the first `n` edges of the ring; the largest
/// distance there is for none.
pub open spec fn box_ring_gap(ring: Seq<Point>, min_x: i64, min_y: i64, max_x: i64, max_y: i64, n: int) -> int
    decreases n,
{
    if n <= 0 {
        i64::MAX as int
    } else {
        least(
            box_ring_gap(ring, min_x, min_y, max_x, max_y, n - 1),
            box_edge_gap(min_x, min_y, max_x, max_y, ring_edge(ring, n - 1).0, ring_edge(ring, n - 1).1),
        )
    }
}

/// The middle of a box, each coordinate rounded toward zero.
pub open spec fn box_centre(min_x: i64, min_y: i64, max_x: i64, max_y: i64) -> Point {
    Point { x: half(min_x + max_x) as i64, y: half(min_y + max_y) as i64 }
}

/// How far a box sits inside the edge: from its sides to the ring where the
/// board draws one, and nothing where its centre is off the board; to the
/// rectangle's four sides otherwise, negative where it is past one.
pub open spec fn edge_gap(b: Board, min_x: i64, min_y: i64, max_x: i64, max_y: i64) -> int {
    match b.outline {
        Some(ring) => if inside_ring(ring@, box_centre(min_x, min_y, max_x, max_y)) {
            box_ring_gap(ring@, min_x, min_y, max_x, max_y, ring@.len() as int)
        } else {
            0
        },
        None => {
            let (w, h) = b.size.unwrap();
            least4(min_x as int, min_y as int, w - max_x, h - max_y)
        },
    }
}

/// The pours among the zones, as pieces of copper.
pub open spec fn pour_entries(zs: Seq<Zone>) -> Seq<CopperEntry>
    decreases zs.len(),
{
    if zs.len() == 0 {
        Seq::empty()
    } else {
        let rest = pour_entries(zs.drop_last());
        let z = zs.last();
        if z.kind == ZoneKind::CopperPour {
            rest.push(CopperEntry { entity: z.entity, bounds: z.bounds, layer_mask: z.layer_mask })
        } else {
            rest
        }
    }
}

/// The copper measured against the edge: the index entries, then the pours.
pub open spec fn edge_entries(b: Board) -> Seq<CopperEntry> {
    b.copper_entries@ + pour_entries(b.zones@)
}

/// The gap of an entry's box to the edge.
pub open spec fn entry_gap(b: Board, e: CopperEntry) -> int {
    edge_gap(b, e.bounds.min.x, e.bounds.min.y, e.bounds.max.x, e.bounds.max.y)
}

/// The entries among `es` closer to the edge than `required`.
pub open spec fn edge_hits(b: Board, es: Seq<CopperEntry>, required: i64) -> Seq<CopperEntry>
    decreases es.len(),
{
    if es.len() == 0 {
        Seq::empty()
    } else {
        let rest = edge_hits(b, es.drop_last(), required);
        if entry_gap(b, es.last()) < required {
            rest.push(es.last())
        } else {
            rest
        }
    }
}

/// `v` reports copper `e` too close to the edge.
pub open spec fn reports_edge(v: DrcViolation, b: Board, e: CopperEntry, required: i64) -> bool {
    let actual = clip(entry_gap(b, e)) as i64;
    describes(
        v,
        ViolationKind::EdgeClearance,
        e.entity,
        None,
        Some(actual),
        Some(required),
        box_centre(e.bounds.min.x, e.bounds.min.y, e.bounds.max.x, e.bounds.max.y),
        two_lengths("Edge clearance violation: "@, actual, "mm actual, "@, required, "mm required"@, 2),
    )
}

/// What the rule finds on a board: nothing where the design declares no
/// board; otherwise each index entry and then each pour whose box is closer
/// to the edge than the rule, in that order.
pub open spec fn found_by_edge(b: Board, r: DesignRules, out: Seq<DrcViolation>) -> bool {
    if b.size is None {
        out.len() == 0
    } else {
        let hits = edge_hits(b, edge_entries(b), r.min_edge_clearance);
        &&& out.len() == hits.len()
        &&& forall|k: int| 0 <= k < out.len() ==> reports_edge(#[trigger] out[k], b, hits[k], r.min_edge_clearance)
    }
}

/// Whether the ray from `p` crosses the edge from `a` to `b`.
fn ray_crosses(p: Point, a: Point, b: Point) -> (r: bool)
    requires
        point_ok(p),
        point_ok(a),
        point_ok(b),
    ensures
        r == crosses_ray(p, a, b),
{
    if (a.y > p.y) == (b.y > p.y) {
        return false;
    }
    let (ux, uy) = (p.x as i128 - a.x as i128, b.y as i128 - a.y as i128);
    let (vx, vy) = (b.x as i128 - a.x as i128, p.y as i128 - a.y as i128);
    proof {
        assert(-4_611_686_018_427_387_904 <= ux * uy <= 4_611_686_018_427_387_904) by (nonlinear_arith)
            requires
                -2_147_483_648 <= ux <= 2_147_483_648,
                -2_147_483_648 <= uy <= 2_147_483_648,
        ;
        assert(-4_611_686_018_427_387_904 <= vx * vy <= 4_611_686_018_427_387_904) by (nonlinear_arith)
            requires
                -2_147_483_648 <= vx <= 2_147_483_648,
                -2_147_483_648 <= vy <= 2_147_483_648,
        ;
    }
    let lhs = ux * uy;
    let rhs = vx * vy;
    if b.y > a.y {
        lhs < rhs
    } else {
        lhs > rhs
    }
}

/// Whether a point is on the board the ring draws.
pub fn ring_contains(ring: &Vec<Point>, p: Point) -> (r: bool)
    requires
        point_ok(p),
        forall|k: int| 0 <= k < ring@.len() ==> point_ok(#[trigger] ring@[k]),
    ensures
        r == inside_ring(ring@, p),
{
    let n = ring.len();
    let mut odd = false;
    let mut k: usize = 0;
    while k < n
        invariant
            n == ring@.len(),
            k <= n,
            point_ok(p),
            forall|j: int| 0 <= j < ring@.len() ==> point_ok(#[trigger] ring@[j]),
            odd == (crossings(ring@, p, k as int) % 2 == 1),
        decreases n - k,
    {
        let next = if k + 1 < n {
            k + 1
        } else {
            0
        };
        proof {
            if k + 1 < n {
                vstd::arithmetic::div_mod::lemma_small_mod((k + 1) as nat, n as nat);
            } else {
                vstd::arithmetic::div_mod::lemma_mod_self_0(n as int);
            }
            assert(next as int == (k + 1) % (n as int));
            assert(point_ok(ring@[k as int]) && point_ok(ring@[next as int]));
        }
        if ray_crosses(p, ring[k], ring[next]) {
            odd = !odd;
        }
        k = k + 1;
    }
    odd
}

/// How close a box comes to one edge.
fn gap_to_edge(min_x: i64, min_y: i64, max_x: i64, max_y: i64, a: Point, b: Point) -> (d: i64)
    requires
        pt_ok([min_x, min_y]),
        pt_ok([max_x, max_y]),
        point_ok(a),
        point_ok(b),
    ensures
        d == box_edge_gap(min_x, min_y, max_x, max_y, a, b),
        0 <= d,
{
    let e0 = [a.x, a.y];
    let e1 = [b.x, b.y];
    proof {
        assert(e0 == a.raw() && e1 == b.raw());
    }
    let d0 = segment_distance([min_x, min_y], [max_x, min_y], e0, e1);
    let d1 = segment_distance([max_x, min_y], [max_x, max_y], e0, e1);
    let d2 = segment_distance([max_x, max_y], [min_x, max_y], e0, e1);
    let d3 = segment_distance([min_x, max_y], [min_x, min_y], e0, e1);
    proof {
        lemma_floor_seg_unique(d0 as int, [min_x, min_y], [max_x, min_y], e0, e1);
        lemma_floor_seg_unique(d1 as int, [max_x, min_y], [max_x, max_y], e0, e1);
        lemma_floor_seg_unique(d2 as int, [max_x, max_y], [min_x, max_y], e0, e1);
        lemma_floor_seg_unique(d3 as int, [min_x, max_y], [min_x, min_y], e0, e1);
    }
    let ab = if d0 <= d1 {
        d0
    } else {
        d1
    };
    let cd = if d2 <= d3 {
        d2
    } else {
        d3
    };
    if ab <= cd {
        ab
    } else {
        cd
    }
}

/// How far a box sits inside the board's edge.
pub fn distance_to_edge(b: &Board, min_x: i64, min_y: i64, max_x: i64, max_y: i64) -> (d: i64)
    requires
        board_ok(*b),
        b.size is Some,
        pt_ok([min_x, min_y]),
        pt_ok([max_x, max_y]),
    ensures
        d == edge_gap(*b, min_x, min_y, max_x, max_y),
{
    match &b.outline {
        Some(ring) => {
            let centre = Point { x: (min_x + max_x) / 2, y: (min_y + max_y) / 2 };
            proof {
                assert(centre == box_centre(min_x, min_y, max_x, max_y));
                assert(b.outline == Some(*ring));
            }
            if !ring_contains(ring, centre) {
                return 0;
            }
            let n = ring.len();
            let mut nearest: i64 = i64::MAX;
            let mut k: usize = 0;
            while k < n
                invariant
                    n == ring@.len(),
                    k <= n,
                    pt_ok([min_x, min_y]),
                    pt_ok([max_x, max_y]),
                    forall|j: int| 0 <= j < ring@.len() ==> point_ok(#[trigger] ring@[j]),
                    nearest == box_ring_gap(ring@, min_x, min_y, max_x, max_y, k as int),
                decreases n - k,
            {
                let next = if k + 1 < n {
                    k + 1
                } else {
                    0
                };
                proof {
                    if k + 1 < n {
                        vstd::arithmetic::div_mod::lemma_small_mod((k + 1) as nat, n as nat);
                    } else {
                        vstd::arithmetic::div_mod::lemma_mod_self_0(n as int);
                    }
                    assert(next as int == (k + 1) % (n as int));
                    assert(point_ok(ring@[k as int]) && point_ok(ring@[next as int]));
                }
                let g = gap_to_edge(min_x, min_y, max_x, max_y, ring[k], ring[next]);
                if g < nearest {
                    nearest = g;
                }
                k = k + 1;
            }
            nearest
        },
        None => {
            let (w, h) = b.size.unwrap();
            let right = w - max_x;
            let top = h - max_y;
            let ab = if min_x <= min_y {
                min_x
            } else {
                min_y
            };
            let cd = if right <= top {
                right
            } else {
                top
            };
            if ab <= cd {
                ab
            } else {
                cd
            }
        },
    }
}

/// The copper measured against the edge.
fn edge_entries_of(b: &Board) -> (out: Vec<CopperEntry>)
    requires
        board_ok(*b),
    ensures
        out@ == edge_entries(*b),
        forall|k: int| 0 <= k < out@.len() ==> entry_ok(#[trigger] out@[k]),
{
    let mut out: Vec<CopperEntry> = Vec::new();
    let mut k: usize = 0;
    while k < b.copper_entries.len()
        invariant
            k <= b.copper_entries@.len(),
            board_ok(*b),
            out@ == b.copper_entries@.take(k as int),
            forall|j: int| 0 <= j < out@.len() ==> entry_ok(#[trigger] out@[j]),
        decreases b.copper_entries@.len() - k,
    {
        proof {
            assert(point_ok(b.copper_entries@[k as int].bounds.min));
        }
        out.push(b.copper_entries[k]);
        proof {
            assert(b.copper_entries@.take(k + 1) =~= out@);
        }
        k = k + 1;
    }
    proof {
        assert(b.copper_entries@.take(k as int) =~= b.copper_entries@);
    }
    let ghost base = out@;
    let mut k: usize = 0;
    while k < b.zones.len()
        invariant
            k <= b.zones@.len(),
            board_ok(*b),
            base == b.copper_entries@,
            out@ == base + pour_entries(b.zones@.take(k as int)),
            forall|j: int| 0 <= j < out@.len() ==> entry_ok(#[trigger] out@[j]),
        decreases b.zones@.len() - k,
    {
        let z = &b.zones[k];
        proof {
            assert(b.zones@.take(k + 1).drop_last() =~= b.zones@.take(k as int));
            assert(b.zones@.take(k + 1).last() == *z);
            assert(crate::board::zone_ok(b.zones@[k as int]));
        }
        if z.is_copper_pour() {
            out.push(CopperEntry { entity: z.entity, bounds: z.bounds, layer_mask: z.layer_mask });
        }
        proof {
            assert(out@ =~= base + pour_entries(b.zones@.take(k + 1)));
        }
        k = k + 1;
    }
    proof {
        assert(b.zones@.take(k as int) =~= b.zones@);
    }
    out
}

impl EdgeClearanceRule {
    /// Every piece of copper - an index entry, then a pour - whose box sits
    /// closer to the board's edge than the rule allows, in that order, each
    /// reported at the middle of its box with the gap, never below zero.
    /// Nothing where the design declares no board.
    pub fn check(&self, board: &Board, rules: &DesignRules) -> (out: Vec<DrcViolation>)
        requires
            board_ok(*board),
            rules_ok(*rules),
        ensures
            found_by_edge(*board, *rules, out@),
    {
        let mut out: Vec<DrcViolation> = Vec::new();
        if board.size.is_none() {
            return out;
        }
        let required = rules.min_edge_clearance;
        let es = edge_entries_of(board);
        let mut k: usize = 0;
        while k < es.len()
            invariant
                k <= es@.len(),
                board_ok(*board),
                rules_ok(*rules),
                board.size is Some,
                required == rules.min_edge_clearance,
                es@ == edge_entries(*board),
                forall|j: int| 0 <= j < es@.len() ==> entry_ok(#[trigger] es@[j]),
                out@.len() == edge_hits(*board, es@.take(k as int), required).len(),
                forall|j: int|
                    0 <= j < out@.len() ==> reports_edge(
                        #[trigger] out@[j],
                        *board,
                        edge_hits(*board, es@.take(k as int), required)[j],
                        required,
                    ),
            decreases es@.len() - k,
        {
            let e = es[k];
            let ghost prior = edge_hits(*board, es@.take(k as int), required);
            proof {
                assert(es@.take(k + 1).drop_last() =~= es@.take(k as int));
                assert(es@.take(k + 1).last() == e);
                assert(entry_ok(es@[k as int]));
            }
            let (lx, ly, hx, hy) = (e.bounds.min.x, e.bounds.min.y, e.bounds.max.x, e.bounds.max.y);
            let gap = distance_to_edge(board, lx, ly, hx, hy);
            if gap < required {
                let actual: i64 = if gap > 0 {
                    gap
                } else {
                    0
                };
                let centre = Point { x: (lx + hx) / 2, y: (ly + hy) / 2 };
                let ghost old_out = out@;
                out.push(DrcViolation::edge_clearance(e.entity, actual, required, centre));
                proof {
                    let whole = edge_hits(*board, es@.take(k + 1), required);
                    assert(whole == prior.push(e));
                    assert forall|j: int| 0 <= j < out@.len() implies reports_edge(
                        #[trigger] out@[j],
                        *board,
                        whole[j],
                        required,
                    ) by {
                        if j < old_out.len() {
                            assert(out@[j] == old_out[j]);
                        }
                    }
                }
            } else {
                proof {
                    assert(edge_hits(*board, es@.take(k + 1), required) == prior);
                }
            }
            k = k + 1;
        }
        proof {
            assert(es@.take(k as int) =~= es@);
        }
        out
    }
}

} // verus!
