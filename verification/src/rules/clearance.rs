//! Checking minimum clearance between copper features: the distances
//! between pieces of copper, what a pair of them asks for, and which pairs
//! are on one net. Which pairs are measured and what gaps they have is in
//! `copper_pairs`; how contacts count into places is in `contacts`.
use vstd::prelude::*;

use crate::geometry::{
    coord_ok, dot2, floor_root, floor_sqrt_ratio, half, is_floor_seg_distance, is_floor_sqrt,
    floor_seg, lemma_floor_root, lemma_floor_seg_exists, lemma_floor_seg_unique,
    point_segment_floor, ps_den, ps_num, pt_ok, seg_seg_floor, Point,
};

verus! {

/// Rule for checking minimum clearance between copper features.
pub struct ClearanceRule;

impl ClearanceRule {
    /// The rule's identifier in reports and filters.
    pub fn name(&self) -> (n: &'static str)
        ensures
            n@ == "clearance"@,
    {
        "clearance"
    }
}

/// The box an index entry occupies: from its lower corner to its upper.
#[derive(Debug, Clone, Copy, PartialEq, Eq)]
pub struct Aabb {
    /// The corner with the smaller coordinates.
    pub lower: [i64; 2],
    /// The corner with the larger coordinates.
    pub upper: [i64; 2],
}

/// A box whose corners are inside the carried range.
pub open spec fn aabb_ok(b: Aabb) -> bool {
    pt_ok(b.lower) && pt_ok(b.upper)
}

/// Minimum distance between two line segments, rounded down to whole
/// nanometres.
///
/// Zero where they cross or touch; otherwise the least distance from an end
/// of one to the other, which is where two segments that do not cross come
/// closest.
pub fn segment_distance(p1: [i64; 2], p2: [i64; 2], p3: [i64; 2], p4: [i64; 2]) -> (d: i64)
    requires
        pt_ok(p1),
        pt_ok(p2),
        pt_ok(p3),
        pt_ok(p4),
    ensures
        is_floor_seg_distance(d as int, p1, p2, p3, p4),
{
    seg_seg_floor(p1, p2, p3, p4)
}

/// Minimum distance from a point to a line segment, rounded down.
pub fn point_to_segment_distance(p: [i64; 2], s1: [i64; 2], s2: [i64; 2]) -> (d: i64)
    requires
        pt_ok(p),
        pt_ok(s1),
        pt_ok(s2),
    ensures
        is_floor_sqrt(d as int, ps_num(p, s1, s2), ps_den(p, s1, s2)),
{
    point_segment_floor(p, s1, s2)
}

/// The squared distance between two points.
pub open spec fn dist2(a: [i64; 2], b: [i64; 2]) -> int {
    let dx = b[0] as int - a[0] as int;
    let dy = b[1] as int - a[1] as int;
    dx * dx + dy * dy
}

/// Dot product, widened so it cannot overflow.
pub fn dot128(a: [i64; 2], b: [i64; 2]) -> (d: i128)
    requires
        -2_147_483_648 < a[0] < 2_147_483_648,
        -2_147_483_648 < a[1] < 2_147_483_648,
        -2_147_483_648 < b[0] < 2_147_483_648,
        -2_147_483_648 < b[1] < 2_147_483_648,
    ensures
        d == dot2(a[0] as int, a[1] as int, b[0] as int, b[1] as int),
{
    assert(-4_611_686_018_427_387_904 < a[0] * b[0] < 4_611_686_018_427_387_904) by (nonlinear_arith)
        requires
            -2_147_483_648 < a[0] < 2_147_483_648,
            -2_147_483_648 < b[0] < 2_147_483_648,
    ;
    assert(-4_611_686_018_427_387_904 < a[1] * b[1] < 4_611_686_018_427_387_904) by (nonlinear_arith)
        requires
            -2_147_483_648 < a[1] < 2_147_483_648,
            -2_147_483_648 < b[1] < 2_147_483_648,
    ;
    (a[0] as i128) * (b[0] as i128) + (a[1] as i128) * (b[1] as i128)
}

/// Euclidean distance between two points, rounded down.
pub fn point_distance(a: [i64; 2], b: [i64; 2]) -> (d: i64)
    requires
        pt_ok(a),
        pt_ok(b),
    ensures
        is_floor_sqrt(d as int, dist2(a, b), 1),
{
    let dx = b[0] - a[0];
    let dy = b[1] - a[1];
    let square = dot128([dx, dy], [dx, dy]);
    assert(square <= 9_223_372_036_854_775_807) by (nonlinear_arith)
        requires
            -2_147_483_648 < dx < 2_147_483_648,
            -2_147_483_648 < dy < 2_147_483_648,
            square == dx * dx + dy * dy,
    ;
    assert(square >= 0) by (nonlinear_arith)
        requires
            square == dx * dx + dy * dy,
    ;
    floor_sqrt_ratio(square, 1)
}

/// A canonical ordering of a pair, so A-B and B-A are the same key.
pub fn canonical_pair(a: u32, b: u32) -> (p: (u32, u32))
    ensures
        p == (if a < b {
            (a, b)
        } else {
            (b, a)
        }),
{
    if a < b {
        (a, b)
    } else {
        (b, a)
    }
}

/// `a` comes no later than `b` in lexicographic order.
pub open spec fn lex_le(a: [i64; 2], b: [i64; 2]) -> bool {
    a[0] < b[0] || (a[0] == b[0] && a[1] <= b[1])
}

/// A segment from its lower end, so a segment written the other way round
/// measures the same point.
pub fn lower_end_first(segment: &([i64; 2], [i64; 2])) -> (s: ([i64; 2], [i64; 2]))
    ensures
        s == (if lex_le(segment.0, segment.1) {
            *segment
        } else {
            (segment.1, segment.0)
        }),
{
    let (a, b) = *segment;
    if a[0] < b[0] || (a[0] == b[0] && a[1] <= b[1]) {
        (a, b)
    } else {
        (b, a)
    }
}

/// The gap between two boxes along one axis: zero where they overlap.
pub open spec fn axis_gap(lo_a: int, hi_a: int, lo_b: int, hi_b: int) -> int {
    let gap = (if lo_a > lo_b {
        lo_a
    } else {
        lo_b
    }) - (if hi_a < hi_b {
        hi_a
    } else {
        hi_b
    });
    if gap > 0 {
        gap
    } else {
        0
    }
}

/// The squared gap between two boxes.
pub open spec fn aabb_gap2(a: Aabb, b: Aabb) -> int {
    let dx = axis_gap(a.lower[0] as int, a.upper[0] as int, b.lower[0] as int, b.upper[0] as int);
    let dy = axis_gap(a.lower[1] as int, a.upper[1] as int, b.lower[1] as int, b.upper[1] as int);
    dx * dx + dy * dy
}

/// The gap along one axis, computed.
fn gap_along(lo_a: i64, hi_a: i64, lo_b: i64, hi_b: i64) -> (g: i64)
    requires
        coord_ok(lo_a as int),
        coord_ok(hi_a as int),
        coord_ok(lo_b as int),
        coord_ok(hi_b as int),
    ensures
        g == axis_gap(lo_a as int, hi_a as int, lo_b as int, hi_b as int),
        0 <= g < 2_147_483_648,
{
    let lo = if lo_a > lo_b {
        lo_a
    } else {
        lo_b
    };
    let hi = if hi_a < hi_b {
        hi_a
    } else {
        hi_b
    };
    let gap = lo - hi;
    if gap > 0 {
        gap
    } else {
        0
    }
}

/// Calculate the minimum distance between two axis-aligned bounding boxes,
/// rounded down. Zero where the boxes touch or overlap; a diagonal pair is
/// the distance between their nearest corners.
pub fn aabb_distance(a: &Aabb, b: &Aabb) -> (d: i64)
    requires
        aabb_ok(*a),
        aabb_ok(*b),
    ensures
        is_floor_sqrt(d as int, aabb_gap2(*a, *b), 1),
{
    let dx = gap_along(a.lower[0], a.upper[0], b.lower[0], b.upper[0]);
    let dy = gap_along(a.lower[1], a.upper[1], b.lower[1], b.upper[1]);
    let square = dot128([dx, dy], [dx, dy]);
    assert(0 <= square <= 9_223_372_036_854_775_807) by (nonlinear_arith)
        requires
            0 <= dx < 2_147_483_648,
            0 <= dy < 2_147_483_648,
            square == dx * dx + dy * dy,
    ;
    floor_sqrt_ratio(square, 1)
}

/// The centre of a box, each coordinate rounded toward zero.
pub fn aabb_center(b: &Aabb) -> (c: Point)
    requires
        aabb_ok(*b),
    ensures
        c.x == half(b.lower[0] + b.upper[0]),
        c.y == half(b.lower[1] + b.upper[1]),
{
    Point { x: (b.lower[0] + b.upper[0]) / 2, y: (b.lower[1] + b.upper[1]) / 2 }
}

/// The point halfway between two coordinate pairs, rounded toward zero.
pub fn midpoint_raw(a: [i64; 2], b: [i64; 2]) -> (m: Point)
    requires
        pt_ok(a),
        pt_ok(b),
    ensures
        m.x == half(a[0] + b[0]),
        m.y == half(a[1] + b[1]),
{
    Point { x: (a[0] + b[0]) / 2, y: (a[1] + b[1]) / 2 }
}

/// One side of a contact: which copper it is, as far as counting goes.
///
/// A trace is its net on its layers: how a net's copper is cut into trace
/// entities is not copper. A via is one piece of copper however the board was
/// written, so it stands for itself, and so does a pad of a part.
#[derive(Debug, Clone, Copy, PartialEq, Eq)]
pub enum Side {
    /// A trace: its net and the layers it is on.
    Trace { net: u32, layers: u32 },
    /// A piece of copper that is not a trace: a via, a part, a pour.
    Piece(u32),
    /// One pad of a part, or the disc of a via, known by the part and the
    /// lower corner of the copper's core.
    Pad { part: u32, at: [i64; 2] },
}

impl Side {
    /// This side narrowed to the one piece of its copper a contact was
    /// measured against, when there is one and this side is not a trace.
    pub fn at_pad(self, pad: Option<[i64; 2]>) -> (s: Side)
        ensures
            s == (match (self, pad) {
                (Side::Piece(part), Some(at)) => Side::Pad { part, at },
                _ => self,
            }),
    {
        match (self, pad) {
            (Side::Piece(part), Some(at)) => Side::Pad { part, at },
            _ => self,
        }
    }
}

/// Which side an entity is: a trace with a net is its net on its layers,
/// anything else is itself.
pub fn side_of(index: u32, net: Option<u32>, is_trace: bool, layers: u32) -> (s: Side)
    ensures
        s == (match (is_trace, net) {
            (true, Some(net)) => Side::Trace { net, layers },
            _ => Side::Piece(index),
        }),
{
    match (is_trace, net) {
        (true, Some(net)) => Side::Trace { net, layers },
        _ => Side::Piece(index),
    }
}

/// Copper as the checker measures it: a box grown by a radius.
///
/// A rectangle is its box and no radius. A disc - a via, a circular pad - is
/// its centre, a box of no size, grown by its radius; the distance between
/// two of them is the distance between their cores less both radii.
#[derive(Debug, Clone, Copy, PartialEq, Eq)]
pub struct Copper {
    /// The box the copper is grown from.
    pub core: Aabb,
    /// How far it is grown.
    pub radius: i64,
}

impl Copper {
    /// A rectangle of copper.
    pub fn boxed(box_: Aabb) -> (c: Copper)
        ensures
            c.core == box_,
            c.radius == 0,
    {
        Copper { core: box_, radius: 0 }
    }

    /// A disc of copper.
    pub fn circle(centre: [i64; 2], radius: i64) -> (c: Copper)
        ensures
            c.core == (Aabb { lower: centre, upper: centre }),
            c.radius == radius,
    {
        Copper { core: Aabb { lower: centre, upper: centre }, radius }
    }

    /// The box the copper fits in.
    pub fn bounds(&self) -> (b: Aabb)
        requires
            aabb_ok(self.core),
            0 <= self.radius < 1_073_741_824,
        ensures
            b.lower[0] == self.core.lower[0] - self.radius,
            b.lower[1] == self.core.lower[1] - self.radius,
            b.upper[0] == self.core.upper[0] + self.radius,
            b.upper[1] == self.core.upper[1] + self.radius,
    {
        Aabb {
            lower: [self.core.lower[0] - self.radius, self.core.lower[1] - self.radius],
            upper: [self.core.upper[0] + self.radius, self.core.upper[1] + self.radius],
        }
    }
}

/// The gap between two pieces of copper, rounded down: the gap between
/// their cores less both radii, and zero where they touch or overlap.
pub open spec fn copper_gap(a: Copper, b: Copper) -> int {
    let gap = floor_root(aabb_gap2(a.core, b.core)) - a.radius - b.radius;
    if gap > 0 {
        gap
    } else {
        0
    }
}

/// A radius the arithmetic can carry.
pub open spec fn radius_ok(r: i64) -> bool {
    -1_073_741_824 < r < 1_073_741_824
}

/// The gap between two pieces of copper, rounded down: the gap between
/// their cores less both radii, and zero where they touch or overlap.
pub fn copper_distance(a: &Copper, b: &Copper) -> (d: i64)
    requires
        aabb_ok(a.core),
        aabb_ok(b.core),
        radius_ok(a.radius),
        radius_ok(b.radius),
    ensures
        d == copper_gap(*a, *b),
        0 <= d,
{
    let core = aabb_distance(&a.core, &b.core);
    proof {
        lemma_floor_root(aabb_gap2(a.core, b.core), core as int);
        let dx = axis_gap(a.core.lower[0] as int, a.core.upper[0] as int, b.core.lower[0] as int, b.core.upper[0] as int);
        let dy = axis_gap(a.core.lower[1] as int, a.core.upper[1] as int, b.core.lower[1] as int, b.core.upper[1] as int);
        assert(0 <= dx < 2_147_483_648 && 0 <= dy < 2_147_483_648);
        assert(core <= 4_294_967_296) by (nonlinear_arith)
            requires
                core * core <= dx * dx + dy * dy,
                0 <= dx < 2_147_483_648,
                0 <= dy < 2_147_483_648,
                core >= 0,
        ;
    }
    let gap = core - a.radius - b.radius;
    if gap > 0 {
        gap
    } else {
        0
    }
}

/// A trace as the distance rules read it: half its width and its
/// centrelines, each from one end to the other.
#[derive(Debug, Clone)]
pub struct TraceData {
    /// Half of the trace width.
    pub half_width: i64,
    /// The centreline of each segment.
    pub segments: Vec<([i64; 2], [i64; 2])>,
}

/// A point lies in a box, its edges included.
pub open spec fn inside_box(b: Aabb, p: [i64; 2]) -> bool {
    b.lower[0] <= p[0] <= b.upper[0] && b.lower[1] <= p[1] <= b.upper[1]
}

/// The middle of a segment, each coordinate rounded toward zero.
pub open spec fn seg_mid(s: ([i64; 2], [i64; 2])) -> [i64; 2] {
    [half(s.0[0] + s.1[0]) as i64, half(s.0[1] + s.1[1]) as i64]
}

/// The smaller of two numbers.
pub open spec fn least(a: int, b: int) -> int {
    if a <= b {
        a
    } else {
        b
    }
}

/// The distance from a segment to a box, rounded down: zero where its middle
/// or either end is in the box, and otherwise the least distance to one of
/// the box's four sides.
pub open spec fn seg_box_gap(s: ([i64; 2], [i64; 2]), b: Aabb) -> int {
    let (lo, hi) = (b.lower, b.upper);
    if inside_box(b, seg_mid(s)) || inside_box(b, s.0) || inside_box(b, s.1) {
        0
    } else {
        least(
            least(
                floor_seg(s.0, s.1, [lo[0], lo[1]], [hi[0], lo[1]]),
                floor_seg(s.0, s.1, [hi[0], lo[1]], [hi[0], hi[1]]),
            ),
            least(
                floor_seg(s.0, s.1, [hi[0], hi[1]], [lo[0], hi[1]]),
                floor_seg(s.0, s.1, [lo[0], hi[1]], [lo[0], lo[1]]),
            ),
        )
    }
}

/// The closest approach of a trace's centrelines to a box, rounded down;
/// the largest distance there is for a trace with no segments.
pub open spec fn trace_box_gap(segs: Seq<([i64; 2], [i64; 2])>, b: Aabb) -> int
    decreases segs.len(),
{
    if segs.len() == 0 {
        i64::MAX as int
    } else {
        least(trace_box_gap(segs.drop_last(), b), seg_box_gap(segs.last(), b))
    }
}

/// The closest approach of a trace's centrelines to a piece of copper: to
/// its core, less its radius, and never below nothing.
pub open spec fn trace_copper_gap(segs: Seq<([i64; 2], [i64; 2])>, c: Copper) -> int {
    let g = trace_box_gap(segs, c.core) - c.radius;
    let sat = if g > i64::MAX {
        i64::MAX as int
    } else if g < i64::MIN {
        i64::MIN as int
    } else {
        g
    };
    if sat > 0 {
        sat
    } else {
        0
    }
}

/// A trace whose points the arithmetic can carry.
pub open spec fn trace_data_ok(t: TraceData) -> bool {
    forall|k: int|
        0 <= k < t.segments@.len() ==> pt_ok((#[trigger] t.segments@[k]).0) && pt_ok(
            t.segments@[k].1,
        )
}

/// A segment's distance to a box is never below nothing.
proof fn lemma_seg_box_gap_nonneg(s: ([i64; 2], [i64; 2]), b: Aabb)
    requires
        pt_ok(s.0),
        pt_ok(s.1),
        aabb_ok(b),
    ensures
        seg_box_gap(s, b) >= 0,
{
    let (lo, hi) = (b.lower, b.upper);
    let e = [[lo[0], lo[1]], [hi[0], lo[1]], [hi[0], hi[1]], [lo[0], hi[1]]];
    lemma_floor_seg_exists(s.0, s.1, [lo[0], lo[1]], [hi[0], lo[1]]);
    lemma_floor_seg_exists(s.0, s.1, [hi[0], lo[1]], [hi[0], hi[1]]);
    lemma_floor_seg_exists(s.0, s.1, [hi[0], hi[1]], [lo[0], hi[1]]);
    lemma_floor_seg_exists(s.0, s.1, [lo[0], hi[1]], [lo[0], lo[1]]);
    lemma_floor_seg_unique(floor_seg(s.0, s.1, [lo[0], lo[1]], [hi[0], lo[1]]), s.0, s.1, [lo[0], lo[1]], [hi[0], lo[1]]);
    lemma_floor_seg_unique(floor_seg(s.0, s.1, [hi[0], lo[1]], [hi[0], hi[1]]), s.0, s.1, [hi[0], lo[1]], [hi[0], hi[1]]);
    lemma_floor_seg_unique(floor_seg(s.0, s.1, [hi[0], hi[1]], [lo[0], hi[1]]), s.0, s.1, [hi[0], hi[1]], [lo[0], hi[1]]);
    lemma_floor_seg_unique(floor_seg(s.0, s.1, [lo[0], hi[1]], [lo[0], lo[1]]), s.0, s.1, [lo[0], hi[1]], [lo[0], lo[1]]);
}

/// A trace's distance to a box is never below nothing, and no more than any
/// one segment's.
proof fn lemma_trace_box_gap_bounds(segs: Seq<([i64; 2], [i64; 2])>, b: Aabb)
    requires
        forall|k: int| 0 <= k < segs.len() ==> pt_ok((#[trigger] segs[k]).0) && pt_ok(segs[k].1),
        aabb_ok(b),
    ensures
        0 <= trace_box_gap(segs, b) <= i64::MAX,
        forall|k: int| 0 <= k < segs.len() ==> trace_box_gap(segs, b) <= seg_box_gap(#[trigger] segs[k], b),
    decreases segs.len(),
{
    if segs.len() > 0 {
        let init = segs.drop_last();
        assert forall|k: int| 0 <= k < init.len() implies pt_ok((#[trigger] init[k]).0) && pt_ok(init[k].1) by {
            assert(init[k] == segs[k]);
        }
        lemma_trace_box_gap_bounds(init, b);
        lemma_seg_box_gap_nonneg(segs.last(), b);
        assert forall|k: int| 0 <= k < segs.len() implies trace_box_gap(segs, b) <= seg_box_gap(#[trigger] segs[k], b) by {
            if k < init.len() {
                assert(segs[k] == init[k]);
            }
        }
    }
}

/// The closest approach of a trace's centrelines to a box, rounded down.
pub fn trace_to_aabb_gap(trace: &TraceData, b: &Aabb) -> (d: i64)
    requires
        trace_data_ok(*trace),
        aabb_ok(*b),
    ensures
        d == trace_box_gap(trace.segments@, *b),
{
    let ghost segs = trace.segments@;
    proof {
        lemma_trace_box_gap_bounds(segs, *b);
    }
    let lo = b.lower;
    let hi = b.upper;
    let mut best: i64 = i64::MAX;
    let mut k: usize = 0;
    while k < trace.segments.len()
        invariant
            k <= segs.len(),
            segs == trace.segments@,
            trace_data_ok(*trace),
            aabb_ok(*b),
            lo == b.lower,
            hi == b.upper,
            best == trace_box_gap(segs.take(k as int), *b),
            0 <= trace_box_gap(segs, *b),
            forall|t: int| 0 <= t < segs.len() ==> trace_box_gap(segs, *b) <= seg_box_gap(#[trigger] segs[t], *b),
        decreases segs.len() - k,
    {
        let seg = trace.segments[k];
        proof {
            assert(pt_ok(segs[k as int].0) && pt_ok(segs[k as int].1));
            assert(segs.take(k + 1).drop_last() =~= segs.take(k as int));
            assert(segs.take(k + 1).last() == seg);
        }
        let m = [(seg.0[0] + seg.1[0]) / 2, (seg.0[1] + seg.1[1]) / 2];
        let inside_mid = lo[0] <= m[0] && m[0] <= hi[0] && lo[1] <= m[1] && m[1] <= hi[1];
        let inside_start = lo[0] <= seg.0[0] && seg.0[0] <= hi[0] && lo[1] <= seg.0[1] && seg.0[1] <= hi[1];
        let inside_end = lo[0] <= seg.1[0] && seg.1[0] <= hi[0] && lo[1] <= seg.1[1] && seg.1[1] <= hi[1];
        proof {
            assert(m@ == seg_mid(seg)@);
            assert(m == seg_mid(seg));
        }
        if inside_mid || inside_start || inside_end {
            proof {
                assert(seg_box_gap(seg, *b) == 0);
                assert(segs[k as int] == seg);
                assert(trace_box_gap(segs, *b) <= 0);
            }
            return 0;
        }
        let d0 = segment_distance(seg.0, seg.1, [lo[0], lo[1]], [hi[0], lo[1]]);
        let d1 = segment_distance(seg.0, seg.1, [hi[0], lo[1]], [hi[0], hi[1]]);
        let d2 = segment_distance(seg.0, seg.1, [hi[0], hi[1]], [lo[0], hi[1]]);
        let d3 = segment_distance(seg.0, seg.1, [lo[0], hi[1]], [lo[0], lo[1]]);
        proof {
            lemma_floor_seg_unique(d0 as int, seg.0, seg.1, [lo[0], lo[1]], [hi[0], lo[1]]);
            lemma_floor_seg_unique(d1 as int, seg.0, seg.1, [hi[0], lo[1]], [hi[0], hi[1]]);
            lemma_floor_seg_unique(d2 as int, seg.0, seg.1, [hi[0], hi[1]], [lo[0], hi[1]]);
            lemma_floor_seg_unique(d3 as int, seg.0, seg.1, [lo[0], hi[1]], [lo[0], lo[1]]);
        }
        let m01 = if d0 <= d1 { d0 } else { d1 };
        let m23 = if d2 <= d3 { d2 } else { d3 };
        let here = if m01 <= m23 { m01 } else { m23 };
        if here < best {
            best = here;
        }
        k = k + 1;
    }
    proof {
        assert(segs.take(k as int) =~= segs);
    }
    best
}

/// The closest approach of a trace's centrelines to a piece of copper, and
/// never below nothing.
pub fn trace_to_copper_gap(trace: &TraceData, c: &Copper) -> (d: i64)
    requires
        trace_data_ok(*trace),
        aabb_ok(c.core),
        radius_ok(c.radius),
    ensures
        d == trace_copper_gap(trace.segments@, *c),
{
    let g = trace_to_aabb_gap(trace, &c.core);
    proof {
        lemma_trace_box_gap_bounds(trace.segments@, c.core);
    }
    let sat: i64 = if c.radius >= 0 {
        g - c.radius
    } else if g > i64::MAX + c.radius {
        i64::MAX
    } else {
        g - c.radius
    };
    if sat > 0 {
        sat
    } else {
        0
    }
}

/// Two pieces of copper on one net are joined on purpose and exempt from
/// clearance. A trace or via names one net; a part names a net per pin. A
/// part whose pads the checker has is judged pad by pad instead, so it is
/// never exempt as a whole.
pub open spec fn same_net_exempt(
    net_a: Option<u32>,
    net_b: Option<u32>,
    pins_a: Option<Seq<u32>>,
    pins_b: Option<Seq<u32>>,
    has_pads_a: bool,
    has_pads_b: bool,
) -> bool {
    match (net_a, net_b) {
        (Some(a), Some(b)) => a == b,
        (Some(a), None) => !has_pads_b && match pins_b {
            Some(nets) => nets.contains(a),
            None => false,
        },
        (None, Some(b)) => !has_pads_a && match pins_a {
            Some(nets) => nets.contains(b),
            None => false,
        },
        (None, None) => if has_pads_a && has_pads_b {
            false
        } else {
            match pins_a {
                Some(x) => match pins_b {
                    Some(y) => shares_net(x, y),
                    None => false,
                },
                None => false,
            }
        },
    }
}

/// Two lists of nets have one in common.
pub open spec fn shares_net(x: Seq<u32>, y: Seq<u32>) -> bool {
    exists|i: int| 0 <= i < x.len() && y.contains(#[trigger] x[i])
}

/// Whether `net` is among `nets`.
fn holds_net(nets: &Vec<u32>, net: u32) -> (r: bool)
    ensures
        r == nets@.contains(net),
{
    let mut k: usize = 0;
    while k < nets.len()
        invariant
            k <= nets@.len(),
            forall|j: int| 0 <= j < k ==> nets@[j] != net,
        decreases nets@.len() - k,
    {
        if nets[k] == net {
            return true;
        }
        k = k + 1;
    }
    false
}

/// Whether two pieces of copper are on one net and exempt from clearance.
pub fn exempt_as_same_net(
    net_a: Option<u32>,
    net_b: Option<u32>,
    pins_a: &Option<Vec<u32>>,
    pins_b: &Option<Vec<u32>>,
    has_pads_a: bool,
    has_pads_b: bool,
) -> (r: bool)
    ensures
        r == same_net_exempt(
            net_a,
            net_b,
            match pins_a {
                Some(v) => Some(v@),
                None => None,
            },
            match pins_b {
                Some(v) => Some(v@),
                None => None,
            },
            has_pads_a,
            has_pads_b,
        ),
{
    if let Some(a) = net_a {
        if let Some(b) = net_b {
            return a == b;
        }
        if has_pads_b {
            return false;
        }
        return match pins_b {
            Some(nets) => holds_net(nets, a),
            None => false,
        };
    }
    if let Some(b) = net_b {
        if has_pads_a {
            return false;
        }
        return match pins_a {
            Some(nets) => holds_net(nets, b),
            None => false,
        };
    }
    if has_pads_a && has_pads_b {
        return false;
    }
    match pins_a {
        Some(x) => match pins_b {
            Some(y) => share_a_net(x, y),
            None => false,
        },
        None => false,
    }
}

/// Whether two lists of nets have one in common.
fn share_a_net(x: &Vec<u32>, y: &Vec<u32>) -> (r: bool)
    ensures
        r == shares_net(x@, y@),
{
    let mut i: usize = 0;
    while i < x.len()
        invariant
            i <= x@.len(),
            forall|j: int| 0 <= j < i ==> !y@.contains(#[trigger] x@[j]),
        decreases x@.len() - i,
    {
        if holds_net(y, x[i]) {
            proof {
                assert(y@.contains(x@[i as int]));
            }
            return true;
        }
        i = i + 1;
    }
    false
}

/// The clearance a net's own block states: that of the first block for the
/// net that states one.
pub open spec fn stated_clearance(rules: Seq<crate::board::NetRule>, net: u32) -> Option<i64>
    decreases rules.len(),
{
    if rules.len() == 0 {
        None
    } else if rules[0].net == net && rules[0].clearance is Some {
        rules[0].clearance
    } else {
        stated_clearance(rules.drop_first(), net)
    }
}

/// The larger of two numbers.
pub open spec fn most(a: int, b: int) -> int {
    if a >= b {
        a
    } else {
        b
    }
}

/// The strictest clearance the nets `nets` state, no less than `floor`.
pub open spec fn strictest_of(rules: Seq<crate::board::NetRule>, nets: Seq<u32>, floor: int) -> int
    decreases nets.len(),
{
    if nets.len() == 0 {
        floor
    } else {
        let rest = strictest_of(rules, nets.drop_last(), floor);
        match stated_clearance(rules, nets.last()) {
            Some(c) => most(rest, c as int),
            None => rest,
        }
    }
}

/// What one side of a pair asks for: the strictest of what its own net and
/// its pins' nets state, and nothing where none states anything.
pub open spec fn side_asks(
    rules: Seq<crate::board::NetRule>,
    net: Option<u32>,
    pins: Option<Seq<u32>>,
) -> int {
    let single = match net {
        Some(n) => match stated_clearance(rules, n) {
            Some(c) => most(0, c as int),
            None => 0,
        },
        None => 0,
    };
    match pins {
        Some(nets) => strictest_of(rules, nets, single),
        None => single,
    }
}

/// What a pair of copper must keep between them: the strictest thing either
/// side asks for, never below the fab's floor.
pub open spec fn pair_requires(
    rules: Seq<crate::board::NetRule>,
    floor: i64,
    net_a: Option<u32>,
    pins_a: Option<Seq<u32>>,
    net_b: Option<u32>,
    pins_b: Option<Seq<u32>>,
) -> int {
    most(most(floor as int, side_asks(rules, net_a, pins_a)), side_asks(rules, net_b, pins_b))
}

/// Every clearance a net states is a length the rules carry.
pub open spec fn stated_ok(rules: Seq<crate::board::NetRule>) -> bool {
    forall|k: int|
        0 <= k < rules.len() ==> ((#[trigger] rules[k]).clearance matches Some(c) ==> c
            <= 1_000_000_000_000)
}

/// What stated_clearance finds is one of the stated clearances.
proof fn lemma_stated_clearance_ok(rules: Seq<crate::board::NetRule>, net: u32)
    requires
        stated_ok(rules),
    ensures
        stated_clearance(rules, net) matches Some(c) ==> c <= 1_000_000_000_000,
    decreases rules.len(),
{
    if rules.len() > 0 {
        assert(stated_ok(rules.drop_first())) by {
            assert forall|k: int| 0 <= k < rules.drop_first().len() implies ((#[trigger] rules.drop_first()[k]).clearance matches Some(c) ==> c <= 1_000_000_000_000) by {
                assert(rules.drop_first()[k] == rules[k + 1]);
            }
        }
        lemma_stated_clearance_ok(rules.drop_first(), net);
    }
}

/// The clearance the net's own block states, where it states one.
pub fn net_clearance(rules: &Vec<crate::board::NetRule>, net: u32) -> (c: Option<i64>)
    ensures
        c == stated_clearance(rules@, net),
{
    proof {
        assert(rules@.skip(0) =~= rules@);
    }
    let mut k: usize = 0;
    while k < rules.len()
        invariant
            k <= rules@.len(),
            stated_clearance(rules@, net) == stated_clearance(rules@.skip(k as int), net),
        decreases rules@.len() - k,
    {
        proof {
            assert(rules@.skip(k as int).drop_first() =~= rules@.skip(k + 1));
            assert(rules@.skip(k as int)[0] == rules@[k as int]);
        }
        if rules[k].net == net && rules[k].clearance.is_some() {
            return rules[k].clearance;
        }
        k = k + 1;
    }
    None
}

/// The clearance a net states, where it states one, within the range a
/// stated clearance is carried in.
fn clearance_stated(rules: &Vec<crate::board::NetRule>, net: u32) -> (c: Option<i64>)
    requires
        stated_ok(rules@),
    ensures
        c == stated_clearance(rules@, net),
        c matches Some(v) ==> v <= 1_000_000_000_000,
{
    proof {
        lemma_stated_clearance_ok(rules@, net);
    }
    net_clearance(rules, net)
}

/// What one side of a pair asks for.
fn asks_of_side(rules: &Vec<crate::board::NetRule>, net: Option<u32>, pins: &Option<Vec<u32>>) -> (r: i64)
    requires
        stated_ok(rules@),
    ensures
        r == side_asks(
            rules@,
            net,
            match pins {
                Some(v) => Some(v@),
                None => None,
            },
        ),
        0 <= r <= 1_000_000_000_000,
{
    let single: i64 = match net {
        Some(n) => match clearance_stated(rules, n) {
            Some(c) => if c > 0 {
                c
            } else {
                0
            },
            None => 0,
        },
        None => 0,
    };
    match pins {
        Some(nets) => {
            let mut acc = single;
            let mut k: usize = 0;
            while k < nets.len()
                invariant
                    k <= nets@.len(),
                    stated_ok(rules@),
                    acc == strictest_of(rules@, nets@.take(k as int), single as int),
                    0 <= acc <= 1_000_000_000_000,
                decreases nets@.len() - k,
            {
                proof {
                    assert(nets@.take(k + 1).drop_last() =~= nets@.take(k as int));
                    assert(nets@.take(k + 1).last() == nets@[k as int]);
                }
                match clearance_stated(rules, nets[k]) {
                    Some(c) => {
                        if c > acc {
                            acc = c;
                        }
                    },
                    None => {},
                }
                k = k + 1;
            }
            proof {
                assert(nets@.take(k as int) =~= nets@);
            }
            acc
        },
        None => single,
    }
}

/// What a pair of copper must keep between them: the strictest thing either
/// side's nets state, never below the fab's floor.
pub fn pair_requirement(
    rules: &Vec<crate::board::NetRule>,
    floor: i64,
    net_a: Option<u32>,
    pins_a: &Option<Vec<u32>>,
    net_b: Option<u32>,
    pins_b: &Option<Vec<u32>>,
) -> (r: i64)
    requires
        stated_ok(rules@),
    ensures
        r == pair_requires(
            rules@,
            floor,
            net_a,
            match pins_a {
                Some(v) => Some(v@),
                None => None,
            },
            net_b,
            match pins_b {
                Some(v) => Some(v@),
                None => None,
            },
        ),
        floor <= r,
        r <= floor || r <= 1_000_000_000_000,
{
    let a = asks_of_side(rules, net_a, pins_a);
    let b = asks_of_side(rules, net_b, pins_b);
    let mut r = floor;
    if a > r {
        r = a;
    }
    if b > r {
        r = b;
    }
    r
}

/// **A net's clearance is what its first block stating one says**: where
/// block `k` is the first for `net` that states a clearance, that is the
/// net's clearance.
pub proof fn lemma_stated_clearance_is_first_block(rules: Seq<crate::board::NetRule>, net: u32, k: int)
    requires
        0 <= k < rules.len(),
        rules[k].net == net,
        rules[k].clearance is Some,
        forall|j: int| 0 <= j < k ==> !((#[trigger] rules[j]).net == net && rules[j].clearance is Some),
    ensures
        stated_clearance(rules, net) == rules[k].clearance,
    decreases k,
{
    if k > 0 {
        let d = rules.drop_first();
        assert(!(rules[0].net == net && rules[0].clearance is Some));
        assert forall|j: int| 0 <= j < k - 1 implies !((#[trigger] d[j]).net == net && d[j].clearance is Some) by {
            assert(d[j] == rules[j + 1]);
        }
        assert(d[k - 1] == rules[k]);
        lemma_stated_clearance_is_first_block(d, net, k - 1);
    }
}

/// **A net no block states a clearance for has none of its own.**
pub proof fn lemma_unstated_clearance_is_none(rules: Seq<crate::board::NetRule>, net: u32)
    requires
        forall|j: int| 0 <= j < rules.len() ==> !((#[trigger] rules[j]).net == net && rules[j].clearance is Some),
    ensures
        stated_clearance(rules, net) is None,
    decreases rules.len(),
{
    if rules.len() > 0 {
        let d = rules.drop_first();
        assert(!(rules[0].net == net && rules[0].clearance is Some));
        assert forall|j: int| 0 <= j < d.len() implies !((#[trigger] d[j]).net == net && d[j].clearance is Some) by {
            assert(d[j] == rules[j + 1]);
        }
        lemma_unstated_clearance_is_none(d, net);
    }
}

/// The strictest of a list of nets is no less than the floor it starts from
/// and no less than what any of the nets states.
proof fn lemma_strictest_covers(rules: Seq<crate::board::NetRule>, nets: Seq<u32>, floor: int)
    ensures
        strictest_of(rules, nets, floor) >= floor,
        forall|i: int|
            0 <= i < nets.len() ==> (stated_clearance(rules, #[trigger] nets[i]) matches Some(c) ==> strictest_of(
                rules,
                nets,
                floor,
            ) >= c),
    decreases nets.len(),
{
    if nets.len() > 0 {
        let d = nets.drop_last();
        lemma_strictest_covers(rules, d, floor);
        assert forall|i: int|
            0 <= i < nets.len() implies (stated_clearance(rules, #[trigger] nets[i]) matches Some(c) ==> strictest_of(
                rules,
                nets,
                floor,
            ) >= c) by {
            if i < nets.len() - 1 {
                assert(d[i] == nets[i]);
            }
        }
    }
}

/// What one side asks for is at least what its own net states and at least
/// what each of its pins' nets states, and never below nothing.
proof fn lemma_side_asks_covers(rules: Seq<crate::board::NetRule>, net: Option<u32>, pins: Option<Seq<u32>>)
    ensures
        side_asks(rules, net, pins) >= 0,
        net matches Some(n) ==> (stated_clearance(rules, n) matches Some(c) ==> side_asks(rules, net, pins) >= c),
        pins is Some ==> forall|i: int|
            0 <= i < pins.unwrap().len() ==> (stated_clearance(rules, #[trigger] pins.unwrap()[i]) matches Some(c)
                ==> side_asks(rules, net, pins) >= c),
{
    let single = match net {
        Some(n) => match stated_clearance(rules, n) {
            Some(c) => most(0, c as int),
            None => 0,
        },
        None => 0,
    };
    if pins is Some {
        lemma_strictest_covers(rules, pins.unwrap(), single);
    }
}

/// The value `v` is the clearance stated by one side's own net or by one of
/// its pins' nets.
pub open spec fn stated_by_side(
    rules: Seq<crate::board::NetRule>,
    net: Option<u32>,
    pins: Option<Seq<u32>>,
    v: int,
) -> bool {
    ||| (net matches Some(n) && stated_clearance(rules, n) matches Some(c) && c == v)
    ||| (pins is Some && exists|i: int|
        0 <= i < pins.unwrap().len() && (stated_clearance(rules, #[trigger] pins.unwrap()[i]) matches Some(c)
            && c == v))
}

/// The strictest of a list of nets is the floor it started from or what one
/// of the nets states.
proof fn lemma_strictest_comes_from(rules: Seq<crate::board::NetRule>, nets: Seq<u32>, floor: int)
    ensures
        strictest_of(rules, nets, floor) == floor || exists|i: int|
            0 <= i < nets.len() && (stated_clearance(rules, #[trigger] nets[i]) matches Some(c) && c
                == strictest_of(rules, nets, floor)),
    decreases nets.len(),
{
    if nets.len() > 0 {
        let d = nets.drop_last();
        lemma_strictest_comes_from(rules, d, floor);
        let r = strictest_of(rules, nets, floor);
        let n = nets.len() - 1;
        if r != floor {
            if r == strictest_of(rules, d, floor) {
                let i = choose|i: int|
                    0 <= i < d.len() && (stated_clearance(rules, #[trigger] d[i]) matches Some(c) && c
                        == strictest_of(rules, d, floor));
                assert(d[i] == nets[i]);
            } else {
                assert(stated_clearance(rules, nets[n]) matches Some(c) && c == r);
            }
        }
    }
}

/// **What a pair must keep comes from somewhere**: it is the fab's floor,
/// nothing where the floor is below nothing, or a clearance that one of the
/// pair's own nets, or one of their pins' nets, states.
pub proof fn lemma_pair_requires_comes_from_a_net(
    rules: Seq<crate::board::NetRule>,
    floor: i64,
    net_a: Option<u32>,
    pins_a: Option<Seq<u32>>,
    net_b: Option<u32>,
    pins_b: Option<Seq<u32>>,
)
    ensures
        ({
            let r = pair_requires(rules, floor, net_a, pins_a, net_b, pins_b);
            ||| r == floor
            ||| (r == 0 && floor < 0)
            ||| stated_by_side(rules, net_a, pins_a, r)
            ||| stated_by_side(rules, net_b, pins_b, r)
        }),
{
    lemma_side_comes_from(rules, net_a, pins_a);
    lemma_side_comes_from(rules, net_b, pins_b);
}

/// What one side asks for is nothing or a clearance its nets state.
proof fn lemma_side_comes_from(rules: Seq<crate::board::NetRule>, net: Option<u32>, pins: Option<Seq<u32>>)
    ensures
        side_asks(rules, net, pins) == 0 || stated_by_side(rules, net, pins, side_asks(rules, net, pins)),
{
    let single = match net {
        Some(n) => match stated_clearance(rules, n) {
            Some(c) => most(0, c as int),
            None => 0,
        },
        None => 0,
    };
    if pins is Some {
        lemma_strictest_comes_from(rules, pins.unwrap(), single);
        let r = side_asks(rules, net, pins);
        if r != single {
            let i = choose|i: int|
                0 <= i < pins.unwrap().len() && (stated_clearance(rules, #[trigger] pins.unwrap()[i]) matches Some(c)
                    && c == strictest_of(rules, pins.unwrap(), single));
            assert(stated_by_side(rules, net, pins, r));
        }
    }
}

/// **The clearance a pair must keep honours both sides, whichever comes
/// first**: it is the same with the two sides swapped, never below the fab's
/// floor, and never below what either side's own net, or any of either
/// side's pins' nets, states.
pub proof fn lemma_pair_requires_honours_both_sides(
    rules: Seq<crate::board::NetRule>,
    floor: i64,
    net_a: Option<u32>,
    pins_a: Option<Seq<u32>>,
    net_b: Option<u32>,
    pins_b: Option<Seq<u32>>,
)
    ensures
        pair_requires(rules, floor, net_a, pins_a, net_b, pins_b) == pair_requires(
            rules,
            floor,
            net_b,
            pins_b,
            net_a,
            pins_a,
        ),
        pair_requires(rules, floor, net_a, pins_a, net_b, pins_b) >= floor,
        net_a matches Some(n) ==> (stated_clearance(rules, n) matches Some(c) ==> pair_requires(
            rules,
            floor,
            net_a,
            pins_a,
            net_b,
            pins_b,
        ) >= c),
        net_b matches Some(n) ==> (stated_clearance(rules, n) matches Some(c) ==> pair_requires(
            rules,
            floor,
            net_a,
            pins_a,
            net_b,
            pins_b,
        ) >= c),
        pins_a is Some ==> forall|i: int|
            0 <= i < pins_a.unwrap().len() ==> (stated_clearance(rules, #[trigger] pins_a.unwrap()[i]) matches Some(c)
                ==> pair_requires(rules, floor, net_a, pins_a, net_b, pins_b) >= c),
        pins_b is Some ==> forall|i: int|
            0 <= i < pins_b.unwrap().len() ==> (stated_clearance(rules, #[trigger] pins_b.unwrap()[i]) matches Some(c)
                ==> pair_requires(rules, floor, net_a, pins_a, net_b, pins_b) >= c),
{
    lemma_side_asks_covers(rules, net_a, pins_a);
    lemma_side_asks_covers(rules, net_b, pins_b);
}

/// One pad's copper, with the layers and the net it is on.
#[derive(Debug, Clone, Copy, PartialEq, Eq)]
pub struct PadBox {
    /// The copper itself.
    pub copper: Copper,
    /// The copper layers it is on, one bit per layer.
    pub layer_mask: u32,
    /// The net it is on, where it is on one.
    pub net: Option<u32>,
}

/// A pad carries the net that exempts it.
pub open spec fn carries(p: PadBox, exempt: Option<u32>) -> bool {
    p.net is Some && exempt is Some && p.net == exempt
}

/// The pads on a layer of `mask` that do not carry `exempt`, in order: the
/// copper of a part the other side of a pair can reach, less the pads meant
/// to be joined to it.
pub open spec fn exposed(pads: Seq<PadBox>, mask: u32, exempt: Option<u32>) -> Seq<PadBox>
    decreases pads.len(),
{
    if pads.len() == 0 {
        Seq::empty()
    } else {
        let rest = exposed(pads.drop_last(), mask, exempt);
        let p = pads.last();
        if p.layer_mask & mask != 0 && !carries(p, exempt) {
            rest.push(p)
        } else {
            rest
        }
    }
}

/// The pads on a layer of `mask` that do not carry `exempt`.
pub fn copper_of(pads: &Vec<PadBox>, mask: u32, exempt: Option<u32>) -> (out: Vec<PadBox>)
    ensures
        out@ == exposed(pads@, mask, exempt),
{
    let mut out: Vec<PadBox> = Vec::new();
    let mut k: usize = 0;
    while k < pads.len()
        invariant
            k <= pads@.len(),
            out@ == exposed(pads@.take(k as int), mask, exempt),
        decreases pads@.len() - k,
    {
        let p = pads[k];
        proof {
            assert(pads@.take(k + 1).drop_last() =~= pads@.take(k as int));
            assert(pads@.take(k + 1).last() == p);
        }
        let carried = match (p.net, exempt) {
            (Some(n), Some(e)) => n == e,
            _ => false,
        };
        if p.layer_mask & mask != 0 && !carried {
            out.push(p);
        }
        k = k + 1;
    }
    proof {
        assert(pads@.take(k as int) =~= pads@);
    }
    out
}

/// The centre of a box, each coordinate rounded toward zero.
pub open spec fn box_mid(b: Aabb) -> Point {
    Point { x: half(b.lower[0] + b.upper[0]) as i64, y: half(b.lower[1] + b.upper[1]) as i64 }
}

/// Where and how far apart two pieces of copper are measured: halfway
/// between the centres of their cores, and the gap between them.
pub open spec fn measure(x: Copper, y: Copper) -> (Point, int) {
    (crate::geometry::mid(box_mid(x.core), box_mid(y.core)), copper_gap(x, y))
}

/// Two pads meant to touch: both on one net.
pub open spec fn nets_join(x: PadBox, y: PadBox) -> bool {
    x.net is Some && y.net is Some && x.net == y.net
}

/// Pad `x` measured against each of `ys`, skipping those on its own net.
pub open spec fn pad_row(x: PadBox, ys: Seq<PadBox>, skip_joined: bool) -> Seq<(Point, int)>
    decreases ys.len(),
{
    if ys.len() == 0 {
        Seq::empty()
    } else {
        let rest = pad_row(x, ys.drop_last(), skip_joined);
        if skip_joined && nets_join(x, ys.last()) {
            rest
        } else {
            rest.push(measure(x.copper, ys.last().copper))
        }
    }
}

/// Every pad of `xs` measured against every pad of `ys`, `xs` outermost.
pub open spec fn pad_measures(xs: Seq<PadBox>, ys: Seq<PadBox>, skip_joined: bool) -> Seq<(Point, int)>
    decreases xs.len(),
{
    if xs.len() == 0 {
        Seq::empty()
    } else {
        pad_measures(xs.drop_last(), ys, skip_joined) + pad_row(xs.last(), ys, skip_joined)
    }
}

/// The closest of the measurements, the first where two tie.
pub open spec fn first_least(s: Seq<(Point, int)>) -> Option<(Point, int)>
    decreases s.len(),
{
    if s.len() == 0 {
        None
    } else {
        match first_least(s.drop_last()) {
            None => Some(s.last()),
            Some(best) => if s.last().1 < best.1 {
                Some(s.last())
            } else {
                Some(best)
            },
        }
    }
}

/// Copper the arithmetic can carry.
pub open spec fn copper_ok(c: Copper) -> bool {
    aabb_ok(c.core) && radius_ok(c.radius)
}

/// Where and how far apart two pieces of copper are measured.
fn measure_of(x: &Copper, y: &Copper) -> (m: (Point, i64))
    requires
        copper_ok(*x),
        copper_ok(*y),
    ensures
        m.0 == measure(*x, *y).0,
        m.1 == measure(*x, *y).1,
{
    let cx = aabb_center(&x.core);
    let cy = aabb_center(&y.core);
    let at = crate::geometry::midpoint(cx, cy);
    (at, copper_distance(x, y))
}

/// Keeps the closer of the best so far and a new measurement, the earlier
/// where they tie.
fn keep_least(best: Option<(Point, i64)>, m: (Point, i64)) -> (r: Option<(Point, i64)>)
    ensures
        r == (match best {
            None => Some(m),
            Some(b) => if m.1 < b.1 {
                Some(m)
            } else {
                Some(b)
            },
        }),
{
    match best {
        None => Some(m),
        Some(b) => if m.1 < b.1 {
            Some(m)
        } else {
            Some(b)
        },
    }
}

/// The closest of `xs` measured against `ys`, skipping pairs of pads on one
/// net where asked; `None` where no pair is measured.
pub fn least_measure(xs: &Vec<PadBox>, ys: &Vec<PadBox>, skip_joined: bool) -> (r: Option<(Point, i64)>)
    requires
        forall|k: int| 0 <= k < xs@.len() ==> copper_ok((#[trigger] xs@[k]).copper),
        forall|k: int| 0 <= k < ys@.len() ==> copper_ok((#[trigger] ys@[k]).copper),
    ensures
        match r {
            None => first_least(pad_measures(xs@, ys@, skip_joined)) is None,
            Some(m) => first_least(pad_measures(xs@, ys@, skip_joined)) == Some((m.0, m.1 as int)),
        },
{
    let mut best: Option<(Point, i64)> = None;
    let mut i: usize = 0;
    while i < xs.len()
        invariant
            i <= xs@.len(),
            forall|k: int| 0 <= k < xs@.len() ==> copper_ok((#[trigger] xs@[k]).copper),
            forall|k: int| 0 <= k < ys@.len() ==> copper_ok((#[trigger] ys@[k]).copper),
            match best {
                None => first_least(pad_measures(xs@.take(i as int), ys@, skip_joined)) is None,
                Some(m) => first_least(pad_measures(xs@.take(i as int), ys@, skip_joined)) == Some((m.0, m.1 as int)),
            },
        decreases xs@.len() - i,
    {
        let x = xs[i];
        let ghost done = pad_measures(xs@.take(i as int), ys@, skip_joined);
        proof {
            assert(copper_ok(xs@[i as int].copper));
            assert(xs@.take(i + 1).drop_last() =~= xs@.take(i as int));
            assert(xs@.take(i + 1).last() == x);
            assert(done + pad_row(x, ys@.take(0), skip_joined) =~= done);
        }
        let mut j: usize = 0;
        while j < ys.len()
            invariant
                j <= ys@.len(),
                copper_ok(x.copper),
                forall|k: int| 0 <= k < ys@.len() ==> copper_ok((#[trigger] ys@[k]).copper),
                match best {
                    None => first_least(done + pad_row(x, ys@.take(j as int), skip_joined)) is None,
                    Some(m) => first_least(done + pad_row(x, ys@.take(j as int), skip_joined)) == Some((m.0, m.1 as int)),
                },
            decreases ys@.len() - j,
        {
            let y = ys[j];
            proof {
                assert(copper_ok(ys@[j as int].copper));
                assert(ys@.take(j + 1).drop_last() =~= ys@.take(j as int));
                assert(ys@.take(j + 1).last() == y);
            }
            let joined = match (x.net, y.net) {
                (Some(a), Some(b)) => a == b,
                _ => false,
            };
            if !(skip_joined && joined) {
                let m = measure_of(&x.copper, &y.copper);
                proof {
                    let before = done + pad_row(x, ys@.take(j as int), skip_joined);
                    let after = done + pad_row(x, ys@.take(j + 1), skip_joined);
                    assert(after =~= before.push(measure(x.copper, y.copper)));
                    assert(after.drop_last() =~= before);
                }
                best = keep_least(best, m);
            } else {
                proof {
                    assert(done + pad_row(x, ys@.take(j + 1), skip_joined) =~= done + pad_row(x, ys@.take(j as int), skip_joined));
                }
            }
            j = j + 1;
        }
        proof {
            assert(ys@.take(j as int) =~= ys@);
        }
        i = i + 1;
    }
    proof {
        assert(xs@.take(i as int) =~= xs@);
    }
    best
}

/// Closest approach between two parts' pads, skipping the pairs meant to
/// touch - two pads on one net - reported halfway between the two pads'
/// centres; `None` where every pair is on one net. The first closest pair
/// wins a tie.
pub fn nearest_pad_pair(a: &Vec<PadBox>, b: &Vec<PadBox>) -> (r: Option<(Point, i64)>)
    requires
        forall|k: int| 0 <= k < a@.len() ==> copper_ok((#[trigger] a@[k]).copper),
        forall|k: int| 0 <= k < b@.len() ==> copper_ok((#[trigger] b@[k]).copper),
    ensures
        match r {
            None => first_least(pad_measures(a@, b@, true)) is None,
            Some(m) => first_least(pad_measures(a@, b@, true)) == Some((m.0, m.1 as int)),
        },
{
    least_measure(a, b, true)
}

/// The copper of a list of pieces, held as pads on no net.
pub open spec fn as_pads(cs: Seq<Copper>) -> Seq<PadBox> {
    cs.map_values(|c: Copper| PadBox { copper: c, layer_mask: 0, net: None })
}

/// Closest approach between two sets of copper, and where it happens; the
/// origin and the largest distance there is where either set is empty.
pub fn nearest_pair(a: &Vec<Copper>, b: &Vec<Copper>) -> (r: (Point, i64))
    requires
        forall|k: int| 0 <= k < a@.len() ==> copper_ok(#[trigger] a@[k]),
        forall|k: int| 0 <= k < b@.len() ==> copper_ok(#[trigger] b@[k]),
    ensures
        match first_least(pad_measures(as_pads(a@), as_pads(b@), false)) {
            None => r == (Point { x: 0, y: 0 }, i64::MAX),
            Some(m) => r.0 == m.0 && r.1 == m.1,
        },
{
    let mut xs: Vec<PadBox> = Vec::new();
    let mut k: usize = 0;
    while k < a.len()
        invariant
            k <= a@.len(),
            xs@ == as_pads(a@.take(k as int)),
        decreases a@.len() - k,
    {
        xs.push(PadBox { copper: a[k], layer_mask: 0, net: None });
        proof {
            assert(as_pads(a@.take(k + 1)) =~= as_pads(a@.take(k as int)).push(
                PadBox { copper: a@[k as int], layer_mask: 0, net: None },
            ));
        }
        k = k + 1;
    }
    let mut ys: Vec<PadBox> = Vec::new();
    let mut k: usize = 0;
    while k < b.len()
        invariant
            k <= b@.len(),
            ys@ == as_pads(b@.take(k as int)),
        decreases b@.len() - k,
    {
        ys.push(PadBox { copper: b[k], layer_mask: 0, net: None });
        proof {
            assert(as_pads(b@.take(k + 1)) =~= as_pads(b@.take(k as int)).push(
                PadBox { copper: b@[k as int], layer_mask: 0, net: None },
            ));
        }
        k = k + 1;
    }
    proof {
        assert(a@.take(a@.len() as int) =~= a@);
        assert(b@.take(b@.len() as int) =~= b@);
    }
    match least_measure(&xs, &ys, false) {
        Some(m) => m,
        None => (Point { x: 0, y: 0 }, i64::MAX),
    }
}

} // verus!
