//! Checking copper in a bend running along the fold.
//!
//! Copper over a fold should cross it, not follow it. The fold direction is
//! read from the region: a flexible band reaching the top and bottom edges
//! of the board folds about a line running up it, so copper should run left
//! to right across it; a band reaching left and right is the other way
//! round. A region reaching neither pair of edges, or both, says nothing
//! about a fold direction.
//!
//! Forty-five degrees is the line: past it a segment runs more along the
//! fold than across it. That is decided here exactly, on the segment's own
//! run and rise; the angle itself, which the report prints in whole
//! degrees, is measured where the report is written.
use vstd::prelude::*;

use crate::board::{board_ok, rect_contains, trace_ok, Board, Segment, Zone, ZoneKind};
use crate::geometry::{mid, midpoint, Point};
use crate::violation::{describes, sentence, DrcViolation, ViolationKind};

verus! {

/// Rule for copper in a bend running along the fold.
pub struct FlexTraceAngleRule;

/// Which way copper should run over a fold.
#[derive(Debug, Clone, Copy, PartialEq, Eq, Structural)]
pub enum Across {
    /// The band spans the board top to bottom, so copper runs left to right.
    X,
    /// The band spans it left to right, so copper runs up and down.
    Y,
}

/// The way copper should cross a zone on a board `w` by `h`, where the zone
/// is a flexible band reaching exactly one pair of opposite edges.
pub open spec fn fold_of(z: Zone, w: i64, h: i64) -> Option<Across> {
    let spans_y = z.bounds.min.y <= 0 && z.bounds.max.y >= h;
    let spans_x = z.bounds.min.x <= 0 && z.bounds.max.x >= w;
    if z.kind != ZoneKind::Flex {
        None
    } else if !spans_x && spans_y {
        Some(Across::X)
    } else if spans_x && !spans_y {
        Some(Across::Y)
    } else {
        None
    }
}

/// The folds among the zones, each as the zone's position and the way
/// copper should cross it, in the order of the zones.
pub open spec fn folds(zs: Seq<Zone>, w: i64, h: i64) -> Seq<(usize, Across)>
    decreases zs.len(),
{
    if zs.len() == 0 {
        Seq::empty()
    } else {
        let rest = folds(zs.drop_last(), w, h);
        match fold_of(zs.last(), w, h) {
            Some(a) => rest.push(((zs.len() - 1) as usize, a)),
            None => rest,
        }
    }
}

/// The first fold, from the `k`-th on, whose zone holds the point.
pub open spec fn fold_at(zs: Seq<Zone>, fs: Seq<(usize, Across)>, p: Point, k: int) -> Option<(usize, Across)>
    decreases fs.len() - k,
{
    if k < 0 || k >= fs.len() {
        None
    } else if rect_contains(zs[fs[k].0 as int].bounds, p) {
        Some(fs[k])
    } else {
        fold_at(zs, fs, p, k + 1)
    }
}

/// The magnitude of a whole number.
pub open spec fn magnitude(v: int) -> int {
    if v < 0 {
        -v
    } else {
        v
    }
}

/// How far a segment runs the way copper should cross the fold, and how
/// far it runs the other way.
pub open spec fn along_and_sideways(s: Segment, a: Across) -> (int, int) {
    let run = magnitude(s.end.x - s.start.x);
    let rise = magnitude(s.end.y - s.start.y);
    match a {
        Across::X => (run, rise),
        Across::Y => (rise, run),
    }
}

/// A segment of some length that runs more along the fold than across it:
/// more than forty-five degrees off the way copper should cross.
pub open spec fn off_fold(s: Segment, a: Across) -> bool {
    let (along, sideways) = along_and_sideways(s, a);
    (along != 0 || sideways != 0) && sideways > along
}

/// The first segment, from the `k`-th on, whose middle lies in a fold and
/// that runs along it, with the fold.
pub open spec fn first_off_fold(zs: Seq<Zone>, fs: Seq<(usize, Across)>, segs: Seq<Segment>, k: int) -> Option<
    (int, (usize, Across)),
>
    decreases segs.len() - k,
{
    if k < 0 || k >= segs.len() {
        None
    } else {
        match fold_at(zs, fs, mid(segs[k].start, segs[k].end), 0) {
            Some(f) => if off_fold(segs[k], f.1) {
                Some((k, f))
            } else {
                first_off_fold(zs, fs, segs, k + 1)
            },
            None => first_off_fold(zs, fs, segs, k + 1),
        }
    }
}

/// A trace that runs along a fold: the trace, the zone of the fold, where
/// its first such segment has its middle, and how far that segment runs
/// across the fold and along it.
#[derive(Debug, Clone, Copy, PartialEq, Eq, Structural)]
pub struct FoldCrossing {
    /// The trace's entity.
    pub trace: u32,
    /// The position of the fold's zone among the board's zones.
    pub zone: usize,
    /// The middle of the segment.
    pub middle: Point,
    /// How far the segment runs the way copper should cross the fold.
    pub along: i64,
    /// How far it runs along the fold.
    pub sideways: i64,
}

/// The crossing a trace makes, given its first segment running along a
/// fold and that fold.
pub open spec fn crossing_at(t: u32, segs: Seq<Segment>, found: (int, (usize, Across))) -> FoldCrossing {
    let s = segs[found.0];
    let (along, sideways) = along_and_sideways(s, found.1.1);
    FoldCrossing {
        trace: t,
        zone: found.1.0,
        middle: mid(s.start, s.end),
        along: along as i64,
        sideways: sideways as i64,
    }
}

/// Every trace, among the first `n`, that runs along a fold, once each, in
/// the order of the traces.
pub open spec fn crossings_upto(b: Board, fs: Seq<(usize, Across)>, n: int) -> Seq<FoldCrossing>
    decreases n,
{
    if n <= 0 {
        Seq::empty()
    } else {
        let rest = crossings_upto(b, fs, n - 1);
        let t = b.traces@[n - 1];
        match first_off_fold(b.zones@, fs, t.segments@, 0) {
            Some(found) => rest.push(crossing_at(t.entity, t.segments@, found)),
            None => rest,
        }
    }
}

/// Every trace on the board that runs along a fold, once each, in the
/// order of the traces; none where the design declares no board.
pub open spec fn fold_crossings(b: Board) -> Seq<FoldCrossing> {
    match b.size {
        Some(s) => crossings_upto(b, folds(b.zones@, s.0, s.1), b.traces@.len() as int),
        None => Seq::empty(),
    }
}

/// Where the report says the trace is.
pub open spec fn region_text(z: Zone) -> Seq<char> {
    match z.name {
        Some(n) => "the flexible region '"@ + n@ + "'"@,
        None => "a flexible region"@,
    }
}

/// `r` reports the crossing `c` over the zone `z`, with the angle written
/// as `degrees`.
pub open spec fn reports_crossing(r: DrcViolation, c: FoldCrossing, z: Zone, degrees: Seq<char>) -> bool {
    describes(
        r,
        ViolationKind::FlexTraceAngle,
        c.trace,
        None,
        None,
        None,
        c.middle,
        "a trace in "@ + region_text(z) + " runs "@ + degrees
            + " degrees off the fold's own direction, which is more along the bend than across it: copper over a fold takes the strain along its length and cracks where it enters and leaves, so IPC-2223 routes a bend area perpendicular to the bend"@,
    )
}

/// The folds of a board `w` by `h`.
fn folds_of(zones: &Vec<Zone>, w: i64, h: i64) -> (fs: Vec<(usize, Across)>)
    ensures
        fs@ == folds(zones@, w, h),
        forall|k: int| 0 <= k < fs@.len() ==> (#[trigger] fs@[k]).0 < zones@.len(),
{
    let mut fs: Vec<(usize, Across)> = Vec::new();
    let mut i: usize = 0;
    while i < zones.len()
        invariant
            i <= zones@.len(),
            fs@ == folds(zones@.take(i as int), w, h),
            forall|k: int| 0 <= k < fs@.len() ==> (#[trigger] fs@[k]).0 < i,
        decreases zones@.len() - i,
    {
        proof {
            assert(zones@.take(i + 1).drop_last() =~= zones@.take(i as int));
            assert(zones@.take(i + 1).last() == zones@[i as int]);
        }
        let z = &zones[i];
        let spans_y = z.bounds.min.y <= 0 && z.bounds.max.y >= h;
        let spans_x = z.bounds.min.x <= 0 && z.bounds.max.x >= w;
        if z.is_flex() {
            if !spans_x && spans_y {
                fs.push((i, Across::X));
            } else if spans_x && !spans_y {
                fs.push((i, Across::Y));
            }
        }
        i = i + 1;
    }
    proof {
        assert(zones@.take(i as int) =~= zones@);
    }
    fs
}

/// The first fold whose zone holds the point.
fn find_fold(zones: &Vec<Zone>, fs: &Vec<(usize, Across)>, p: Point) -> (r: Option<(usize, Across)>)
    requires
        forall|k: int| 0 <= k < fs@.len() ==> (#[trigger] fs@[k]).0 < zones@.len(),
    ensures
        r == fold_at(zones@, fs@, p, 0),
        r matches Some(f) ==> f.0 < zones@.len(),
{
    let mut k: usize = 0;
    while k < fs.len()
        invariant
            k <= fs@.len(),
            forall|j: int| 0 <= j < fs@.len() ==> (#[trigger] fs@[j]).0 < zones@.len(),
            fold_at(zones@, fs@, p, 0) == fold_at(zones@, fs@, p, k as int),
        decreases fs@.len() - k,
    {
        let f = fs[k];
        proof {
            assert(fs@[k as int].0 < zones@.len());
        }
        if zones[f.0].contains(p) {
            return Some(f);
        }
        k = k + 1;
    }
    None
}

/// How far a segment runs across the fold and along it.
fn measure(s: &Segment, a: Across) -> (r: (i64, i64))
    requires
        crate::geometry::point_ok(s.start),
        crate::geometry::point_ok(s.end),
    ensures
        r.0 as int == along_and_sideways(*s, a).0,
        r.1 as int == along_and_sideways(*s, a).1,
{
    let dx = s.end.x - s.start.x;
    let dy = s.end.y - s.start.y;
    let run = if dx < 0 {
        -dx
    } else {
        dx
    };
    let rise = if dy < 0 {
        -dy
    } else {
        dy
    };
    match a {
        Across::X => (run, rise),
        Across::Y => (rise, run),
    }
}

impl FlexTraceAngleRule {
    /// The rule's identifier in reports and filters.
    pub fn name(&self) -> (n: &'static str)
        ensures
            n@ == "flex-trace-angle"@,
    {
        "flex-trace-angle"
    }

    /// Every trace whose first segment over a fold, among those with their
    /// middle in a fold, runs more than forty-five degrees off the way
    /// copper should cross it, once per trace, in the order of the traces.
    /// Nothing where the design declares no board.
    pub fn crossings(&self, board: &Board) -> (out: Vec<FoldCrossing>)
        requires
            board_ok(*board),
        ensures
            out@ == fold_crossings(*board),
            forall|k: int| 0 <= k < out@.len() ==> (#[trigger] out@[k]).zone < board.zones@.len(),
    {
        let (w, h) = match board.size {
            Some(s) => s,
            None => return Vec::new(),
        };
        let fs = folds_of(&board.zones, w, h);
        let ghost zs = board.zones@;
        let mut out: Vec<FoldCrossing> = Vec::new();
        let mut i: usize = 0;
        while i < board.traces.len()
            invariant
                board_ok(*board),
                board.size == Some((w, h)),
                zs == board.zones@,
                fs@ == folds(zs, w, h),
                forall|k: int| 0 <= k < fs@.len() ==> (#[trigger] fs@[k]).0 < zs.len(),
                i <= board.traces@.len(),
                out@ == crossings_upto(*board, fs@, i as int),
                forall|k: int| 0 <= k < out@.len() ==> (#[trigger] out@[k]).zone < zs.len(),
            decreases board.traces@.len() - i,
        {
            let t = &board.traces[i];
            proof {
                assert(trace_ok(board.traces@[i as int]));
            }
            let ghost segs = t.segments@;
            let mut k: usize = 0;
            let mut hit: Option<FoldCrossing> = None;
            while k < t.segments.len()
                invariant_except_break
                    hit is None,
                    first_off_fold(zs, fs@, segs, 0) == first_off_fold(zs, fs@, segs, k as int),
                invariant
                    board_ok(*board),
                    trace_ok(*t),
                    segs == t.segments@,
                    zs == board.zones@,
                    forall|j: int| 0 <= j < fs@.len() ==> (#[trigger] fs@[j]).0 < zs.len(),
                    k <= segs.len(),
                ensures
                    hit == (match first_off_fold(zs, fs@, segs, 0) {
                        Some(found) => Some(crossing_at(t.entity, segs, found)),
                        None => None::<FoldCrossing>,
                    }),
                    hit matches Some(c) ==> c.zone < zs.len(),
                decreases segs.len() - k,
            {
                let s = &t.segments[k];
                proof {
                    assert(crate::geometry::point_ok(segs[k as int].start) && crate::geometry::point_ok(
                        segs[k as int].end,
                    ));
                }
                let middle = midpoint(s.start, s.end);
                match find_fold(&board.zones, &fs, middle) {
                    Some(f) => {
                        let (along, sideways) = measure(s, f.1);
                        if (along != 0 || sideways != 0) && sideways > along {
                            hit = Some(FoldCrossing { trace: t.entity, zone: f.0, middle, along, sideways });
                            break;
                        }
                    },
                    None => {},
                }
                k = k + 1;
            }
            match hit {
                Some(c) => {
                    out.push(c);
                },
                None => {},
            }
            i = i + 1;
        }
        out
    }

    /// The report of a crossing, with the angle it makes with the way copper
    /// should cross the fold written as `degrees`.
    pub fn report(&self, board: &Board, crossing: &FoldCrossing, degrees: &str) -> (v: DrcViolation)
        requires
            crossing.zone < board.zones@.len(),
        ensures
            reports_crossing(v, *crossing, board.zones@[crossing.zone as int], degrees@),
    {
        let z = &board.zones[crossing.zone];
        let region = match &z.name {
            Some(n) => sentence("the flexible region '", n.as_str(), "'", "", ""),
            None => String::from_str("a flexible region"),
        };
        let message = sentence(
            "a trace in ",
            region.as_str(),
            " runs ",
            degrees,
            " degrees off the fold's own direction, which is more along the bend than across it: copper over a fold takes the strain along its length and cracks where it enters and leaves, so IPC-2223 routes a bend area perpendicular to the bend",
        );
        proof {
            reveal_strlit("");
        }
        DrcViolation::flex_trace_angle(crossing.trace, message, crossing.middle)
    }
}

} // verus!
