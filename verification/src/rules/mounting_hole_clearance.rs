//! Checking copper too close to an unplated mounting hole.
//!
//! Every other rule that walks pad copper walks past a mounting hole, because
//! a mounting hole has no copper. When copper reaches one anyway - a trace
//! drawn by hand, a board imported from elsewhere, a pour over the hole - the
//! drill cuts it open and the screw touches what is left.
//!
//! Such a hole is a board edge cut into the middle of the board, so it is
//! measured with the edge clearance and reported as an edge clearance, with a
//! message that names the hole.
use vstd::prelude::*;

use crate::board::{board_ok, component_ok, pad_ok, picked, picked_pads, Board, Component, CopperEntry, PadSite, Segment, Zone};
use crate::geometry::{floor_seg, half, lemma_floor_seg_exists, lemma_floor_seg_unique, point_ok, pt_ok, Point};
use crate::presets::{rules_ok, DesignRules};
use crate::rules::clearance::{copper_distance, copper_gap, copper_ok, least, segment_distance, Aabb, Copper, PadBox};
use crate::rules::copper_pairs::{
    clip, entry_box, first_of, lemma_first_of, lookup, lookup_of, pads_of, part_pads, shape, shape_of, trace_entities,
    via_entities, via_index, trace_index, Lookup,
};
use crate::text::{mm, mm_text};
use crate::violation::{describes, DrcViolation, ViolationKind};

verus! {

/// Rule for copper too close to an unplated mounting hole.
pub struct MountingHoleClearanceRule;

impl MountingHoleClearanceRule {
    /// The rule's identifier in reports and filters.
    pub fn name(&self) -> (n: &'static str)
        ensures
            n@ == "mounting-hole-clearance"@,
    {
        "mounting-hole-clearance"
    }
}

/// One piece of the copper an entry stands for.
#[derive(Debug, Clone, Copy, PartialEq, Eq)]
pub enum Piece {
    /// A box grown by a radius: a pad, a via's disc, a pour, an entry's box.
    Area(Copper),
    /// A centreline grown by a radius: one segment of a trace.
    Stroke { from: [i64; 2], to: [i64; 2], radius: i64 },
}

/// How far a point is from a piece of copper, rounded down and never below
/// nothing: from its core or its centreline, less the radius it is grown by.
pub open spec fn piece_gap(p: [i64; 2], piece: Piece) -> int {
    match piece {
        Piece::Area(c) => copper_gap(Copper { core: Aabb { lower: p, upper: p }, radius: 0 }, c),
        Piece::Stroke { from, to, radius } => {
            let g = floor_seg(p, p, from, to) - radius;
            clip(if g > i64::MAX { i64::MAX as int } else { g })
        },
    }
}

/// How far a point is from the nearest of the pieces; the largest distance
/// there is where there are none.
pub open spec fn nearest_piece(p: [i64; 2], ps: Seq<Piece>) -> int
    decreases ps.len(),
{
    if ps.len() == 0 {
        i64::MAX as int
    } else {
        least(nearest_piece(p, ps.drop_last()), piece_gap(p, ps.last()))
    }
}

/// A segment whose box, grown by `r`, is the entry's box.
pub open spec fn indexed_as(s: Segment, r: int, en: CopperEntry) -> bool {
    let (sx, sy, ex, ey) = (s.start.x as int, s.start.y as int, s.end.x as int, s.end.y as int);
    &&& least(sx, ex) - r == en.bounds.min.x
    &&& least(sy, ey) - r == en.bounds.min.y
    &&& crate::rules::clearance::most(sx, ex) + r == en.bounds.max.x
    &&& crate::rules::clearance::most(sy, ey) + r == en.bounds.max.y
}

/// The segments of a trace an entry was indexed for, as strokes of radius
/// `r`.
pub open spec fn strokes(segs: Seq<Segment>, r: i64, en: CopperEntry) -> Seq<Piece>
    decreases segs.len(),
{
    if segs.len() == 0 {
        Seq::empty()
    } else {
        let rest = strokes(segs.drop_last(), r, en);
        let s = segs.last();
        if indexed_as(s, r as int, en) {
            rest.push(Piece::Stroke { from: s.start.raw(), to: s.end.raw(), radius: r })
        } else {
            rest
        }
    }
}

/// The copper an entry stands for: a part's pads where it has them, a
/// via's disc, the trace segments the entry was indexed for, and the
/// entry's own box for anything else.
pub open spec fn entry_pieces(b: Board, en: CopperEntry) -> Seq<Piece> {
    match part_pads(b, en.entity) {
        Some(ps) => ps.map_values(|pb: PadBox| Piece::Area(pb.copper)),
        None => match first_of(via_entities(b), en.entity) {
            Some(_) => seq![Piece::Area(shape(b, en))],
            None => match first_of(trace_entities(b), en.entity) {
                Some(k) => {
                    let st = strokes(b.traces@[k].segments@, half(b.traces@[k].width as int) as i64, en);
                    if st.len() > 0 {
                        st
                    } else {
                        seq![Piece::Area(shape(b, en))]
                    }
                },
                None => seq![Piece::Area(shape(b, en))],
            },
        },
    }
}

/// A pour as a piece of copper the board holds.
pub open spec fn zone_entry(z: Zone) -> CopperEntry {
    CopperEntry { entity: z.entity, bounds: z.bounds, layer_mask: z.layer_mask }
}

/// The copper pours among the zones, as pieces of copper.
pub open spec fn zone_entries(zs: Seq<Zone>) -> Seq<CopperEntry>
    decreases zs.len(),
{
    if zs.len() == 0 {
        Seq::empty()
    } else {
        let rest = zone_entries(zs.drop_last());
        if zs.last().kind == crate::board::ZoneKind::CopperPour {
            rest.push(zone_entry(zs.last()))
        } else {
            rest
        }
    }
}

/// Every piece of copper the board holds: its index entries, then the
/// copper pours, which the index leaves out.
pub open spec fn all_entries(b: Board) -> Seq<CopperEntry> {
    b.copper_entries@ + zone_entries(b.zones@)
}

/// The pads that are holes with no copper.
pub open spec fn bare_pad() -> spec_fn(Component, PadSite) -> bool {
    |c: Component, p: PadSite| !p.plated && p.drill is Some
}

/// Where a pad's hole is on the board.
pub open spec fn hole_centre(c: Component, p: PadSite) -> Point {
    Point { x: (c.position.x + p.turned.x) as i64, y: (c.position.y + p.turned.y) as i64 }
}

/// The copper among `es` too close to the hole of pad `p` of part `c`, each
/// with its gap to the hole's wall: on a copper layer, not the part's own,
/// and nearer than `required`.
pub open spec fn hole_hits(b: Board, c: Component, p: PadSite, es: Seq<CopperEntry>, required: i64) -> Seq<(CopperEntry, int)>
    decreases es.len(),
{
    if es.len() == 0 {
        Seq::empty()
    } else {
        let rest = hole_hits(b, c, p, es.drop_last(), required);
        let e = es.last();
        let gap = nearest_piece(hole_centre(c, p).raw(), entry_pieces(b, e)) - half(p.drill.unwrap() as int);
        if e.layer_mask == 0 || e.entity == c.entity || gap >= required {
            rest
        } else {
            rest.push((e, gap))
        }
    }
}

/// Every piece of copper too close to one of the holes, hole by hole.
pub open spec fn mount_findings(
    b: Board,
    hs: Seq<(Component, PadSite)>,
    es: Seq<CopperEntry>,
    required: i64,
) -> Seq<(Component, PadSite, CopperEntry, int)>
    decreases hs.len(),
{
    if hs.len() == 0 {
        Seq::empty()
    } else {
        let h = hs.last();
        mount_findings(b, hs.drop_last(), es, required) + hole_hits(b, h.0, h.1, es, required).map_values(
            |x: (CopperEntry, int)| (h.0, h.1, x.0, x.1),
        )
    }
}

/// The message naming the hole the copper is too close to.
pub open spec fn mount_message(refdes: Seq<char>, actual: int, required: i64) -> Seq<char> {
    "Copper too close to unplated hole "@ + refdes + ": "@ + mm_text(actual, 2) + "mm actual, "@ + mm_text(
        required as int,
        2,
    ) + "mm required. The drill cuts this copper open and the screw touches what is left."@
}

/// `v` reports the copper `e` at `gap` from the wall of pad `p`'s hole.
pub open spec fn reports_mount(v: DrcViolation, c: Component, p: PadSite, e: CopperEntry, gap: int, required: i64) -> bool {
    describes(
        v,
        ViolationKind::EdgeClearance,
        e.entity,
        None,
        Some(clip(gap) as i64),
        Some(required),
        hole_centre(c, p),
        mount_message(c.refdes@, clip(gap), required),
    )
}

/// Reports and findings match one for one.
pub open spec fn reports_all(out: Seq<DrcViolation>, f: Seq<(Component, PadSite, CopperEntry, int)>, required: i64) -> bool {
    &&& out.len() == f.len()
    &&& forall|k: int| 0 <= k < out.len() ==> reports_mount(#[trigger] out[k], f[k].0, f[k].1, f[k].2, f[k].3, required)
}

/// What the rule finds on a board: each piece of copper - an index entry or
/// a copper pour - closer to the wall of an unplated hole than the edge clearance,
/// other than the hole's own part, hole by hole and then in the order of
/// the copper.
pub open spec fn found_by_mounting_hole(b: Board, r: DesignRules, out: Seq<DrcViolation>) -> bool {
    reports_all(
        out,
        mount_findings(b, picked(b.components@, bare_pad()), all_entries(b), r.min_edge_clearance),
        r.min_edge_clearance,
    )
}


/// A piece the arithmetic can carry.
pub open spec fn piece_ok(piece: Piece) -> bool {
    match piece {
        Piece::Area(c) => copper_ok(c),
        Piece::Stroke { from, to, radius } => pt_ok(from) && pt_ok(to) && -268_435_456 <= radius <= 268_435_456,
    }
}

/// Every piece is one the arithmetic can carry.
pub open spec fn pieces_ok(ps: Seq<Piece>) -> bool {
    forall|k: int| 0 <= k < ps.len() ==> piece_ok(#[trigger] ps[k])
}

/// The segments of a trace an entry was indexed for, as strokes.
fn strokes_of(t: &crate::board::Trace, en: &CopperEntry) -> (out: Vec<Piece>)
    requires
        crate::board::trace_ok(*t),
    ensures
        out@ == strokes(t.segments@, half(t.width as int) as i64, *en),
        pieces_ok(out@),
{
    let r = t.width / 2;
    let mut out: Vec<Piece> = Vec::new();
    let mut k: usize = 0;
    while k < t.segments.len()
        invariant
            k <= t.segments@.len(),
            crate::board::trace_ok(*t),
            r == half(t.width as int),
            out@ == strokes(t.segments@.take(k as int), r, *en),
            pieces_ok(out@),
        decreases t.segments@.len() - k,
    {
        let s = t.segments[k];
        proof {
            assert(t.segments@.take(k + 1).drop_last() =~= t.segments@.take(k as int));
            assert(t.segments@.take(k + 1).last() == s);
            assert(point_ok(t.segments@[k as int].start) && point_ok(t.segments@[k as int].end));
        }
        let (sx, sy, ex, ey) = (s.start.x, s.start.y, s.end.x, s.end.y);
        let lo_x = if sx <= ex { sx } else { ex };
        let lo_y = if sy <= ey { sy } else { ey };
        let hi_x = if sx >= ex { sx } else { ex };
        let hi_y = if sy >= ey { sy } else { ey };
        if lo_x - r == en.bounds.min.x && lo_y - r == en.bounds.min.y && hi_x + r == en.bounds.max.x && hi_y + r
            == en.bounds.max.y {
            let from = [sx, sy];
            let to = [ex, ey];
            proof {
                assert(from == s.start.raw() && to == s.end.raw());
            }
            out.push(Piece::Stroke { from, to, radius: r });
        }
        proof {
            assert(out@ =~= strokes(t.segments@.take(k + 1), r, *en));
        }
        k = k + 1;
    }
    proof {
        assert(t.segments@.take(k as int) =~= t.segments@);
    }
    out
}

/// One piece of copper as a list of pieces.
fn one_piece(c: Copper) -> (out: Vec<Piece>)
    requires
        copper_ok(c),
    ensures
        out@ == seq![Piece::Area(c)],
        pieces_ok(out@),
{
    let mut out: Vec<Piece> = Vec::new();
    out.push(Piece::Area(c));
    proof {
        assert(out@ =~= seq![Piece::Area(c)]);
    }
    out
}

/// The copper an entry stands for.
fn pieces_of(b: &Board, l: &Lookup, en: &CopperEntry) -> (out: Vec<Piece>)
    requires
        lookup_of(*l, *b),
        board_ok(*b),
        crate::rules::clearance::aabb_ok(entry_box(*en)),
    ensures
        out@ == entry_pieces(*b, *en),
        pieces_ok(out@),
{
    match pads_of(b, l, en.entity) {
        Some(ps) => {
            let mut out: Vec<Piece> = Vec::new();
            let mut k: usize = 0;
            while k < ps.len()
                invariant
                    k <= ps@.len(),
                    forall|j: int| 0 <= j < ps@.len() ==> copper_ok((#[trigger] ps@[j]).copper),
                    out@ == ps@.take(k as int).map_values(|pb: PadBox| Piece::Area(pb.copper)),
                    pieces_ok(out@),
                decreases ps@.len() - k,
            {
                out.push(Piece::Area(ps[k].copper));
                proof {
                    assert(ps@.take(k + 1).map_values(|pb: PadBox| Piece::Area(pb.copper)) =~= out@);
                }
                k = k + 1;
            }
            proof {
                assert(ps@.take(k as int) =~= ps@);
            }
            out
        },
        None => match via_index(b, l, en.entity) {
            Some(_) => one_piece(shape_of(b, l, en)),
            None => match trace_index(b, l, en.entity) {
                Some(k) => {
                    proof {
                        assert(crate::board::trace_ok(b.traces@[k as int]));
                    }
                    let st = strokes_of(&b.traces[k], en);
                    if st.len() > 0 {
                        st
                    } else {
                        one_piece(shape_of(b, l, en))
                    }
                },
                None => one_piece(shape_of(b, l, en)),
            },
        },
    }
}

/// How far a point is from a piece of copper.
fn gap_to_piece(p: [i64; 2], piece: &Piece) -> (d: i64)
    requires
        pt_ok(p),
        piece_ok(*piece),
    ensures
        d == piece_gap(p, *piece),
        0 <= d,
{
    match piece {
        Piece::Area(c) => {
            let here = Copper { core: Aabb { lower: p, upper: p }, radius: 0 };
            copper_distance(&here, c)
        },
        Piece::Stroke { from, to, radius } => {
            let d = segment_distance(p, p, *from, *to);
            proof {
                lemma_floor_seg_exists(p, p, *from, *to);
                lemma_floor_seg_unique(d as int, p, p, *from, *to);
                lemma_floor_seg_unique(floor_seg(p, p, *from, *to), p, p, *from, *to);
            }
            let g: i64 = if *radius < 0 && d > i64::MAX + *radius {
                i64::MAX
            } else {
                d - *radius
            };
            if g > 0 {
                g
            } else {
                0
            }
        },
    }
}


/// How far a point is from the nearest of the pieces.
fn nearest_of(p: [i64; 2], ps: &Vec<Piece>) -> (d: i64)
    requires
        pt_ok(p),
        pieces_ok(ps@),
    ensures
        d == nearest_piece(p, ps@),
        0 <= d,
{
    let mut best: i64 = i64::MAX;
    let mut k: usize = 0;
    while k < ps.len()
        invariant
            k <= ps@.len(),
            pt_ok(p),
            pieces_ok(ps@),
            best == nearest_piece(p, ps@.take(k as int)),
            0 <= best,
        decreases ps@.len() - k,
    {
        proof {
            assert(ps@.take(k + 1).drop_last() =~= ps@.take(k as int));
            assert(ps@.take(k + 1).last() == ps@[k as int]);
            assert(piece_ok(ps@[k as int]));
        }
        let g = gap_to_piece(p, &ps[k]);
        if g < best {
            best = g;
        }
        k = k + 1;
    }
    proof {
        assert(ps@.take(k as int) =~= ps@);
    }
    best
}

/// An entry whose box the arithmetic can carry.
pub open spec fn entry_ok(e: CopperEntry) -> bool {
    point_ok(e.bounds.min) && point_ok(e.bounds.max)
}

/// Every piece of copper the board holds.
fn entries_of(b: &Board) -> (out: Vec<CopperEntry>)
    requires
        board_ok(*b),
    ensures
        out@ == all_entries(*b),
        forall|k: int| 0 <= k < out@.len() ==> entry_ok(#[trigger] out@[k]),
{
    let mut out: Vec<CopperEntry> = Vec::new();
    let mut k: usize = 0;
    while k < b.copper_entries.len()
        invariant
            k <= b.copper_entries@.len(),
            board_ok(*b),
            out@ == b.copper_entries@.take(k as int),
            forall|j: int| 0 <= j < out@.len() ==> entry_ok(#[trigger] out@[j]),
        decreases b.copper_entries@.len() - k,
    {
        proof {
            assert(point_ok(b.copper_entries@[k as int].bounds.min));
        }
        out.push(b.copper_entries[k]);
        proof {
            assert(b.copper_entries@.take(k + 1) =~= out@);
        }
        k = k + 1;
    }
    proof {
        assert(b.copper_entries@.take(k as int) =~= b.copper_entries@);
    }
    let ghost base = out@;
    let mut k: usize = 0;
    while k < b.zones.len()
        invariant
            k <= b.zones@.len(),
            board_ok(*b),
            base == b.copper_entries@,
            out@ == base + zone_entries(b.zones@.take(k as int)),
            forall|j: int| 0 <= j < out@.len() ==> entry_ok(#[trigger] out@[j]),
        decreases b.zones@.len() - k,
    {
        let z = &b.zones[k];
        proof {
            assert(b.zones@.take(k + 1).drop_last() =~= b.zones@.take(k as int));
            assert(b.zones@.take(k + 1).last() == *z);
            assert(crate::board::zone_ok(b.zones@[k as int]));
        }
        if z.is_copper_pour() {
            out.push(CopperEntry { entity: z.entity, bounds: z.bounds, layer_mask: z.layer_mask });
        }
        proof {
            assert(out@ =~= base + zone_entries(b.zones@.take(k + 1)));
        }
        k = k + 1;
    }
    proof {
        assert(b.zones@.take(k as int) =~= b.zones@);
    }
    out
}

/// The message naming the hole the copper is too close to.
fn mount_text(refdes: &String, actual: i64, required: i64) -> (s: String)
    requires
        actual > i64::MIN,
        required > i64::MIN,
    ensures
        s@ == mount_message(refdes@, actual as int, required),
{
    let a = mm(actual, 2);
    let r = mm(required, 2);
    let mut s = String::from_str("Copper too close to unplated hole ");
    s.append(refdes.as_str());
    s.append(": ");
    s.append(a.as_str());
    s.append("mm actual, ");
    s.append(r.as_str());
    s.append("mm required. The drill cuts this copper open and the screw touches what is left.");
    s
}


impl MountingHoleClearanceRule {
    /// Every piece of copper - an index entry or a pour - closer to the wall
    /// of an unplated hole than the edge clearance, hole by hole in board
    /// order and then in the order of the copper. The hole's own part is not
    /// measured, nor copper on no copper layer. A piece is measured by its
    /// nearest copper: a part's pads, a via's disc, the trace segments its
    /// entry stands for, or its box. Each is reported at the hole with the
    /// gap, never below zero, and a message naming the hole.
    pub fn check(&self, board: &Board, rules: &DesignRules) -> (out: Vec<DrcViolation>)
        requires
            board_ok(*board),
            rules_ok(*rules),
        ensures
            found_by_mounting_hole(*board, *rules, out@),
    {
        let required = rules.min_edge_clearance;
        let l = lookup(board);
        let es = entries_of(board);
        let ghost cs = board.components@;
        let ghost keep = bare_pad();
        let mut out: Vec<DrcViolation> = Vec::new();
        let mut i: usize = 0;
        while i < board.components.len()
            invariant
                i <= cs.len(),
                cs == board.components@,
                keep == bare_pad(),
                board_ok(*board),
                rules_ok(*rules),
                required == rules.min_edge_clearance,
                lookup_of(l, *board),
                es@ == all_entries(*board),
                forall|k: int| 0 <= k < es@.len() ==> entry_ok(#[trigger] es@[k]),
                reports_all(out@, mount_findings(*board, picked(cs.take(i as int), keep), es@, required), required),
            decreases cs.len() - i,
        {
            let c = &board.components[i];
            proof {
                assert(component_ok(cs[i as int]));
            }
            let ghost done = picked(cs.take(i as int), keep);
            let mut j: usize = 0;
            while j < c.pads.len()
                invariant
                    j <= c.pads@.len(),
                    *c == cs[i as int],
                    component_ok(*c),
                    keep == bare_pad(),
                    board_ok(*board),
                    rules_ok(*rules),
                    required == rules.min_edge_clearance,
                    lookup_of(l, *board),
                    es@ == all_entries(*board),
                    forall|k: int| 0 <= k < es@.len() ==> entry_ok(#[trigger] es@[k]),
                    reports_all(
                        out@,
                        mount_findings(*board, done + picked_pads(*c, c.pads@.take(j as int), keep), es@, required),
                        required,
                    ),
                decreases c.pads@.len() - j,
            {
                let p = &c.pads[j];
                let ghost hs = done + picked_pads(*c, c.pads@.take(j as int), keep);
                proof {
                    assert(pad_ok(c.pads@[j as int]));
                    assert(c.pads@.take(j + 1).drop_last() =~= c.pads@.take(j as int));
                    assert(c.pads@.take(j + 1).last() == *p);
                }
                if !p.plated && p.drill.is_some() {
                    let drill = p.drill.unwrap();
                    let radius = drill / 2;
                    let centre = Point { x: c.position.x + p.turned.x, y: c.position.y + p.turned.y };
                    let here = [centre.x, centre.y];
                    proof {
                        assert(centre == hole_centre(*c, *p));
                        assert(here == centre.raw());
                        assert(radius == half(p.drill.unwrap() as int));
                        assert(hs.push((*c, *p)).drop_last() =~= hs);
                        assert(done + picked_pads(*c, c.pads@.take(j + 1), keep) =~= hs.push((*c, *p)));
                    }
                    let ghost f = |x: (CopperEntry, int)| (*c, *p, x.0, x.1);
                    let ghost before = mount_findings(*board, hs, es@, required);
                    let mut k: usize = 0;
                    while k < es.len()
                        invariant
                            k <= es@.len(),
                            *c == cs[i as int],
                            *p == c.pads@[j as int],
                            component_ok(*c),
                            pad_ok(*p),
                            board_ok(*board),
                            rules_ok(*rules),
                            required == rules.min_edge_clearance,
                            lookup_of(l, *board),
                            forall|t: int| 0 <= t < es@.len() ==> entry_ok(#[trigger] es@[t]),
                            centre == hole_centre(*c, *p),
                            here == centre.raw(),
                            radius == half(p.drill.unwrap() as int),
                            -268_435_456 <= radius <= 268_435_456,
                            f == (|x: (CopperEntry, int)| (*c, *p, x.0, x.1)),
                            reports_all(out@, before + hole_hits(*board, *c, *p, es@.take(k as int), required).map_values(f), required),
                        decreases es@.len() - k,
                    {
                        let e = es[k];
                        let ghost prior = hole_hits(*board, *c, *p, es@.take(k as int), required);
                        proof {
                            assert(es@.take(k + 1).drop_last() =~= es@.take(k as int));
                            assert(es@.take(k + 1).last() == e);
                            assert(entry_ok(es@[k as int]));
                        }
                        if e.layer_mask != 0 && e.entity != c.entity {
                            let ps = pieces_of(board, &l, &e);
                            let d = nearest_of(here, &ps);
                            if d < required + radius {
                                let actual: i64 = if d - radius > 0 {
                                    d - radius
                                } else {
                                    0
                                };
                                let mut v = DrcViolation::edge_clearance(e.entity, actual, required, centre);
                                v.message = mount_text(&c.refdes, actual, required);
                                let ghost old_out = out@;
                                out.push(v);
                                proof {
                                    let gap = d - radius;
                                    assert(hole_hits(*board, *c, *p, es@.take(k + 1), required) == prior.push((e, gap)));
                                    assert(prior.push((e, gap)).map_values(f) =~= prior.map_values(f).push(f((e, gap))));
                                    let whole = before + hole_hits(*board, *c, *p, es@.take(k + 1), required).map_values(f);
                                    assert(whole =~= (before + prior.map_values(f)).push((*c, *p, e, gap)));
                                    assert forall|t: int| 0 <= t < out@.len() implies reports_mount(
                                        #[trigger] out@[t], whole[t].0, whole[t].1, whole[t].2, whole[t].3, required) by {
                                        if t < old_out.len() {
                                            assert(out@[t] == old_out[t]);
                                        }
                                    }
                                }
                            } else {
                                proof {
                                    assert(hole_hits(*board, *c, *p, es@.take(k + 1), required) == prior);
                                }
                            }
                        } else {
                            proof {
                                assert(hole_hits(*board, *c, *p, es@.take(k + 1), required) == prior);
                            }
                        }
                        k = k + 1;
                    }
                    proof {
                        assert(es@.take(k as int) =~= es@);
                    }
                } else {
                    proof {
                        assert(done + picked_pads(*c, c.pads@.take(j + 1), keep) =~= hs);
                    }
                }
                j = j + 1;
            }
            proof {
                assert(c.pads@.take(j as int) =~= c.pads@);
                assert(cs.take(i + 1).drop_last() =~= cs.take(i as int));
                assert(cs.take(i + 1).last() == *c);
            }
            i = i + 1;
        }
        proof {
            assert(cs.take(i as int) =~= cs);
        }
        out
    }
}

} // verus!
