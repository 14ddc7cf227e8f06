//! Checking pins on a net that no copper reaches.
//!
//! `UnconnectedPinRule` asks whether the design names a net for a pin. This
//! asks the question a fabricated board answers: whether any copper of that
//! net touches the pad - a trace on one of the pad's layers, a via, or a
//! pour. A net with a single pad has nothing to be routed to and is not
//! asked.
use vstd::prelude::*;

use crate::board::{
    board_ok, component_ok, pad_centre, pad_ok, picked, picked_pads, trace_ok, via_ok, zone_ok,
    Board, Component, PadSite, Trace, Via, Zone, ZoneKind,
};
use crate::geometry::{half, Point};
use crate::rules::clearance::{
    copper_distance, copper_gap, trace_copper_gap, trace_to_copper_gap, Aabb, Copper, TraceData,
};
use crate::violation::{describes, DrcViolation, ViolationKind};

verus! {

/// Rule for pins on a net that no copper reaches.
pub struct UnroutedPinRule;

/// The layers a pad is reached on: its own, or every layer where its layer
/// list names none the checker understands.
pub open spec fn reach_mask(p: PadSite) -> u32 {
    if p.copper_mask == 0 {
        u32::MAX
    } else {
        p.copper_mask
    }
}

/// A trace's centrelines.
pub open spec fn centrelines(t: Trace) -> Seq<([i64; 2], [i64; 2])> {
    t.segments@.map_values(|s: crate::board::Segment| (s.start.raw(), s.end.raw()))
}

/// A trace of `net` on one of the layers in `mask` touches `c`: no gap
/// between its copper, its centreline grown by half its width, and `c`.
pub open spec fn trace_touches(t: Trace, net: u32, mask: u32, c: Copper) -> bool {
    &&& t.net == net
    &&& t.layer_bit matches Some(bit) && mask & bit != 0
    &&& trace_copper_gap(centrelines(t), c) <= half(t.width as int)
}

/// A via's disc.
pub open spec fn via_disc(v: Via) -> Copper {
    Copper {
        core: Aabb { lower: v.position.raw(), upper: v.position.raw() },
        radius: half(v.outer_diameter as int) as i64,
    }
}

/// A via of `net` touches `c`.
pub open spec fn via_touches(v: Via, net: u32, c: Copper) -> bool {
    v.net == net && copper_gap(via_disc(v), c) == 0
}

/// A zone's area, as copper.
pub open spec fn zone_copper(z: Zone) -> Copper {
    Copper { core: Aabb { lower: z.bounds.min.raw(), upper: z.bounds.max.raw() }, radius: 0 }
}

/// A pour of `net` on one of the layers in `mask` touches `c`; a pour is its
/// bounds.
pub open spec fn pour_touches(z: Zone, net: u32, mask: u32, c: Copper) -> bool {
    &&& z.kind == ZoneKind::CopperPour
    &&& z.net == Some(net)
    &&& z.layer_mask & mask != 0
    &&& copper_gap(zone_copper(z), c) == 0
}

/// Some copper of `net` touches `c` on a layer in `mask`.
pub open spec fn copper_reaches(b: Board, net: u32, c: Copper, mask: u32) -> bool {
    ||| exists|k: int| 0 <= k < b.traces@.len() && trace_touches(#[trigger] b.traces@[k], net, mask, c)
    ||| exists|k: int| 0 <= k < b.vias@.len() && via_touches(#[trigger] b.vias@[k], net, c)
    ||| exists|k: int| 0 <= k < b.zones@.len() && pour_touches(#[trigger] b.zones@[k], net, mask, c)
}

/// How many pads of the parts `cs` are on `net`.
pub open spec fn pads_on_net(cs: Seq<Component>, net: u32) -> int
    decreases cs.len(),
{
    if cs.len() == 0 {
        0
    } else {
        pads_on_net(cs.drop_last(), net) + part_pads_on_net(cs.last().pads@, net)
    }
}

/// How many of the pads `ps` are on `net`.
pub open spec fn part_pads_on_net(ps: Seq<PadSite>, net: u32) -> int
    decreases ps.len(),
{
    if ps.len() == 0 {
        0
    } else {
        part_pads_on_net(ps.drop_last(), net) + (if ps.last().net == Some(net) {
            1int
        } else {
            0int
        })
    }
}

/// The pads on a net with another pad that no copper of the net reaches.
pub open spec fn not_reached(b: Board) -> spec_fn(Component, PadSite) -> bool {
    |c: Component, p: PadSite|
        p.net is Some && pads_on_net(b.components@, p.net.unwrap()) >= 2 && !copper_reaches(
            b,
            p.net.unwrap(),
            p.copper,
            reach_mask(p),
        )
}

/// `r` reports pad `p` of part `c` as reached by no copper.
pub open spec fn reports_unrouted(r: DrcViolation, c: Component, p: PadSite) -> bool {
    describes(
        r,
        ViolationKind::UnroutedPin,
        c.entity,
        None,
        None,
        None,
        pad_centre(c, p),
        c.refdes@ + "."@ + p.number@ + " is on a net that no copper reaches"@ + ""@,
    )
}

/// A trace's centrelines, as the distance rules read them.
fn trace_data(t: &Trace) -> (d: TraceData)
    requires
        trace_ok(*t),
    ensures
        d.segments@ == centrelines(*t),
        d.half_width == half(t.width as int),
        crate::rules::clearance::trace_data_ok(d),
{
    let mut segments: Vec<([i64; 2], [i64; 2])> = Vec::new();
    let mut k: usize = 0;
    while k < t.segments.len()
        invariant
            k <= t.segments@.len(),
            trace_ok(*t),
            segments@ == centrelines(*t).take(k as int),
        decreases t.segments@.len() - k,
    {
        let s = t.segments[k];
        segments.push(([s.start.x, s.start.y], [s.end.x, s.end.y]));
        proof {
            assert(centrelines(*t).take(k + 1) =~= centrelines(*t).take(k as int).push(
                (s.start.raw(), s.end.raw()),
            ));
            assert(([s.start.x, s.start.y], [s.end.x, s.end.y]) == (s.start.raw(), s.end.raw()));
        }
        k = k + 1;
    }
    proof {
        assert(centrelines(*t).take(k as int) =~= centrelines(*t));
        assert forall|j: int| 0 <= j < segments@.len() implies crate::geometry::pt_ok(
            (#[trigger] segments@[j]).0,
        ) && crate::geometry::pt_ok(segments@[j].1) by {
            assert(segments@[j] == (t.segments@[j].start.raw(), t.segments@[j].end.raw()));
        }
    }
    TraceData { half_width: t.width / 2, segments }
}

/// Whether any copper of `net` touches the pad copper `c` on a layer in
/// `mask`: a trace, then a via, then a pour.
fn reaches(board: &Board, net: u32, c: &Copper, mask: u32) -> (r: bool)
    requires
        board_ok(*board),
        crate::rules::clearance::aabb_ok(c.core),
        crate::rules::clearance::radius_ok(c.radius),
    ensures
        r == copper_reaches(*board, net, *c, mask),
{
    let mut k: usize = 0;
    while k < board.traces.len()
        invariant
            k <= board.traces@.len(),
            board_ok(*board),
            crate::rules::clearance::aabb_ok(c.core),
            crate::rules::clearance::radius_ok(c.radius),
            forall|j: int| 0 <= j < k ==> !trace_touches(#[trigger] board.traces@[j], net, mask, *c),
        decreases board.traces@.len() - k,
    {
        let t = &board.traces[k];
        proof {
            assert(trace_ok(board.traces@[k as int]));
        }
        if t.net == net {
            if let Some(bit) = t.layer_bit {
                if mask & bit != 0 {
                    let data = trace_data(t);
                    if trace_to_copper_gap(&data, c) <= data.half_width {
                        return true;
                    }
                }
            }
        }
        k = k + 1;
    }
    let mut k: usize = 0;
    while k < board.vias.len()
        invariant
            k <= board.vias@.len(),
            board_ok(*board),
            crate::rules::clearance::aabb_ok(c.core),
            crate::rules::clearance::radius_ok(c.radius),
            forall|j: int| 0 <= j < board.traces@.len() ==> !trace_touches(#[trigger] board.traces@[j], net, mask, *c),
            forall|j: int| 0 <= j < k ==> !via_touches(#[trigger] board.vias@[j], net, *c),
        decreases board.vias@.len() - k,
    {
        let v = &board.vias[k];
        proof {
            assert(via_ok(board.vias@[k as int]));
        }
        if v.net == net {
            let disc = Copper {
                core: Aabb { lower: [v.position.x, v.position.y], upper: [v.position.x, v.position.y] },
                radius: v.outer_diameter / 2,
            };
            proof {
                assert(disc == via_disc(*v));
            }
            if copper_distance(&disc, c) == 0 {
                return true;
            }
        }
        k = k + 1;
    }
    let mut k: usize = 0;
    while k < board.zones.len()
        invariant
            k <= board.zones@.len(),
            board_ok(*board),
            crate::rules::clearance::aabb_ok(c.core),
            crate::rules::clearance::radius_ok(c.radius),
            forall|j: int| 0 <= j < board.traces@.len() ==> !trace_touches(#[trigger] board.traces@[j], net, mask, *c),
            forall|j: int| 0 <= j < board.vias@.len() ==> !via_touches(#[trigger] board.vias@[j], net, *c),
            forall|j: int| 0 <= j < k ==> !pour_touches(#[trigger] board.zones@[j], net, mask, *c),
        decreases board.zones@.len() - k,
    {
        let z = &board.zones[k];
        proof {
            assert(zone_ok(board.zones@[k as int]));
        }
        if z.is_copper_pour() && z.net == Some(net) && z.layer_mask & mask != 0 {
            let area = Copper {
                core: Aabb { lower: [z.bounds.min.x, z.bounds.min.y], upper: [z.bounds.max.x, z.bounds.max.y] },
                radius: 0,
            };
            proof {
                assert(area == zone_copper(*z));
            }
            if copper_distance(&area, c) == 0 {
                return true;
            }
        }
        k = k + 1;
    }
    false
}

/// A count, stopped at two: all the rule asks of one is whether it reaches
/// two.
pub open spec fn capped(n: int) -> int {
    if n >= 2 {
        2
    } else {
        n
    }
}

/// Counting a part's pads never gives less than nothing.
proof fn lemma_part_count_nonneg(ps: Seq<PadSite>, net: u32)
    ensures
        part_pads_on_net(ps, net) >= 0,
    decreases ps.len(),
{
    if ps.len() > 0 {
        lemma_part_count_nonneg(ps.drop_last(), net);
    }
}

/// Counting the board's pads never gives less than nothing.
proof fn lemma_count_nonneg(cs: Seq<Component>, net: u32)
    ensures
        pads_on_net(cs, net) >= 0,
    decreases cs.len(),
{
    if cs.len() > 0 {
        lemma_count_nonneg(cs.drop_last(), net);
        lemma_part_count_nonneg(cs.last().pads@, net);
    }
}

/// Whether at least two pads of the board are on `net`.
fn two_on_net(board: &Board, net: u32) -> (r: bool)
    ensures
        r == (pads_on_net(board.components@, net) >= 2),
{
    let ghost cs = board.components@;
    let mut n: usize = 0;
    let mut i: usize = 0;
    while i < board.components.len()
        invariant
            i <= cs.len(),
            cs == board.components@,
            n == capped(pads_on_net(cs.take(i as int), net)),
        decreases cs.len() - i,
    {
        let c = &board.components[i];
        proof {
            assert(cs.take(i + 1).drop_last() =~= cs.take(i as int));
            lemma_count_nonneg(cs.take(i as int), net);
        }
        let ghost done = pads_on_net(cs.take(i as int), net);
        let mut j: usize = 0;
        while j < c.pads.len()
            invariant
                j <= c.pads@.len(),
                *c == cs[i as int],
                i < cs.len(),
                done >= 0,
                done == pads_on_net(cs.take(i as int), net),
                n == capped(done + part_pads_on_net(c.pads@.take(j as int), net)),
            decreases c.pads@.len() - j,
        {
            proof {
                assert(c.pads@.take(j + 1).drop_last() =~= c.pads@.take(j as int));
                lemma_part_count_nonneg(c.pads@.take(j as int), net);
            }
            if c.pads[j].net == Some(net) && n < 2 {
                n = n + 1;
            }
            j = j + 1;
        }
        proof {
            assert(c.pads@.take(j as int) =~= c.pads@);
        }
        i = i + 1;
    }
    proof {
        assert(cs.take(i as int) =~= cs);
    }
    n >= 2
}

impl UnroutedPinRule {
    /// The rule's identifier in reports and filters.
    pub fn name(&self) -> (n: &'static str)
        ensures
            n@ == "unrouted-pin"@,
    {
        "unrouted-pin"
    }

    /// Every pad on a net with another pad that no copper of the net
    /// reaches, part by part and pad by pad.
    pub fn check(&self, board: &Board) -> (out: Vec<DrcViolation>)
        requires
            board_ok(*board),
        ensures
            found_by_unrouted_pin(*board, out@),
    {
        let ghost keep = not_reached(*board);
        let ghost cs = board.components@;
        let mut out: Vec<DrcViolation> = Vec::new();
        let mut i: usize = 0;
        while i < board.components.len()
            invariant
                i <= cs.len(),
                cs == board.components@,
                board_ok(*board),
                keep == not_reached(*board),
                out@.len() == picked(cs.take(i as int), keep).len(),
                forall|k: int|
                    0 <= k < out@.len() ==> reports_unrouted(
                        #[trigger] out@[k],
                        picked(cs.take(i as int), keep)[k].0,
                        picked(cs.take(i as int), keep)[k].1,
                    ),
            decreases cs.len() - i,
        {
            let c = &board.components[i];
            let ghost done = picked(cs.take(i as int), keep);
            proof {
                assert(component_ok(cs[i as int]));
            }
            let mut j: usize = 0;
            while j < c.pads.len()
                invariant
                    j <= c.pads@.len(),
                    *c == cs[i as int],
                    cs == board.components@,
                    component_ok(*c),
                    board_ok(*board),
                        keep == not_reached(*board),
                    out@.len() == (done + picked_pads(*c, c.pads@.take(j as int), keep)).len(),
                    forall|k: int|
                        0 <= k < out@.len() ==> reports_unrouted(
                            #[trigger] out@[k],
                            (done + picked_pads(*c, c.pads@.take(j as int), keep))[k].0,
                            (done + picked_pads(*c, c.pads@.take(j as int), keep))[k].1,
                        ),
                decreases c.pads@.len() - j,
            {
                let p = &c.pads[j];
                proof {
                    assert(pad_ok(c.pads@[j as int]));
                    assert(c.pads@.take(j + 1).drop_last() =~= c.pads@.take(j as int));
                    assert(c.pads@.take(j + 1).last() == *p);
                }
                let ghost before = done + picked_pads(*c, c.pads@.take(j as int), keep);
                if let Some(net) = p.net {
                    if two_on_net(board, net) {
                        let mask = if p.copper_mask == 0 {
                            u32::MAX
                        } else {
                            p.copper_mask
                        };
                        if !reaches(board, net, &p.copper, mask) {
                            let centre = Point {
                                x: c.position.x + p.turned.x,
                                y: c.position.y + p.turned.y,
                            };
                            out.push(DrcViolation::unrouted_pin(c.entity, p.number.as_str(), c.refdes.as_str(), centre));
                            proof {
                                assert(done + picked_pads(*c, c.pads@.take(j + 1), keep) =~= before.push((*c, *p)));
                            }
                        }
                    }
                }
                j = j + 1;
            }
            proof {
                assert(c.pads@.take(j as int) =~= c.pads@);
                assert(cs.take(i + 1).drop_last() =~= cs.take(i as int));
                assert(picked(cs.take(i + 1), keep) == done + picked_pads(*c, c.pads@, keep));
            }
            i = i + 1;
        }
        proof {
            assert(cs.take(i as int) =~= cs);
        }
        out
    }
}

/// What the rule finds on a board: the pads that no copper of their own net
/// reaches, in the order the check walks them.
pub open spec fn found_by_unrouted_pin(board: Board, out: Seq<DrcViolation>) -> bool {
    &&& out.len() == picked(board.components@, not_reached(board)).len()
    &&& forall|k: int|
        0 <= k < out.len() ==> reports_unrouted(
            #[trigger] out[k],
            picked(board.components@, not_reached(board))[k].0,
            picked(board.components@, not_reached(board))[k].1,
        )
}

} // verus!
