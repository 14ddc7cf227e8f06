//! The rules a board is checked against, one module each.
use vstd::prelude::*;

use crate::board::{
    board_ok, component_ok, pad_ok, picked, picked_pads, rect_contains, via_ok, Board, Component,
    Layer, PadSite, Via, Zone, ZoneKind,
};
use crate::geometry::{
    half, lemma_round_seg_unique, mid, point_ok, round_seg, seg_seg_round,
    Point,
};
use crate::violation::{describes, DrcViolation, ViolationKind};

pub mod acute_angle;
pub mod annular_ring;
pub mod area_off_board;
pub mod area_overlap;
pub mod assertion;
pub mod bend_radius;
pub mod clearance;
pub mod connectivity;
pub mod contacts;
pub mod copper_pairs;
pub mod courtyard_clearance;
pub mod diff_pair;
pub mod drill_aspect_ratio;
pub mod drill_size;
pub mod edge_clearance;
pub mod empty_area;
pub mod flex_hole;
pub mod flex_trace_angle;
pub mod hatch_etchable;
pub mod hole_to_edge;
pub mod hole_to_hole;
pub mod impedance;
pub mod land_outside_courtyard;
pub mod mounting_hole_clearance;
pub mod neck_down;
pub mod net_split;
pub mod pad_entry;
pub mod openings;
pub mod pad_land;
pub mod paste_clearance;
pub mod pour_island;
pub mod silk_clearance;
pub mod slot_clearance;
pub mod solder_mask_bridge;
pub mod solid_pour_in_bend;
pub mod stackup;
pub mod trace_current;
pub mod trace_width;
pub mod unrouted_pin;
pub mod via_diameter;
pub mod via_drill;
pub mod via_span;
pub mod zone_overlap;

pub use acute_angle::AcuteAngleRule;
pub use annular_ring::AnnularRingRule;
pub use area_off_board::AreaOffBoardRule;
pub use area_overlap::AreaOverlapRule;
pub use assertion::AssertionRule;
pub use bend_radius::BendRadiusRule;
pub use clearance::ClearanceRule;
pub use connectivity::UnconnectedPinRule;
pub use courtyard_clearance::CourtyardClearanceRule;
pub use diff_pair::DiffPairSkewRule;
pub use drill_aspect_ratio::DrillAspectRatioRule;
pub use drill_size::MinDrillSizeRule;
pub use edge_clearance::EdgeClearanceRule;
pub use empty_area::EmptyAreaRule;
pub use flex_hole::FlexHoleRule;
pub use flex_trace_angle::FlexTraceAngleRule;
pub use hatch_etchable::HatchEtchableRule;
pub use hole_to_edge::HoleToEdgeRule;
pub use hole_to_hole::HoleToHoleRule;
pub use impedance::ImpedanceRule;
pub use land_outside_courtyard::LandOutsideCourtyardRule;
pub use mounting_hole_clearance::MountingHoleClearanceRule;
pub use neck_down::NeckDownRule;
pub use net_split::NetSplitRule;
pub use pad_land::PadLandRule;
pub use paste_clearance::PasteClearanceRule;
pub use pour_island::PourIslandRule;
pub use silk_clearance::SilkClearanceRule;
pub use slot_clearance::SlotClearanceRule;
pub use solder_mask_bridge::SolderMaskBridgeRule;
pub use solid_pour_in_bend::SolidPourInBendRule;
pub use stackup::StackupRule;
pub use trace_current::TraceCurrentRule;
pub use trace_width::MinTraceWidthRule;
pub use unrouted_pin::UnroutedPinRule;
pub use via_diameter::ViaDiameterRule;
pub use via_drill::ViaDrillRule;
pub use via_span::ViaSpanRule;
pub use zone_overlap::ZoneOverlapRule;

verus! {

/// Rule for checking components against keepout zones.
///
/// A component's position falling within a keepout zone is a violation.
pub struct KeepoutRule;

impl KeepoutRule {
    /// The rule's identifier in reports and filters.
    pub fn name(&self) -> (n: &'static str)
        ensures
            n@ == "keepout"@,
    {
        "keepout"
    }
}

/// The keepout zones among `zs`, in order.
pub open spec fn keepouts(zs: Seq<Zone>) -> Seq<Zone>
    decreases zs.len(),
{
    if zs.len() == 0 {
        Seq::empty()
    } else {
        let rest = keepouts(zs.drop_last());
        if zs.last().kind == ZoneKind::Keepout {
            rest.push(zs.last())
        } else {
            rest
        }
    }
}

/// The zones among `zs` whose area holds the position of part `c`, each with
/// the part, in order.
pub open spec fn zones_holding(c: Component, zs: Seq<Zone>) -> Seq<(Component, Zone)>
    decreases zs.len(),
{
    if zs.len() == 0 {
        Seq::empty()
    } else {
        let rest = zones_holding(c, zs.drop_last());
        if rect_contains(zs.last().bounds, c.position) {
            rest.push((c, zs.last()))
        } else {
            rest
        }
    }
}

/// **A part is reported in a zone only where its position lies within the
/// zone on both axes**, and every zone whose box holds the position on both
/// axes is reported with it.
pub proof fn lemma_zones_holding_both_axes(c: Component, zs: Seq<Zone>)
    ensures
        forall|k: int|
            0 <= k < zones_holding(c, zs).len() ==> {
                let z = (#[trigger] zones_holding(c, zs)[k]).1;
                &&& zones_holding(c, zs)[k].0 == c
                &&& z.bounds.min.x <= c.position.x <= z.bounds.max.x
                &&& z.bounds.min.y <= c.position.y <= z.bounds.max.y
            },
        forall|j: int|
            0 <= j < zs.len() && (#[trigger] zs[j]).bounds.min.x <= c.position.x <= zs[j].bounds.max.x
                && zs[j].bounds.min.y <= c.position.y <= zs[j].bounds.max.y ==> exists|k: int|
                0 <= k < zones_holding(c, zs).len() && zones_holding(c, zs)[k].1 == zs[j],
    decreases zs.len(),
{
    if zs.len() > 0 {
        let d = zs.drop_last();
        lemma_zones_holding_both_axes(c, d);
        let rest = zones_holding(c, d);
        assert forall|j: int|
            0 <= j < zs.len() && (#[trigger] zs[j]).bounds.min.x <= c.position.x <= zs[j].bounds.max.x
                && zs[j].bounds.min.y <= c.position.y <= zs[j].bounds.max.y implies exists|k: int|
                0 <= k < zones_holding(c, zs).len() && zones_holding(c, zs)[k].1 == zs[j] by {
            if j < zs.len() - 1 {
                assert(d[j] == zs[j]);
                let k = choose|k: int| 0 <= k < rest.len() && rest[k].1 == d[j];
                assert(zones_holding(c, zs)[k] == rest[k]);
            } else {
                assert(zones_holding(c, zs)[rest.len() as int].1 == zs[j]);
            }
        }
        assert forall|k: int| 0 <= k < zones_holding(c, zs).len() implies {
            let z = (#[trigger] zones_holding(c, zs)[k]).1;
            &&& zones_holding(c, zs)[k].0 == c
            &&& z.bounds.min.x <= c.position.x <= z.bounds.max.x
            &&& z.bounds.min.y <= c.position.y <= z.bounds.max.y
        } by {
            if k < rest.len() {
                assert(zones_holding(c, zs)[k] == rest[k]);
            }
        }
    }
}

/// Every part standing in a zone of `zs`, part by part, zone by zone.
pub open spec fn parts_in_zones(cs: Seq<Component>, zs: Seq<Zone>) -> Seq<(Component, Zone)>
    decreases cs.len(),
{
    if cs.len() == 0 {
        Seq::empty()
    } else {
        parts_in_zones(cs.drop_last(), zs) + zones_holding(cs.last(), zs)
    }
}

/// `r` reports part `c` as placed in keepout zone `z`.
pub open spec fn reports_keepout(r: DrcViolation, c: Component, z: Zone) -> bool {
    describes(
        r,
        ViolationKind::KeepoutViolation,
        c.entity,
        Some(z.entity),
        None,
        None,
        c.position,
        "Component "@ + c.refdes@ + " placed in "@ + (match z.name {
            Some(n) => "keepout zone '"@ + n@ + "'"@,
            None => "keepout zone"@,
        }) + ""@,
    )
}

impl KeepoutRule {
    /// Every part whose position falls inside a keepout zone, part by part
    /// and zone by zone. Only a part's position is asked, not its whole
    /// footprint.
    pub fn check(&self, board: &Board) -> (out: Vec<DrcViolation>)
        ensures
            found_by_keepout(*board, out@),
    {
        let ghost zs = board.zones@;
        let mut zones: Vec<usize> = Vec::new();
        let mut z: usize = 0;
        while z < board.zones.len()
            invariant
                z <= zs.len(),
                zs == board.zones@,
                zones@.len() == keepouts(zs.take(z as int)).len(),
                forall|k: int|
                    0 <= k < zones@.len() ==> #[trigger] zones@[k] < zs.len() && zs[zones@[k] as int]
                        == keepouts(zs.take(z as int))[k],
            decreases zs.len() - z,
        {
            proof {
                assert(zs.take(z + 1).drop_last() =~= zs.take(z as int));
                assert(zs.take(z + 1).last() == zs[z as int]);
            }
            if board.zones[z].is_keepout() {
                zones.push(z);
            }
            z = z + 1;
        }
        assert(zs.take(z as int) =~= zs);
        let ghost kz = keepouts(zs);
        let mut out: Vec<DrcViolation> = Vec::new();
        if zones.len() == 0 {
            proof {
                let cs = board.components@;
                assert forall|n: int| 0 <= n <= cs.len() implies parts_in_zones(
                    #[trigger] cs.take(n),
                    kz,
                ).len() == 0 by {
                    lemma_nothing_in_no_zones(cs.take(n), kz);
                }
                assert(cs.take(cs.len() as int) =~= cs);
            }
            return out;
        }
        let ghost cs = board.components@;
        let mut i: usize = 0;
        while i < board.components.len()
            invariant
                i <= cs.len(),
                cs == board.components@,
                zs == board.zones@,
                kz == keepouts(zs),
                zones@.len() == kz.len(),
                forall|k: int| 0 <= k < zones@.len() ==> #[trigger] zones@[k] < zs.len() && zs[zones@[k] as int] == kz[k],
                out@.len() == parts_in_zones(cs.take(i as int), kz).len(),
                forall|k: int|
                    0 <= k < out@.len() ==> reports_keepout(
                        #[trigger] out@[k],
                        parts_in_zones(cs.take(i as int), kz)[k].0,
                        parts_in_zones(cs.take(i as int), kz)[k].1,
                    ),
            decreases cs.len() - i,
        {
            let c = &board.components[i];
            let ghost done = parts_in_zones(cs.take(i as int), kz);
            let mut j: usize = 0;
            while j < zones.len()
                invariant
                    j <= zones@.len(),
                    *c == cs[i as int],
                    zs == board.zones@,
                    zones@.len() == kz.len(),
                    forall|k: int| 0 <= k < zones@.len() ==> #[trigger] zones@[k] < zs.len() && zs[zones@[k] as int] == kz[k],
                    out@.len() == (done + zones_holding(*c, kz.take(j as int))).len(),
                    forall|k: int|
                        0 <= k < out@.len() ==> reports_keepout(
                            #[trigger] out@[k],
                            (done + zones_holding(*c, kz.take(j as int)))[k].0,
                            (done + zones_holding(*c, kz.take(j as int)))[k].1,
                        ),
                decreases zones@.len() - j,
            {
                let zone = &board.zones[zones[j]];
                let ghost before = done + zones_holding(*c, kz.take(j as int));
                proof {
                    assert(zones@[j as int] < zs.len());
                    assert(kz.take(j + 1).drop_last() =~= kz.take(j as int));
                    assert(kz.take(j + 1).last() == *zone);
                }
                if zone.contains(c.position) {
                    let name: Option<&str> = match &zone.name {
                        Some(n) => Some(n.as_str()),
                        None => None,
                    };
                    let v = DrcViolation::keepout(c.entity, zone.entity, c.refdes.as_str(), name, c.position);
                    out.push(v);
                    proof {
                        let after = done + zones_holding(*c, kz.take(j + 1));
                        assert(after =~= before.push((*c, *zone)));
                    }
                } else {
                    proof {
                        let after = done + zones_holding(*c, kz.take(j + 1));
                        assert(after =~= before);
                    }
                }
                j = j + 1;
            }
            proof {
                assert(kz.take(kz.len() as int) =~= kz);
                assert(cs.take(i + 1).drop_last() =~= cs.take(i as int));
                assert(cs.take(i + 1).last() == *c);
            }
            i = i + 1;
        }
        assert(cs.take(i as int) =~= cs);
        out
    }
}

/// No zones, nothing standing in one.
proof fn lemma_nothing_in_no_zones(cs: Seq<Component>, zs: Seq<Zone>)
    requires
        zs.len() == 0,
    ensures
        parts_in_zones(cs, zs).len() == 0,
    decreases cs.len(),
{
    if cs.len() > 0 {
        lemma_nothing_in_no_zones(cs.drop_last(), zs);
    }
}

/// Where a layer sits in the copper sequence, top first.
///
/// `Layer::Inner` is zero-based and the copper sequence is not: the first
/// inner layer is copper entry 1. `None` for a layer that is not copper or
/// that this many copper layers do not reach.
pub open spec fn copper_position(layer: Layer, copper_count: int) -> Option<int> {
    match layer {
        Layer::TopCopper => Some(0),
        Layer::BottomCopper => if copper_count >= 1 {
            Some(copper_count - 1)
        } else {
            None
        },
        Layer::Inner(n) => if n + 1 < copper_count {
            Some(n + 1)
        } else {
            None
        },
        Layer::NonCopper => None,
    }
}

/// Where a layer sits in the copper sequence, top first.
pub fn copper_index(layer: Layer, copper_count: usize) -> (i: Option<usize>)
    ensures
        i == (match copper_position(layer, copper_count as int) {
            Some(p) => Some(p as usize),
            None => None,
        }),
{
    match layer {
        Layer::TopCopper => Some(0),
        Layer::BottomCopper => copper_count.checked_sub(1),
        Layer::Inner(n) => {
            let index = (n as usize) + 1;
            if index < copper_count {
                Some(index)
            } else {
                None
            }
        },
        Layer::NonCopper => None,
    }
}

/// One hole in the board, as the shape the machine makes: a drill leaves a
/// circle, a milled slot a segment with a radius.
#[derive(Debug, Clone, Copy, PartialEq, Eq)]
pub struct Hole {
    /// The component or via this hole belongs to.
    pub entity: u32,
    /// Where the bit goes down. Equal to `end` for a drilled hole.
    pub start: Point,
    /// Where the bit comes up.
    pub end: Point,
    /// Half the narrow dimension: the radius of the bit that makes it.
    pub radius: i64,
    /// The layers this hole joins, which says which drill pass makes it.
    pub span: (Layer, Layer),
    /// Whether copper is plated down the barrel.
    pub plated: bool,
}

/// A hole whose numbers the rules can add up without leaving the carried
/// range.
pub open spec fn hole_ok(h: Hole) -> bool {
    point_ok(h.start) && point_ok(h.end) && -268_435_456 <= h.radius < 268_435_456
}

/// The bounding box of a hole: `(min_x, min_y, max_x, max_y)`.
pub open spec fn hole_bounds(h: Hole) -> (int, int, int, int) {
    let (sx, sy, ex, ey) = (h.start.x as int, h.start.y as int, h.end.x as int, h.end.y as int);
    (
        (if sx < ex {
            sx
        } else {
            ex
        }) - h.radius,
        (if sy < ey {
            sy
        } else {
            ey
        }) - h.radius,
        (if sx > ex {
            sx
        } else {
            ex
        }) + h.radius,
        (if sy > ey {
            sy
        } else {
            ey
        }) + h.radius,
    )
}

/// Laminate between two holes' walls: the distance between their bits'
/// paths, rounded, less both radii. Negative where they overlap.
pub open spec fn hole_gap(a: Hole, b: Hole) -> int {
    round_seg(a.start.raw(), a.end.raw(), b.start.raw(), b.end.raw()) - a.radius - b.radius
}

impl Hole {
    /// The diameter of the bit, which every fab number about a drill is
    /// stated against.
    pub fn diameter(&self) -> (d: i64)
        requires
            hole_ok(*self),
        ensures
            d == self.radius * 2,
    {
        self.radius * 2
    }

    /// The middle of the hole, for saying where a violation is.
    pub fn centre(&self) -> (c: Point)
        requires
            hole_ok(*self),
        ensures
            c == mid(self.start, self.end),
            point_ok(c),
    {
        crate::geometry::midpoint(self.start, self.end)
    }

    /// The box the hole occupies: `(min_x, min_y, max_x, max_y)`.
    pub fn bounds(&self) -> (b: (i64, i64, i64, i64))
        requires
            hole_ok(*self),
        ensures
            (b.0 as int, b.1 as int, b.2 as int, b.3 as int) == hole_bounds(*self),
    {
        let (sx, sy, ex, ey) = (self.start.x, self.start.y, self.end.x, self.end.y);
        (
            (if sx < ex {
                sx
            } else {
                ex
            }) - self.radius,
            (if sy < ey {
                sy
            } else {
                ey
            }) - self.radius,
            (if sx > ex {
                sx
            } else {
                ex
            }) + self.radius,
            (if sy > ey {
                sy
            } else {
                ey
            }) + self.radius,
        )
    }

    /// Laminate between this hole's wall and another's, which can be
    /// negative when they overlap.
    pub fn gap_to(&self, other: &Hole) -> (g: i64)
        requires
            hole_ok(*self),
            hole_ok(*other),
        ensures
            g == hole_gap(*self, *other),
    {
        let d = segment_distance(self.start, self.end, other.start, other.end);
        proof {
            assert(0 <= d <= 4_294_967_296);
        }
        d - self.radius - other.radius
    }
}

/// The closest approach of two segments, rounded to whole nanometres.
///
/// Either may be a single point: a drilled hole is a segment of no length,
/// and for two of those this is the distance between their centres. Zero
/// where they cross; otherwise the least of the four end-to-segment
/// distances.
pub fn segment_distance(a0: Point, a1: Point, b0: Point, b1: Point) -> (d: i64)
    requires
        point_ok(a0),
        point_ok(a1),
        point_ok(b0),
        point_ok(b1),
    ensures
        d == round_seg(a0.raw(), a1.raw(), b0.raw(), b1.raw()),
        0 <= d <= 4_294_967_296,
{
    let d = seg_seg_round([a0.x, a0.y], [a1.x, a1.y], [b0.x, b0.y], [b1.x, b1.y]);
    proof {
        assert([a0.x, a0.y] =~= a0.raw());
        assert([a1.x, a1.y] =~= a1.raw());
        assert([b0.x, b0.y] =~= b0.raw());
        assert([b1.x, b1.y] =~= b1.raw());
        lemma_round_seg_unique(d as int, a0.raw(), a1.raw(), b0.raw(), b1.raw());
    }
    d
}

/// The hole a via is: drilled at its position, joining the layers it says,
/// always plated.
pub open spec fn via_hole(v: Via) -> Hole {
    Hole {
        entity: v.entity,
        start: v.position,
        end: v.position,
        radius: half(v.drill as int) as i64,
        span: (v.start_layer, v.end_layer),
        plated: true,
    }
}

/// The hole a drilled pad is: along the bit's travel, through the board.
pub open spec fn pad_hole(c: Component, p: PadSite) -> Hole {
    Hole {
        entity: c.entity,
        start: Point {
            x: (c.position.x + p.hole_from.x) as i64,
            y: (c.position.y + p.hole_from.y) as i64,
        },
        end: Point { x: (c.position.x + p.hole_to.x) as i64, y: (c.position.y + p.hole_to.y) as i64 },
        radius: half(p.drill.unwrap() as int) as i64,
        span: (Layer::TopCopper, Layer::BottomCopper),
        plated: p.plated,
    }
}

/// The pads with a hole.
pub open spec fn drilled() -> spec_fn(Component, PadSite) -> bool {
    |c: Component, p: PadSite| p.drill is Some
}

/// Every hole in the board: the vias in board order, then the drilled pads
/// part by part.
pub open spec fn board_holes(b: Board) -> Seq<Hole> {
    b.vias@.map_values(|v: Via| via_hole(v)) + picked(b.components@, drilled()).map_values(
        |cp: (Component, PadSite)| pad_hole(cp.0, cp.1),
    )
}

/// Every hole in the board: vias, and the pads that are drilled.
pub fn holes_of(board: &Board) -> (holes: Vec<Hole>)
    requires
        board_ok(*board),
    ensures
        holes@ == board_holes(*board),
        forall|k: int| 0 <= k < holes@.len() ==> hole_ok(#[trigger] holes@[k]),
{
    let mut holes: Vec<Hole> = Vec::new();
    let ghost vs = board.vias@;
    let mut i: usize = 0;
    while i < board.vias.len()
        invariant
            i <= vs.len(),
            vs == board.vias@,
            board_ok(*board),
            holes@ == vs.take(i as int).map_values(|v: Via| via_hole(v)),
            forall|k: int| 0 <= k < holes@.len() ==> hole_ok(#[trigger] holes@[k]),
        decreases vs.len() - i,
    {
        let v = board.vias[i];
        proof {
            assert(via_ok(vs[i as int]));
        }
        holes.push(
            Hole {
                entity: v.entity,
                start: v.position,
                end: v.position,
                radius: v.drill / 2,
                span: (v.start_layer, v.end_layer),
                plated: true,
            },
        );
        proof {
            assert(vs.take(i + 1).map_values(|v: Via| via_hole(v)) =~= vs.take(i as int).map_values(
                |v: Via| via_hole(v),
            ).push(via_hole(v)));
        }
        i = i + 1;
    }
    assert(vs.take(i as int) =~= vs);
    let ghost via_part = holes@;
    let ghost cs = board.components@;
    let ghost keep = drilled();
    let mut c_i: usize = 0;
    while c_i < board.components.len()
        invariant
            c_i <= cs.len(),
            cs == board.components@,
            board_ok(*board),
            keep == drilled(),
            holes@ == via_part + picked(cs.take(c_i as int), keep).map_values(
                |cp: (Component, PadSite)| pad_hole(cp.0, cp.1),
            ),
            forall|k: int| 0 <= k < holes@.len() ==> hole_ok(#[trigger] holes@[k]),
        decreases cs.len() - c_i,
    {
        let c = &board.components[c_i];
        let ghost done = picked(cs.take(c_i as int), keep);
        proof {
            assert(component_ok(cs[c_i as int]));
        }
        let mut j: usize = 0;
        while j < c.pads.len()
            invariant
                j <= c.pads@.len(),
                *c == cs[c_i as int],
                component_ok(*c),
                keep == drilled(),
                holes@ == via_part + (done + picked_pads(*c, c.pads@.take(j as int), keep)).map_values(
                    |cp: (Component, PadSite)| pad_hole(cp.0, cp.1),
                ),
                forall|k: int| 0 <= k < holes@.len() ==> hole_ok(#[trigger] holes@[k]),
            decreases c.pads@.len() - j,
        {
            let p = &c.pads[j];
            proof {
                assert(c.pads@.take(j + 1).drop_last() =~= c.pads@.take(j as int));
                assert(c.pads@.take(j + 1).last() == *p);
                assert(pad_ok(c.pads@[j as int]));
            }
            let ghost before = done + picked_pads(*c, c.pads@.take(j as int), keep);
            if let Some(drill) = p.drill {
                let h = Hole {
                    entity: c.entity,
                    start: Point::new(c.position.x + p.hole_from.x, c.position.y + p.hole_from.y),
                    end: Point::new(c.position.x + p.hole_to.x, c.position.y + p.hole_to.y),
                    radius: drill / 2,
                    span: (Layer::TopCopper, Layer::BottomCopper),
                    plated: p.plated,
                };
                assert(h == pad_hole(*c, *p));
                holes.push(h);
                proof {
                    let after = done + picked_pads(*c, c.pads@.take(j + 1), keep);
                    assert(after =~= before.push((*c, *p)));
                    assert(after.map_values(|cp: (Component, PadSite)| pad_hole(cp.0, cp.1)) =~= before.map_values(
                        |cp: (Component, PadSite)| pad_hole(cp.0, cp.1),
                    ).push(h));
                    assert(holes@ =~= via_part + after.map_values(|cp: (Component, PadSite)| pad_hole(cp.0, cp.1)));
                }
            } else {
                proof {
                    let after = done + picked_pads(*c, c.pads@.take(j + 1), keep);
                    assert(after =~= before);
                }
            }
            j = j + 1;
        }
        proof {
            assert(c.pads@.take(c.pads@.len() as int) =~= c.pads@);
            assert(cs.take(c_i + 1).drop_last() =~= cs.take(c_i as int));
            assert(cs.take(c_i + 1).last() == *c);
        }
        c_i = c_i + 1;
    }
    assert(cs.take(c_i as int) =~= cs);
    holes
}

/// What the rule finds on a board: each part that stands in a keepout, reported
/// once per keepout, in the order the check walks them.
pub open spec fn found_by_keepout(board: Board, out: Seq<DrcViolation>) -> bool {
    &&& out.len() == parts_in_zones(board.components@, keepouts(board.zones@)).len()
    &&& forall|k: int|
        0 <= k < out.len() ==> reports_keepout(
            #[trigger] out[k],
            parts_in_zones(board.components@, keepouts(board.zones@))[k].0,
            parts_in_zones(board.components@, keepouts(board.zones@))[k].1,
        )
}

} // verus!
