//! Which copper the clearance rule measures against which, and what each
//! pair's rule and gaps are.
//!
//! Every pair of index entries of different entities on a shared layer is a
//! pair, unless both are on one net. A pair asks for the strictest clearance
//! either side's nets state, never less than the fab's floor. Two traces are
//! measured segment against segment, every pair of segments; a trace against
//! anything else is measured segment by segment against each piece of the
//! other's copper: the pads of a part it can reach, the disc of a via, or the
//! entry's own box. Two pieces that are neither are measured once, at their
//! closest pads or shapes. Each gap closer than the pair asks for is a probe:
//! everything about the contact but where exactly it lies along the copper.
use vstd::prelude::*;

use crate::board::{Board, Component, CopperEntry, NetRule, NetTag, PadSite, Segment, Trace};
use crate::geometry::{
    floor_seg, half, lemma_floor_seg_exists, lemma_floor_seg_unique, point_ok, pt_ok, Point,
};
use crate::presets::{rules_ok, DesignRules};
use crate::rules::clearance::{
    ClearanceRule, aabb_ok, as_pads, copper_of, copper_ok, exempt_as_same_net, exposed, first_least, lex_le,
    lower_end_first, nearest_pad_pair, nearest_pair, pad_measures, pad_row, pair_requirement,
    pair_requires, same_net_exempt, segment_distance, side_of, stated_ok, trace_copper_gap,
    trace_to_copper_gap, Aabb, Copper, PadBox, Side, TraceData,
};
use crate::rules::contacts::{contact_ok, lex_lt, lex_lt_from, side_key, Contact, Stretch};
use crate::rules::slot_clearance::{find_link, nets_of};

verus! {

/// Where the gap a probe found lies, as far as it is known without
/// measuring along the copper.
#[derive(Debug, Clone, Copy, PartialEq, Eq)]
pub enum Gap {
    /// Two pieces that are not traces, measured at a point.
    AtPoint(Point),
    /// A segment of one trace against a segment of another, each from its
    /// lower end, the lower side's first.
    Segments(Stretch, Stretch),
    /// A segment of a trace, from its lower end, against a piece of copper.
    ToCopper(Stretch, Copper),
}

/// A gap between two sides closer than their rule allows: a contact, less
/// where along the copper it lies.
#[derive(Debug, Clone, Copy, PartialEq, Eq)]
pub struct Probe {
    /// The two sides, the lower first.
    pub sides: (Side, Side),
    /// The entities that met, the same way round as `sides`.
    pub entities: (u32, u32),
    /// How wide the gap is.
    pub distance: i64,
    /// What the pair's rule asks for.
    pub required: i64,
    /// The width of the trace copper that makes the gap.
    pub reach: i64,
    /// How close a trace's centreline may come before its copper is too
    /// close: what the rule asks for plus the half-widths on the way.
    pub limit: i64,
    /// Where the gap lies.
    pub gap: Gap,
}

/// What every probe of one pair shares: its sides and entities as the pair
/// met them, its rule, its reach, its limit and how much trace half-width a
/// centreline gap loses.
#[derive(Debug, Clone, Copy, PartialEq, Eq)]
pub struct PairCtx {
    /// The sides, the first entry's first.
    pub sides: (Side, Side),
    /// The entities, the first entry's first.
    pub entities: (u32, u32),
    /// What the pair asks for.
    pub required: i64,
    /// The width of trace copper between the two.
    pub reach: i64,
    /// The centreline limit.
    pub limit: i64,
    /// The half-widths a centreline gap loses.
    pub hw: i64,
}

/// The first position at or after `k` holding `e`.
pub open spec fn first_from(es: Seq<u32>, e: u32, k: int) -> Option<int>
    decreases es.len() - k,
{
    if k < 0 || k >= es.len() {
        None
    } else if es[k] == e {
        Some(k)
    } else {
        first_from(es, e, k + 1)
    }
}

/// The first position holding `e`.
pub open spec fn first_of(es: Seq<u32>, e: u32) -> Option<int> {
    first_from(es, e, 0)
}

/// What `first_from` finds holds `e` and is in range.
pub proof fn lemma_first_from(es: Seq<u32>, e: u32, k: int)
    ensures
        first_from(es, e, k) matches Some(i) ==> k <= i < es.len() && 0 <= i && es[i] == e,
    decreases es.len() - k,
{
    if !(k < 0 || k >= es.len()) && es[k] != e {
        lemma_first_from(es, e, k + 1);
    }
}

/// The first position of `es` holding `e`.
pub(crate) fn find_first(es: &Vec<u32>, e: u32) -> (r: Option<usize>)
    ensures
        match r {
            Some(k) => first_of(es@, e) == Some(k as int) && k < es@.len() && es@[k as int] == e,
            None => first_of(es@, e) is None,
        },
{
    let mut k: usize = 0;
    while k < es.len()
        invariant
            k <= es@.len(),
            first_of(es@, e) == first_from(es@, e, k as int),
        decreases es@.len() - k,
    {
        if es[k] == e {
            return Some(k);
        }
        k = k + 1;
    }
    None
}

/// The entities of the traces, in order.
pub open spec fn trace_entities(b: Board) -> Seq<u32> {
    b.traces@.map_values(|t: Trace| t.entity)
}

/// The entities of the vias, in order.
pub open spec fn via_entities(b: Board) -> Seq<u32> {
    b.vias@.map_values(|v: crate::board::Via| v.entity)
}

/// The entities of the parts, in order.
pub open spec fn part_entities(b: Board) -> Seq<u32> {
    b.components@.map_values(|c: Component| c.entity)
}

/// The entities that name one net, in order.
pub open spec fn tag_entities(b: Board) -> Seq<u32> {
    b.net_ids@.map_values(|t: NetTag| t.entity)
}

/// The entities of the board's traces, vias, parts and zones.
pub(crate) struct Lookup {
    traces: Vec<u32>,
    vias: Vec<u32>,
    parts: Vec<u32>,
    tags: Vec<u32>,
}

/// The lookup holds the board's entities.
pub(crate) closed spec fn lookup_of(l: Lookup, b: Board) -> bool {
    &&& l.traces@ == trace_entities(b)
    &&& l.vias@ == via_entities(b)
    &&& l.parts@ == part_entities(b)
    &&& l.tags@ == tag_entities(b)
}

/// Gathers the board's entities.
pub(crate) fn lookup(b: &Board) -> (l: Lookup)
    ensures
        lookup_of(l, *b),
{
    let mut traces: Vec<u32> = Vec::new();
    let mut k: usize = 0;
    while k < b.traces.len()
        invariant
            k <= b.traces@.len(),
            traces@ == b.traces@.take(k as int).map_values(|t: Trace| t.entity),
        decreases b.traces@.len() - k,
    {
        traces.push(b.traces[k].entity);
        proof {
            assert(b.traces@.take(k + 1).map_values(|t: Trace| t.entity) =~= traces@);
        }
        k = k + 1;
    }
    let mut vias: Vec<u32> = Vec::new();
    let mut k: usize = 0;
    while k < b.vias.len()
        invariant
            k <= b.vias@.len(),
            vias@ == b.vias@.take(k as int).map_values(|v: crate::board::Via| v.entity),
        decreases b.vias@.len() - k,
    {
        vias.push(b.vias[k].entity);
        proof {
            assert(b.vias@.take(k + 1).map_values(|v: crate::board::Via| v.entity) =~= vias@);
        }
        k = k + 1;
    }
    let mut parts: Vec<u32> = Vec::new();
    let mut k: usize = 0;
    while k < b.components.len()
        invariant
            k <= b.components@.len(),
            parts@ == b.components@.take(k as int).map_values(|c: Component| c.entity),
        decreases b.components@.len() - k,
    {
        parts.push(b.components[k].entity);
        proof {
            assert(b.components@.take(k + 1).map_values(|c: Component| c.entity) =~= parts@);
        }
        k = k + 1;
    }
    let mut tags: Vec<u32> = Vec::new();
    let mut k: usize = 0;
    while k < b.net_ids.len()
        invariant
            k <= b.net_ids@.len(),
            tags@ == b.net_ids@.take(k as int).map_values(|t: NetTag| t.entity),
        decreases b.net_ids@.len() - k,
    {
        tags.push(b.net_ids[k].entity);
        proof {
            assert(b.net_ids@.take(k + 1).map_values(|t: NetTag| t.entity) =~= tags@);
        }
        k = k + 1;
    }
    proof {
        assert(b.traces@.take(b.traces@.len() as int) =~= b.traces@);
        assert(b.vias@.take(b.vias@.len() as int) =~= b.vias@);
        assert(b.components@.take(b.components@.len() as int) =~= b.components@);
        assert(b.net_ids@.take(b.net_ids@.len() as int) =~= b.net_ids@);
    }
    Lookup { traces, vias, parts, tags }
}

/// The one net an entity names, where it names one.
pub open spec fn single_net(b: Board, e: u32) -> Option<u32> {
    match first_of(tag_entities(b), e) {
        Some(k) => Some(b.net_ids@[k].net),
        None => None,
    }
}

/// The nets an entity carries: those its pins connect to, none where it
/// carries none.
pub open spec fn pins(b: Board, e: u32) -> Option<Seq<u32>> {
    Some(nets_of(b.net_links@, e))
}

/// A pad as the clearance rule measures it.
pub open spec fn pad_box(p: PadSite) -> PadBox {
    PadBox { copper: p.copper, layer_mask: p.copper_mask, net: p.net }
}

/// A part's pads, where the entity is a part whose pads are known.
pub open spec fn part_pads(b: Board, e: u32) -> Option<Seq<PadBox>> {
    match first_of(part_entities(b), e) {
        Some(k) => if b.components@[k].pads@.len() > 0 {
            Some(b.components@[k].pads@.map_values(|p: PadSite| pad_box(p)))
        } else {
            None
        },
        None => None,
    }
}

/// An entry's box.
pub open spec fn entry_box(e: CopperEntry) -> Aabb {
    Aabb { lower: e.bounds.min.raw(), upper: e.bounds.max.raw() }
}

/// The copper of anything that is not a part: a via's disc, or the entry's
/// own box.
pub open spec fn shape(b: Board, en: CopperEntry) -> Copper {
    match first_of(via_entities(b), en.entity) {
        Some(k) => Copper {
            core: Aabb { lower: b.vias@[k].position.raw(), upper: b.vias@[k].position.raw() },
            radius: half(b.vias@[k].outer_diameter as int) as i64,
        },
        None => Copper { core: entry_box(en), radius: 0 },
    }
}

/// The copper of a list of pads.
pub open spec fn coppers(ps: Seq<PadBox>) -> Seq<Copper> {
    ps.map_values(|p: PadBox| p.copper)
}

/// What of `en`'s copper a trace on `mask` and net `exempt` can reach: the
/// part's pads on those layers not on that net, or its one shape.
pub open spec fn reachable(b: Board, en: CopperEntry, mask: u32, exempt: Option<u32>) -> Seq<Copper> {
    match part_pads(b, en.entity) {
        Some(ps) => coppers(exposed(ps, mask, exempt)),
        None => seq![shape(b, en)],
    }
}

/// A segment from its lower end.
pub open spec fn lower_first(s: Stretch) -> Stretch {
    if lex_le(s.0, s.1) {
        s
    } else {
        (s.1, s.0)
    }
}

/// A trace's segments, each from its lower end.
pub open spec fn lowered(t: Trace) -> Seq<Stretch> {
    t.segments@.map_values(|s: Segment| lower_first((s.start.raw(), s.end.raw())))
}

/// The side an entity is, as `side_of` finds it.
pub open spec fn side_for(index: u32, net: Option<u32>, is_trace: bool, layers: u32) -> Side {
    match (is_trace, net) {
        (true, Some(net)) => Side::Trace { net, layers },
        _ => Side::Piece(index),
    }
}

/// A side narrowed to the pad a contact was measured against.
pub open spec fn narrowed(s: Side, pad: Option<[i64; 2]>) -> Side {
    match (s, pad) {
        (Side::Piece(part), Some(at)) => Side::Pad { part, at },
        _ => s,
    }
}

/// `a` sorts no later than `b`.
pub open spec fn side_le(a: Side, b: Side) -> bool {
    !lex_lt(side_key(b), side_key(a))
}

/// A number never below nothing.
pub open spec fn clip(v: int) -> int {
    if v > 0 {
        v
    } else {
        0
    }
}

/// The probe of a pair's gap, its sides narrowed to `pad` and the lower
/// first.
pub open spec fn make_probe(c: PairCtx, distance: int, gap: Gap, pad: Option<[i64; 2]>) -> Probe {
    let a = narrowed(c.sides.0, pad);
    let b = narrowed(c.sides.1, pad);
    if side_le(a, b) {
        Probe {
            sides: (a, b),
            entities: c.entities,
            distance: distance as i64,
            required: c.required,
            reach: c.reach,
            limit: c.limit,
            gap,
        }
    } else {
        Probe {
            sides: (b, a),
            entities: (c.entities.1, c.entities.0),
            distance: distance as i64,
            required: c.required,
            reach: c.reach,
            limit: c.limit,
            gap,
        }
    }
}

/// Segment `s` against each of `ts`, the gaps closer than the rule.
pub open spec fn seg_row(c: PairCtx, s: Stretch, ts: Seq<Stretch>) -> Seq<Probe>
    decreases ts.len(),
{
    if ts.len() == 0 {
        Seq::empty()
    } else {
        let rest = seg_row(c, s, ts.drop_last());
        let t = ts.last();
        let d = clip(crate::geometry::floor_seg(s.0, s.1, t.0, t.1) - c.hw);
        if d < c.required {
            rest.push(make_probe(c, d, Gap::Segments(s, t), None))
        } else {
            rest
        }
    }
}

/// Every segment of `ss` against every one of `ts`, `ss` outermost.
pub open spec fn seg_grid(c: PairCtx, ss: Seq<Stretch>, ts: Seq<Stretch>) -> Seq<Probe>
    decreases ss.len(),
{
    if ss.len() == 0 {
        Seq::empty()
    } else {
        seg_grid(c, ss.drop_last(), ts) + seg_row(c, ss.last(), ts)
    }
}

/// Segment `s` against each piece of copper, the gaps closer than the rule.
pub open spec fn copper_row(c: PairCtx, s: Stretch, cs: Seq<Copper>) -> Seq<Probe>
    decreases cs.len(),
{
    if cs.len() == 0 {
        Seq::empty()
    } else {
        let rest = copper_row(c, s, cs.drop_last());
        let p = cs.last();
        let d = clip(trace_copper_gap(seq![s], p) - c.hw);
        if d < c.required {
            rest.push(make_probe(c, d, Gap::ToCopper(s, p), Some(p.core.lower)))
        } else {
            rest
        }
    }
}

/// Every segment of `ss` against every piece of copper, `ss` outermost.
pub open spec fn copper_grid(c: PairCtx, ss: Seq<Stretch>, cs: Seq<Copper>) -> Seq<Probe>
    decreases ss.len(),
{
    if ss.len() == 0 {
        Seq::empty()
    } else {
        copper_grid(c, ss.drop_last(), cs) + copper_row(c, ss.last(), cs)
    }
}

/// Where and how far apart two pieces that are neither traces come
/// closest: pad against pad for two parts, skipping pads on one net; the
/// pads a part has against the other's shape; or shape against shape.
/// Nothing where either side has no copper the other can reach.
pub open spec fn point_measure(
    b: Board,
    ea: CopperEntry,
    eb: CopperEntry,
    na: Option<u32>,
    nb: Option<u32>,
) -> Option<(Point, int)> {
    let pa = part_pads(b, ea.entity);
    let pb = part_pads(b, eb.entity);
    let xa = match pa {
        Some(ps) => Some(exposed(ps, eb.layer_mask, nb)),
        None => None,
    };
    let xb = match pb {
        Some(ps) => Some(exposed(ps, ea.layer_mask, na)),
        None => None,
    };
    if (xa matches Some(s) && s.len() == 0) || (xb matches Some(s) && s.len() == 0) {
        None
    } else {
        match (xa, xb) {
            (Some(a), Some(bb)) => first_least(pad_measures(a, bb, true)),
            (Some(a), None) => first_least(
                pad_measures(as_pads(coppers(a)), as_pads(seq![shape(b, eb)]), false),
            ),
            (None, Some(bb)) => first_least(
                pad_measures(as_pads(seq![shape(b, ea)]), as_pads(coppers(bb)), false),
            ),
            (None, None) => first_least(
                pad_measures(as_pads(seq![shape(b, ea)]), as_pads(seq![shape(b, eb)]), false),
            ),
        }
    }
}

/// The probe of a point measurement, where it is closer than the rule.
pub open spec fn point_probes(c: PairCtx, m: Option<(Point, int)>) -> Seq<Probe> {
    match m {
        Some(m) => if m.1 < c.required {
            seq![make_probe(c, m.1, Gap::AtPoint(m.0), None)]
        } else {
            Seq::empty()
        },
        None => Seq::empty(),
    }
}

/// Half a trace's width where the entity is a trace, and nothing otherwise.
pub open spec fn half_width(b: Board, e: u32) -> int {
    match first_of(trace_entities(b), e) {
        Some(k) => half(b.traces@[k].width as int),
        None => 0,
    }
}

/// What the pair of entries `ea` and `eb` asks for.
pub open spec fn pair_rule(b: Board, r: DesignRules, ea: CopperEntry, eb: CopperEntry) -> int {
    pair_requires(
        b.net_rules@,
        r.min_clearance,
        single_net(b, ea.entity),
        pins(b, ea.entity),
        single_net(b, eb.entity),
        pins(b, eb.entity),
    )
}

/// What every probe of the pair shares, with the given limit and lost
/// half-widths.
pub open spec fn pair_ctx(
    b: Board,
    r: DesignRules,
    ea: CopperEntry,
    eb: CopperEntry,
    limit: int,
    hw: int,
) -> PairCtx {
    let (x, y) = (ea.entity, eb.entity);
    PairCtx {
        sides: (
            side_for(x, single_net(b, x), first_of(trace_entities(b), x) is Some, ea.layer_mask),
            side_for(y, single_net(b, y), first_of(trace_entities(b), y) is Some, eb.layer_mask),
        ),
        entities: (x, y),
        required: pair_rule(b, r, ea, eb) as i64,
        reach: (half_width(b, x) + half_width(b, y)) as i64,
        limit: limit as i64,
        hw: hw as i64,
    }
}

/// Every gap between the copper of entries `ea` and `eb` closer than the
/// pair's rule.
pub open spec fn pair_probes(b: Board, r: DesignRules, ea: CopperEntry, eb: CopperEntry) -> Seq<Probe> {
    let (x, y) = (ea.entity, eb.entity);
    let (na, nb) = (single_net(b, x), single_net(b, y));
    let (ha, hb) = (half_width(b, x), half_width(b, y));
    let req = pair_rule(b, r, ea, eb);
    match (first_of(trace_entities(b), x), first_of(trace_entities(b), y)) {
        (Some(i), Some(j)) => {
            let c = pair_ctx(b, r, ea, eb, req + ha + hb, ha + hb);
            if side_le(c.sides.0, c.sides.1) {
                seg_grid(c, lowered(b.traces@[i]), lowered(b.traces@[j]))
            } else {
                seg_grid(c, lowered(b.traces@[j]), lowered(b.traces@[i]))
            }
        },
        (Some(i), None) => copper_grid(
            pair_ctx(b, r, ea, eb, req + ha, ha),
            lowered(b.traces@[i]),
            reachable(b, eb, ea.layer_mask, na),
        ),
        (None, Some(j)) => copper_grid(
            pair_ctx(b, r, ea, eb, req + hb, hb),
            lowered(b.traces@[j]),
            reachable(b, ea, eb.layer_mask, nb),
        ),
        (None, None) => point_probes(pair_ctx(b, r, ea, eb, req, 0), point_measure(b, ea, eb, na, nb)),
    }
}

/// The first entry of its entity.
pub open spec fn fresh(es: Seq<CopperEntry>, i: int) -> bool {
    forall|j: int| 0 <= j < i ==> (#[trigger] es[j]).entity != es[i].entity
}

/// A pair the rule measures: on a shared layer, and not on one net.
pub open spec fn measured(b: Board, ea: CopperEntry, eb: CopperEntry) -> bool {
    &&& ea.layer_mask & eb.layer_mask != 0
    &&& !same_net_exempt(
        single_net(b, ea.entity),
        single_net(b, eb.entity),
        pins(b, ea.entity),
        pins(b, eb.entity),
        part_pads(b, ea.entity) is Some,
        part_pads(b, eb.entity) is Some,
    )
}

/// The probes of entry `i` against the later entries before `n`.
pub open spec fn row_probes(b: Board, r: DesignRules, i: int, n: int) -> Seq<Probe>
    decreases n - i,
{
    let es = b.copper_entries@;
    if n <= i + 1 {
        Seq::empty()
    } else {
        let rest = row_probes(b, r, i, n - 1);
        if fresh(es, n - 1) && measured(b, es[i], es[n - 1]) {
            rest + pair_probes(b, r, es[i], es[n - 1])
        } else {
            rest
        }
    }
}

/// The probes of the entries before `n`, each of its entity's first
/// entries against every later one.
pub open spec fn probes_upto(b: Board, r: DesignRules, n: int) -> Seq<Probe>
    decreases n,
{
    if n <= 0 {
        Seq::empty()
    } else {
        let rest = probes_upto(b, r, n - 1);
        if fresh(b.copper_entries@, n - 1) {
            rest + row_probes(b, r, n - 1, b.copper_entries@.len() as int)
        } else {
            rest
        }
    }
}

/// Every gap on the board closer than its pair's rule.
pub open spec fn board_probes(b: Board, r: DesignRules) -> Seq<Probe> {
    probes_upto(b, r, b.copper_entries@.len() as int)
}


/// Every end of every stretch is a point the arithmetic can carry.
pub open spec fn stretches_ok(ss: Seq<Stretch>) -> bool {
    forall|k: int| 0 <= k < ss.len() ==> pt_ok((#[trigger] ss[k]).0) && pt_ok(ss[k].1)
}

/// Every piece of copper is one the arithmetic can carry.
pub open spec fn coppers_ok(cs: Seq<Copper>) -> bool {
    forall|k: int| 0 <= k < cs.len() ==> copper_ok(#[trigger] cs[k])
}

/// A pair's numbers the arithmetic can carry.
pub open spec fn ctx_ok(c: PairCtx) -> bool {
    &&& -2_000_000_000_000 <= c.required <= 2_000_000_000_000
    &&& -1_073_741_824 <= c.hw <= 1_073_741_824
    &&& c.limit == c.required + c.hw
}

/// A side as four numbers, the way sides sort.
fn key_of(s: &Side) -> (k: (i64, i64, i64, i64))
    ensures
        side_key(*s) == seq![k.0 as int, k.1 as int, k.2 as int, k.3 as int],
{
    match s {
        Side::Trace { net, layers } => (0, *net as i64, *layers as i64, 0),
        Side::Piece(i) => (1, *i as i64, 0, 0),
        Side::Pad { part, at } => (2, *part as i64, at[0], at[1]),
    }
}

/// Whether `a` sorts no later than `b`.
fn side_no_later(a: &Side, b: &Side) -> (r: bool)
    ensures
        r == side_le(*a, *b),
{
    let ka = key_of(a);
    let kb = key_of(b);
    proof {
        reveal_with_fuel(lex_lt_from, 6);
    }
    if kb.0 != ka.0 {
        return !(kb.0 < ka.0);
    }
    if kb.1 != ka.1 {
        return !(kb.1 < ka.1);
    }
    if kb.2 != ka.2 {
        return !(kb.2 < ka.2);
    }
    if kb.3 != ka.3 {
        return !(kb.3 < ka.3);
    }
    true
}

/// The probe of a pair's gap, its sides narrowed to `pad` and the lower
/// first.
fn probe_of(c: &PairCtx, distance: i64, gap: Gap, pad: Option<[i64; 2]>) -> (p: Probe)
    ensures
        p == make_probe(*c, distance as int, gap, pad),
{
    let a = c.sides.0.at_pad(pad);
    let b = c.sides.1.at_pad(pad);
    if side_no_later(&a, &b) {
        Probe {
            sides: (a, b),
            entities: c.entities,
            distance,
            required: c.required,
            reach: c.reach,
            limit: c.limit,
            gap,
        }
    } else {
        Probe {
            sides: (b, a),
            entities: (c.entities.1, c.entities.0),
            distance,
            required: c.required,
            reach: c.reach,
            limit: c.limit,
            gap,
        }
    }
}

/// A trace's segments, each from its lower end.
fn lowered_of(t: &Trace) -> (out: Vec<Stretch>)
    requires
        crate::board::trace_ok(*t),
    ensures
        out@ == lowered(*t),
        stretches_ok(out@),
{
    let mut out: Vec<Stretch> = Vec::new();
    let mut k: usize = 0;
    while k < t.segments.len()
        invariant
            k <= t.segments@.len(),
            crate::board::trace_ok(*t),
            out@ == t.segments@.take(k as int).map_values(
                |s: Segment| lower_first((s.start.raw(), s.end.raw())),
            ),
            stretches_ok(out@),
        decreases t.segments@.len() - k,
    {
        let s = t.segments[k];
        let raw = ([s.start.x, s.start.y], [s.end.x, s.end.y]);
        proof {
            assert(point_ok(t.segments@[k as int].start) && point_ok(t.segments@[k as int].end));
            assert(raw.0 == s.start.raw() && raw.1 == s.end.raw());
        }
        let low = lower_end_first(&raw);
        out.push(low);
        proof {
            assert(t.segments@.take(k + 1).map_values(
                |s: Segment| lower_first((s.start.raw(), s.end.raw())),
            ) =~= out@);
        }
        k = k + 1;
    }
    proof {
        assert(t.segments@.take(k as int) =~= t.segments@);
    }
    out
}

/// Every segment of `ss` against every one of `ts`, appended to `out`.
fn segment_probes(c: &PairCtx, ss: &Vec<Stretch>, ts: &Vec<Stretch>, out: &mut Vec<Probe>)
    requires
        stretches_ok(ss@),
        stretches_ok(ts@),
        ctx_ok(*c),
    ensures
        final(out)@ == old(out)@ + seg_grid(*c, ss@, ts@),
{
    let ghost start = out@;
    let mut i: usize = 0;
    while i < ss.len()
        invariant
            i <= ss@.len(),
            stretches_ok(ss@),
            stretches_ok(ts@),
            ctx_ok(*c),
            out@ == start + seg_grid(*c, ss@.take(i as int), ts@),
        decreases ss@.len() - i,
    {
        let s = ss[i];
        proof {
            assert(ss@.take(i + 1).drop_last() =~= ss@.take(i as int));
            assert(ss@.take(i + 1).last() == s);
            assert(pt_ok(ss@[i as int].0) && pt_ok(ss@[i as int].1));
        }
        let ghost grid = seg_grid(*c, ss@.take(i as int), ts@);
        let mut j: usize = 0;
        while j < ts.len()
            invariant
                j <= ts@.len(),
                stretches_ok(ts@),
                ctx_ok(*c),
                pt_ok(s.0),
                pt_ok(s.1),
                out@ == start + grid + seg_row(*c, s, ts@.take(j as int)),
            decreases ts@.len() - j,
        {
            let t = ts[j];
            proof {
                assert(ts@.take(j + 1).drop_last() =~= ts@.take(j as int));
                assert(ts@.take(j + 1).last() == t);
                assert(pt_ok(ts@[j as int].0) && pt_ok(ts@[j as int].1));
            }
            let d = segment_distance(s.0, s.1, t.0, t.1);
            proof {
                lemma_floor_seg_exists(s.0, s.1, t.0, t.1);
                lemma_floor_seg_unique(d as int, s.0, s.1, t.0, t.1);
                lemma_floor_seg_unique(floor_seg(s.0, s.1, t.0, t.1), s.0, s.1, t.0, t.1);
            }
            let ghost before = out@;
            if d < c.limit {
                let dist: i64 = if d - c.hw > 0 {
                    d - c.hw
                } else {
                    0
                };
                if dist < c.required {
                    let p = probe_of(c, dist, Gap::Segments(s, t), None);
                    out.push(p);
                }
            }
            proof {
                assert(out@ =~= start + grid + seg_row(*c, s, ts@.take(j + 1)));
            }
            j = j + 1;
        }
        proof {
            assert(ts@.take(j as int) =~= ts@);
            assert(out@ =~= start + seg_grid(*c, ss@.take(i + 1), ts@));
        }
        i = i + 1;
    }
    proof {
        assert(ss@.take(i as int) =~= ss@);
    }
}

/// Every segment of `ss` against every piece of `cs`, appended to `out`.
fn copper_probes(c: &PairCtx, ss: &Vec<Stretch>, cs: &Vec<Copper>, out: &mut Vec<Probe>)
    requires
        stretches_ok(ss@),
        coppers_ok(cs@),
        ctx_ok(*c),
    ensures
        final(out)@ == old(out)@ + copper_grid(*c, ss@, cs@),
{
    let ghost start = out@;
    let mut i: usize = 0;
    while i < ss.len()
        invariant
            i <= ss@.len(),
            stretches_ok(ss@),
            coppers_ok(cs@),
            ctx_ok(*c),
            out@ == start + copper_grid(*c, ss@.take(i as int), cs@),
        decreases ss@.len() - i,
    {
        let s = ss[i];
        proof {
            assert(ss@.take(i + 1).drop_last() =~= ss@.take(i as int));
            assert(ss@.take(i + 1).last() == s);
            assert(pt_ok(ss@[i as int].0) && pt_ok(ss@[i as int].1));
        }
        let mut one: Vec<Stretch> = Vec::new();
        one.push(s);
        let td = TraceData { half_width: c.hw, segments: one };
        proof {
            assert(td.segments@ =~= seq![s]);
        }
        let ghost grid = copper_grid(*c, ss@.take(i as int), cs@);
        let mut j: usize = 0;
        while j < cs.len()
            invariant
                j <= cs@.len(),
                coppers_ok(cs@),
                ctx_ok(*c),
                td.segments@ == seq![s],
                crate::rules::clearance::trace_data_ok(td),
                out@ == start + grid + copper_row(*c, s, cs@.take(j as int)),
            decreases cs@.len() - j,
        {
            let p = cs[j];
            proof {
                assert(cs@.take(j + 1).drop_last() =~= cs@.take(j as int));
                assert(cs@.take(j + 1).last() == p);
                assert(copper_ok(cs@[j as int]));
            }
            let d = trace_to_copper_gap(&td, &p);
            if d < c.limit {
                let dist: i64 = if d - c.hw > 0 {
                    d - c.hw
                } else {
                    0
                };
                if dist < c.required {
                    let q = probe_of(c, dist, Gap::ToCopper(s, p), Some(p.core.lower));
                    out.push(q);
                }
            }
            proof {
                assert(out@ =~= start + grid + copper_row(*c, s, cs@.take(j + 1)));
            }
            j = j + 1;
        }
        proof {
            assert(cs@.take(j as int) =~= cs@);
            assert(out@ =~= start + copper_grid(*c, ss@.take(i + 1), cs@));
        }
        i = i + 1;
    }
    proof {
        assert(ss@.take(i as int) =~= ss@);
    }
}


/// What `first_of` finds in a list of entities is a position of it.
pub(crate) proof fn lemma_first_of(es: Seq<u32>, e: u32)
    ensures
        first_of(es, e) matches Some(i) ==> 0 <= i < es.len() && es[i] == e,
{
    lemma_first_from(es, e, 0);
}

/// The one net an entity names.
fn net_of(b: &Board, l: &Lookup, e: u32) -> (r: Option<u32>)
    requires
        lookup_of(*l, *b),
    ensures
        r == single_net(*b, e),
{
    match find_first(&l.tags, e) {
        Some(k) => Some(b.net_ids[k].net),
        None => None,
    }
}

/// The nets an entity carries.
fn pins_of(b: &Board, l: &Lookup, e: u32) -> (r: Option<Vec<u32>>)
    requires
        lookup_of(*l, *b),
    ensures
        match r {
            Some(v) => pins(*b, e) == Some(v@),
            None => pins(*b, e) is None,
        },
{
    let mut nets: Vec<u32> = Vec::new();
    match find_link(&b.net_links, e) {
        Some(k) => {
            let from = &b.net_links[k].nets;
            let mut j: usize = 0;
            while j < from.len()
                invariant
                    j <= from@.len(),
                    nets@ == from@.take(j as int),
                decreases from@.len() - j,
            {
                nets.push(from[j]);
                proof {
                    assert(from@.take(j + 1) =~= nets@);
                }
                j = j + 1;
            }
            proof {
                assert(from@.take(j as int) =~= from@);
            }
        },
        None => {
            proof {
                assert(nets@ =~= Seq::<u32>::empty());
            }
        },
    }
    Some(nets)
}

/// A part's pads, where the entity is a part whose pads are known.
pub(crate) fn pads_of(b: &Board, l: &Lookup, e: u32) -> (r: Option<Vec<PadBox>>)
    requires
        lookup_of(*l, *b),
        crate::board::board_ok(*b),
    ensures
        match r {
            Some(v) => part_pads(*b, e) == Some(v@),
            None => part_pads(*b, e) is None,
        },
        r matches Some(v) ==> forall|k: int| 0 <= k < v@.len() ==> copper_ok((#[trigger] v@[k]).copper),
{
    match find_first(&l.parts, e) {
        Some(i) => {
            let c = &b.components[i];
            if c.pads.len() == 0 {
                return None;
            }
            proof {
                assert(crate::board::component_ok(b.components@[i as int]));
            }
            let mut out: Vec<PadBox> = Vec::new();
            let mut k: usize = 0;
            while k < c.pads.len()
                invariant
                    k <= c.pads@.len(),
                    crate::board::component_ok(*c),
                    out@ == c.pads@.take(k as int).map_values(|p: PadSite| pad_box(p)),
                    forall|j: int| 0 <= j < out@.len() ==> copper_ok((#[trigger] out@[j]).copper),
                decreases c.pads@.len() - k,
            {
                let p = &c.pads[k];
                proof {
                    assert(crate::board::pad_ok(c.pads@[k as int]));
                }
                out.push(PadBox { copper: p.copper, layer_mask: p.copper_mask, net: p.net });
                proof {
                    assert(c.pads@.take(k + 1).map_values(|p: PadSite| pad_box(p)) =~= out@);
                }
                k = k + 1;
            }
            proof {
                assert(c.pads@.take(k as int) =~= c.pads@);
            }
            Some(out)
        },
        None => None,
    }
}

/// The pads `exposed` keeps are pads of the list.
proof fn lemma_exposed_ok(ps: Seq<PadBox>, mask: u32, exempt: Option<u32>)
    requires
        forall|k: int| 0 <= k < ps.len() ==> copper_ok((#[trigger] ps[k]).copper),
    ensures
        forall|k: int|
            0 <= k < exposed(ps, mask, exempt).len() ==> copper_ok(
                (#[trigger] exposed(ps, mask, exempt)[k]).copper,
            ),
    decreases ps.len(),
{
    if ps.len() > 0 {
        let init = ps.drop_last();
        assert forall|k: int| 0 <= k < init.len() implies copper_ok((#[trigger] init[k]).copper) by {
            assert(init[k] == ps[k]);
        }
        lemma_exposed_ok(init, mask, exempt);
        assert(copper_ok(ps[ps.len() - 1].copper));
    }
}

/// The copper of anything that is not a part: a via's disc, or the entry's
/// own box.
pub(crate) fn shape_of(b: &Board, l: &Lookup, en: &CopperEntry) -> (c: Copper)
    requires
        lookup_of(*l, *b),
        crate::board::board_ok(*b),
        aabb_ok(entry_box(*en)),
    ensures
        c == shape(*b, *en),
        copper_ok(c),
{
    match find_first(&l.vias, en.entity) {
        Some(k) => {
            let v = b.vias[k];
            proof {
                assert(crate::board::via_ok(b.vias@[k as int]));
            }
            let p = [v.position.x, v.position.y];
            proof {
                assert(p == v.position.raw());
            }
            Copper { core: Aabb { lower: p, upper: p }, radius: v.outer_diameter / 2 }
        },
        None => {
            let bx = Aabb {
                lower: [en.bounds.min.x, en.bounds.min.y],
                upper: [en.bounds.max.x, en.bounds.max.y],
            };
            proof {
                assert(bx.lower == en.bounds.min.raw() && bx.upper == en.bounds.max.raw());
            }
            Copper { core: bx, radius: 0 }
        },
    }
}

/// The copper of a list of pads.
fn coppers_of(ps: &Vec<PadBox>) -> (out: Vec<Copper>)
    requires
        forall|k: int| 0 <= k < ps@.len() ==> copper_ok((#[trigger] ps@[k]).copper),
    ensures
        out@ == coppers(ps@),
        coppers_ok(out@),
{
    let mut out: Vec<Copper> = Vec::new();
    let mut k: usize = 0;
    while k < ps.len()
        invariant
            k <= ps@.len(),
            forall|j: int| 0 <= j < ps@.len() ==> copper_ok((#[trigger] ps@[j]).copper),
            out@ == coppers(ps@.take(k as int)),
            coppers_ok(out@),
        decreases ps@.len() - k,
    {
        out.push(ps[k].copper);
        proof {
            assert(coppers(ps@.take(k + 1)) =~= out@);
        }
        k = k + 1;
    }
    proof {
        assert(ps@.take(k as int) =~= ps@);
    }
    out
}

/// Pieces of copper as pads on no net.
fn bare(cs: &Vec<Copper>) -> (out: Vec<PadBox>)
    requires
        coppers_ok(cs@),
    ensures
        out@ == as_pads(cs@),
        forall|k: int| 0 <= k < out@.len() ==> copper_ok((#[trigger] out@[k]).copper),
{
    let mut out: Vec<PadBox> = Vec::new();
    let mut k: usize = 0;
    while k < cs.len()
        invariant
            k <= cs@.len(),
            coppers_ok(cs@),
            out@ == as_pads(cs@.take(k as int)),
            forall|j: int| 0 <= j < out@.len() ==> copper_ok((#[trigger] out@[j]).copper),
        decreases cs@.len() - k,
    {
        out.push(PadBox { copper: cs[k], layer_mask: 0, net: None });
        proof {
            assert(as_pads(cs@.take(k + 1)) =~= out@);
        }
        k = k + 1;
    }
    proof {
        assert(cs@.take(k as int) =~= cs@);
    }
    out
}

/// One piece of copper as a list.
fn one_copper(c: Copper) -> (out: Vec<Copper>)
    requires
        copper_ok(c),
    ensures
        out@ == seq![c],
        coppers_ok(out@),
{
    let mut out: Vec<Copper> = Vec::new();
    out.push(c);
    proof {
        assert(out@ =~= seq![c]);
    }
    out
}

/// Where and how far apart two pieces that are neither traces come closest.
fn measure_points(
    b: &Board,
    l: &Lookup,
    ea: &CopperEntry,
    eb: &CopperEntry,
    na: Option<u32>,
    nb: Option<u32>,
    pa: Option<Vec<PadBox>>,
    pb: Option<Vec<PadBox>>,
) -> (m: Option<(Point, i64)>)
    requires
        lookup_of(*l, *b),
        crate::board::board_ok(*b),
        aabb_ok(entry_box(*ea)),
        aabb_ok(entry_box(*eb)),
        match pa {
            Some(v) => part_pads(*b, ea.entity) == Some(v@),
            None => part_pads(*b, ea.entity) is None,
        },
        match pb {
            Some(v) => part_pads(*b, eb.entity) == Some(v@),
            None => part_pads(*b, eb.entity) is None,
        },
        pa matches Some(v) ==> forall|k: int| 0 <= k < v@.len() ==> copper_ok((#[trigger] v@[k]).copper),
        pb matches Some(v) ==> forall|k: int| 0 <= k < v@.len() ==> copper_ok((#[trigger] v@[k]).copper),
    ensures
        match m {
            Some(v) => point_measure(*b, *ea, *eb, na, nb) == Some((v.0, v.1 as int)),
            None => point_measure(*b, *ea, *eb, na, nb) is None,
        },
{
    let xa: Option<Vec<PadBox>> = match pa {
        Some(ps) => {
            proof {
                lemma_exposed_ok(ps@, eb.layer_mask, nb);
            }
            Some(copper_of(&ps, eb.layer_mask, nb))
        },
        None => None,
    };
    let xb: Option<Vec<PadBox>> = match pb {
        Some(ps) => {
            proof {
                lemma_exposed_ok(ps@, ea.layer_mask, na);
            }
            Some(copper_of(&ps, ea.layer_mask, na))
        },
        None => None,
    };
    let empty_a = match &xa {
        Some(v) => v.len() == 0,
        None => false,
    };
    let empty_b = match &xb {
        Some(v) => v.len() == 0,
        None => false,
    };
    if empty_a || empty_b {
        return None;
    }
    match (xa, xb) {
        (Some(a), Some(bb)) => nearest_pad_pair(&a, &bb),
        (Some(a), None) => {
            let ca = bare(&coppers_of(&a));
            let cb = bare(&one_copper(shape_of(b, l, eb)));
            crate::rules::clearance::least_measure(&ca, &cb, false)
        },
        (None, Some(bb)) => {
            let ca = bare(&one_copper(shape_of(b, l, ea)));
            let cb = bare(&coppers_of(&bb));
            crate::rules::clearance::least_measure(&ca, &cb, false)
        },
        (None, None) => {
            let ca = bare(&one_copper(shape_of(b, l, ea)));
            let cb = bare(&one_copper(shape_of(b, l, eb)));
            crate::rules::clearance::least_measure(&ca, &cb, false)
        },
    }
}


/// The pieces of `en`'s copper a trace on `mask` and net `exempt` can reach.
fn reachable_of(
    b: &Board,
    l: &Lookup,
    en: &CopperEntry,
    mask: u32,
    exempt: Option<u32>,
    pads: &Option<Vec<PadBox>>,
) -> (out: Vec<Copper>)
    requires
        lookup_of(*l, *b),
        crate::board::board_ok(*b),
        aabb_ok(entry_box(*en)),
        match pads {
            Some(v) => part_pads(*b, en.entity) == Some(v@),
            None => part_pads(*b, en.entity) is None,
        },
        pads matches Some(v) ==> forall|k: int| 0 <= k < v@.len() ==> copper_ok((#[trigger] v@[k]).copper),
    ensures
        out@ == reachable(*b, *en, mask, exempt),
        coppers_ok(out@),
{
    match pads {
        Some(ps) => {
            proof {
                lemma_exposed_ok(ps@, mask, exempt);
            }
            coppers_of(&copper_of(ps, mask, exempt))
        },
        None => one_copper(shape_of(b, l, en)),
    }
}

/// The probes of the pair of entries `ea` and `eb`, appended to `out`:
/// every gap closer than the pair's rule, where the two share a layer and
/// are not on one net.
fn visit_pair(
    b: &Board,
    r: &DesignRules,
    l: &Lookup,
    ea: &CopperEntry,
    eb: &CopperEntry,
    out: &mut Vec<Probe>,
)
    requires
        lookup_of(*l, *b),
        crate::board::board_ok(*b),
        rules_ok(*r),
        stated_ok(b.net_rules@),
        aabb_ok(entry_box(*ea)),
        aabb_ok(entry_box(*eb)),
    ensures
        final(out)@ == old(out)@ + (if measured(*b, *ea, *eb) {
            pair_probes(*b, *r, *ea, *eb)
        } else {
            Seq::empty()
        }),
{
    let ghost start = out@;
    let x = ea.entity;
    let y = eb.entity;
    if ea.layer_mask & eb.layer_mask == 0 {
        proof {
            assert(out@ =~= start + Seq::<Probe>::empty());
        }
        return;
    }
    let na = net_of(b, l, x);
    let nb = net_of(b, l, y);
    let pa = pins_of(b, l, x);
    let pb = pins_of(b, l, y);
    let pads_a = pads_of(b, l, x);
    let pads_b = pads_of(b, l, y);
    if exempt_as_same_net(na, nb, &pa, &pb, pads_a.is_some(), pads_b.is_some()) {
        proof {
            assert(out@ =~= start + Seq::<Probe>::empty());
        }
        return;
    }
    let req = pair_requirement(&b.net_rules, r.min_clearance, na, &pa, nb, &pb);
    let ta = find_first(&l.traces, x);
    let tb = find_first(&l.traces, y);
    proof {
        if let Some(k) = ta {
            assert(crate::board::trace_ok(b.traces@[k as int]));
        }
        if let Some(k) = tb {
            assert(crate::board::trace_ok(b.traces@[k as int]));
        }
    }
    let ha: i64 = match ta {
        Some(k) => b.traces[k].width / 2,
        None => 0,
    };
    let hb: i64 = match tb {
        Some(k) => b.traces[k].width / 2,
        None => 0,
    };
    let side_a = side_of(x, na, ta.is_some(), ea.layer_mask);
    let side_b = side_of(y, nb, tb.is_some(), eb.layer_mask);
    let ghost req_i = pair_rule(*b, *r, *ea, *eb);
    proof {
        assert(req as int == req_i);
        assert(ha as int == half_width(*b, x));
        assert(hb as int == half_width(*b, y));
    }
    match (ta, tb) {
        (Some(i), Some(j)) => {
            let c = PairCtx {
                sides: (side_a, side_b),
                entities: (x, y),
                required: req,
                reach: ha + hb,
                limit: req + ha + hb,
                hw: ha + hb,
            };
            proof {
                assert(c == pair_ctx(*b, *r, *ea, *eb, req_i + ha + hb, ha + hb));
            }
            let si = lowered_of(&b.traces[i]);
            let sj = lowered_of(&b.traces[j]);
            if side_no_later(&side_a, &side_b) {
                segment_probes(&c, &si, &sj, out);
            } else {
                segment_probes(&c, &sj, &si, out);
            }
        },
        (Some(i), None) => {
            let c = PairCtx {
                sides: (side_a, side_b),
                entities: (x, y),
                required: req,
                reach: ha + hb,
                limit: req + ha,
                hw: ha,
            };
            proof {
                assert(c == pair_ctx(*b, *r, *ea, *eb, req_i + ha, ha as int));
            }
            let si = lowered_of(&b.traces[i]);
            let cs = reachable_of(b, l, eb, ea.layer_mask, na, &pads_b);
            copper_probes(&c, &si, &cs, out);
        },
        (None, Some(j)) => {
            let c = PairCtx {
                sides: (side_a, side_b),
                entities: (x, y),
                required: req,
                reach: ha + hb,
                limit: req + hb,
                hw: hb,
            };
            proof {
                assert(c == pair_ctx(*b, *r, *ea, *eb, req_i + hb, hb as int));
            }
            let sj = lowered_of(&b.traces[j]);
            let cs = reachable_of(b, l, ea, eb.layer_mask, nb, &pads_a);
            copper_probes(&c, &sj, &cs, out);
        },
        (None, None) => {
            let c = PairCtx {
                sides: (side_a, side_b),
                entities: (x, y),
                required: req,
                reach: ha + hb,
                limit: req,
                hw: 0,
            };
            proof {
                assert(c == pair_ctx(*b, *r, *ea, *eb, req_i, 0));
            }
            match measure_points(b, l, ea, eb, na, nb, pads_a, pads_b) {
                Some(m) => {
                    if m.1 < req {
                        let p = probe_of(&c, m.1, Gap::AtPoint(m.0), None);
                        out.push(p);
                    }
                },
                None => {},
            }
            proof {
                assert(out@ =~= start + point_probes(c, point_measure(*b, *ea, *eb, na, nb)));
            }
        },
    }
}


/// Whether each entry is the first of its entity.
fn fresh_flags(es: &Vec<CopperEntry>) -> (out: Vec<bool>)
    ensures
        out@.len() == es@.len(),
        forall|i: int| 0 <= i < es@.len() ==> out@[i] == fresh(es@, i),
{
    let mut out: Vec<bool> = Vec::new();
    let mut i: usize = 0;
    while i < es.len()
        invariant
            i <= es@.len(),
            out@.len() == i,
            forall|t: int| 0 <= t < i ==> out@[t] == fresh(es@, t),
        decreases es@.len() - i,
    {
        let mut first = true;
        let mut j: usize = 0;
        while j < i
            invariant
                j <= i < es@.len(),
                first == (forall|t: int| 0 <= t < j ==> (#[trigger] es@[t]).entity != es@[i as int].entity),
            decreases i - j,
        {
            if es[j].entity == es[i].entity {
                first = false;
            }
            j = j + 1;
        }
        out.push(first);
        i = i + 1;
    }
    out
}

impl ClearanceRule {
    /// Every gap on the board closer than its pair's rule.
    ///
    /// Each entry that is the first of its entity is paired with every
    /// later such entry; a pair is measured where the two share a copper
    /// layer and are not on one net, and every gap it has closer than what
    /// the pair asks for is one probe.
    pub fn probes(&self, board: &Board, rules: &DesignRules) -> (out: Vec<Probe>)
        requires
            crate::board::board_ok(*board),
            rules_ok(*rules),
            stated_ok(board.net_rules@),
        ensures
            out@ == board_probes(*board, *rules),
    {
        let l = lookup(board);
        let es = &board.copper_entries;
        let flags = fresh_flags(es);
        let n = es.len();
        let mut out: Vec<Probe> = Vec::new();
        let mut i: usize = 0;
        while i < n
            invariant
                n == es@.len(),
                es == &board.copper_entries,
                i <= n,
                lookup_of(l, *board),
                crate::board::board_ok(*board),
                rules_ok(*rules),
                stated_ok(board.net_rules@),
                flags@.len() == n,
                forall|t: int| 0 <= t < n ==> flags@[t] == fresh(es@, t),
                out@ == probes_upto(*board, *rules, i as int),
            decreases n - i,
        {
            if flags[i] {
                let ghost before = out@;
                proof {
                    assert(crate::geometry::point_ok(es@[i as int].bounds.min));
                    assert(crate::geometry::point_ok(es@[i as int].bounds.max));
                    assert(out@ =~= before + row_probes(*board, *rules, i as int, i + 1));
                }
                let mut j: usize = i + 1;
                while j < n
                    invariant
                        n == es@.len(),
                        es == &board.copper_entries,
                        i < j <= n,
                        lookup_of(l, *board),
                        crate::board::board_ok(*board),
                        rules_ok(*rules),
                        stated_ok(board.net_rules@),
                        aabb_ok(entry_box(es@[i as int])),
                        flags@.len() == n,
                        forall|t: int| 0 <= t < n ==> flags@[t] == fresh(es@, t),
                        out@ == before + row_probes(*board, *rules, i as int, j as int),
                    decreases n - j,
                {
                    if flags[j] {
                        proof {
                            assert(crate::geometry::point_ok(es@[j as int].bounds.min));
                            assert(crate::geometry::point_ok(es@[j as int].bounds.max));
                        }
                        visit_pair(board, rules, &l, &es[i], &es[j], &mut out);
                    }
                    proof {
                        assert(out@ =~= before + row_probes(*board, *rules, i as int, j + 1));
                    }
                    j = j + 1;
                }
                proof {
                    assert(out@ =~= probes_upto(*board, *rules, i + 1));
                }
            }
            i = i + 1;
        }
        out
    }
}

/// Whether every clearance the nets state is a length the rule carries.
pub fn clearances_fit(rules: &Vec<NetRule>) -> (r: bool)
    ensures
        r == stated_ok(rules@),
{
    let mut k: usize = 0;
    while k < rules.len()
        invariant
            k <= rules@.len(),
            forall|j: int|
                0 <= j < k ==> ((#[trigger] rules@[j]).clearance matches Some(c) ==> c
                    <= 1_000_000_000_000),
        decreases rules@.len() - k,
    {
        if let Some(c) = rules[k].clearance {
            if c > 1_000_000_000_000 {
                return false;
            }
        }
        k = k + 1;
    }
    true
}


/// Whether a coordinate is one the arithmetic can carry.
fn coord_fits(v: i64) -> (r: bool)
    ensures
        r == crate::geometry::coord_ok(v as int),
{
    -1_073_741_824 < v && v < 1_073_741_824
}

/// Whether a contact's numbers are ones the counting can carry.
pub fn contact_fits(c: &Contact) -> (r: bool)
    ensures
        r == contact_ok(*c),
{
    let s = c.stretch;
    coord_fits(s[0].0[0]) && coord_fits(s[0].0[1]) && coord_fits(s[0].1[0]) && coord_fits(s[0].1[1])
        && coord_fits(s[1].0[0]) && coord_fits(s[1].0[1]) && coord_fits(s[1].1[0]) && coord_fits(
        s[1].1[1],
    ) && c.distance > i64::MIN && c.required > i64::MIN
}


/// The via an entity is, where it is one.
pub(crate) fn via_index(b: &Board, l: &Lookup, e: u32) -> (r: Option<usize>)
    requires
        lookup_of(*l, *b),
    ensures
        match r {
            Some(k) => first_of(via_entities(*b), e) == Some(k as int) && k < b.vias@.len(),
            None => first_of(via_entities(*b), e) is None,
        },
{
    find_first(&l.vias, e)
}

/// The trace an entity is, where it is one.
pub(crate) fn trace_index(b: &Board, l: &Lookup, e: u32) -> (r: Option<usize>)
    requires
        lookup_of(*l, *b),
    ensures
        match r {
            Some(k) => first_of(trace_entities(*b), e) == Some(k as int) && k < b.traces@.len(),
            None => first_of(trace_entities(*b), e) is None,
        },
{
    find_first(&l.traces, e)
}


/// A probe is a gap under its pair's rule, never below nothing, with the
/// lower side first.
pub open spec fn probe_sound(p: Probe) -> bool {
    &&& 0 <= p.distance < p.required
    &&& side_le(p.sides.0, p.sides.1)
}

/// Every probe of a list is sound.
pub open spec fn all_sound(ps: Seq<Probe>) -> bool {
    forall|k: int| 0 <= k < ps.len() ==> probe_sound(#[trigger] ps[k])
}

/// A probe made of a gap under the rule is sound.
proof fn lemma_make_probe_sound(c: PairCtx, d: int, gap: Gap, pad: Option<[i64; 2]>)
    requires
        0 <= d < c.required,
    ensures
        probe_sound(make_probe(c, d, gap, pad)),
{
    let a = narrowed(c.sides.0, pad);
    let b = narrowed(c.sides.1, pad);
    if !side_le(a, b) {
        crate::rules::contacts::lemma_lex_asymmetric(side_key(b), side_key(a), 0);
    }
}

/// Sound lists stay sound when one is pushed or two are joined.
proof fn lemma_sound_join(x: Seq<Probe>, y: Seq<Probe>)
    requires
        all_sound(x),
        all_sound(y),
    ensures
        all_sound(x + y),
{
    assert forall|k: int| 0 <= k < (x + y).len() implies probe_sound(#[trigger] (x + y)[k]) by {
        if k < x.len() {
            assert((x + y)[k] == x[k]);
        } else {
            assert((x + y)[k] == y[k - x.len()]);
        }
    }
}

/// The gaps of one segment against others are sound.
proof fn lemma_seg_row_sound(c: PairCtx, s: Stretch, ts: Seq<Stretch>)
    ensures
        all_sound(seg_row(c, s, ts)),
    decreases ts.len(),
{
    if ts.len() > 0 {
        lemma_seg_row_sound(c, s, ts.drop_last());
        let t = ts.last();
        let d = clip(floor_seg(s.0, s.1, t.0, t.1) - c.hw);
        if d < c.required {
            lemma_make_probe_sound(c, d, Gap::Segments(s, t), None);
            lemma_sound_join(seg_row(c, s, ts.drop_last()), seq![make_probe(c, d, Gap::Segments(s, t), None)]);
            assert(seg_row(c, s, ts.drop_last()).push(make_probe(c, d, Gap::Segments(s, t), None))
                =~= seg_row(c, s, ts.drop_last()) + seq![make_probe(c, d, Gap::Segments(s, t), None)]);
        }
    }
}

/// The gaps of every segment against every other are sound.
proof fn lemma_seg_grid_sound(c: PairCtx, ss: Seq<Stretch>, ts: Seq<Stretch>)
    ensures
        all_sound(seg_grid(c, ss, ts)),
    decreases ss.len(),
{
    if ss.len() > 0 {
        lemma_seg_grid_sound(c, ss.drop_last(), ts);
        lemma_seg_row_sound(c, ss.last(), ts);
        lemma_sound_join(seg_grid(c, ss.drop_last(), ts), seg_row(c, ss.last(), ts));
    }
}

/// The gaps of one segment against pieces of copper are sound.
proof fn lemma_copper_row_sound(c: PairCtx, s: Stretch, cs: Seq<Copper>)
    ensures
        all_sound(copper_row(c, s, cs)),
    decreases cs.len(),
{
    if cs.len() > 0 {
        lemma_copper_row_sound(c, s, cs.drop_last());
        let p = cs.last();
        let d = clip(trace_copper_gap(seq![s], p) - c.hw);
        if d < c.required {
            let q = make_probe(c, d, Gap::ToCopper(s, p), Some(p.core.lower));
            lemma_make_probe_sound(c, d, Gap::ToCopper(s, p), Some(p.core.lower));
            lemma_sound_join(copper_row(c, s, cs.drop_last()), seq![q]);
            assert(copper_row(c, s, cs.drop_last()).push(q) =~= copper_row(c, s, cs.drop_last()) + seq![q]);
        }
    }
}

/// The gaps of every segment against every piece of copper are sound.
proof fn lemma_copper_grid_sound(c: PairCtx, ss: Seq<Stretch>, cs: Seq<Copper>)
    ensures
        all_sound(copper_grid(c, ss, cs)),
    decreases ss.len(),
{
    if ss.len() > 0 {
        lemma_copper_grid_sound(c, ss.drop_last(), cs);
        lemma_copper_row_sound(c, ss.last(), cs);
        lemma_sound_join(copper_grid(c, ss.drop_last(), cs), copper_row(c, ss.last(), cs));
    }
}

/// Every measurement of one pad against others is a gap never below
/// nothing.
proof fn lemma_pad_row_nonneg(x: PadBox, ys: Seq<PadBox>, skip: bool)
    ensures
        forall|k: int| 0 <= k < pad_row(x, ys, skip).len() ==> (#[trigger] pad_row(x, ys, skip)[k]).1 >= 0,
    decreases ys.len(),
{
    if ys.len() > 0 {
        lemma_pad_row_nonneg(x, ys.drop_last(), skip);
        let rest = pad_row(x, ys.drop_last(), skip);
        let m = crate::rules::clearance::measure(x.copper, ys.last().copper);
        assert(m.1 >= 0);
        assert forall|k: int| 0 <= k < rest.push(m).len() implies (#[trigger] rest.push(m)[k]).1 >= 0 by {
            if k < rest.len() {
                assert(rest.push(m)[k] == rest[k]);
            }
        }
    }
}

/// Every measurement of pads against pads is a gap never below nothing.
proof fn lemma_pad_measures_nonneg(xs: Seq<PadBox>, ys: Seq<PadBox>, skip: bool)
    ensures
        forall|k: int|
            0 <= k < pad_measures(xs, ys, skip).len() ==> (#[trigger] pad_measures(xs, ys, skip)[k]).1 >= 0,
    decreases xs.len(),
{
    if xs.len() > 0 {
        lemma_pad_measures_nonneg(xs.drop_last(), ys, skip);
        lemma_pad_row_nonneg(xs.last(), ys, skip);
        let a = pad_measures(xs.drop_last(), ys, skip);
        let r = pad_row(xs.last(), ys, skip);
        assert forall|k: int| 0 <= k < (a + r).len() implies (#[trigger] (a + r)[k]).1 >= 0 by {
            if k < a.len() {
                assert((a + r)[k] == a[k]);
            } else {
                assert((a + r)[k] == r[k - a.len()]);
            }
        }
    }
}

/// The closest of measurements never below nothing is never below nothing.
proof fn lemma_first_least_nonneg(s: Seq<(Point, int)>)
    requires
        forall|k: int| 0 <= k < s.len() ==> (#[trigger] s[k]).1 >= 0,
    ensures
        first_least(s) matches Some(m) ==> m.1 >= 0,
    decreases s.len(),
{
    if s.len() > 0 {
        let init = s.drop_last();
        assert forall|k: int| 0 <= k < init.len() implies (#[trigger] init[k]).1 >= 0 by {
            assert(init[k] == s[k]);
        }
        lemma_first_least_nonneg(init);
        assert(s.last() == s[s.len() - 1]);
    }
}

/// Where two pieces that are neither traces are measured, the gap is never
/// below nothing.
proof fn lemma_point_measure_nonneg(b: Board, ea: CopperEntry, eb: CopperEntry, na: Option<u32>, nb: Option<u32>)
    ensures
        point_measure(b, ea, eb, na, nb) matches Some(m) ==> m.1 >= 0,
{
    let pa = part_pads(b, ea.entity);
    let pb = part_pads(b, eb.entity);
    let xa = match pa {
        Some(ps) => Some(exposed(ps, eb.layer_mask, nb)),
        None => None,
    };
    let xb = match pb {
        Some(ps) => Some(exposed(ps, ea.layer_mask, na)),
        None => None,
    };
    match (xa, xb) {
        (Some(a), Some(bb)) => {
            lemma_pad_measures_nonneg(a, bb, true);
            lemma_first_least_nonneg(pad_measures(a, bb, true));
        },
        (Some(a), None) => {
            let (u, v) = (as_pads(coppers(a)), as_pads(seq![shape(b, eb)]));
            lemma_pad_measures_nonneg(u, v, false);
            lemma_first_least_nonneg(pad_measures(u, v, false));
        },
        (None, Some(bb)) => {
            let (u, v) = (as_pads(seq![shape(b, ea)]), as_pads(coppers(bb)));
            lemma_pad_measures_nonneg(u, v, false);
            lemma_first_least_nonneg(pad_measures(u, v, false));
        },
        (None, None) => {
            let (u, v) = (as_pads(seq![shape(b, ea)]), as_pads(seq![shape(b, eb)]));
            lemma_pad_measures_nonneg(u, v, false);
            lemma_first_least_nonneg(pad_measures(u, v, false));
        },
    }
}

/// The gaps of one pair are sound.
proof fn lemma_pair_sound(b: Board, r: DesignRules, ea: CopperEntry, eb: CopperEntry)
    ensures
        all_sound(pair_probes(b, r, ea, eb)),
{
    let (x, y) = (ea.entity, eb.entity);
    let (na, nb) = (single_net(b, x), single_net(b, y));
    let (ha, hb) = (half_width(b, x), half_width(b, y));
    let req = pair_rule(b, r, ea, eb);
    match (first_of(trace_entities(b), x), first_of(trace_entities(b), y)) {
        (Some(i), Some(j)) => {
            let c = pair_ctx(b, r, ea, eb, req + ha + hb, ha + hb);
            lemma_seg_grid_sound(c, lowered(b.traces@[i]), lowered(b.traces@[j]));
            lemma_seg_grid_sound(c, lowered(b.traces@[j]), lowered(b.traces@[i]));
        },
        (Some(i), None) => {
            lemma_copper_grid_sound(pair_ctx(b, r, ea, eb, req + ha, ha), lowered(b.traces@[i]), reachable(b, eb, ea.layer_mask, na));
        },
        (None, Some(j)) => {
            lemma_copper_grid_sound(pair_ctx(b, r, ea, eb, req + hb, hb), lowered(b.traces@[j]), reachable(b, ea, eb.layer_mask, nb));
        },
        (None, None) => {
            let c = pair_ctx(b, r, ea, eb, req, 0);
            lemma_point_measure_nonneg(b, ea, eb, na, nb);
            match point_measure(b, ea, eb, na, nb) {
                Some(m) => if m.1 < c.required {
                    lemma_make_probe_sound(c, m.1, Gap::AtPoint(m.0), None);
                },
                None => {},
            }
        },
    }
}


/// The probes of one entry against later ones are sound.
proof fn lemma_row_sound(b: Board, r: DesignRules, i: int, n: int)
    ensures
        all_sound(row_probes(b, r, i, n)),
    decreases n - i,
{
    if n > i + 1 {
        lemma_row_sound(b, r, i, n - 1);
        let es = b.copper_entries@;
        if fresh(es, n - 1) && measured(b, es[i], es[n - 1]) {
            lemma_pair_sound(b, r, es[i], es[n - 1]);
            lemma_sound_join(row_probes(b, r, i, n - 1), pair_probes(b, r, es[i], es[n - 1]));
        }
    }
}

/// The probes of the first entries are sound.
proof fn lemma_upto_sound(b: Board, r: DesignRules, n: int)
    ensures
        all_sound(probes_upto(b, r, n)),
    decreases n,
{
    if n > 0 {
        lemma_upto_sound(b, r, n - 1);
        if fresh(b.copper_entries@, n - 1) {
            lemma_row_sound(b, r, n - 1, b.copper_entries@.len() as int);
            lemma_sound_join(probes_upto(b, r, n - 1), row_probes(b, r, n - 1, b.copper_entries@.len() as int));
        }
    }
}

/// Every gap the clearance rule finds on a board is closer than what its
/// pair asks for and never below nothing, and names the lower of its two
/// sides first - so the same pair is named the same way round whichever of
/// its copper was met first.
pub proof fn lemma_every_probe_is_a_gap_under_its_rule(b: Board, r: DesignRules)
    ensures
        forall|k: int|
            0 <= k < board_probes(b, r).len() ==> {
                let p = #[trigger] board_probes(b, r)[k];
                &&& 0 <= p.distance < p.required
                &&& side_le(p.sides.0, p.sides.1)
            },
{
    lemma_upto_sound(b, r, b.copper_entries@.len() as int);
    assert forall|k: int| 0 <= k < board_probes(b, r).len() implies {
        let p = #[trigger] board_probes(b, r)[k];
        &&& 0 <= p.distance < p.required
        &&& side_le(p.sides.0, p.sides.1)
    } by {
        assert(probe_sound(board_probes(b, r)[k]));
    }
}


/// A contact is a probe with where along the copper it lies filled in.
pub open spec fn made_from(c: Contact, p: Probe) -> bool {
    &&& c.sides == p.sides
    &&& c.entities == p.entities
    &&& c.distance == p.distance
    &&& c.required == p.required
    &&& c.reach == p.reach
}

/// Every row the clearance rule reports, once the board's probes are made
/// into contacts and counted into places, is a clearance violation between
/// two pieces of copper, with a gap never below nothing and under what the
/// pair asks for.
pub proof fn lemma_every_row_is_a_gap_under_its_rule(
    b: Board,
    r: DesignRules,
    found: Seq<Contact>,
    rows: Seq<crate::violation::DrcViolation>,
)
    requires
        forall|k: int|
            0 <= k < found.len() ==> exists|j: int|
                0 <= j < board_probes(b, r).len() && made_from(#[trigger] found[k], board_probes(b, r)[j]),
        rows.len() == crate::rules::contacts::places(found).len(),
        forall|k: int|
            0 <= k < rows.len() ==> crate::rules::contacts::reports_place(
                #[trigger] rows[k],
                crate::rules::contacts::places(found)[k],
            ),
    ensures
        forall|k: int|
            0 <= k < rows.len() ==> {
                let v = #[trigger] rows[k];
                &&& v.kind == crate::violation::ViolationKind::Clearance
                &&& v.other_entity is Some
                &&& v.actual matches Some(a) && v.required matches Some(q) && 0 <= a < q
            },
{
    lemma_every_probe_is_a_gap_under_its_rule(b, r);
    crate::rules::contacts::lemma_places_are_contacts(found);
    assert forall|k: int| 0 <= k < rows.len() implies {
        let v = #[trigger] rows[k];
        &&& v.kind == crate::violation::ViolationKind::Clearance
        &&& v.other_entity is Some
        &&& v.actual matches Some(a) && v.required matches Some(q) && 0 <= a < q
    } by {
        let c = crate::rules::contacts::places(found)[k];
        assert(found.contains(c));
        let i = choose|i: int| 0 <= i < found.len() && found[i] == c;
        let j = choose|j: int| 0 <= j < board_probes(b, r).len() && made_from(found[i], board_probes(b, r)[j]);
        assert(probe_sound(board_probes(b, r)[j]));
    }
}


/// Every probe of a list names the entities `x` and `y`, one way round or
/// the other.
pub open spec fn all_name(ps: Seq<Probe>, x: u32, y: u32) -> bool {
    forall|k: int| 0 <= k < ps.len() ==> (#[trigger] ps[k]).entities == (x, y) || ps[k].entities == (y, x)
}

/// Lists that name the same pair still do when joined.
proof fn lemma_name_join(a: Seq<Probe>, b: Seq<Probe>, x: u32, y: u32)
    requires
        all_name(a, x, y),
        all_name(b, x, y),
    ensures
        all_name(a + b, x, y),
{
    assert forall|k: int| 0 <= k < (a + b).len() implies (#[trigger] (a + b)[k]).entities == (x, y) || (a + b)[k].entities == (y, x) by {
        if k < a.len() {
            assert((a + b)[k] == a[k]);
        } else {
            assert((a + b)[k] == b[k - a.len()]);
        }
    }
}

/// The gaps of one segment against others name the pair's entities.
proof fn lemma_seg_row_names(c: PairCtx, s: Stretch, ts: Seq<Stretch>)
    ensures
        all_name(seg_row(c, s, ts), c.entities.0, c.entities.1),
    decreases ts.len(),
{
    if ts.len() > 0 {
        lemma_seg_row_names(c, s, ts.drop_last());
        let t = ts.last();
        let d = clip(floor_seg(s.0, s.1, t.0, t.1) - c.hw);
        let q = make_probe(c, d, Gap::Segments(s, t), None);
        lemma_name_join(seg_row(c, s, ts.drop_last()), seq![q], c.entities.0, c.entities.1);
        assert(seg_row(c, s, ts.drop_last()).push(q) =~= seg_row(c, s, ts.drop_last()) + seq![q]);
    }
}

/// The gaps of every segment against every other name the pair's entities.
proof fn lemma_seg_grid_names(c: PairCtx, ss: Seq<Stretch>, ts: Seq<Stretch>)
    ensures
        all_name(seg_grid(c, ss, ts), c.entities.0, c.entities.1),
    decreases ss.len(),
{
    if ss.len() > 0 {
        lemma_seg_grid_names(c, ss.drop_last(), ts);
        lemma_seg_row_names(c, ss.last(), ts);
        lemma_name_join(seg_grid(c, ss.drop_last(), ts), seg_row(c, ss.last(), ts), c.entities.0, c.entities.1);
    }
}

/// The gaps of one segment against copper name the pair's entities.
proof fn lemma_copper_row_names(c: PairCtx, s: Stretch, cs: Seq<Copper>)
    ensures
        all_name(copper_row(c, s, cs), c.entities.0, c.entities.1),
    decreases cs.len(),
{
    if cs.len() > 0 {
        lemma_copper_row_names(c, s, cs.drop_last());
        let p = cs.last();
        let d = clip(trace_copper_gap(seq![s], p) - c.hw);
        let q = make_probe(c, d, Gap::ToCopper(s, p), Some(p.core.lower));
        lemma_name_join(copper_row(c, s, cs.drop_last()), seq![q], c.entities.0, c.entities.1);
        assert(copper_row(c, s, cs.drop_last()).push(q) =~= copper_row(c, s, cs.drop_last()) + seq![q]);
    }
}

/// The gaps of every segment against copper name the pair's entities.
proof fn lemma_copper_grid_names(c: PairCtx, ss: Seq<Stretch>, cs: Seq<Copper>)
    ensures
        all_name(copper_grid(c, ss, cs), c.entities.0, c.entities.1),
    decreases ss.len(),
{
    if ss.len() > 0 {
        lemma_copper_grid_names(c, ss.drop_last(), cs);
        lemma_copper_row_names(c, ss.last(), cs);
        lemma_name_join(copper_grid(c, ss.drop_last(), cs), copper_row(c, ss.last(), cs), c.entities.0, c.entities.1);
    }
}

/// The gaps of a pair of entries name the pair's entities.
proof fn lemma_pair_names(b: Board, r: DesignRules, ea: CopperEntry, eb: CopperEntry)
    ensures
        all_name(pair_probes(b, r, ea, eb), ea.entity, eb.entity),
{
    let (x, y) = (ea.entity, eb.entity);
    let (na, nb) = (single_net(b, x), single_net(b, y));
    let (ha, hb) = (half_width(b, x), half_width(b, y));
    let req = pair_rule(b, r, ea, eb);
    match (first_of(trace_entities(b), x), first_of(trace_entities(b), y)) {
        (Some(i), Some(j)) => {
            let c = pair_ctx(b, r, ea, eb, req + ha + hb, ha + hb);
            lemma_seg_grid_names(c, lowered(b.traces@[i]), lowered(b.traces@[j]));
            lemma_seg_grid_names(c, lowered(b.traces@[j]), lowered(b.traces@[i]));
        },
        (Some(i), None) => {
            lemma_copper_grid_names(pair_ctx(b, r, ea, eb, req + ha, ha), lowered(b.traces@[i]), reachable(b, eb, ea.layer_mask, na));
        },
        (None, Some(j)) => {
            lemma_copper_grid_names(pair_ctx(b, r, ea, eb, req + hb, hb), lowered(b.traces@[j]), reachable(b, ea, eb.layer_mask, nb));
        },
        (None, None) => {},
    }
}

/// No probe among the first entries names two entities no entries of which
/// share a layer.
proof fn lemma_row_apart(b: Board, r: DesignRules, i: int, n: int, x: u32, y: u32)
    requires
        0 <= i < b.copper_entries@.len(),
        n <= b.copper_entries@.len(),
        forall|s: int, t: int|
            0 <= s < b.copper_entries@.len() && 0 <= t < b.copper_entries@.len() && (#[trigger] b.copper_entries@[s]).entity == x
                && (#[trigger] b.copper_entries@[t]).entity == y ==> b.copper_entries@[s].layer_mask
                & b.copper_entries@[t].layer_mask == 0,
    ensures
        forall|k: int|
            0 <= k < row_probes(b, r, i, n).len() ==> (#[trigger] row_probes(b, r, i, n)[k]).entities != (x, y)
                && row_probes(b, r, i, n)[k].entities != (y, x),
    decreases n - i,
{
    let es = b.copper_entries@;
    if n > i + 1 {
        lemma_row_apart(b, r, i, n - 1, x, y);
        let rest = row_probes(b, r, i, n - 1);
        if fresh(es, n - 1) && measured(b, es[i], es[n - 1]) {
            let here = pair_probes(b, r, es[i], es[n - 1]);
            lemma_pair_names(b, r, es[i], es[n - 1]);
            assert forall|k: int| 0 <= k < (rest + here).len() implies (#[trigger] (rest + here)[k]).entities != (x, y)
                && (rest + here)[k].entities != (y, x) by {
                if k < rest.len() {
                    assert((rest + here)[k] == rest[k]);
                } else {
                    assert((rest + here)[k] == here[k - rest.len()]);
                    let (a, c) = (es[i].entity, es[n - 1].entity);
                    if here[k - rest.len()].entities == (x, y) || here[k - rest.len()].entities == (y, x) {
                        if a == x && c == y {
                            assert(es[i].layer_mask & es[n - 1].layer_mask == 0);
                        } else if a == y && c == x {
                            let (u, w) = (es[i].layer_mask, es[n - 1].layer_mask);
                            assert(w & u == 0);
                            assert(u & w == w & u) by (bit_vector);
                        }
                    }
                }
            }
        }
    }
}

/// Two pieces of copper whose entries share no layer are never measured
/// against each other: no gap the clearance rule finds names them.
pub proof fn lemma_no_gap_between_copper_on_different_layers(b: Board, r: DesignRules, x: u32, y: u32)
    requires
        forall|s: int, t: int|
            0 <= s < b.copper_entries@.len() && 0 <= t < b.copper_entries@.len() && (#[trigger] b.copper_entries@[s]).entity == x
                && (#[trigger] b.copper_entries@[t]).entity == y ==> b.copper_entries@[s].layer_mask
                & b.copper_entries@[t].layer_mask == 0,
    ensures
        forall|k: int|
            0 <= k < board_probes(b, r).len() ==> (#[trigger] board_probes(b, r)[k]).entities != (x, y)
                && board_probes(b, r)[k].entities != (y, x),
{
    lemma_upto_apart(b, r, b.copper_entries@.len() as int, x, y);
}

/// No probe among the first `n` entries names the two entities.
proof fn lemma_upto_apart(b: Board, r: DesignRules, n: int, x: u32, y: u32)
    requires
        n <= b.copper_entries@.len(),
        forall|s: int, t: int|
            0 <= s < b.copper_entries@.len() && 0 <= t < b.copper_entries@.len() && (#[trigger] b.copper_entries@[s]).entity == x
                && (#[trigger] b.copper_entries@[t]).entity == y ==> b.copper_entries@[s].layer_mask
                & b.copper_entries@[t].layer_mask == 0,
    ensures
        forall|k: int|
            0 <= k < probes_upto(b, r, n).len() ==> (#[trigger] probes_upto(b, r, n)[k]).entities != (x, y)
                && probes_upto(b, r, n)[k].entities != (y, x),
    decreases n,
{
    if n > 0 {
        lemma_upto_apart(b, r, n - 1, x, y);
        if fresh(b.copper_entries@, n - 1) {
            let rest = probes_upto(b, r, n - 1);
            let here = row_probes(b, r, n - 1, b.copper_entries@.len() as int);
            lemma_row_apart(b, r, n - 1, b.copper_entries@.len() as int, x, y);
            assert forall|k: int| 0 <= k < (rest + here).len() implies (#[trigger] (rest + here)[k]).entities != (x, y)
                && (rest + here)[k].entities != (y, x) by {
                if k < rest.len() {
                    assert((rest + here)[k] == rest[k]);
                } else {
                    assert((rest + here)[k] == here[k - rest.len()]);
                }
            }
        }
    }
}

} // verus!
