//! The board as the rules read it.
//!
//! Every rule reads a few facts about the board: where the vias are and how
//! big, which pads each part has and where they land, the traces and the
//! zones. This is those facts as plain values. Entities are known by their
//! index, placement is already done - a pad's offset is given both as the
//! footprint states it and turned with its part - and a layer set is a bit
//! mask with one bit per copper layer.
use vstd::prelude::*;

use crate::geometry::{point_ok, Point, Rect};
use crate::rules::clearance::{aabb_ok, radius_ok, Copper};

verus! {

/// A layer of the board.
#[derive(Debug, Clone, Copy, PartialEq, Eq, Structural)]
pub enum Layer {
    /// The top copper layer.
    TopCopper,
    /// The bottom copper layer.
    BottomCopper,
    /// An inner copper layer, numbered from zero below the top.
    Inner(u8),
    /// Any layer that carries no copper: silkscreen, mask, paste, outline.
    NonCopper,
}

/// A via: a plated hole joining two copper layers.
#[derive(Debug, Clone, Copy, PartialEq, Eq, Structural)]
pub struct Via {
    /// The via's entity.
    pub entity: u32,
    /// Where it is.
    pub position: Point,
    /// The drill that makes it.
    pub drill: i64,
    /// The copper disc around it.
    pub outer_diameter: i64,
    /// The layer it starts on.
    pub start_layer: Layer,
    /// The layer it ends on.
    pub end_layer: Layer,
    /// The net it is on.
    pub net: u32,
}

/// One pad of a placed part.
#[derive(Debug, Clone)]
pub struct PadSite {
    /// The pad's number, which is also the pin it is.
    pub number: String,
    /// Where the footprint puts the pad's centre, relative to the part, before
    /// the part is turned.
    pub offset: Point,
    /// The same offset once the part is turned.
    pub turned: Point,
    /// Where the bit goes down, relative to the part and turned with it. The
    /// centre for a drilled hole; one end of the travel for a milled slot.
    pub hole_from: Point,
    /// Where the bit comes up, relative to the part and turned with it.
    pub hole_to: Point,
    /// Full width across the footprint's x axis.
    pub width: i64,
    /// Full height across the footprint's y axis.
    pub height: i64,
    /// The drill, for a pad with a hole.
    pub drill: Option<i64>,
    /// Whether copper is plated down the hole.
    pub plated: bool,
    /// Whether the pad is surface-mount: copper with no hole.
    pub smd: bool,
    /// Whether the pad has copper on the top layer.
    pub top: bool,
    /// Whether the pad has copper on the bottom layer.
    pub bottom: bool,
    /// The pad's own solder mask margin, where it states one.
    pub mask_margin: Option<i64>,
    /// The net the design connects this pin to, where it connects one.
    pub net: Option<u32>,
    /// The pad's copper on the board: its core box grown by a radius.
    pub copper: Copper,
    /// The copper layers the pad is on, one bit per layer; zero where its
    /// layer list names none the checker understands.
    pub copper_mask: u32,
}

/// A placed part.
#[derive(Debug, Clone)]
pub struct Component {
    /// The part's entity.
    pub entity: u32,
    /// Its reference designator.
    pub refdes: String,
    /// Where its origin sits.
    pub position: Point,
    /// The pads its footprint has, empty where the footprint is unknown.
    pub pads: Vec<PadSite>,
    /// Whether its footprint is one of the built-in library's, rather than
    /// one the design defined for itself.
    pub builtin: bool,
    /// Whether it is turned by a quarter turn, so that its pads' width and
    /// height swap on the board.
    pub quarter_turn: bool,
    /// The box its courtyard occupies once placed, where its footprint has
    /// one.
    pub courtyard: Option<Rect>,
}

/// One straight run of a trace.
#[derive(Debug, Clone, Copy, PartialEq, Eq, Structural)]
pub struct Segment {
    /// Where it starts.
    pub start: Point,
    /// Where it ends.
    pub end: Point,
}

/// A trace: a chain of segments of one width on one net.
#[derive(Debug, Clone)]
pub struct Trace {
    /// The trace's entity.
    pub entity: u32,
    /// The net it is on.
    pub net: u32,
    /// How wide it is drawn.
    pub width: i64,
    /// Its segments, in order.
    pub segments: Vec<Segment>,
    /// The bit of the copper layer it is on, where that layer is copper.
    pub layer_bit: Option<u32>,
    /// The neck the trace itself declares, where it declares one.
    pub neck: Option<Neck>,
    /// How long the trace is, end to end along its segments.
    pub length: i64,
    /// The longest unbroken stretch of its segments drawn narrower than the
    /// trace, where any segment carries a width of its own; `None` where none
    /// does and nothing was measured.
    pub thin_run: Option<i64>,
}

/// What a zone is for.
#[derive(Debug, Clone, Copy, PartialEq, Eq, Structural)]
pub enum ZoneKind {
    /// Copper poured over an area.
    CopperPour,
    /// An area nothing may be placed in.
    Keepout,
    /// A part of a rigid-flex board that bends in service.
    Flex,
    /// An area named so the design can point at it.
    Region,
}

/// A zone drawn on the board.
#[derive(Debug, Clone)]
pub struct Zone {
    /// The zone's entity.
    pub entity: u32,
    /// The area it covers.
    pub bounds: Rect,
    /// What it is for.
    pub kind: ZoneKind,
    /// The copper layers it is on.
    pub layer_mask: u32,
    /// Its name, where it has one.
    pub name: Option<String>,
    /// The net it is poured on, where it has one.
    pub net: Option<u32>,
}

/// A declared neck: how narrow copper may get on the way into a pad, and
/// for how far.
#[derive(Debug, Clone, Copy, PartialEq, Eq, Structural)]
pub struct Neck {
    /// The narrowest the copper may get.
    pub width: i64,
    /// How far it may run that narrow.
    pub length: i64,
}

/// What a net's own block asks for.
#[derive(Debug, Clone, Copy, PartialEq, Eq, Structural)]
pub struct NetRule {
    /// The net.
    pub net: u32,
    /// The trace width it asks for, where it states one.
    pub width: Option<i64>,
    /// The clearance it asks for, where it states one.
    pub clearance: Option<i64>,
    /// The neck it allows every trace on it, where it states one.
    pub neck: Option<Neck>,
    /// The current it states it carries, in microamps, where it states one.
    pub current_ua: Option<i64>,
}

/// What the board's own stackup says of one area it names.
#[derive(Debug, Clone)]
pub struct StackArea {
    /// The area's name.
    pub name: String,
    /// How thick the stack over it is, where every layer of it states a
    /// thickness.
    pub thickness: Option<i64>,
}

/// One layer of a stackup the design declares.
#[derive(Debug, Clone)]
pub struct StackLayer {
    /// Whether the layer is copper.
    pub copper: bool,
    /// The layer's kind as the design writes it, such as `prepreg` or `mask`.
    pub kind: String,
}

/// A stackup the design declares: what it tells a fabricator to press
/// together.
#[derive(Debug, Clone)]
pub struct Stackup {
    /// Its layers, top first.
    pub layers: Vec<StackLayer>,
    /// How many copper layers it describes.
    pub copper_count: usize,
    /// Each copper layer, by its position among the layers, that the next
    /// copper layer below it touches with no dielectric between them.
    pub copper_touching_copper: Vec<usize>,
}

/// A net of the design and its number.
#[derive(Debug, Clone)]
pub struct NetName {
    /// The net's name.
    pub name: String,
    /// Its number, as traces, vias and pads carry it.
    pub id: u32,
}

/// A differential pair: two nets carrying one signal between them.
#[derive(Debug, Clone)]
pub struct DiffPair {
    /// The pair's name.
    pub name: String,
    /// The name of its positive half.
    pub positive: String,
    /// The name of its negative half.
    pub negative: String,
}

/// What a copper pour fills to on one copper layer: its outline less every
/// obstacle, in pieces, and the thermal spokes joining its own net's pads
/// to it.
#[derive(Debug, Clone)]
pub struct PourFill {
    /// The pour's zone entity.
    pub zone: u32,
    /// The copper layer it is filled on, as a layer mask bit.
    pub layer_mask: u32,
    /// The rectangles the fill leaves.
    pub pieces: Vec<Rect>,
    /// The thermal spokes bridging pads of the pour's net to the fill.
    pub spokes: Vec<Rect>,
}

/// A fill whose pieces' corners are inside the carried range.
pub open spec fn fill_ok(f: PourFill) -> bool {
    forall|k: int|
        0 <= k < f.pieces@.len() ==> point_ok((#[trigger] f.pieces@[k]).min) && point_ok(f.pieces@[k].max)
}

/// A piece of copper as the board's spatial index holds it: what it belongs
/// to, the box it occupies and the layers it is on.
#[derive(Debug, Clone, Copy, PartialEq, Eq, Structural)]
pub struct CopperEntry {
    /// The entity the copper belongs to.
    pub entity: u32,
    /// The box it occupies.
    pub bounds: Rect,
    /// The copper layers it is on.
    pub layer_mask: u32,
}

/// The nets an entity carries: those a part's pins connect to, or the one
/// net of a trace or via.
#[derive(Debug, Clone)]
pub struct NetLink {
    /// The entity.
    pub entity: u32,
    /// Its nets.
    pub nets: Vec<u32>,
}

/// The one net an entity names: a trace's, a via's, a pour's, or that of
/// any other copper tagged with a net.
#[derive(Debug, Clone, Copy, PartialEq, Eq, Structural)]
pub struct NetTag {
    /// The entity.
    pub entity: u32,
    /// Its net.
    pub net: u32,
}

/// The board, as the rules read it.
#[derive(Debug, Clone)]
pub struct Board {
    /// Every via.
    pub vias: Vec<Via>,
    /// Every placed part.
    pub components: Vec<Component>,
    /// Every trace.
    pub traces: Vec<Trace>,
    /// Every zone.
    pub zones: Vec<Zone>,
    /// What each net's own block asks for.
    pub net_rules: Vec<NetRule>,
    /// The thickness the board's own stackup states, where it declares one.
    pub stackup_thickness: Option<i64>,
    /// The board's width and height, where the design declares a board.
    pub size: Option<(i64, i64)>,
    /// The areas the board's own stackup names, in the order it names them;
    /// `None` where the design declares no stackup.
    pub stack_areas: Option<Vec<StackArea>>,
    /// The stackup the design declares, where it declares one.
    pub stackup: Option<Stackup>,
    /// How many copper layers the board says it has, where the design
    /// declares a board.
    pub layer_count: Option<u8>,
    /// The board's own entity, where the design declares a board.
    pub board_entity: Option<u32>,
    /// The design's nets.
    pub nets: Vec<NetName>,
    /// The differential pairs the design declares.
    pub diff_pairs: Vec<DiffPair>,
    /// What each copper pour fills to on each outer copper layer its mask
    /// names, top first, filled at the clearance the board is checked with.
    pub pour_fills: Vec<PourFill>,
    /// Every piece of copper the board's spatial index holds.
    pub copper_entries: Vec<CopperEntry>,
    /// The nets of each entity that carries any.
    pub net_links: Vec<NetLink>,
    /// The one net of each entity that names one.
    pub net_ids: Vec<NetTag>,
    /// The board's edge as a ring of corners, where the design draws one
    /// rather than leaving the board the rectangle its size gives.
    pub outline: Option<Vec<Point>>,
}

/// A stackup whose touching layers are layers of it.
pub open spec fn stackup_ok(s: Stackup) -> bool {
    forall|k: int|
        0 <= k < s.copper_touching_copper@.len() ==> #[trigger] s.copper_touching_copper@[k] < s.layers@.len()
}

/// The largest size, in nanometres, a drill, pad or trace is carried with:
/// a little over half a metre.
pub open spec fn size_ok(v: int) -> bool {
    -536_870_912 < v < 536_870_912
}

impl Zone {
    /// Whether the zone keeps parts out.
    pub fn is_keepout(&self) -> (b: bool)
        ensures
            b == (self.kind == ZoneKind::Keepout),
    {
        match self.kind {
            ZoneKind::Keepout => true,
            _ => false,
        }
    }

    /// Whether the zone is poured copper.
    pub fn is_copper_pour(&self) -> (b: bool)
        ensures
            b == (self.kind == ZoneKind::CopperPour),
    {
        match self.kind {
            ZoneKind::CopperPour => true,
            _ => false,
        }
    }

    /// Whether the zone is a part of the board that bends.
    pub fn is_flex(&self) -> (b: bool)
        ensures
            b == (self.kind == ZoneKind::Flex),
    {
        match self.kind {
            ZoneKind::Flex => true,
            _ => false,
        }
    }

    /// Whether a point lies in the zone, its edges included.
    pub fn contains(&self, p: Point) -> (b: bool)
        ensures
            b == rect_contains(self.bounds, p),
    {
        self.bounds.min.x <= p.x && p.x <= self.bounds.max.x && self.bounds.min.y <= p.y && p.y
            <= self.bounds.max.y
    }
}

/// A point lies in a rectangle, its edges included.
pub open spec fn rect_contains(r: Rect, p: Point) -> bool {
    r.min.x <= p.x <= r.max.x && r.min.y <= p.y <= r.max.y
}

/// **A zone holds a point exactly when both of the point's coordinates lie
/// within the zone's on the same axis**, edges included: a point above,
/// below, left or right of the box is never held, and swapping the x and y
/// of both box and point changes nothing.
pub proof fn lemma_rect_contains_both_axes(r: Rect, p: Point)
    ensures
        rect_contains(r, p) <==> (r.min.x <= p.x && p.x <= r.max.x && r.min.y <= p.y && p.y <= r.max.y),
        p.y > r.max.y || p.y < r.min.y || p.x > r.max.x || p.x < r.min.x ==> !rect_contains(r, p),
        rect_contains(r, p) == rect_contains(
            Rect { min: Point { x: r.min.y, y: r.min.x }, max: Point { x: r.max.y, y: r.max.x } },
            Point { x: p.y, y: p.x },
        ),
{
}

/// A point within half a metre of the origin, so that two of them added
/// stay inside the carried range.
pub open spec fn near(p: Point) -> bool {
    -536_870_912 < p.x < 536_870_912 && -536_870_912 < p.y < 536_870_912
}

/// A pad whose numbers the rules can add up without leaving the carried
/// range.
pub open spec fn pad_ok(p: PadSite) -> bool {
    &&& near(p.offset)
    &&& near(p.turned)
    &&& near(p.hole_from)
    &&& near(p.hole_to)
    &&& size_ok(p.width as int)
    &&& size_ok(p.height as int)
    &&& (p.drill matches Some(d) ==> size_ok(d as int))
    &&& (p.mask_margin matches Some(m) ==> size_ok(m as int))
    &&& aabb_ok(p.copper.core)
    &&& radius_ok(p.copper.radius)
}

/// A part whose numbers the rules can add up without leaving the carried
/// range.
pub open spec fn component_ok(c: Component) -> bool {
    &&& near(c.position)
    &&& forall|k: int| 0 <= k < c.pads@.len() ==> pad_ok(#[trigger] c.pads@[k])
    &&& (c.courtyard matches Some(r) ==> point_ok(r.min) && point_ok(r.max))
}

/// A via whose numbers the rules can add up without leaving the carried
/// range.
pub open spec fn via_ok(v: Via) -> bool {
    point_ok(v.position) && size_ok(v.drill as int) && size_ok(v.outer_diameter as int)
}

/// A trace whose numbers the rules can add up without leaving the carried
/// range.
pub open spec fn trace_ok(t: Trace) -> bool {
    &&& size_ok(t.width as int)
    &&& forall|k: int|
        0 <= k < t.segments@.len() ==> point_ok((#[trigger] t.segments@[k]).start) && point_ok(
            t.segments@[k].end,
        )
}

/// A zone whose corners are inside the carried range.
pub open spec fn zone_ok(z: Zone) -> bool {
    point_ok(z.bounds.min) && point_ok(z.bounds.max)
}

/// A board whose numbers the rules can add up without leaving the carried
/// range: every coordinate within a metre of the origin, every size within
/// half a metre.
pub open spec fn board_ok(b: Board) -> bool {
    &&& forall|k: int| 0 <= k < b.vias@.len() ==> via_ok(#[trigger] b.vias@[k])
    &&& forall|k: int| 0 <= k < b.components@.len() ==> component_ok(#[trigger] b.components@[k])
    &&& forall|k: int| 0 <= k < b.traces@.len() ==> trace_ok(#[trigger] b.traces@[k])
    &&& forall|k: int| 0 <= k < b.zones@.len() ==> zone_ok(#[trigger] b.zones@[k])
    &&& forall|k: int|
        0 <= k < b.net_rules@.len() ==> ((#[trigger] b.net_rules@[k]).width matches Some(w)
            ==> size_ok(w as int))
    &&& (b.stackup_thickness matches Some(t) ==> 0 <= t <= 1_000_000_000_000)
    &&& (b.size matches Some(s) ==> size_ok(s.0 as int) && size_ok(s.1 as int))
    &&& (b.stack_areas matches Some(areas) ==> forall|k: int|
        0 <= k < areas@.len() ==> ((#[trigger] areas@[k]).thickness matches Some(t) ==> size_ok(
            t as int,
        )))
    &&& (b.stackup matches Some(s) ==> stackup_ok(s))
    &&& forall|k: int| 0 <= k < b.pour_fills@.len() ==> fill_ok(#[trigger] b.pour_fills@[k])
    &&& forall|k: int|
        0 <= k < b.copper_entries@.len() ==> point_ok((#[trigger] b.copper_entries@[k]).bounds.min) && point_ok(
            b.copper_entries@[k].bounds.max,
        )
    &&& (b.outline matches Some(ring) ==> forall|k: int| 0 <= k < ring@.len() ==> point_ok(#[trigger] ring@[k]))
}

/// Whether every piece of a fill has its corners inside the carried range.
fn fill_fits(f: &PourFill) -> (r: bool)
    ensures
        r == fill_ok(*f),
{
    let mut k: usize = 0;
    while k < f.pieces.len()
        invariant
            k <= f.pieces@.len(),
            forall|j: int| 0 <= j < k ==> point_ok((#[trigger] f.pieces@[j]).min) && point_ok(f.pieces@[j].max),
        decreases f.pieces@.len() - k,
    {
        if !(point_fits(f.pieces[k].min) && point_fits(f.pieces[k].max)) {
            return false;
        }
        k = k + 1;
    }
    true
}

/// The pads of one part that `keep` picks, each with its part, in the
/// order the footprint lists them.
pub open spec fn picked_pads(
    c: Component,
    ps: Seq<PadSite>,
    keep: spec_fn(Component, PadSite) -> bool,
) -> Seq<(Component, PadSite)>
    decreases ps.len(),
{
    if ps.len() == 0 {
        Seq::empty()
    } else {
        let rest = picked_pads(c, ps.drop_last(), keep);
        if keep(c, ps.last()) {
            rest.push((c, ps.last()))
        } else {
            rest
        }
    }
}

/// The pads of every part that `keep` picks, part by part in board order.
pub open spec fn picked(cs: Seq<Component>, keep: spec_fn(Component, PadSite) -> bool) -> Seq<
    (Component, PadSite),
>
    decreases cs.len(),
{
    if cs.len() == 0 {
        Seq::empty()
    } else {
        picked(cs.drop_last(), keep) + picked_pads(cs.last(), cs.last().pads@, keep)
    }
}

/// The vias `keep` picks, in board order.
pub open spec fn picked_vias(vs: Seq<Via>, keep: spec_fn(Via) -> bool) -> Seq<Via>
    decreases vs.len(),
{
    if vs.len() == 0 {
        Seq::empty()
    } else {
        let rest = picked_vias(vs.drop_last(), keep);
        if keep(vs.last()) {
            rest.push(vs.last())
        } else {
            rest
        }
    }
}

/// Where a pad sits on the board when its offset is taken as the footprint
/// states it, unturned.
pub open spec fn pad_location(c: Component, p: PadSite) -> Point {
    Point { x: (c.position.x + p.offset.x) as i64, y: (c.position.y + p.offset.y) as i64 }
}

/// Where a pad sits on the board once its part is turned.
pub open spec fn pad_centre(c: Component, p: PadSite) -> Point {
    Point { x: (c.position.x + p.turned.x) as i64, y: (c.position.y + p.turned.y) as i64 }
}

/// Whether a size is inside the carried range.
fn size_fits(v: i64) -> (b: bool)
    ensures
        b == size_ok(v as int),
{
    -536_870_912 < v && v < 536_870_912
}

/// Whether a point is within half a metre of the origin.
fn near_fits(p: Point) -> (b: bool)
    ensures
        b == near(p),
{
    size_fits(p.x) && size_fits(p.y)
}

/// Whether a coordinate is inside the carried range.
fn coord_fits(v: i64) -> (b: bool)
    ensures
        b == crate::geometry::coord_ok(v as int),
{
    -1_073_741_824 < v && v < 1_073_741_824
}

/// Whether a point is inside the carried range.
fn point_fits(p: Point) -> (b: bool)
    ensures
        b == point_ok(p),
{
    coord_fits(p.x) && coord_fits(p.y)
}

/// Whether a pad's numbers are inside the carried range.
fn pad_fits(p: &PadSite) -> (b: bool)
    ensures
        b == pad_ok(*p),
{
    let drill = match p.drill {
        Some(d) => size_fits(d),
        None => true,
    };
    let margin = match p.mask_margin {
        Some(m) => size_fits(m),
        None => true,
    };
    let core = p.copper.core;
    near_fits(p.offset) && near_fits(p.turned) && near_fits(p.hole_from) && near_fits(p.hole_to)
        && size_fits(p.width) && size_fits(p.height) && drill && margin && coord_fits(core.lower[0])
        && coord_fits(core.lower[1]) && coord_fits(core.upper[0]) && coord_fits(core.upper[1])
        && -1_073_741_824 < p.copper.radius && p.copper.radius < 1_073_741_824
}

/// Whether a part's numbers are inside the carried range.
fn component_fits(c: &Component) -> (b: bool)
    ensures
        b == component_ok(*c),
{
    if !near_fits(c.position) {
        return false;
    }
    match c.courtyard {
        Some(r) => if !(point_fits(r.min) && point_fits(r.max)) {
            return false;
        },
        None => {},
    }
    let mut k: usize = 0;
    while k < c.pads.len()
        invariant
            k <= c.pads@.len(),
            forall|j: int| 0 <= j < k ==> pad_ok(#[trigger] c.pads@[j]),
        decreases c.pads@.len() - k,
    {
        if !pad_fits(&c.pads[k]) {
            return false;
        }
        k = k + 1;
    }
    true
}

/// Whether a trace's numbers are inside the carried range.
fn trace_fits(t: &Trace) -> (b: bool)
    ensures
        b == trace_ok(*t),
{
    if !size_fits(t.width) {
        return false;
    }
    let mut k: usize = 0;
    while k < t.segments.len()
        invariant
            k <= t.segments@.len(),
            forall|j: int|
                0 <= j < k ==> point_ok((#[trigger] t.segments@[j]).start) && point_ok(t.segments@[j].end),
        decreases t.segments@.len() - k,
    {
        if !(point_fits(t.segments[k].start) && point_fits(t.segments[k].end)) {
            return false;
        }
        k = k + 1;
    }
    true
}

/// Whether every number of the board is inside the carried range: every
/// coordinate within a metre of the origin, every size within half a
/// metre. The rules ask this of a board before they read it.
pub fn board_fits(b: &Board) -> (r: bool)
    ensures
        r == board_ok(*b),
{
    let mut k: usize = 0;
    while k < b.vias.len()
        invariant
            k <= b.vias@.len(),
            forall|j: int| 0 <= j < k ==> via_ok(#[trigger] b.vias@[j]),
        decreases b.vias@.len() - k,
    {
        let v = b.vias[k];
        if !(point_fits(v.position) && size_fits(v.drill) && size_fits(v.outer_diameter)) {
            return false;
        }
        k = k + 1;
    }
    let mut k: usize = 0;
    while k < b.components.len()
        invariant
            k <= b.components@.len(),
            forall|j: int| 0 <= j < b.vias@.len() ==> via_ok(#[trigger] b.vias@[j]),
            forall|j: int| 0 <= j < k ==> component_ok(#[trigger] b.components@[j]),
        decreases b.components@.len() - k,
    {
        if !component_fits(&b.components[k]) {
            return false;
        }
        k = k + 1;
    }
    let mut k: usize = 0;
    while k < b.traces.len()
        invariant
            k <= b.traces@.len(),
            forall|j: int| 0 <= j < b.vias@.len() ==> via_ok(#[trigger] b.vias@[j]),
            forall|j: int| 0 <= j < b.components@.len() ==> component_ok(#[trigger] b.components@[j]),
            forall|j: int| 0 <= j < k ==> trace_ok(#[trigger] b.traces@[j]),
        decreases b.traces@.len() - k,
    {
        if !trace_fits(&b.traces[k]) {
            return false;
        }
        k = k + 1;
    }
    let mut k: usize = 0;
    while k < b.zones.len()
        invariant
            k <= b.zones@.len(),
            forall|j: int| 0 <= j < b.vias@.len() ==> via_ok(#[trigger] b.vias@[j]),
            forall|j: int| 0 <= j < b.components@.len() ==> component_ok(#[trigger] b.components@[j]),
            forall|j: int| 0 <= j < b.traces@.len() ==> trace_ok(#[trigger] b.traces@[j]),
            forall|j: int| 0 <= j < k ==> zone_ok(#[trigger] b.zones@[j]),
        decreases b.zones@.len() - k,
    {
        if !(point_fits(b.zones[k].bounds.min) && point_fits(b.zones[k].bounds.max)) {
            return false;
        }
        k = k + 1;
    }
    let mut k: usize = 0;
    while k < b.net_rules.len()
        invariant
            k <= b.net_rules@.len(),
            forall|j: int| 0 <= j < b.vias@.len() ==> via_ok(#[trigger] b.vias@[j]),
            forall|j: int| 0 <= j < b.components@.len() ==> component_ok(#[trigger] b.components@[j]),
            forall|j: int| 0 <= j < b.traces@.len() ==> trace_ok(#[trigger] b.traces@[j]),
            forall|j: int| 0 <= j < b.zones@.len() ==> zone_ok(#[trigger] b.zones@[j]),
            forall|j: int|
                0 <= j < k ==> ((#[trigger] b.net_rules@[j]).width matches Some(w) ==> size_ok(w as int)),
        decreases b.net_rules@.len() - k,
    {
        match b.net_rules[k].width {
            Some(w) => if !size_fits(w) {
                return false;
            },
            None => {},
        }
        k = k + 1;
    }
    match b.stackup_thickness {
        Some(t) => if !(0 <= t && t <= 1_000_000_000_000) {
            return false;
        },
        None => {},
    }
    match b.size {
        Some(s) => if !(size_fits(s.0) && size_fits(s.1)) {
            return false;
        },
        None => {},
    }
    match &b.stack_areas {
        Some(areas) => {
            let mut k: usize = 0;
            while k < areas.len()
                invariant
                    k <= areas@.len(),
                    b.stack_areas == Some(*areas),
                    forall|j: int|
                        0 <= j < k ==> ((#[trigger] areas@[j]).thickness matches Some(t) ==> size_ok(t as int)),
                decreases areas@.len() - k,
            {
                match areas[k].thickness {
                    Some(t) => if !size_fits(t) {
                        proof {
                            assert(areas@[k as int].thickness == Some(t));
                        }
                        return false;
                    },
                    None => {},
                }
                k = k + 1;
            }
        },
        None => {},
    }
    match &b.stackup {
        Some(stack) => {
            let mut k: usize = 0;
            while k < stack.copper_touching_copper.len()
                invariant
                    k <= stack.copper_touching_copper@.len(),
                    b.stackup == Some(*stack),
                    forall|j: int|
                        0 <= j < k ==> #[trigger] stack.copper_touching_copper@[j] < stack.layers@.len(),
                decreases stack.copper_touching_copper@.len() - k,
            {
                if stack.copper_touching_copper[k] >= stack.layers.len() {
                    proof {
                        assert(b.stackup == Some(*stack));
                        assert(!(stack.copper_touching_copper@[k as int] < stack.layers@.len()));
                    }
                    return false;
                }
                k = k + 1;
            }
        },
        None => {},
    }
    let mut k: usize = 0;
    while k < b.pour_fills.len()
        invariant
            k <= b.pour_fills@.len(),
            forall|j: int| 0 <= j < k ==> fill_ok(#[trigger] b.pour_fills@[j]),
        decreases b.pour_fills@.len() - k,
    {
        if !fill_fits(&b.pour_fills[k]) {
            return false;
        }
        k = k + 1;
    }
    let mut k: usize = 0;
    while k < b.copper_entries.len()
        invariant
            k <= b.copper_entries@.len(),
            forall|j: int| 0 <= j < b.pour_fills@.len() ==> fill_ok(#[trigger] b.pour_fills@[j]),
            forall|j: int|
                0 <= j < k ==> point_ok((#[trigger] b.copper_entries@[j]).bounds.min) && point_ok(
                    b.copper_entries@[j].bounds.max,
                ),
        decreases b.copper_entries@.len() - k,
    {
        if !(point_fits(b.copper_entries[k].bounds.min) && point_fits(b.copper_entries[k].bounds.max)) {
            return false;
        }
        k = k + 1;
    }
    match &b.outline {
        Some(ring) => {
            let mut k: usize = 0;
            while k < ring.len()
                invariant
                    k <= ring@.len(),
                    b.outline == Some(*ring),
                    forall|j: int| 0 <= j < k ==> point_ok(#[trigger] ring@[j]),
                decreases ring@.len() - k,
            {
                if !point_fits(ring[k]) {
                    proof {
                        assert(!point_ok(ring@[k as int]));
                        let r = b.outline->0;
                        assert(r@ == ring@);
                        assert(!(forall|j: int| 0 <= j < r@.len() ==> point_ok(#[trigger] r@[j])));
                    }
                    return false;
                }
                k = k + 1;
            }
            proof {
                assert(forall|j: int| 0 <= j < ring@.len() ==> point_ok(#[trigger] ring@[j]));
            }
        },
        None => {},
    }
    true
}

} // verus!
