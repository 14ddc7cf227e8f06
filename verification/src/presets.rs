//! The design rules a board is checked against.
//!
//! A fab publishes a table of numbers; the checker grades against rules
//! built from it. Three assembly-side rules are the fab's where it states one
//! and derived where it does not.
use vstd::prelude::*;

verus! {

/// The largest length, in nanometres, a rule table carries: a kilometre.
pub open spec fn length_ok(v: int) -> bool {
    -1_000_000_000_000 <= v <= 1_000_000_000_000
}

/// A fab's published numbers, as the table states them.
///
/// Lengths are in nanometres. A field that is an `Option` is one a fab may
/// leave unpublished.
#[derive(Debug, Clone, Copy, PartialEq, Eq, Structural)]
pub struct DesignConstraints {
    /// Minimum distance between copper features.
    pub min_clearance: i64,
    /// Minimum trace width.
    pub min_trace_width: i64,
    /// Smallest hole the fab drills.
    pub min_drill_size: i64,
    /// Smallest via hole.
    pub min_via_drill: i64,
    /// Smallest via outer diameter, where published.
    pub min_via_diameter: Option<i64>,
    /// Narrowest ring of copper around a hole.
    pub min_annular_ring: i64,
    /// Narrowest silkscreen line.
    pub min_silk_width: i64,
    /// Copper to board edge.
    pub min_edge_clearance: i64,
    /// Between drilled holes, edge to edge.
    pub min_hole_to_hole: i64,
    /// Narrowest solder mask web.
    pub min_solder_mask_bridge: i64,
    /// Narrowest paste stencil web.
    pub min_paste_clearance: i64,
    /// Smallest land around a hole, where published.
    pub min_pad_size: Option<i64>,
    /// Another net's copper to a milled slot.
    pub min_slot_clearance: i64,
    /// A drilled hole to the routed edge.
    pub min_hole_to_edge: i64,
    /// How far the mask opening grows past a pad.
    pub solder_mask_expansion: i64,
    /// Silkscreen to copper, where published.
    pub min_silk_clearance: Option<i64>,
    /// Courtyard to courtyard, where published.
    pub min_courtyard_clearance: Option<i64>,
    /// Copper thickness in tenths of an ounce.
    pub copper_weight_oz_x10: u32,
    /// How far the two halves of a length-matched pair may differ.
    pub length_match_tolerance: i64,
    /// Deepest hole the plating reaches, depth over width in hundredths.
    pub max_drill_aspect_ratio: u32,
    /// How thick the fab builds a board that does not say.
    pub board_thickness: i64,
}

/// Complete set of design rules for a board.
///
/// Contains minimum values for the design parameters that the checker
/// validates against. Lengths are in nanometres.
#[derive(Debug, Clone, Copy, PartialEq, Eq, Structural)]
pub struct DesignRules {
    /// Minimum clearance between copper features.
    pub min_clearance: i64,
    /// Minimum trace width.
    pub min_trace_width: i64,
    /// Minimum drill size (mechanical drilling).
    pub min_drill_size: i64,
    /// Minimum via drill size.
    pub min_via_drill: i64,
    /// Minimum via outer diameter (copper annulus).
    pub min_via_diameter: i64,
    /// Minimum annular ring width.
    pub min_annular_ring: i64,
    /// Minimum silkscreen line width.
    pub min_silk_width: i64,
    /// Minimum copper to board edge clearance.
    pub min_edge_clearance: i64,
    /// Minimum distance between drill holes (edge-to-edge).
    pub min_hole_to_hole: i64,
    /// Minimum solder mask bridge between pads.
    pub min_solder_mask_bridge: i64,
    /// Narrowest web the stencil can hold between two paste openings.
    pub min_paste_clearance: i64,
    /// The smallest land a fab will put around a hole.
    pub min_pad_size: i64,
    /// How far another net's copper must stay from a milled slot.
    pub min_slot_clearance: i64,
    /// How far a drilled hole must stay from the routed board edge.
    pub min_hole_to_edge: i64,
    /// How far the mask opening extends beyond the pad on every side.
    pub solder_mask_expansion: i64,
    /// Minimum silkscreen to copper pad clearance.
    pub min_silk_clearance: i64,
    /// Minimum courtyard clearance between components.
    pub min_courtyard_clearance: i64,
    /// How thick the copper is, in tenths of an ounce.
    pub copper_weight_oz_x10: u32,
    /// How far apart the two halves of a differential pair may end up.
    pub max_diff_pair_skew: i64,
    /// The deepest hole this fab's plating chemistry reaches, in hundredths.
    pub max_drill_aspect_ratio: u32,
    /// How thick this fab builds a board that does not say how thick it is.
    pub board_thickness: i64,
}

/// Every length of the rules is inside the carried range: within a
/// kilometre, and the board no thinner than nothing.
pub open spec fn rules_ok(r: DesignRules) -> bool {
    &&& length_ok(r.min_clearance as int)
    &&& length_ok(r.min_trace_width as int)
    &&& length_ok(r.min_drill_size as int)
    &&& length_ok(r.min_via_drill as int)
    &&& length_ok(r.min_via_diameter as int)
    &&& length_ok(r.min_annular_ring as int)
    &&& length_ok(r.min_silk_width as int)
    &&& length_ok(r.min_edge_clearance as int)
    &&& length_ok(r.min_hole_to_hole as int)
    &&& length_ok(r.min_solder_mask_bridge as int)
    &&& length_ok(r.min_paste_clearance as int)
    &&& length_ok(r.min_pad_size as int)
    &&& length_ok(r.min_slot_clearance as int)
    &&& length_ok(r.min_hole_to_edge as int)
    &&& length_ok(r.solder_mask_expansion as int)
    &&& length_ok(r.min_silk_clearance as int)
    &&& length_ok(r.min_courtyard_clearance as int)
    &&& length_ok(r.max_diff_pair_skew as int)
    &&& 0 <= r.board_thickness <= 1_000_000_000_000
}

/// The land a fab implies when it does not publish one: its smallest hole
/// plus a ring on each side.
pub open spec fn derived_land_of(c: DesignConstraints) -> int {
    c.min_drill_size + 2 * c.min_annular_ring
}

/// The land minimum a fab is held to: what it published, or what its own
/// drill and ring imply.
pub open spec fn land_minimum_of(c: DesignConstraints) -> int {
    match c.min_pad_size {
        Some(land) => land as int,
        None => derived_land_of(c),
    }
}

/// The table's drill and ring are inside the carried range.
pub open spec fn constraints_ok(c: DesignConstraints) -> bool {
    length_ok(c.min_drill_size as int) && length_ok(c.min_annular_ring as int)
}

/// The land a fab implies when it does not publish one.
///
/// The smallest hole it will drill plus a ring on each side. It
/// over-constrains on purpose: this is the land for the smallest hole a house
/// makes, not a floor under every hole.
fn derived_land(c: &DesignConstraints) -> (land: i64)
    requires
        constraints_ok(*c),
    ensures
        land == derived_land_of(*c),
{
    c.min_drill_size + 2 * c.min_annular_ring
}

/// The land minimum this fab is held to: what it published, or what its
/// own drill and ring imply when it published nothing.
fn land_minimum(c: &DesignConstraints) -> (land: i64)
    requires
        constraints_ok(*c),
    ensures
        land == land_minimum_of(*c),
{
    match c.min_pad_size {
        Some(land) => land,
        None => derived_land(c),
    }
}

/// Courtyard clearance where the fab states none: a conservative
/// IPC-style value, 0.25mm.
pub open spec fn default_courtyard_clearance() -> int {
    250_000
}

impl DesignRules {
    /// The rules a fab's table implies.
    ///
    /// Every length the table publishes is taken as it stands. The via
    /// diameter is the fab's where stated and otherwise its land minimum,
    /// never below zero; the land minimum is the published land or the
    /// smallest drill plus two rings; silk clearance follows the silk width
    /// where unstated; courtyard clearance falls back to 0.25mm; the skew
    /// allowance is the table's length-match tolerance.
    pub fn from_constraints(c: &DesignConstraints) -> (r: Self)
        requires
            constraints_ok(*c),
        ensures
            r.min_clearance == c.min_clearance,
            r.min_trace_width == c.min_trace_width,
            r.min_drill_size == c.min_drill_size,
            r.min_via_drill == c.min_via_drill,
            r.min_via_diameter == clamp_zero_of(
                match c.min_via_diameter {
                    Some(d) => d as int,
                    None => land_minimum_of(*c),
                },
            ),
            r.min_annular_ring == c.min_annular_ring,
            r.min_silk_width == c.min_silk_width,
            r.min_edge_clearance == c.min_edge_clearance,
            r.min_hole_to_hole == c.min_hole_to_hole,
            r.min_solder_mask_bridge == c.min_solder_mask_bridge,
            r.min_paste_clearance == c.min_paste_clearance,
            r.min_pad_size == land_minimum_of(*c),
            r.min_slot_clearance == c.min_slot_clearance,
            r.min_hole_to_edge == c.min_hole_to_edge,
            r.solder_mask_expansion == c.solder_mask_expansion,
            r.min_silk_clearance == (match c.min_silk_clearance {
                Some(s) => s,
                None => c.min_silk_width,
            }),
            r.min_courtyard_clearance == (match c.min_courtyard_clearance {
                Some(s) => s as int,
                None => default_courtyard_clearance(),
            }),
            r.copper_weight_oz_x10 == c.copper_weight_oz_x10,
            r.max_diff_pair_skew == c.length_match_tolerance,
            r.max_drill_aspect_ratio == c.max_drill_aspect_ratio,
            r.board_thickness == c.board_thickness,
    {
        let via = match c.min_via_diameter {
            Some(d) => d,
            None => land_minimum(c),
        };
        DesignRules {
            min_clearance: c.min_clearance,
            min_trace_width: c.min_trace_width,
            min_drill_size: c.min_drill_size,
            min_via_drill: c.min_via_drill,
            min_via_diameter: if via > 0 {
                via
            } else {
                0
            },
            min_annular_ring: c.min_annular_ring,
            min_silk_width: c.min_silk_width,
            min_edge_clearance: c.min_edge_clearance,
            min_hole_to_hole: c.min_hole_to_hole,
            min_solder_mask_bridge: c.min_solder_mask_bridge,
            min_paste_clearance: c.min_paste_clearance,
            min_pad_size: land_minimum(c),
            min_slot_clearance: c.min_slot_clearance,
            min_hole_to_edge: c.min_hole_to_edge,
            solder_mask_expansion: c.solder_mask_expansion,
            min_silk_clearance: match c.min_silk_clearance {
                Some(s) => s,
                None => c.min_silk_width,
            },
            min_courtyard_clearance: match c.min_courtyard_clearance {
                Some(s) => s,
                None => 250_000,
            },
            copper_weight_oz_x10: c.copper_weight_oz_x10,
            max_diff_pair_skew: c.length_match_tolerance,
            max_drill_aspect_ratio: c.max_drill_aspect_ratio,
            board_thickness: c.board_thickness,
        }
    }
}

/// The larger of a length and zero.
pub open spec fn clamp_zero_of(v: int) -> int {
    if v > 0 {
        v
    } else {
        0
    }
}

/// Whether a length is inside the carried range.
fn length_fits(v: i64) -> (b: bool)
    ensures
        b == length_ok(v as int),
{
    -1_000_000_000_000 <= v && v <= 1_000_000_000_000
}

/// Whether every length of the rules is inside the carried range. The rules
/// ask this of a rule set before they grade against it.
pub fn rules_fit(r: &DesignRules) -> (b: bool)
    ensures
        b == rules_ok(*r),
{
    length_fits(r.min_clearance) && length_fits(r.min_trace_width) && length_fits(r.min_drill_size)
        && length_fits(r.min_via_drill) && length_fits(r.min_via_diameter) && length_fits(
        r.min_annular_ring,
    ) && length_fits(r.min_silk_width) && length_fits(r.min_edge_clearance) && length_fits(
        r.min_hole_to_hole,
    ) && length_fits(r.min_solder_mask_bridge) && length_fits(r.min_paste_clearance) && length_fits(
        r.min_pad_size,
    ) && length_fits(r.min_slot_clearance) && length_fits(r.min_hole_to_edge) && length_fits(
        r.solder_mask_expansion,
    ) && length_fits(r.min_silk_clearance) && length_fits(r.min_courtyard_clearance) && length_fits(
        r.max_diff_pair_skew,
    ) && 0 <= r.board_thickness && r.board_thickness <= 1_000_000_000_000
}

} // verus!
