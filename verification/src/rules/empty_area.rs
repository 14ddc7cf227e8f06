//! Checking that a declared area is an area.
//!
//! A rectangle whose two corners share an edge has no width or no height,
//! so it contains nothing: every reader downstream is pointed at a
//! rectangle that is not there. Every kind of area is asked.
use vstd::prelude::*;

use crate::board::{board_ok, zone_ok, Board, Zone, ZoneKind};
use crate::text::{mm, mm_text};
use crate::violation::{describes, sentence, DrcViolation, ViolationKind};

verus! {

/// Rule for checking that a declared area is an area.
pub struct EmptyAreaRule;

/// The word the design uses for a kind of area.
pub open spec fn area_word(kind: ZoneKind) -> Seq<char> {
    match kind {
        ZoneKind::CopperPour => "pour"@,
        ZoneKind::Keepout => "keepout"@,
        ZoneKind::Flex => "flexible region"@,
        ZoneKind::Region => "named area"@,
    }
}

/// How a report calls an area: by its name, or as having none.
pub open spec fn area_called(z: Zone) -> Seq<char> {
    match z.name {
        Some(n) => "'"@ + n@ + "'"@,
        None => "with no name"@,
    }
}

/// The width of an area.
pub open spec fn area_width(z: Zone) -> int {
    z.bounds.max.x - z.bounds.min.x
}

/// The height of an area.
pub open spec fn area_height(z: Zone) -> int {
    z.bounds.max.y - z.bounds.min.y
}

/// Which side of an empty area collapsed.
pub open spec fn collapse_text(z: Zone) -> Seq<char> {
    if area_width(z) <= 0 && area_height(z) <= 0 {
        "no width and no height"@
    } else if area_width(z) <= 0 {
        "no width: it runs "@ + mm_text(area_height(z), 3) + "mm down and 0mm across"@
    } else {
        "no height: it runs "@ + mm_text(area_width(z), 3) + "mm across and 0mm down"@
    }
}

/// The areas with no width or no height, in board order.
pub open spec fn empty_areas(zs: Seq<Zone>) -> Seq<Zone>
    decreases zs.len(),
{
    if zs.len() == 0 {
        Seq::empty()
    } else {
        let rest = empty_areas(zs.drop_last());
        if area_width(zs.last()) > 0 && area_height(zs.last()) > 0 {
            rest
        } else {
            rest.push(zs.last())
        }
    }
}

/// `r` reports area `z` as containing nothing.
pub open spec fn reports_empty_area(r: DrcViolation, z: Zone) -> bool {
    describes(
        r,
        ViolationKind::EmptyArea,
        z.entity,
        None,
        None,
        None,
        z.bounds.min,
        "the "@ + area_word(z.kind) + " "@ + area_called(z) + " has "@ + collapse_text(z)
            + ", so it contains nothing: every reader of it - the fabricator's document, the 3D view, the copper filler - is being pointed at a rectangle that is not there"@,
    )
}

impl EmptyAreaRule {
    /// The rule's identifier in reports and filters.
    pub fn name(&self) -> (n: &'static str)
        ensures
            n@ == "empty-area"@,
    {
        "empty-area"
    }

    /// Every area with no width or no height, in board order.
    pub fn check(&self, board: &Board) -> (out: Vec<DrcViolation>)
        requires
            board_ok(*board),
        ensures
            out@.len() == empty_areas(board.zones@).len(),
            forall|k: int|
                0 <= k < out@.len() ==> reports_empty_area(#[trigger] out@[k], empty_areas(board.zones@)[k]),
    {
        let ghost zs = board.zones@;
        let mut out: Vec<DrcViolation> = Vec::new();
        let mut i: usize = 0;
        while i < board.zones.len()
            invariant
                i <= zs.len(),
                zs == board.zones@,
                board_ok(*board),
                out@.len() == empty_areas(zs.take(i as int)).len(),
                forall|k: int|
                    0 <= k < out@.len() ==> reports_empty_area(#[trigger] out@[k], empty_areas(zs.take(i as int))[k]),
            decreases zs.len() - i,
        {
            let z = &board.zones[i];
            proof {
                assert(zone_ok(zs[i as int]));
                assert(zs.take(i + 1).drop_last() =~= zs.take(i as int));
                assert(zs.take(i + 1).last() == *z);
            }
            let width = z.bounds.max.x - z.bounds.min.x;
            let height = z.bounds.max.y - z.bounds.min.y;
            if !(width > 0 && height > 0) {
                let what = match z.kind {
                    ZoneKind::CopperPour => "pour",
                    ZoneKind::Keepout => "keepout",
                    ZoneKind::Flex => "flexible region",
                    ZoneKind::Region => "named area",
                };
                let called = match &z.name {
                    Some(n) => sentence("'", n.as_str(), "'", "", ""),
                    None => String::from_str("with no name"),
                };
                let how = if width <= 0 && height <= 0 {
                    String::from_str("no width and no height")
                } else if width <= 0 {
                    sentence("no width: it runs ", mm(height, 3).as_str(), "mm down and 0mm across", "", "")
                } else {
                    sentence("no height: it runs ", mm(width, 3).as_str(), "mm across and 0mm down", "", "")
                };
                let head = sentence("the ", what, " ", called.as_str(), " has ");
                let message = sentence(
                    head.as_str(),
                    how.as_str(),
                    ", so it contains nothing: every reader of it - the fabricator's document, the 3D view, the copper filler - is being pointed at a rectangle that is not there",
                    "",
                    "",
                );
                proof {
                    reveal_strlit("");
                    reveal_strlit("with no name");
                    reveal_strlit("no width and no height");
                    assert(called@ == area_called(*z));
                    assert(how@ == collapse_text(*z));
                    assert(what@ == area_word(z.kind));
                }
                out.push(DrcViolation::empty_area(z.entity, message, z.bounds.min));
            }
            i = i + 1;
        }
        proof {
            assert(zs.take(i as int) =~= zs);
        }
        out
    }
}

} // verus!
