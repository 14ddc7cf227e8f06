//! Checking vias joining layers by a route the build does not drill.
//!
//! A board is drilled and plated once per lamination cycle. A through hole is
//! drilled after the last press and reaches everything; a blind via reaches
//! an outer layer and stops inside; a buried one touches neither face.
use vstd::prelude::*;

use crate::board::Via;
use crate::rules::{copper_index, copper_position};

verus! {

/// What kind of hole a span is on a board with a given number of copper
/// layers.
#[derive(Debug, Clone, Copy, PartialEq, Eq, Structural)]
pub enum Span {
    /// Touches both faces: drilled after the last press.
    Through,
    /// Touches one face and stops inside.
    Blind,
    /// Touches neither face.
    Buried,
}

/// The kind of hole from copper position `a` to copper position `b` on a
/// board whose last copper position is `last`.
pub open spec fn span_between(a: int, b: int, last: int) -> Span {
    let (top, bottom) = (if a <= b { a } else { b }, if a <= b { b } else { a });
    if top == 0 && bottom == last {
        Span::Through
    } else if top != 0 && bottom != last {
        Span::Buried
    } else {
        Span::Blind
    }
}

/// The kind of hole a via is, or nothing where either of its layers is not
/// copper of this board, or the board has no copper at all.
pub open spec fn via_span(via: Via, copper_count: int) -> Option<Span> {
    match (copper_position(via.start_layer, copper_count), copper_position(via.end_layer, copper_count)) {
        (Some(a), Some(b)) => if copper_count >= 1 {
            Some(span_between(a, b, copper_count - 1))
        } else {
            None
        },
        _ => None,
    }
}

/// Which kind of hole the via is on a board with `copper_count` copper
/// layers.
pub fn span_of(via: &Via, copper_count: usize) -> (s: Option<Span>)
    ensures
        s == via_span(*via, copper_count as int),
{
    let start = match copper_index(via.start_layer, copper_count) {
        Some(i) => i,
        None => return None,
    };
    let end = match copper_index(via.end_layer, copper_count) {
        Some(i) => i,
        None => return None,
    };
    let (top, bottom) = (if start <= end { start } else { end }, if start <= end { end } else { start });
    let last = match copper_count.checked_sub(1) {
        Some(l) => l,
        None => return None,
    };
    if top == 0 && bottom == last {
        Some(Span::Through)
    } else if top != 0 && bottom != last {
        Some(Span::Buried)
    } else {
        Some(Span::Blind)
    }
}

/// Rule for vias joining layers by a route the build does not drill.
pub struct ViaSpanRule;

impl ViaSpanRule {
    /// The rule's identifier in reports and filters.
    pub fn name(&self) -> (n: &'static str)
        ensures
            n@ == "via-span"@,
    {
        "via-span"
    }
}

} // verus!
