//! The wedge where a trace enters a land, as the rules read its answer.
//!
//! An entry is measured along the trace's edges, where they leave the land,
//! and the answer is carried as an integer number of millidegrees. Where no
//! angle can honestly be measured, the entry says why instead.
use vstd::prelude::*;

verus! {

/// Below this angle, in millidegrees, an entry is a violation. Strict:
/// exactly this value is clean.
pub const ENTRY_ANGLE_MIN_MDEG: u32 = 45_000;

/// Why an entry carries no angle.
///
/// Every one of these is a case where a number would be an invention rather
/// than a measurement.
#[derive(Debug, Clone, Copy, PartialEq, Eq, Structural)]
pub enum EntryRefusal {
    /// The trace is wider than the land's smaller dimension.
    TraceWiderThanLand,
    /// The land has no width or no height, so it has no boundary to meet.
    PadHasNoSize,
    /// The segment's two ends are the same point, so the copper arrives from
    /// no direction.
    ArmHasNoDirection,
    /// Neither edge of the trace crosses the land's boundary on its way out.
    EdgeMissesLand,
}

/// What an entry measured, or why it did not.
#[derive(Debug, Clone, Copy, PartialEq, Eq, Structural)]
pub enum Entry {
    /// The angle between the trace's edge and the land's boundary where the
    /// edge leaves it, in millidegrees.
    Measured {
        /// The angle in millidegrees.
        millideg: u32,
    },
    /// No angle, and the reason.
    NotChecked(EntryRefusal),
}

impl Entry {
    /// The angle if one was measured.
    pub fn millideg(self) -> (m: Option<u32>)
        ensures
            m == (match self {
                Entry::Measured { millideg } => Some(millideg),
                Entry::NotChecked(_) => None,
            }),
    {
        match self {
            Entry::Measured { millideg } => Some(millideg),
            Entry::NotChecked(_) => None,
        }
    }

    /// Whether this entry is sharper than the rule allows. A refusal is not
    /// a violation: it is an absence of a measurement.
    pub fn is_violation(self) -> (v: bool)
        ensures
            v == (match self {
                Entry::Measured { millideg } => millideg < ENTRY_ANGLE_MIN_MDEG,
                Entry::NotChecked(_) => false,
            }),
    {
        match self {
            Entry::Measured { millideg } => millideg < ENTRY_ANGLE_MIN_MDEG,
            Entry::NotChecked(_) => false,
        }
    }
}

} // verus!
