//! Design rule checking for printed circuit boards.
//!
//! A board is checked against the rules a fabricator publishes: each rule
//! reads the board and reports what breaks it, and the report puts every
//! rule's findings in one canonical order.
use vstd::prelude::*;

pub mod board;
pub mod checker;
pub mod geometry;
pub mod net_rules;
pub mod presets;
pub mod report;
pub mod rules;
pub mod text;
pub mod violation;

pub use presets::DesignRules;
pub use violation::{DrcViolation, ViolationKind};

verus! {

/// Result of running the checker on a board.
#[derive(Debug, Clone)]
pub struct DrcResult {
    /// The violations found.
    pub violations: Vec<DrcViolation>,
    /// How long the check took, in milliseconds.
    pub duration_ms: u64,
}

impl DrcResult {
    /// Whether the board passed every check: nothing was found.
    pub fn passed(&self) -> (b: bool)
        ensures
            b == (self.violations@.len() == 0),
    {
        self.violations.len() == 0
    }

    /// How many violations were found.
    pub fn violation_count(&self) -> (n: usize)
        ensures
            n == self.violations@.len(),
    {
        self.violations.len()
    }
}

impl Default for DrcResult {
    fn default() -> (r: Self)
        ensures
            r.violations@.len() == 0,
            r.duration_ms == 0,
    {
        DrcResult { violations: Vec::new(), duration_ms: 0 }
    }
}

} // verus!
