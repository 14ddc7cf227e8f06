//! The identifier of the rule for silkscreen too close to copper.
//!
//! The library holds only the name: the ink a board prints is its parts'
//! artwork and designators as the exporter clips them, and neither the
//! artwork nor the clipping is part of the board model.
use vstd::prelude::*;

verus! {

/// The rule for silkscreen too close to copper, known here by its
/// identifier.
pub struct SilkClearanceRule;

impl SilkClearanceRule {
    /// The rule's identifier in reports and filters.
    pub fn name(&self) -> (n: &'static str)
        ensures
            n@ == "silk-clearance"@,
    {
        "silk-clearance"
    }
}

} // verus!
