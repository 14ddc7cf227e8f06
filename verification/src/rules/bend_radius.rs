//! The identifier of the rule for a flexible region folded tighter than its
//! thickness takes.
//!
//! The library holds only the name: the rule set carries no multiple of the
//! thickness a fold must keep, and the board model no radius for a fold, so
//! there is nothing to measure a fold against.
use vstd::prelude::*;

verus! {

/// The rule for a flexible region folded tighter than its thickness takes,
/// known here by its identifier.
pub struct BendRadiusRule;

impl BendRadiusRule {
    /// The rule's identifier in reports and filters.
    pub fn name(&self) -> (n: &'static str)
        ensures
            n@ == "bend-radius"@,
    {
        "bend-radius"
    }
}

} // verus!
