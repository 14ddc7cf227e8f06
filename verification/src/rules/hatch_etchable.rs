//! The identifier of the rule for hatched pours whose web or gap is finer
//! than the fab etches.
//!
//! The library holds only the name: its violations have no kind for a hatch
//! too fine, and the board model records a pour's bounds and fill, not a
//! hatch pitch or web.
use vstd::prelude::*;

verus! {

/// The rule for hatched pours whose web or gap is finer than the fab
/// etches, known here by its identifier.
pub struct HatchEtchableRule;

impl HatchEtchableRule {
    /// The rule's identifier in reports and filters.
    pub fn name(&self) -> (n: &'static str)
        ensures
            n@ == "hatch-too-fine"@,
    {
        "hatch-too-fine"
    }
}

} // verus!
