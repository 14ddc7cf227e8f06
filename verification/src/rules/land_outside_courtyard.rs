//! The identifier of the rule for pads whose copper reaches past their
//! part's courtyard.
//!
//! The library holds only the name: its violations have no kind for a land
//! outside its courtyard and no constructor that words one, so there is
//! nothing such a pad could be reported as.
use vstd::prelude::*;

verus! {

/// The rule for pads whose copper reaches past their part's courtyard,
/// known here by its identifier.
pub struct LandOutsideCourtyardRule;

impl LandOutsideCourtyardRule {
    /// The rule's identifier in reports and filters.
    pub fn name(&self) -> (n: &'static str)
        ensures
            n@ == "land-outside-courtyard"@,
    {
        "land-outside-courtyard"
    }
}

} // verus!
