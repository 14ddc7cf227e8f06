//! The identifier of the rule for traces too narrow for the current their
//! net declares.
//!
//! The library holds only the name: the width a current needs comes from a
//! floating-point formula of the copper's temperature rise.
use vstd::prelude::*;

verus! {

/// The rule for traces too narrow for the current their net declares,
/// known here by its identifier.
pub struct TraceCurrentRule;

impl TraceCurrentRule {
    /// The rule's identifier in reports and filters.
    pub fn name(&self) -> (n: &'static str)
        ensures
            n@ == "trace-current"@,
    {
        "trace-current"
    }
}

} // verus!
