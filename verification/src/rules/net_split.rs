//! The identifier of the rule for a net whose copper is in pieces no copper
//! joins.
//!
//! The library holds only the name: its violations have no kind for a net in
//! pieces and no constructor that words one, so there is nothing such a
//! split could be reported as.
use vstd::prelude::*;

verus! {

/// The rule for a net whose copper is in pieces no copper joins, known here
/// by its identifier.
pub struct NetSplitRule;

impl NetSplitRule {
    /// The rule's identifier in reports and filters.
    pub fn name(&self) -> (n: &'static str)
        ensures
            n@ == "net-split"@,
    {
        "net-split"
    }
}

} // verus!
