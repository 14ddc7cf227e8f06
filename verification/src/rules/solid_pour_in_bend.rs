//! The identifier of the rule for solid copper poured across a bend.
//!
//! The library holds only the name: its violations have no kind for a solid
//! pour in a bend, and the board model does not say which pours are solid
//! and which hatched.
use vstd::prelude::*;

verus! {

/// The rule for solid copper poured across a bend, known here by its
/// identifier.
pub struct SolidPourInBendRule;

impl SolidPourInBendRule {
    /// The rule's identifier in reports and filters.
    pub fn name(&self) -> (n: &'static str)
        ensures
            n@ == "solid-pour-in-bend"@,
    {
        "solid-pour-in-bend"
    }
}

} // verus!
