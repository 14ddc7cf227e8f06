//! The rule for nets that state an impedance the stack does not give: its
//! identifier, and how it prints a resistance.
//!
//! The impedance a trace has over its stack comes from a floating-point
//! field solution, which is not part of this library.
use vstd::prelude::*;

use crate::text::{decimal_digits, digits, padded, padded_digits, string_of_chars};

verus! {

/// The rule for nets that state an impedance the stack does not give,
/// known here by its identifier.
pub struct ImpedanceRule;

impl ImpedanceRule {
    /// The rule's identifier in reports and filters.
    pub fn name(&self) -> (n: &'static str)
        ensures
            n@ == "impedance"@,
    {
        "impedance"
    }
}


/// Hundredths of an ohm as a designer states a resistance: whole ohms with
/// no decimals, anything else with two.
pub open spec fn ohms_text(ohms_x100: nat) -> Seq<char> {
    if ohms_x100 % 100 == 0 {
        digits(ohms_x100 / 100) + "ohm"@
    } else {
        digits(ohms_x100 / 100) + seq!['.'] + padded(ohms_x100 % 100, 2) + "ohm"@
    }
}

/// Hundredths of an ohm, printed the way a designer states one.
pub fn format_ohms(ohms_x100: u32) -> (s: String)
    ensures
        s@ == ohms_text(ohms_x100 as nat),
{
    let mut chars = decimal_digits((ohms_x100 / 100) as u64);
    let ghost whole = chars@;
    if ohms_x100 % 100 != 0 {
        chars.push('.');
        let mut fraction = padded_digits((ohms_x100 % 100) as u64, 2);
        let ghost tail = fraction@;
        chars.append(&mut fraction);
        assert(chars@ =~= whole + seq!['.'] + tail);
    }
    let ghost number = chars@;
    chars.push('o');
    chars.push('h');
    chars.push('m');
    proof {
        reveal_strlit("ohm");
        assert(chars@ =~= number + "ohm"@);
    }
    string_of_chars(&chars)
}

} // verus!
