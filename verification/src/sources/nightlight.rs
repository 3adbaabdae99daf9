//! Night-light colour temperature reported by hyprsunset.

use crate::text::{parse_trimmed_u32, parse_u32, trimmed};
use vstd::prelude::*;

verus! {

/// Lowest and highest colour temperature accepted, in kelvin.
pub const MIN_KELVIN: u32 = 1000;
pub const MAX_KELVIN: u32 = 20000;

/// The temperature printed by `hyprctl hyprsunset temperature`, if it is a
/// plausible one.
pub open spec fn temperature_of(output: Seq<char>) -> Option<u32> {
    match parse_u32(trimmed(output)) {
        Some(k) => if MIN_KELVIN <= k <= MAX_KELVIN {
            Some(k)
        } else {
            None
        },
        None => None,
    }
}

pub fn parse_temperature(output: &str) -> (r: Option<u32>)
    ensures
        r == temperature_of(output@),
{
    match parse_trimmed_u32(output) {
        Some(kelvin) => if MIN_KELVIN <= kelvin && kelvin <= MAX_KELVIN {
            Some(kelvin)
        } else {
            None
        },
        None => None,
    }
}

} // verus!
