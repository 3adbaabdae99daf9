//! The research-based default curve, as an ensemble member.

use vstd::prelude::*;

verus! {

/// The prior expert: it always predicts a zero residual from the default
/// curve.
#[derive(Debug, Default, Clone, Copy)]
pub struct Prior;

} // verus!
