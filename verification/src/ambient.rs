//! Where an estimate of the room's light came from.

use vstd::prelude::*;

verus! {

/// Source of the global horizontal irradiance behind an ambient estimate.
#[derive(Debug, Clone, Copy, PartialEq, Eq, Structural)]
pub enum GhiSource {
    /// A recent satellite measurement.
    Satellite,
    /// The forecast model's value for now.
    Forecast,
    /// No usable data: a fixed share of the clear-sky value.
    ClearSkyGuess,
}

} // verus!
