use vstd::prelude::*;

verus! {

/// Why a measurement could not be summarised.
#[derive(Clone, Copy, Debug, PartialEq, Eq, Structural)]
pub enum TrialError {
    /// More outliers were to be dropped than leave at least one sample.
    InvalidTrimCount,
    /// A rate was asked of an empty span of time.
    DegenerateDuration,
    /// A payload too small to hold one element of the transfer unit.
    InvalidPayloadSize,
    /// An exact intermediate result does not fit in 128 bits.
    Overflow,
}

} // verus!
