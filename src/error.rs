//! Why a conversion fails.

use vstd::prelude::*;

verus! {

/// Which computed value could not be rounded.
#[derive(Debug, Clone, Copy, PartialEq, Eq, Structural)]
pub enum ValueContext {
    /// The beats per bar derived from the first bar.
    BeatsPerBar,
    /// The tick offset of a note at this time, in microseconds.
    Time { time_us: u64 },
}

/// A conversion failure.
#[derive(Debug, Clone, Copy, PartialEq, Eq, Structural)]
pub enum ConvertError {
    /// The chart has fewer than two bar lines.
    ChartTooShort,
    /// The value `numerator / denominator` is not within 0.01 of an integer.
    UnroundableValue { numerator: i128, denominator: u128, context: ValueContext },
}

} // verus!
