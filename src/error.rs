//! Errors of parameter generation.

use vstd::prelude::*;

verus! {

/// Why a parameter bundle could not be generated.
#[derive(Clone, Copy, Debug, PartialEq, Eq, Structural)]
pub enum ParamError {
    /// The width is outside `MIN_WIDTH..=MAX_WIDTH`.
    InvalidWidth,
    /// The generator produced fewer round constants than the schedule needs.
    NotEnoughRoundConstants,
    /// A matrix that the construction must invert turned out singular.
    SingularMatrix,
}

} // verus!
