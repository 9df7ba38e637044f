//! The ways in which a computation of this library can fail.

use vstd::prelude::*;

verus! {

/// Why a computation gave no result.
#[derive(Debug, Clone, Copy, PartialEq, Eq, Structural)]
pub enum Error {
    /// The input lies outside the function's domain.
    InvalidInput,
    /// The iteration budget ran out before the loop reached its goal.
    IterationLimitExceeded,
    /// A digit sequence could not be read back as a number in its base.
    ReconstructionError,
}

} // verus!
