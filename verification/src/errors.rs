//! Domain errors of the pipeline's core computations.

use vstd::prelude::*;

verus! {

/// Errors raised by the pipeline's core computations.
///
/// Input/output and parse failures are the embedding program's concern and
/// have no variant here.
#[derive(Debug, Clone, Copy, PartialEq, Eq, Structural)]
pub enum GudotError {
    /// A series that must be non-empty has length zero.
    EmptyVector,
    /// Two series that must have equal lengths differ.
    LengthMismatch,
    /// A chunk count of zero was requested.
    InvalidChunkCount,
    /// A subtraction would leave the non-negative domain.
    UnderflowError,
    /// A ratio's divisor is zero.
    DivisionByZero,
}

} // verus!
