use vstd::prelude::*;

verus! {

/// The ways in which building or running a session can fail.
#[derive(Debug, Clone, Copy, PartialEq, Eq, Structural)]
pub enum QuestPlusError {
    /// A stimulus domain or a parameter grid has no candidate value.
    EmptyDomain,
    /// A prior weight vector does not have the length of its parameter grid.
    ParameterLengthMismatch { dimension: usize, expected: usize, found: usize },
    /// The psychometric model rejected a parameter assignment.
    InvalidDistributionParameter,
    /// The psychometric model returned a vector that is not a distribution.
    OutcomeProbabilityInvalid,
    /// An observation has probability zero (or not finite) under every hypothesis.
    NumericalDegeneracy,
    /// Tensors whose shapes do not fit together, or a size that overflows.
    ShapeInvariantViolation,
}

} // verus!
