//! Errors of the retrieval engine.
use vstd::prelude::*;

verus! {

/// Why an engine operation refused its input.
#[derive(Debug, Clone, Copy, PartialEq, Eq, Structural)]
pub enum EngineError {
    /// A weight table whose weights sum to zero.
    InvalidWeights,
    /// A reference index outside the catalogue.
    IndexOutOfRange,
}

} // verus!
