//! The error type shared by the data-structure operations.

use vstd::prelude::*;

verus! {

/// Why a container operation could not be carried out.
#[derive(Debug, Clone, PartialEq, Eq)]
pub enum DsaError {
    /// Index is out of bounds.
    IndexOutOfBounds { index: usize, size: usize },
    /// Operation attempted on an empty container.
    EmptyContainer,
    /// Capacity has been exceeded.
    CapacityExceeded { max: usize, requested: usize },
    /// Key was not found in the container.
    KeyNotFound,
    /// Duplicate key was inserted.
    DuplicateKey,
    /// Invalid argument was provided.
    InvalidArgument { message: &'static str },
    /// Graph vertex not found.
    VertexNotFound { vertex: usize },
    /// Graph contains a cycle when it should not.
    CycleDetected,
    /// Negative cycle detected in a graph.
    NegativeCycle,
}

} // verus!
