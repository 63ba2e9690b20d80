//! Error kinds reported by the validating entry points.

use vstd::prelude::*;

verus! {

/// Why a call was rejected.  Scoring entry points that take well-formed
/// inputs never fail; only the validating ones (`load_documents`,
/// `search_preloaded`) return one of these.
#[derive(Clone, Copy, Debug, PartialEq, Eq, Structural)]
pub enum MaxSimError {
    /// A buffer's length is inconsistent with the declared token count
    /// times the embedding dimension.
    SizeMismatch,
    /// Zero tokens were supplied where at least one is required.
    EmptyInput,
    /// The embedding dimension is zero.
    InvalidDimension,
    /// A search was attempted before any collection was loaded.
    NotLoaded,
}

impl MaxSimError {
    /// A human-readable description of the error.
    pub fn message(&self) -> (r: &'static str)
        ensures
            r@ == match self {
                MaxSimError::SizeMismatch => "embeddings data size mismatch"@,
                MaxSimError::EmptyInput => "input must not be empty"@,
                MaxSimError::InvalidDimension => "embedding dimension must be > 0"@,
                MaxSimError::NotLoaded => "no documents loaded"@,
            },
    {
        match self {
            MaxSimError::SizeMismatch => "embeddings data size mismatch",
            MaxSimError::EmptyInput => "input must not be empty",
            MaxSimError::InvalidDimension => "embedding dimension must be > 0",
            MaxSimError::NotLoaded => "no documents loaded",
        }
    }
}

} // verus!
