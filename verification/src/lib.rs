//! MaxSim ("late interaction") relevance scoring between a multi-vector
//! query and one or many multi-vector documents.
//!
//! Embedding components are fixed-point integers: the caller picks a scale
//! (for example, 65536 units per 1.0) and supplies each token vector as
//! `i64` components.  All arithmetic is exact, so every score is pinned
//! down to the integer by the contracts, with no summation-order tolerance.
//!
//! For each query token the engine finds the most similar document token,
//! then sums these per-token maxima into one scalar per document
//! (optionally dividing by the query length).  Variable-length document
//! collections are grouped by length and staged through reusable padded
//! buffers; the contracts guarantee that neither the grouping, the
//! padding, nor the buffer reuse can change any score.

mod batch;
mod engine;
mod errors;
mod group;
mod isqrt;
pub mod laws;
mod lemmas;
pub mod model;
mod reduce;
mod score;
mod similarity;

pub use engine::MaxSimWasm;
pub use errors::MaxSimError;
pub use model::{Aggregate, SimilarityMode};
pub use model::{MAX_ABS_VALUE, MAX_DIM, MAX_TOKENS, SIM_SCALE};
pub use similarity::dot_product;
