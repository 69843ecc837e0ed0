//! A batch converter that turns JSON documents into vector embeddings:
//! text extraction from heterogeneous documents, fixed-size batching,
//! an embedding backend abstraction with retry/backoff resilience for the
//! remote API, and rendering of the embedded documents into two output
//! shapes.

pub mod batch;
pub mod document;
pub mod json;
pub mod output;
pub mod remote;

use vstd::prelude::*;

verus! {

/// The embedding service used to turn texts into vectors: a hosted HTTP
/// API or a local in-process sentence-embeddings model.
#[derive(Debug, Clone, Copy, PartialEq, Eq, Structural)]
pub enum SemanticApi {
    OpenAi,
    AllMiniLmL6V2,
}

} // verus!
