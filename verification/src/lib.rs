//! Data contracts for a retrieval-augmented chat-completion endpoint.
//!
//! The crate defines the request and response shapes exchanged around a
//! retrieval-augmented chat completion: the embedding request wrapper, the
//! composite chat request with its builder and its conversions to and from a
//! plain chat request, the retrieval response shapes, and the chunking
//! pass-through shapes. Every shape carries an exactly specified JSON wire
//! form, written and verified in this crate.
use vstd::prelude::*;

pub mod chat;
pub mod defaults;
pub mod embeddings;
pub mod json;
pub mod number;
pub mod rag;
pub mod rag_wire;

verus! {

} // verus!
