//! Input representation and answer decoding for extractive question answering
//! with a DistilBERT-style encoder.
//!
//! The crate holds the integer logic that surrounds the tensor runtime: the
//! layout of the embedding module and of its sinusoidal position table, the
//! position ids and shapes of a forward pass, the padding of a batch, and the
//! ranking of answer spans from per-token scores. Every function carries a
//! contract that Verus proves.

pub mod batch;
pub mod config;
pub mod embeddings;
pub mod pipeline;
pub mod positional;
pub mod spans;
pub mod types;
