//! A vector similarity store: a fixed-dimension index of quantized embeddings
//! kept in step with a metadata store keyed by the same ids.

pub mod distance;
pub mod index;
pub mod store;
pub mod db;
pub mod model;
pub mod laws;
