//! Core of an ahead-of-time compiled neural-network inference runtime.
//!
//! The crate loads a JSON computation graph and a binary parameter
//! dictionary, plans tensor storage so that tensors sharing a storage id
//! alias one arena slot, binds each graph node to a kernel resolved by name,
//! and offers the bookkeeping services that compiled kernels rely on: a
//! worker-task derivation for parallel-for launches and a thread-local
//! scratch-workspace pool with best-fit reuse.

pub mod allocator;
pub mod array;
pub mod dtype;
pub mod errors;
pub mod executor;
pub mod graph;
pub mod json;
pub mod module;
pub mod packed_func;
pub mod params;
mod text;
pub mod threading;
pub mod wire;
pub mod workspace;
