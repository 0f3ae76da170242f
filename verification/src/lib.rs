//! Recovery of missing torrent pieces from a second torrent that shares
//! file content: piece/byte-range mapping, file matching by size, virtual
//! piece merging, and the verify-then-write recovery decisions.
pub mod block;
pub mod digest;
pub mod engine;
pub mod error;
pub mod mapper;
pub mod matcher;
pub mod snapshot;
