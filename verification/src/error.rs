//! Errors of the piece/byte-range mapping and of snapshot construction.
use vstd::prelude::*;

verus! {

/// What can go wrong in the pure mapping layer and when building a
/// snapshot from the values an external client reported.
#[derive(Debug, Clone, Copy, PartialEq, Eq, Structural)]
pub enum MergeError {
    /// A piece's byte range starts beyond the end of the torrent's layout.
    OutOfRange,
    /// No file of the torrent carries the requested name.
    FileNotFound,
    /// A file block's offset lies beyond the end of its file.
    OffsetOutOfBounds,
    /// The reported metadata is inconsistent (zero piece size, mismatched
    /// array lengths, a malformed piece hash, or a layout too large for
    /// this machine's arithmetic).
    InvalidMetadata,
}

} // verus!
