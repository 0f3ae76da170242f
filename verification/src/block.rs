//! Byte ranges within a file, physical torrent pieces, and virtual pieces
//! formed by merging a contiguous run of physical pieces.
use vstd::prelude::*;

verus! {

/// A byte range relative to the start of one named file.
#[derive(Debug, Copy, Clone)]
pub struct FileBlock {
    pub offset: u64,
    pub size: u64,
}

/// A physical piece of one torrent, identified by its index into that
/// torrent's piece arrays.
#[derive(Debug, Copy, Clone)]
pub struct TorrentPiece {
    pub idx: usize,
    pub piece_size: u64,
}

/// A synthetic byte range in torrent-logical-byte-stream coordinates,
/// produced by merging a contiguous run of physical pieces.
#[derive(Debug, Copy, Clone)]
pub struct VirtualPiece {
    pub offset: usize,
    pub size: u64,
}

/// Either a physical piece or a merged virtual piece; both map to a byte
/// range of the torrent's logical byte stream.
#[derive(Debug, Copy, Clone)]
pub enum Piece {
    Virtual(VirtualPiece),
    Physical(TorrentPiece),
}

impl FileBlock {
    /// `self` contains `other` iff `other`'s byte range lies entirely
    /// within `self`'s.
    pub open spec fn contains_spec(self, other: FileBlock) -> bool {
        self.offset <= other.offset
            && other.offset + other.size <= self.offset + self.size
    }

    pub fn contains(&self, other: &Self) -> (r: bool)
        requires
            self.offset + self.size <= u64::MAX,
            other.offset + other.size <= u64::MAX,
        ensures
            r == self.contains_spec(*other),
    {
        self.offset <= other.offset && self.offset + self.size >= other.offset + other.size
    }
}

/// Containment holds exactly when neither bound of the inner range sticks
/// out of the outer one: growing the inner range past either bound of the
/// outer range falsifies it.
pub proof fn lemma_containment_monotonic(a: FileBlock, b: FileBlock)
    ensures
        (b.offset >= a.offset && b.offset + b.size <= a.offset + a.size)
            <==> a.contains_spec(b),
        b.offset < a.offset ==> !a.contains_spec(b),
        b.offset + b.size > a.offset + a.size ==> !a.contains_spec(b),
{
}

impl TorrentPiece {
    /// The absolute offset, in the torrent's logical byte stream, at which
    /// this piece begins.
    pub open spec fn abs_offset(self) -> int {
        self.idx * self.piece_size
    }

    /// Coalesces a non-empty contiguous run of pieces into one virtual
    /// byte range starting at the first piece and spanning the whole run.
    /// Returns `None` for an empty run.
    pub fn merge(list: &Vec<TorrentPiece>) -> (r: Option<VirtualPiece>)
        requires
            list@.len() > 0 ==> list@[0].piece_size <= usize::MAX,
            list@.len() > 0 ==> list@[0].idx * list@[0].piece_size <= usize::MAX,
            list@.len() > 0 ==> list@.len() * list@[0].piece_size <= u64::MAX,
        ensures
            r is Some <==> list@.len() > 0,
            r is Some ==> {
                &&& r->Some_0.offset == list@[0].idx * list@[0].piece_size
                &&& r->Some_0.size == list@.len() * list@[0].piece_size
            },
    {
        if list.len() == 0 {
            return None;
        }
        let first_piece = list[0];
        assert(list@.len() * first_piece.piece_size <= u64::MAX) by {
            assert(list@.len() > 0);
        };
        Some(VirtualPiece {
            offset: first_piece.idx * (first_piece.piece_size as usize),
            size: (list.len() as u64) * first_piece.piece_size,
        })
    }
}

impl Piece {
    /// The absolute offset, in the torrent's logical byte stream, at which
    /// this piece begins.
    pub open spec fn abs_offset_spec(self) -> int {
        match self {
            Piece::Physical(p) => p.abs_offset(),
            Piece::Virtual(v) => v.offset as int,
        }
    }

    /// The piece's length in bytes.
    pub open spec fn size_spec(self) -> int {
        match self {
            Piece::Physical(p) => p.piece_size as int,
            Piece::Virtual(v) => v.size as int,
        }
    }
}

} // verus!
