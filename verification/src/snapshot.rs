//! Immutable in-memory representation of one torrent's metadata: piece
//! size, ordered file list, per-piece download state and expected hash.
use vstd::prelude::*;

use crate::block::TorrentPiece;
use crate::error::MergeError;

verus! {

/// Per-piece status as reported by the external client.
#[derive(Debug, Clone, Copy, PartialEq, Eq, Structural)]
pub enum PieceState {
    NotDownloaded,
    Checking,
    Downloaded,
    Other,
}

/// One entry of a torrent's ordered file list: a name and a byte size.
/// The order of the list defines the torrent's linear byte layout.
#[derive(Debug, Clone)]
pub struct FileEntry {
    pub name: String,
    pub size: u64,
}

/// The combined byte size of a file list, i.e. the length of the logical
/// byte stream the files concatenate to.
pub open spec fn total_size(files: Seq<FileEntry>) -> int
    decreases files.len(),
{
    if files.len() == 0 {
        0
    } else {
        total_size(files.drop_last()) + files.last().size
    }
}

/// The combined byte size of the first `i` files: the absolute offset at
/// which file `i` begins in the logical byte stream.
pub open spec fn prefix_size(files: Seq<FileEntry>, i: int) -> int {
    total_size(files.take(i))
}

pub proof fn lemma_total_size_nonneg(files: Seq<FileEntry>)
    ensures
        total_size(files) >= 0,
    decreases files.len(),
{
    if files.len() > 0 {
        lemma_total_size_nonneg(files.drop_last());
    }
}

/// Peeling one file off the front of a prefix: file `i`'s size separates
/// the offsets at which files `i` and `i + 1` begin.
pub proof fn lemma_prefix_size_step(files: Seq<FileEntry>, i: int)
    requires
        0 <= i < files.len(),
    ensures
        prefix_size(files, i + 1) == prefix_size(files, i) + files[i].size,
{
    assert(files.take(i + 1).drop_last() =~= files.take(i));
    assert(files.take(i + 1).last() == files[i]);
}

pub proof fn lemma_prefix_size_full(files: Seq<FileEntry>)
    ensures
        prefix_size(files, files.len() as int) == total_size(files),
{
    assert(files.take(files.len() as int) =~= files);
}

/// Offsets of later files are no smaller than those of earlier ones.
pub proof fn lemma_prefix_size_monotonic(files: Seq<FileEntry>, i: int, j: int)
    requires
        0 <= i <= j <= files.len(),
    ensures
        prefix_size(files, i) <= prefix_size(files, j),
    decreases j - i,
{
    if i < j {
        lemma_prefix_size_step(files, j - 1);
        lemma_prefix_size_monotonic(files, i, j - 1);
        lemma_total_size_nonneg(files.take(j - 1));
    }
}

pub open spec fn is_hex_digit(c: char) -> bool {
    ||| ('0' as int) <= (c as int) && (c as int) <= ('9' as int)
    ||| ('a' as int) <= (c as int) && (c as int) <= ('f' as int)
    ||| ('A' as int) <= (c as int) && (c as int) <= ('F' as int)
}

pub open spec fn hex_digit_val(c: char) -> int {
    if ('0' as int) <= (c as int) && (c as int) <= ('9' as int) {
        c as int - '0' as int
    } else if ('a' as int) <= (c as int) && (c as int) <= ('f' as int) {
        c as int - 'a' as int + 10
    } else {
        c as int - 'A' as int + 10
    }
}

/// The bytes a hex string of even length denotes: two digits per byte,
/// high digit first.
pub open spec fn hex_decoded(s: Seq<char>) -> Seq<u8> {
    Seq::new(s.len() / 2, |i: int| (hex_digit_val(s[2 * i]) * 16 + hex_digit_val(s[2 * i + 1])) as u8)
}

/// A well-formed hex encoding of a 20-byte content hash.
pub open spec fn valid_hash_hex(s: Seq<char>) -> bool {
    s.len() == 40 && (forall|i: int| 0 <= i < s.len() ==> is_hex_digit(#[trigger] s[i]))
}

/// Relies on hex::decode: an even-length string of hex digits decodes to
/// one byte per digit pair (high digit first); an odd length or any
/// non-hex character fails.
#[verifier::external_body]
fn hex_decode(s: &String) -> (r: Option<Vec<u8>>)
    ensures
        r is Some <==> (s@.len() % 2 == 0 && (forall|i: int|
            0 <= i < s@.len() ==> is_hex_digit(#[trigger] s@[i]))),
        r is Some ==> r->Some_0@ == hex_decoded(s@),
{
    match hex::decode(s.as_str()) {
        Ok(v) => Some(v),
        Err(_) => None,
    }
}

/// Immutable snapshot of one torrent's metadata, taken from a
/// point-in-time query against the external client and never mutated.
#[derive(Debug)]
pub struct Torrent {
    /// Opaque content identifier (torrent hash), unique per torrent.
    pub hash: String,
    /// Bytes per piece; constant for all pieces but possibly the last.
    pub piece_size: u64,
    /// Ordered file list defining the torrent's linear byte layout.
    pub files: Vec<FileEntry>,
    /// Download state, indexed by piece index.
    pub piece_states: Vec<PieceState>,
    /// Expected 20-byte content hash, indexed by piece index.
    pub piece_hashes: Vec<Vec<u8>>,
    /// Filesystem root for completed storage.
    pub save_path: String,
    /// Filesystem root for in-progress storage.
    pub temp_path: String,
    /// How many pieces the external client reports as present.
    pub pieces_have: u64,
}

impl Torrent {
    /// Well-formedness: positive piece size, parallel state/hash arrays,
    /// 20-byte hashes, a layout that fits the piece arrays, and products
    /// that this machine's integers can carry.
    pub open spec fn wf(self) -> bool {
        &&& self.piece_size > 0
        &&& self.piece_states@.len() == self.piece_hashes@.len()
        &&& forall|i: int|
            0 <= i < self.piece_hashes@.len() ==> (#[trigger] self.piece_hashes@[i])@.len() == 20
        &&& total_size(self.files@) <= self.piece_states@.len() * self.piece_size
        &&& self.piece_states@.len() * self.piece_size <= u64::MAX
        &&& self.piece_states@.len() * self.piece_size <= usize::MAX
    }

    /// The conditions under which the reported metadata yields a
    /// well-formed snapshot.
    pub open spec fn parts_ok(
        piece_size: u64,
        files: Seq<FileEntry>,
        piece_states: Seq<PieceState>,
        piece_hash_hex: Seq<String>,
    ) -> bool {
        &&& piece_size > 0
        &&& piece_states.len() == piece_hash_hex.len()
        &&& forall|i: int| 0 <= i < piece_hash_hex.len() ==> valid_hash_hex((#[trigger] piece_hash_hex[i])@)
        &&& total_size(files) <= piece_states.len() * piece_size
        &&& piece_states.len() * piece_size <= u64::MAX
        &&& piece_states.len() * piece_size <= usize::MAX
    }

    /// Builds a snapshot from the plain values the external client
    /// reported, decoding the hex-encoded piece hashes; rejects
    /// inconsistent metadata.
    pub fn new(
        hash: String,
        piece_size: u64,
        files: Vec<FileEntry>,
        piece_states: Vec<PieceState>,
        piece_hash_hex: Vec<String>,
        save_path: String,
        temp_path: String,
        pieces_have: u64,
    ) -> (r: Result<Torrent, MergeError>)
        ensures
            r is Ok <==> Self::parts_ok(piece_size, files@, piece_states@, piece_hash_hex@),
            r is Err ==> r->Err_0 == MergeError::InvalidMetadata,
            r is Ok ==> {
                let t = r->Ok_0;
                &&& t.wf()
                &&& t.hash@ == hash@
                &&& t.piece_size == piece_size
                &&& t.files == files
                &&& t.piece_states == piece_states
                &&& t.piece_hashes@.len() == piece_hash_hex@.len()
                &&& forall|i: int|
                    0 <= i < piece_hash_hex@.len() ==> (#[trigger] t.piece_hashes@[i])@
                        == hex_decoded(piece_hash_hex@[i]@)
                &&& t.save_path@ == save_path@
                &&& t.temp_path@ == temp_path@
                &&& t.pieces_have == pieces_have
            },
    {
        if piece_size == 0 || piece_states.len() != piece_hash_hex.len() {
            return Err(MergeError::InvalidMetadata);
        }
        let n_pieces = piece_states.len();
        let capacity = match (n_pieces as u64).checked_mul(piece_size) {
            Some(c) => c,
            None => {
                return Err(MergeError::InvalidMetadata);
            },
        };
        if capacity > usize::MAX as u64 {
            return Err(MergeError::InvalidMetadata);
        }
        let total = match checked_total_size(&files) {
            Some(t) => t,
            None => {
                return Err(MergeError::InvalidMetadata);
            },
        };
        if total > capacity {
            return Err(MergeError::InvalidMetadata);
        }
        let mut piece_hashes: Vec<Vec<u8>> = Vec::new();
        let mut i: usize = 0;
        while i < piece_hash_hex.len()
            invariant
                0 <= i <= piece_hash_hex@.len(),
                piece_hashes@.len() == i,
                forall|j: int| 0 <= j < i ==> valid_hash_hex((#[trigger] piece_hash_hex@[j])@),
                forall|j: int|
                    0 <= j < i ==> (#[trigger] piece_hashes@[j])@ == hex_decoded(piece_hash_hex@[j]@),
                forall|j: int| 0 <= j < i ==> (#[trigger] piece_hashes@[j])@.len() == 20,
            decreases piece_hash_hex@.len() - i,
        {
            let hex_str = &piece_hash_hex[i];
            let decoded = match hex_decode(hex_str) {
                Some(d) => d,
                None => {
                    return Err(MergeError::InvalidMetadata);
                },
            };
            if decoded.len() != 20 {
                return Err(MergeError::InvalidMetadata);
            }
            piece_hashes.push(decoded);
            i = i + 1;
        }
        Ok(Torrent {
            hash,
            piece_size,
            files,
            piece_states,
            piece_hashes,
            save_path,
            temp_path,
            pieces_have,
        })
    }

    /// Whether piece `idx` is in the Downloaded state; indices outside
    /// the piece arrays count as not downloaded.
    pub open spec fn piece_downloaded(self, idx: int) -> bool {
        0 <= idx < self.piece_states@.len() && self.piece_states@[idx] == PieceState::Downloaded
    }

    pub fn piece_is_downloaded(&self, piece: &TorrentPiece) -> (r: bool)
        ensures
            r == self.piece_downloaded(piece.idx as int),
    {
        if piece.idx < self.piece_states.len() {
            self.piece_states[piece.idx] == PieceState::Downloaded
        } else {
            false
        }
    }

    /// Complete iff the client reports as many pieces present as the
    /// torrent has.
    pub open spec fn is_complete_spec(self) -> bool {
        self.pieces_have == self.piece_states@.len()
    }

    pub fn is_complete(&self) -> (r: bool)
        ensures
            r == self.is_complete_spec(),
    {
        self.pieces_have == self.piece_states.len() as u64
    }

    /// The filesystem root under which this torrent's files currently
    /// reside: completed storage when the torrent is complete, the
    /// in-progress root otherwise.
    pub fn current_root(&self) -> (r: &String)
        ensures
            r@ == if self.is_complete_spec() {
                self.save_path@
            } else {
                self.temp_path@
            },
    {
        if self.is_complete() {
            &self.save_path
        } else {
            &self.temp_path
        }
    }
}

/// Sums the file sizes, reporting `None` where the sum leaves `u64`.
pub fn checked_total_size(files: &Vec<FileEntry>) -> (r: Option<u64>)
    ensures
        r is Some <==> total_size(files@) <= u64::MAX,
        r is Some ==> r->Some_0 == total_size(files@),
{
    let mut acc: u64 = 0;
    let mut i: usize = 0;
    while i < files.len()
        invariant
            0 <= i <= files@.len(),
            acc == total_size(files@.take(i as int)),
        decreases files@.len() - i,
    {
        proof {
            lemma_prefix_size_step(files@, i as int);
        }
        acc = match acc.checked_add(files[i].size) {
            Some(a) => a,
            None => {
                proof {
                    lemma_prefix_size_monotonic(files@, i as int + 1, files@.len() as int);
                    lemma_prefix_size_full(files@);
                }
                return None;
            },
        };
        i = i + 1;
    }
    proof {
        lemma_prefix_size_full(files@);
    }
    Some(acc)
}

} // verus!
