//! Recovery decisions, per destination piece: locate the source byte
//! range, check source availability, merge the required source pieces,
//! check containment, and gate the write on the content hash. The
//! surrounding I/O (reading source bytes, writing restored bytes) is the
//! caller's; every decision between two I/O steps is made here.
use vstd::prelude::*;

use crate::block::{FileBlock, Piece, TorrentPiece, VirtualPiece};
use crate::digest::{get_sha1, sha1_of};
use crate::error::MergeError;
use crate::mapper::{
    div_ceil, div_ceil_u64, file_block_to_pieces, file_index_of, find_by_name, get_file_offset,
    name_in, offset_in_layout, piece_span, piece_to_file_block,
};
use crate::matcher::{convert_filename, convert_spec};
use crate::snapshot::{prefix_size, total_size, PieceState, Torrent};

verus! {

/// Why a destination piece was passed over without a write.
#[derive(Debug, Clone, Copy, PartialEq, Eq, Structural)]
pub enum SkipReason {
    /// A piece/byte-range conversion failed: the piece or block does not
    /// fit the layout it was mapped against.
    MapFailed,
    /// No matched source file corresponds to the destination file.
    NoSourceFile,
    /// A required source piece is not in the Downloaded state.
    SourceUnavailable,
    /// The merged source byte range does not contain the destination
    /// block.
    OutOfBlock,
}

/// What the caller is to do for one destination piece: read the source
/// byte range and hand the bytes back, or skip the piece.
pub enum PiecePlan {
    Skip(SkipReason),
    Fetch(FetchPlan),
}

/// A read request for one destination piece: where the bytes come from,
/// where they go, and the hash the extracted bytes must carry.
pub struct FetchPlan {
    /// Name of the source file to read from.
    pub src_file: String,
    /// Byte range to read, relative to the source file's start.
    pub src_block: FileBlock,
    /// Name of the destination file to write to.
    pub dst_file: String,
    /// Byte range to write, relative to the destination file's start.
    pub dst_block: FileBlock,
    /// The destination piece's expected 20-byte content hash.
    pub expected_hash: Vec<u8>,
}

/// How one attempted piece ended, for the run statistics.
#[derive(Debug, Clone, Copy, PartialEq, Eq, Structural)]
pub enum PieceOutcome {
    /// Bytes were verified and written.
    Restored,
    /// The piece was passed over before any read.
    Skipped(SkipReason),
    /// The source read failed or came up short.
    ReadFailed,
    /// The extracted bytes did not carry the expected hash.
    HashMismatch,
}

/// Counters of one recovery run.
#[derive(Debug, Clone, Copy, PartialEq, Eq, Structural)]
pub struct MergeStats {
    pub restored: u64,
    pub unavailable: u64,
    pub out_of_block: u64,
}

/// How an outcome moves the three counters
/// (restored, unavailable, out-of-block).
pub open spec fn outcome_delta(o: PieceOutcome) -> (int, int, int) {
    match o {
        PieceOutcome::Restored => (1, 0, 0),
        PieceOutcome::Skipped(SkipReason::SourceUnavailable) => (0, 1, 0),
        PieceOutcome::Skipped(SkipReason::OutOfBlock) => (0, 0, 1),
        PieceOutcome::Skipped(SkipReason::MapFailed) => (0, 0, 0),
        PieceOutcome::Skipped(SkipReason::NoSourceFile) => (0, 0, 0),
        PieceOutcome::ReadFailed => (0, 1, 0),
        PieceOutcome::HashMismatch => (0, 0, 0),
    }
}

impl MergeStats {
    pub fn new() -> (r: MergeStats)
        ensures
            r.restored == 0,
            r.unavailable == 0,
            r.out_of_block == 0,
    {
        MergeStats { restored: 0, unavailable: 0, out_of_block: 0 }
    }

    /// Folds one piece's outcome into the counters: a restored piece,
    /// an unavailable or unreadable source, and a failed containment
    /// check each move exactly one counter by one; the rest move none.
    pub fn record(&mut self, outcome: &PieceOutcome)
        requires
            old(self).restored < u64::MAX,
            old(self).unavailable < u64::MAX,
            old(self).out_of_block < u64::MAX,
        ensures
            final(self).restored == old(self).restored + outcome_delta(*outcome).0,
            final(self).unavailable == old(self).unavailable + outcome_delta(*outcome).1,
            final(self).out_of_block == old(self).out_of_block + outcome_delta(*outcome).2,
    {
        match outcome {
            PieceOutcome::Restored => {
                self.restored = self.restored + 1;
            },
            PieceOutcome::Skipped(SkipReason::SourceUnavailable) => {
                self.unavailable = self.unavailable + 1;
            },
            PieceOutcome::Skipped(SkipReason::OutOfBlock) => {
                self.out_of_block = self.out_of_block + 1;
            },
            PieceOutcome::ReadFailed => {
                self.unavailable = self.unavailable + 1;
            },
            _ => {},
        }
    }
}

/// Piece `k` is missing for the file found under `name`: its byte range
/// overlaps the file's byte range and its state is not Downloaded.
pub open spec fn missing_piece(t: Torrent, name: Seq<char>, k: int) -> bool {
    let j = find_by_name(t.files@, name);
    let off = prefix_size(t.files@, j);
    let size = t.files@[j].size;
    &&& 0 <= k < t.piece_states@.len()
    &&& off / (t.piece_size as int) <= k < div_ceil(off + size, t.piece_size as int)
    &&& t.piece_states@[k] != PieceState::Downloaded
}

/// The indices, in ascending order, of the pieces of `torrent` that
/// overlap the byte range of the file named `path` and are not
/// Downloaded. Fails with `FileNotFound` when no file carries the name.
pub fn get_missing_pieces(torrent: &Torrent, path: &String) -> (r: Result<Vec<usize>, MergeError>)
    requires
        torrent.wf(),
    ensures
        r is Ok <==> name_in(torrent.files@, path@),
        r is Err ==> r->Err_0 == MergeError::FileNotFound,
        r is Ok ==> ({
            let v = r->Ok_0;
            &&& forall|m: int| 0 <= m < v@.len() ==> missing_piece(*torrent, path@, #[trigger] v@[m] as int)
            &&& forall|k: int| missing_piece(*torrent, path@, k) ==> v@.contains(k as usize)
            &&& forall|m1: int, m2: int| 0 <= m1 < m2 < v@.len() ==> v@[m1] < v@[m2]
        }),
{
    let ghost files = torrent.files@;
    let piece_size = torrent.piece_size;
    let offset = match get_file_offset(&torrent.files, path) {
        Ok(o) => o,
        Err(e) => {
            return Err(e);
        },
    };
    let ghost j = find_by_name(files, path@);
    let file_size = file_size_at_first(torrent, path);
    proof {
        crate::snapshot::lemma_prefix_size_step(files, j);
        crate::snapshot::lemma_prefix_size_monotonic(files, j + 1, files.len() as int);
        crate::snapshot::lemma_prefix_size_full(files);
    }
    let start_idx = offset / piece_size;
    let end_raw = div_ceil_u64(offset + file_size, piece_size);
    proof {
        vstd::arithmetic::div_mod::lemma_div_is_ordered(
            offset as int,
            offset + file_size + (piece_size - 1),
            piece_size as int,
        );
    }
    let n_pieces = torrent.piece_states.len();
    let mut missing: Vec<usize> = Vec::new();
    let mut k: u64 = start_idx;
    let ghost end = div_ceil(offset + file_size, piece_size as int);
    assert(end == end_raw);
    while k < end_raw
        invariant
            torrent.wf(),
            files == torrent.files@,
            piece_size == torrent.piece_size,
            j == find_by_name(files, path@),
            name_in(files, path@),
            crate::mapper::is_first_with_name(files, path@, j),
            offset == prefix_size(files, j),
            file_size == files[j].size,
            n_pieces == torrent.piece_states@.len(),
            start_idx == offset as int / piece_size as int,
            end == div_ceil(offset + file_size, piece_size as int),
            end == end_raw,
            start_idx <= k <= end_raw,
            forall|m: int|
                0 <= m < missing@.len() ==> missing_piece(*torrent, path@, #[trigger] missing@[m] as int),
            forall|kk: int|
                start_idx <= kk < k ==> (missing_piece(*torrent, path@, kk) ==> missing@.contains(
                    kk as usize,
                )),
            forall|m: int| 0 <= m < missing@.len() ==> start_idx <= #[trigger] missing@[m] < k,
            forall|m1: int, m2: int|
                0 <= m1 < m2 < missing@.len() ==> missing@[m1] < missing@[m2],
        decreases end_raw - k,
    {
        if k >= n_pieces as u64 {
            proof {
                assert forall|kk: int|
                    start_idx <= kk < end && missing_piece(*torrent, path@, kk) implies missing@.contains(
                    kk as usize,
                ) by {
                    if kk >= k {
                        assert(kk < n_pieces as int);
                        assert(false);
                    }
                }
            }
            return Ok(missing);
        }
        let state_is_downloaded = torrent.piece_states[k as usize] == PieceState::Downloaded;
        if !state_is_downloaded {
            let ghost old_missing = missing@;
            missing.push(k as usize);
            proof {
                assert(missing@ == old_missing.push(k as usize));
                assert forall|kk: int|
                    start_idx <= kk < k + 1 && missing_piece(*torrent, path@, kk) implies missing@.contains(
                    kk as usize,
                ) by {
                    if kk < k {
                        assert(old_missing.contains(kk as usize));
                        let m = choose|m: int| 0 <= m < old_missing.len() && old_missing[m] == kk as usize;
                        assert(missing@[m] == kk as usize);
                    } else {
                        assert(missing@[missing@.len() - 1] == kk as usize);
                    }
                }
            }
        }
        k = k + 1;
    }
    proof {
        assert forall|kk: int| missing_piece(*torrent, path@, kk) implies missing@.contains(
            kk as usize,
        ) by {
            assert(start_idx <= kk < end);
        }
    }
    Ok(missing)
}

/// The absolute offset, in the destination's logical byte stream, at
/// which destination piece `idx` begins.
pub open spec fn dst_abs(dst: Torrent, idx: int) -> int {
    idx * dst.piece_size
}

/// Destination piece `idx` begins inside the destination layout.
pub open spec fn dst_mapped(dst: Torrent, idx: int) -> bool {
    offset_in_layout(dst.files@, dst_abs(dst, idx))
}

/// The name of the destination file that piece `idx` begins in.
pub open spec fn dst_file_name(dst: Torrent, idx: int) -> Seq<char> {
    dst.files@[file_index_of(dst.files@, dst_abs(dst, idx))].name@
}

/// Destination piece `idx`'s offset relative to its file's start.
pub open spec fn dst_rel_off(dst: Torrent, idx: int) -> int {
    dst_abs(dst, idx) - prefix_size(dst.files@, file_index_of(dst.files@, dst_abs(dst, idx)))
}

/// The source file name the matcher resolves the destination file to.
pub open spec fn src_file_name(
    dst: Torrent,
    pairs: Seq<(Vec<String>, Vec<String>)>,
    idx: int,
) -> Option<Seq<char>> {
    convert_spec(pairs, dst_file_name(dst, idx))
}

/// The resolved source file exists and the destination block's offset
/// lies within it.
pub open spec fn src_located(
    src: Torrent,
    dst: Torrent,
    pairs: Seq<(Vec<String>, Vec<String>)>,
    idx: int,
) -> bool {
    let sname = src_file_name(dst, pairs, idx)->Some_0;
    &&& name_in(src.files@, sname)
    &&& dst_rel_off(dst, idx) <= src.files@[find_by_name(src.files@, sname)].size
}

/// The source piece index range (inclusive start, exclusive end)
/// spanning the destination block within the source layout.
pub open spec fn required_span(
    src: Torrent,
    dst: Torrent,
    pairs: Seq<(Vec<String>, Vec<String>)>,
    idx: int,
) -> (int, int) {
    let sname = src_file_name(dst, pairs, idx)->Some_0;
    let j = find_by_name(src.files@, sname);
    piece_span(
        prefix_size(src.files@, j) + dst_rel_off(dst, idx),
        dst.piece_size as int,
        src.piece_size as int,
    )
}

/// Every source piece spanning the destination block is Downloaded.
pub open spec fn sources_available(
    src: Torrent,
    dst: Torrent,
    pairs: Seq<(Vec<String>, Vec<String>)>,
    idx: int,
) -> bool {
    let (start, end) = required_span(src, dst, pairs, idx);
    forall|k: int| start <= k < end ==> src.piece_downloaded(k)
}

/// Where, in the source's logical byte stream, the merged virtual piece
/// begins.
pub open spec fn virt_offset(
    src: Torrent,
    dst: Torrent,
    pairs: Seq<(Vec<String>, Vec<String>)>,
    idx: int,
) -> int {
    required_span(src, dst, pairs, idx).0 * src.piece_size
}

/// The merged virtual piece's length in bytes.
pub open spec fn virt_size(
    src: Torrent,
    dst: Torrent,
    pairs: Seq<(Vec<String>, Vec<String>)>,
    idx: int,
) -> int {
    (required_span(src, dst, pairs, idx).1 - required_span(src, dst, pairs, idx).0)
        * src.piece_size
}

/// The merged virtual piece begins inside the source layout.
pub open spec fn virt_mapped(
    src: Torrent,
    dst: Torrent,
    pairs: Seq<(Vec<String>, Vec<String>)>,
    idx: int,
) -> bool {
    offset_in_layout(src.files@, virt_offset(src, dst, pairs, idx))
}

/// The merged virtual piece's offset relative to its source file's
/// start.
pub open spec fn src_rel_off(
    src: Torrent,
    dst: Torrent,
    pairs: Seq<(Vec<String>, Vec<String>)>,
    idx: int,
) -> int {
    virt_offset(src, dst, pairs, idx) - prefix_size(
        src.files@,
        file_index_of(src.files@, virt_offset(src, dst, pairs, idx)),
    )
}

/// The merged source block contains the destination block, in
/// file-relative coordinates.
pub open spec fn src_covers(
    src: Torrent,
    dst: Torrent,
    pairs: Seq<(Vec<String>, Vec<String>)>,
    idx: int,
) -> bool {
    &&& src_rel_off(src, dst, pairs, idx) <= dst_rel_off(dst, idx)
    &&& dst_rel_off(dst, idx) + dst.piece_size <= src_rel_off(src, dst, pairs, idx) + virt_size(
        src,
        dst,
        pairs,
        idx,
    )
}

/// The first reason, in decision order, for which destination piece
/// `idx` is passed over; `None` when its source bytes are to be read.
pub open spec fn expected_skip(
    src: Torrent,
    dst: Torrent,
    pairs: Seq<(Vec<String>, Vec<String>)>,
    idx: int,
) -> Option<SkipReason> {
    if !dst_mapped(dst, idx) {
        Some(SkipReason::MapFailed)
    } else if src_file_name(dst, pairs, idx) is None {
        Some(SkipReason::NoSourceFile)
    } else if !src_located(src, dst, pairs, idx) {
        Some(SkipReason::MapFailed)
    } else if !sources_available(src, dst, pairs, idx) {
        Some(SkipReason::SourceUnavailable)
    } else if !virt_mapped(src, dst, pairs, idx) {
        Some(SkipReason::MapFailed)
    } else if !src_covers(src, dst, pairs, idx) {
        Some(SkipReason::OutOfBlock)
    } else {
        None
    }
}

/// If any one source piece spanning the destination block is not
/// Downloaded — the mapping stages having succeeded — the piece is
/// skipped as unavailable before any byte is read.
pub proof fn lemma_unavailability_gate(
    src: Torrent,
    dst: Torrent,
    pairs: Seq<(Vec<String>, Vec<String>)>,
    idx: int,
    k: int,
)
    requires
        dst_mapped(dst, idx),
        src_file_name(dst, pairs, idx) is Some,
        src_located(src, dst, pairs, idx),
        required_span(src, dst, pairs, idx).0 <= k < required_span(src, dst, pairs, idx).1,
        !src.piece_downloaded(k),
    ensures
        expected_skip(src, dst, pairs, idx) == Some(SkipReason::SourceUnavailable),
{
}

fn all_pieces_downloaded(t: &Torrent, pieces: &Vec<TorrentPiece>) -> (r: bool)
    ensures
        r == (forall|m: int|
            0 <= m < pieces@.len() ==> t.piece_downloaded((#[trigger] pieces@[m]).idx as int)),
{
    let mut i: usize = 0;
    while i < pieces.len()
        invariant
            0 <= i <= pieces@.len(),
            forall|m: int|
                0 <= m < i ==> t.piece_downloaded((#[trigger] pieces@[m]).idx as int),
        decreases pieces@.len() - i,
    {
        let piece = pieces[i];
        if !t.piece_is_downloaded(&piece) {
            assert(!t.piece_downloaded(pieces@[i as int].idx as int));
            return false;
        }
        i = i + 1;
    }
    true
}

/// Decides, for one missing destination piece, whether its bytes can be
/// fetched from the source torrent and from where, or why it is skipped:
/// map the piece to its destination file block, resolve the source file,
/// span the block with source pieces, check their availability, merge
/// them, and check that the merged range contains the block.
pub fn plan_piece_recovery(
    src: &Torrent,
    dst: &Torrent,
    same_files: &Vec<(Vec<String>, Vec<String>)>,
    piece_idx: usize,
) -> (r: PiecePlan)
    requires
        src.wf(),
        dst.wf(),
        piece_idx < dst.piece_states@.len(),
        total_size(src.files@) + dst.piece_size + src.piece_size <= usize::MAX,
        forall|k: int|
            0 <= k < same_files@.len() ==> (#[trigger] same_files@[k]).0@.len() > 0
                && same_files@[k].1@.len() > 0,
    ensures
        match r {
            PiecePlan::Skip(reason) => expected_skip(*src, *dst, same_files@, piece_idx as int)
                == Some(reason),
            PiecePlan::Fetch(f) => {
                &&& expected_skip(*src, *dst, same_files@, piece_idx as int) is None
                &&& Some(f.src_file@) == src_file_name(*dst, same_files@, piece_idx as int)
                &&& f.src_block.offset == src_rel_off(*src, *dst, same_files@, piece_idx as int)
                &&& f.src_block.size == virt_size(*src, *dst, same_files@, piece_idx as int)
                &&& f.dst_file@ == dst_file_name(*dst, piece_idx as int)
                &&& f.dst_block.offset == dst_rel_off(*dst, piece_idx as int)
                &&& f.dst_block.size == dst.piece_size
                &&& f.expected_hash@ == dst.piece_hashes@[piece_idx as int]@
                &&& f.src_block.contains_spec(f.dst_block)
            },
        },
{
    let ghost pairs = same_files@;
    let ghost gidx = piece_idx as int;
    proof {
        vstd::arithmetic::mul::lemma_mul_inequality(
            gidx,
            dst.piece_states@.len() as int,
            dst.piece_size as int,
        );
        vstd::arithmetic::mul::lemma_mul_inequality(
            gidx + 1,
            dst.piece_states@.len() as int,
            dst.piece_size as int,
        );
    }
    let dst_piece = TorrentPiece { idx: piece_idx, piece_size: dst.piece_size };
    let (dst_name, dst_block) = match piece_to_file_block(dst, &Piece::Physical(dst_piece)) {
        Ok(x) => x,
        Err(_) => {
            return PiecePlan::Skip(SkipReason::MapFailed);
        },
    };
    let src_name = match convert_filename(same_files, &dst_name) {
        Ok(x) => x,
        Err(_) => {
            return PiecePlan::Skip(SkipReason::NoSourceFile);
        },
    };
    let src_pieces = match file_block_to_pieces(src, &src_name, &dst_block) {
        Ok(x) => x,
        Err(_) => {
            return PiecePlan::Skip(SkipReason::MapFailed);
        },
    };
    let ghost span = required_span(*src, *dst, pairs, gidx);
    if !all_pieces_downloaded(src, &src_pieces) {
        proof {
            let m = choose|m: int|
                0 <= m < src_pieces@.len() && !src.piece_downloaded(
                    (#[trigger] src_pieces@[m]).idx as int,
                );
            assert(span.0 <= src_pieces@[m].idx < span.1);
            assert(!sources_available(*src, *dst, pairs, gidx));
        }
        return PiecePlan::Skip(SkipReason::SourceUnavailable);
    }
    proof {
        assert forall|k: int| span.0 <= k < span.1 implies src.piece_downloaded(k) by {
            let m = k - span.0;
            assert(src_pieces@[m].idx == k);
            assert(src.piece_downloaded((src_pieces@[m]).idx as int));
        }
        assert(sources_available(*src, *dst, pairs, gidx));
        let ps = src.piece_size as int;
        let j2 = find_by_name(src.files@, src_name@);
        let x = prefix_size(src.files@, j2) + dst_rel_off(*dst, gidx);
        crate::snapshot::lemma_total_size_nonneg(src.files@.take(j2));
        assert(span.0 == x / ps);
        assert(span.1 == div_ceil(x + dst.piece_size, ps));
        vstd::arithmetic::div_mod::lemma_fundamental_div_mod(x, ps);
        vstd::arithmetic::div_mod::lemma_mod_bound(x, ps);
        assert((x / ps + 1) * ps == (x / ps) * ps + ps) by (nonlinear_arith);
        assert((x / ps) * ps == ps * (x / ps)) by (nonlinear_arith);
        assert(x + ps == (x / ps + 1) * ps + x % ps);
        vstd::arithmetic::div_mod::lemma_fundamental_div_mod_converse(
            x + ps,
            ps,
            x / ps + 1,
            x % ps,
        );
        vstd::arithmetic::div_mod::lemma_div_is_ordered(x + ps, x + dst.piece_size + ps - 1, ps);
        assert(span.0 < span.1);
        assert(src_pieces@.len() > 0);
        assert(src.piece_downloaded(src_pieces@[0].idx as int));
        assert(span.0 < src.piece_states@.len());
        assert(src_pieces@[span.1 - 1 - span.0].idx == span.1 - 1);
        assert(src.piece_downloaded(span.1 - 1));
        assert(span.1 <= src.piece_states@.len());
        vstd::arithmetic::mul::lemma_mul_inequality(
            span.0,
            src.piece_states@.len() as int,
            src.piece_size as int,
        );
        vstd::arithmetic::mul::lemma_mul_inequality(
            span.1 - span.0,
            src.piece_states@.len() as int,
            src.piece_size as int,
        );
        vstd::arithmetic::mul::lemma_mul_inequality(
            1,
            src.piece_states@.len() as int,
            src.piece_size as int,
        );
    }
    let virt = match TorrentPiece::merge(&src_pieces) {
        Some(v) => v,
        None => vstd::pervasive::unreached(),
    };
    let (src_file, virt_block) = match piece_to_file_block(src, &Piece::Virtual(virt)) {
        Ok(x) => x,
        Err(_) => {
            return PiecePlan::Skip(SkipReason::MapFailed);
        },
    };
    proof {
        crate::snapshot::lemma_total_size_nonneg(
            src.files@.take(file_index_of(src.files@, virt.offset as int)),
        );
        crate::snapshot::lemma_total_size_nonneg(
            dst.files@.take(file_index_of(dst.files@, dst_abs(*dst, gidx))),
        );
        assert((gidx + 1) * dst.piece_size == gidx * dst.piece_size + dst.piece_size)
            by (nonlinear_arith);
        assert(span.0 * src.piece_size + (span.1 - span.0) * src.piece_size == span.1
            * src.piece_size) by (nonlinear_arith);
        vstd::arithmetic::mul::lemma_mul_inequality(
            span.1,
            src.piece_states@.len() as int,
            src.piece_size as int,
        );
    }
    if virt_block.contains(&dst_block) {
        let expected_hash = vstd::slice::slice_to_vec(dst.piece_hashes[piece_idx].as_slice());
        PiecePlan::Fetch(
            FetchPlan {
                src_file: src_name,
                src_block: virt_block,
                dst_file: dst_name,
                dst_block,
                expected_hash,
            },
        )
    } else {
        PiecePlan::Skip(SkipReason::OutOfBlock)
    }
}

/// The sub-range of the read source bytes that corresponds to the
/// destination block: the destination-equivalent slice of the merged
/// source block.
pub open spec fn extracted_bytes(data: Seq<u8>, src_block: FileBlock, dst_block: FileBlock) -> Seq<
    u8,
> {
    data.subrange(
        dst_block.offset - src_block.offset,
        dst_block.offset - src_block.offset + dst_block.size,
    )
}

fn bytes_eq(a: &Vec<u8>, b: &Vec<u8>) -> (r: bool)
    ensures
        r == (a@ == b@),
{
    if a.len() != b.len() {
        return false;
    }
    let mut i: usize = 0;
    while i < a.len()
        invariant
            0 <= i <= a@.len(),
            a@.len() == b@.len(),
            forall|k: int| 0 <= k < i ==> a@[k] == b@[k],
        decreases a@.len() - i,
    {
        if a[i] != b[i] {
            return false;
        }
        i = i + 1;
    }
    proof {
        assert(a@ =~= b@);
    }
    true
}

/// The hash gate: slices the destination-equivalent sub-range out of the
/// read source bytes and hands it back exactly when its content hash is
/// the expected one; on a mismatch nothing is handed back, so nothing is
/// written.
pub fn verify_and_extract(
    data: &Vec<u8>,
    src_block: &FileBlock,
    dst_block: &FileBlock,
    expected_hash: &Vec<u8>,
) -> (r: Option<Vec<u8>>)
    requires
        src_block.contains_spec(*dst_block),
        data@.len() == src_block.size,
    ensures
        r is Some <==> sha1_of(extracted_bytes(data@, *src_block, *dst_block)) == expected_hash@,
        r is Some ==> r->Some_0@ == extracted_bytes(data@, *src_block, *dst_block),
{
    let n = data.len();
    assert(dst_block.offset - src_block.offset <= n);
    assert(dst_block.size <= n);
    let local_off = (dst_block.offset - src_block.offset) as usize;
    let local_end = local_off + (dst_block.size as usize);
    let sub = vstd::slice::slice_subrange(data.as_slice(), local_off, local_end);
    let computed = get_sha1(sub);
    if bytes_eq(&computed, expected_hash) {
        Some(vstd::slice::slice_to_vec(sub))
    } else {
        None
    }
}

/// The byte size of the first file of the torrent that carries `path`.
fn file_size_at_first(torrent: &Torrent, path: &String) -> (r: u64)
    requires
        name_in(torrent.files@, path@),
    ensures
        r == torrent.files@[find_by_name(torrent.files@, path@)].size,
{
    let ghost files = torrent.files@;
    let mut i: usize = 0;
    while i < torrent.files.len()
        invariant
            0 <= i <= files.len(),
            files == torrent.files@,
            name_in(files, path@),
            forall|k: int| 0 <= k < i ==> (#[trigger] files[k].name)@ != path@,
        decreases files.len() - i,
    {
        if torrent.files[i].name == *path {
            proof {
                crate::mapper::lemma_find_by_name(files, path@, i as int);
            }
            return torrent.files[i].size;
        }
        i = i + 1;
    }
    proof {
        assert(!name_in(files, path@));
    }
    vstd::pervasive::unreached()
}

} // verus!
