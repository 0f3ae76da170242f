//! Pure conversions between a torrent's piece index space and its
//! underlying multi-file byte layout, in both directions.
use vstd::prelude::*;

use crate::block::{FileBlock, Piece, TorrentPiece};
use crate::error::MergeError;
use crate::snapshot::{
    lemma_prefix_size_full, lemma_prefix_size_monotonic, lemma_prefix_size_step,
    lemma_total_size_nonneg, prefix_size, total_size, FileEntry, Torrent,
};

verus! {

/// Absolute offset `off` falls within file `j`'s half-open byte range.
/// Files of size zero contain no offset.
pub open spec fn offset_in_file(files: Seq<FileEntry>, off: int, j: int) -> bool {
    &&& 0 <= j < files.len()
    &&& prefix_size(files, j) <= off
    &&& off < prefix_size(files, j) + files[j].size
}

/// Some file of the layout contains absolute offset `off`.
pub open spec fn offset_in_layout(files: Seq<FileEntry>, off: int) -> bool {
    exists|j: int| offset_in_file(files, off, j)
}

/// The index of the file whose byte range contains absolute offset `off`.
pub open spec fn file_index_of(files: Seq<FileEntry>, off: int) -> int {
    choose|j: int| offset_in_file(files, off, j)
}

/// At most one file contains a given offset, so a witness pins
/// `file_index_of` down.
pub proof fn lemma_file_index_of(files: Seq<FileEntry>, off: int, j: int)
    requires
        offset_in_file(files, off, j),
    ensures
        offset_in_layout(files, off),
        file_index_of(files, off) == j,
{
    assert(offset_in_layout(files, off));
    let j2 = file_index_of(files, off);
    if j2 < j {
        lemma_prefix_size_step(files, j2);
        lemma_prefix_size_monotonic(files, j2 + 1, j);
        assert(false);
    } else if j < j2 {
        lemma_prefix_size_step(files, j);
        lemma_prefix_size_monotonic(files, j + 1, j2);
        assert(false);
    }
}

/// An offset lies in some file exactly when it lies short of the
/// layout's total size.
pub proof fn lemma_offset_in_layout_iff(files: Seq<FileEntry>, off: int)
    requires
        0 <= off,
    ensures
        offset_in_layout(files, off) <==> off < total_size(files),
    decreases files.len(),
{
    if files.len() == 0 {
        assert(forall|j: int| !offset_in_file(files, off, j));
    } else {
        let short = files.drop_last();
        lemma_offset_in_layout_iff(short, off);
        assert(files.take(files.len() - 1) =~= short);
        if off < total_size(short) {
            let j = choose|j: int| offset_in_file(short, off, j);
            assert(short.take(j) =~= files.take(j));
            assert(offset_in_file(files, off, j));
        } else if off < total_size(files) {
            assert(offset_in_file(files, off, files.len() - 1));
        } else {
            lemma_total_size_nonneg(files);
            assert forall|j: int| !offset_in_file(files, off, j) by {
                if 0 <= j < files.len() {
                    lemma_prefix_size_step(files, j);
                    lemma_prefix_size_monotonic(files, j + 1, files.len() as int);
                    lemma_prefix_size_full(files);
                }
            }
        }
    }
}

/// Maps a piece (physical or virtual) to the file of the layout that its
/// starting offset falls into, and to its byte range relative to that
/// file's start. Fails with `OutOfRange` when the piece starts at or
/// beyond the end of the layout.
pub fn piece_to_file_block(torrent: &Torrent, piece: &Piece) -> (r: Result<
    (String, FileBlock),
    MergeError,
>)
    requires
        piece.abs_offset_spec() <= u64::MAX,
        total_size(torrent.files@) <= u64::MAX,
    ensures
        r is Ok <==> offset_in_layout(torrent.files@, piece.abs_offset_spec()),
        r is Err ==> r->Err_0 == MergeError::OutOfRange,
        r is Ok ==> ({
            let j = file_index_of(torrent.files@, piece.abs_offset_spec());
            let (name, block) = r->Ok_0;
            &&& offset_in_file(torrent.files@, piece.abs_offset_spec(), j)
            &&& name@ == torrent.files@[j].name@
            &&& block.offset == piece.abs_offset_spec() - prefix_size(torrent.files@, j)
            &&& block.size == piece.size_spec()
        }),
{
    let (mut offset, size): (u64, u64) = match *piece {
        Piece::Physical(p) => ((p.idx as u64) * p.piece_size, p.piece_size),
        Piece::Virtual(v) => (v.offset as u64, v.size),
    };
    let ghost abs_off = piece.abs_offset_spec();
    let mut i: usize = 0;
    while i < torrent.files.len()
        invariant
            0 <= i <= torrent.files@.len(),
            total_size(torrent.files@) <= u64::MAX,
            abs_off == piece.abs_offset_spec(),
            size == piece.size_spec(),
            offset == abs_off - prefix_size(torrent.files@, i as int),
            prefix_size(torrent.files@, i as int) <= abs_off,
            forall|j: int| 0 <= j < i ==> !offset_in_file(torrent.files@, abs_off, j),
        decreases torrent.files@.len() - i,
    {
        let f = &torrent.files[i];
        proof {
            lemma_prefix_size_step(torrent.files@, i as int);
        }
        if offset < f.size {
            proof {
                lemma_file_index_of(torrent.files@, abs_off, i as int);
            }
            let file_block = FileBlock { offset, size };
            return Ok((f.name.clone(), file_block));
        } else {
            offset = offset - f.size;
        }
        i = i + 1;
    }
    assert(!offset_in_layout(torrent.files@, abs_off));
    Err(MergeError::OutOfRange)
}

/// Name `name` occurs in the file list.
pub open spec fn name_in(files: Seq<FileEntry>, name: Seq<char>) -> bool {
    exists|j: int| 0 <= j < files.len() && (#[trigger] files[j].name)@ == name
}

/// The first file of the list that carries `name`.
pub open spec fn is_first_with_name(files: Seq<FileEntry>, name: Seq<char>, j: int) -> bool {
    &&& 0 <= j < files.len()
    &&& files[j].name@ == name
    &&& forall|k: int| 0 <= k < j ==> (#[trigger] files[k].name)@ != name
}

/// The index of the first file of the list carrying `name`.
pub open spec fn find_by_name(files: Seq<FileEntry>, name: Seq<char>) -> int {
    choose|j: int| is_first_with_name(files, name, j)
}

/// A witness of "first file with this name" pins `find_by_name` down.
pub proof fn lemma_find_by_name(files: Seq<FileEntry>, name: Seq<char>, j: int)
    requires
        is_first_with_name(files, name, j),
    ensures
        name_in(files, name),
        find_by_name(files, name) == j,
{
    assert(name_in(files, name));
    let j2 = find_by_name(files, name);
    assert(is_first_with_name(files, name, j2));
}

/// Rounding division upward.
pub open spec fn div_ceil(x: int, p: int) -> int {
    (x + p - 1) / p
}

/// The index range (inclusive start, exclusive end) of the physical
/// pieces of size `p` whose ranges overlap the byte range
/// `[abs, abs + size)` of the logical byte stream.
pub open spec fn piece_span(abs: int, size: int, p: int) -> (int, int) {
    (abs / p, div_ceil(abs + size, p))
}

/// Division of `x` by `p`, rounded upward, without overflow.
pub fn div_ceil_u64(x: u64, p: u64) -> (r: u64)
    requires
        p > 0,
    ensures
        r == div_ceil(x as int, p as int),
{
    let q = x / p;
    let m = x % p;
    proof {
        vstd::arithmetic::div_mod::lemma_fundamental_div_mod(x as int, p as int);
        if m == 0 {
            vstd::arithmetic::div_mod::lemma_fundamental_div_mod_converse(
                x as int + p - 1,
                p as int,
                q as int,
                p as int - 1,
            );
        } else {
            assert((q as int + 1) * p == q as int * p + p) by (nonlinear_arith);
            vstd::arithmetic::div_mod::lemma_fundamental_div_mod_converse(
                x as int + p - 1,
                p as int,
                q as int + 1,
                m as int - 1,
            );
            if p == 1 {
                vstd::arithmetic::div_mod::lemma_mod_bound(x as int, 1);
                assert(false);
            }
            vstd::arithmetic::div_mod::lemma_div_is_ordered_by_denominator(x as int, 2, p as int);
        }
    }
    if m == 0 {
        q
    } else {
        q + 1
    }
}

/// Maps a byte range within a named file back to the run of physical
/// pieces spanning it. Fails with `FileNotFound` when no file of the
/// layout carries the name, and with `OffsetOutOfBounds` when the block
/// begins beyond the named file's end.
pub fn file_block_to_pieces(torrent: &Torrent, path: &String, file_block: &FileBlock) -> (r: Result<
    Vec<TorrentPiece>,
    MergeError,
>)
    requires
        torrent.wf(),
        total_size(torrent.files@) + file_block.size + torrent.piece_size <= usize::MAX,
    ensures
        r is Ok <==> (name_in(torrent.files@, path@) && file_block.offset
            <= torrent.files@[find_by_name(torrent.files@, path@)].size),
        r == Err::<Vec<TorrentPiece>, MergeError>(MergeError::FileNotFound) <==> !name_in(
            torrent.files@,
            path@,
        ),
        r is Ok ==> ({
            let j = find_by_name(torrent.files@, path@);
            let (start, end) = piece_span(
                prefix_size(torrent.files@, j) + file_block.offset,
                file_block.size as int,
                torrent.piece_size as int,
            );
            &&& is_first_with_name(torrent.files@, path@, j)
            &&& start <= end
            &&& r->Ok_0@.len() == end - start
            &&& forall|k: int|
                0 <= k < end - start ==> (#[trigger] r->Ok_0@[k]).idx == start + k
                    && r->Ok_0@[k].piece_size == torrent.piece_size
        }),
{
    let piece_size = torrent.piece_size;
    let mut offset: u64 = 0;
    let mut i: usize = 0;
    let ghost files = torrent.files@;
    while i < torrent.files.len()
        invariant
            0 <= i <= files.len(),
            files == torrent.files@,
            torrent.wf(),
            total_size(files) + file_block.size + torrent.piece_size <= usize::MAX,
            piece_size == torrent.piece_size,
            offset == prefix_size(files, i as int),
            forall|k: int| 0 <= k < i ==> (#[trigger] files[k].name)@ != path@,
        decreases files.len() - i,
    {
        let f = &torrent.files[i];
        proof {
            lemma_prefix_size_step(files, i as int);
            lemma_prefix_size_monotonic(files, i as int + 1, files.len() as int);
            lemma_prefix_size_full(files);
        }
        if f.name == *path {
            proof {
                lemma_find_by_name(files, path@, i as int);
            }
            if file_block.offset > f.size {
                return Err(MergeError::OffsetOutOfBounds);
            }
            let abs = offset + file_block.offset;
            let start_idx = abs / piece_size;
            let end_idx = (abs + file_block.size + (piece_size - 1)) / piece_size;
            assert(start_idx == piece_span(
                abs as int,
                file_block.size as int,
                piece_size as int,
            ).0);
            assert(end_idx == piece_span(abs as int, file_block.size as int, piece_size as int).1);
            assert(start_idx <= end_idx) by {
                vstd::arithmetic::div_mod::lemma_div_is_ordered(
                    abs as int,
                    abs + file_block.size + (piece_size - 1),
                    piece_size as int,
                );
            };
            assert(end_idx <= usize::MAX) by {
                vstd::arithmetic::div_mod::lemma_div_is_ordered(
                    abs + file_block.size + (piece_size - 1),
                    total_size(files) + file_block.size + (piece_size - 1),
                    piece_size as int,
                );
                vstd::arithmetic::div_mod::lemma_div_is_ordered_by_denominator(
                    total_size(files) + file_block.size + (piece_size - 1),
                    1,
                    piece_size as int,
                );
            };
            let mut result: Vec<TorrentPiece> = Vec::new();
            let mut k: u64 = start_idx;
            while k < end_idx
                invariant
                    start_idx <= k <= end_idx,
                    end_idx <= usize::MAX,
                    piece_size == torrent.piece_size,
                    result@.len() == k - start_idx,
                    forall|m: int|
                        0 <= m < result@.len() ==> (#[trigger] result@[m]).idx == start_idx + m
                            && result@[m].piece_size == piece_size,
                decreases end_idx - k,
            {
                result.push(TorrentPiece { idx: k as usize, piece_size });
                k = k + 1;
            }
            return Ok(result);
        } else {
            offset = offset + f.size;
        }
        i = i + 1;
    }
    assert(!name_in(files, path@));
    Err(MergeError::FileNotFound)
}

/// Round-trip mapping: a piece index `i` that starts inside the layout,
/// mapped to its file block (`piece_to_file_block`) and back
/// (`file_block_to_pieces`, under the same name and piece size), spans
/// exactly the index range `[i, i + 1)` — the set of pieces returned
/// contains `i` and nothing else. File names must be distinct for the
/// name lookup to find the same file again.
pub proof fn lemma_round_trip(files: Seq<FileEntry>, piece_size: u64, i: int)
    requires
        piece_size > 0,
        0 <= i,
        i * piece_size < total_size(files),
        forall|a: int, b: int|
            0 <= a < b < files.len() ==> (#[trigger] files[a].name)@ != (#[trigger] files[b].name)@,
    ensures
        ({
            let off = i * piece_size;
            let j = file_index_of(files, off);
            let rel = off - prefix_size(files, j);
            &&& offset_in_layout(files, off)
            &&& is_first_with_name(files, files[j].name@, j)
            &&& find_by_name(files, files[j].name@) == j
            &&& rel <= files[j].size
            &&& piece_span(prefix_size(files, j) + rel, piece_size as int, piece_size as int) == (
            i,
            i + 1,
            )
        }),
{
    let ps = piece_size as int;
    assert(i * ps >= 0) by (nonlinear_arith)
        requires
            i >= 0,
            ps > 0,
    ;
    let off = i * ps;
    lemma_offset_in_layout_iff(files, off);
    let j = file_index_of(files, off);
    assert(offset_in_file(files, off, j));
    lemma_find_by_name(files, files[j].name@, j);
    let rel = off - prefix_size(files, j);
    vstd::arithmetic::div_mod::lemma_fundamental_div_mod_converse(off, ps, i, 0);
    assert((i + 1) * ps == i * ps + ps) by (nonlinear_arith);
    vstd::arithmetic::div_mod::lemma_fundamental_div_mod_converse(
        off + ps + ps - 1,
        ps,
        i + 1,
        ps - 1,
    );
    assert(div_ceil(off + ps, ps) == i + 1);
}

/// Virtual piece coverage: merging the contiguous run of `k` pieces
/// `i, ..., i + k - 1` of one size yields the byte range that starts
/// where piece `i` starts and spans `k` pieces; when a constituent piece
/// of the run begins in the same file as the run does, the file block
/// the run maps to contains the file block the constituent maps to.
pub proof fn lemma_virtual_piece_coverage(
    files: Seq<FileEntry>,
    piece_size: u64,
    i: int,
    k: int,
    m: int,
)
    requires
        piece_size > 0,
        0 <= i,
        0 < k,
        i <= m < i + k,
        (i + k) * piece_size <= total_size(files),
        total_size(files) <= u64::MAX,
        file_index_of(files, m * piece_size) == file_index_of(files, i * piece_size),
    ensures
        ({
            let j = file_index_of(files, i * piece_size);
            let merged = FileBlock {
                offset: (i * piece_size - prefix_size(files, j)) as u64,
                size: (k * piece_size) as u64,
            };
            let constituent = FileBlock {
                offset: (m * piece_size - prefix_size(files, j)) as u64,
                size: piece_size,
            };
            &&& offset_in_layout(files, i * piece_size)
            &&& offset_in_layout(files, m * piece_size)
            &&& merged.contains_spec(constituent)
        }),
{
    let ps = piece_size as int;
    vstd::arithmetic::mul::lemma_mul_strict_inequality(i, i + k, ps);
    vstd::arithmetic::mul::lemma_mul_strict_inequality(m, i + k, ps);
    vstd::arithmetic::mul::lemma_mul_inequality(i, m, ps);
    vstd::arithmetic::mul::lemma_mul_inequality(m + 1, i + k, ps);
    vstd::arithmetic::mul::lemma_mul_inequality(k, i + k, ps);
    assert(i * ps >= 0) by (nonlinear_arith)
        requires
            i >= 0,
            ps > 0,
    ;
    assert(m * ps >= 0) by (nonlinear_arith)
        requires
            m >= 0,
            ps > 0,
    ;
    assert((m + 1) * ps == m * ps + ps) by (nonlinear_arith);
    assert((i + k) * ps == i * ps + k * ps) by (nonlinear_arith);
    lemma_offset_in_layout_iff(files, i * ps);
    lemma_offset_in_layout_iff(files, m * ps);
    let j = file_index_of(files, i * ps);
    assert(offset_in_file(files, i * ps, j));
    assert(offset_in_file(files, m * ps, j)) by {
        assert(offset_in_file(files, m * ps, file_index_of(files, m * ps)));
    }
}

/// The absolute offset, in the torrent's logical byte stream, at which
/// the first file named `path` begins. Fails with `FileNotFound` when no
/// file of the list carries the name.
pub fn get_file_offset(torrent_content: &Vec<FileEntry>, path: &String) -> (r: Result<
    u64,
    MergeError,
>)
    requires
        total_size(torrent_content@) <= u64::MAX,
    ensures
        r is Ok <==> name_in(torrent_content@, path@),
        r is Err ==> r->Err_0 == MergeError::FileNotFound,
        r is Ok ==> is_first_with_name(
            torrent_content@,
            path@,
            find_by_name(torrent_content@, path@),
        ) && r->Ok_0 == prefix_size(torrent_content@, find_by_name(torrent_content@, path@)),
{
    let ghost files = torrent_content@;
    let mut offset: u64 = 0;
    let mut i: usize = 0;
    while i < torrent_content.len()
        invariant
            0 <= i <= files.len(),
            files == torrent_content@,
            total_size(files) <= u64::MAX,
            offset == prefix_size(files, i as int),
            forall|k: int| 0 <= k < i ==> (#[trigger] files[k].name)@ != path@,
        decreases files.len() - i,
    {
        let f = &torrent_content[i];
        proof {
            lemma_prefix_size_step(files, i as int);
            lemma_prefix_size_monotonic(files, i as int + 1, files.len() as int);
            lemma_prefix_size_full(files);
            lemma_total_size_nonneg(files.take(i as int));
        }
        if f.name == *path {
            proof {
                lemma_find_by_name(files, path@, i as int);
            }
            return Ok(offset);
        }
        offset = offset + f.size;
        i = i + 1;
    }
    assert(!name_in(files, path@));
    Err(MergeError::FileNotFound)
}

} // verus!
