use piece_merge::block::{FileBlock, Piece, TorrentPiece};
use piece_merge::error::MergeError;
use piece_merge::mapper::{file_block_to_pieces, get_file_offset, piece_to_file_block};
use piece_merge::matcher::{convert_filename, find_same_size_files};
use piece_merge::snapshot::{FileEntry, PieceState, Torrent};

fn zero_hash() -> String {
    "0".repeat(40)
}

fn make_torrent(piece_size: u64, files: Vec<(&str, u64)>, states: Vec<PieceState>) -> Torrent {
    let n = states.len();
    let entries: Vec<FileEntry> = files
        .into_iter()
        .map(|(name, size)| FileEntry { name: name.to_string(), size })
        .collect();
    Torrent::new(
        "abcd".to_string(),
        piece_size,
        entries,
        states,
        vec![zero_hash(); n],
        "/save".to_string(),
        "/incomplete".to_string(),
        0,
    )
    .unwrap()
}

fn two_file_torrent(piece_size: u64, second_name: &str, n_pieces: usize) -> Torrent {
    make_torrent(
        piece_size,
        vec![("fileA", 20000), (second_name, 10000)],
        vec![PieceState::Downloaded; n_pieces],
    )
}

#[test]
fn contains_accepts_inner_range() {
    let a = FileBlock { offset: 100, size: 50 };
    assert!(a.contains(&FileBlock { offset: 100, size: 50 }));
    assert!(a.contains(&FileBlock { offset: 120, size: 30 }));
    assert!(a.contains(&FileBlock { offset: 110, size: 10 }));
}

#[test]
fn contains_rejects_outer_range() {
    let a = FileBlock { offset: 100, size: 50 };
    assert!(!a.contains(&FileBlock { offset: 99, size: 10 }));
    assert!(!a.contains(&FileBlock { offset: 140, size: 11 }));
    assert!(!a.contains(&FileBlock { offset: 90, size: 70 }));
}

#[test]
fn merge_of_empty_run_is_none() {
    let pieces: Vec<TorrentPiece> = vec![];
    assert!(TorrentPiece::merge(&pieces).is_none());
}

#[test]
fn merge_of_contiguous_run() {
    let pieces = vec![
        TorrentPiece { idx: 3, piece_size: 4096 },
        TorrentPiece { idx: 4, piece_size: 4096 },
        TorrentPiece { idx: 5, piece_size: 4096 },
    ];
    let v = TorrentPiece::merge(&pieces).unwrap();
    assert_eq!(v.offset, 3 * 4096);
    assert_eq!(v.size, 3 * 4096);
}

#[test]
fn piece_maps_into_first_file() {
    let t = two_file_torrent(4096, "fileB", 8);
    let piece = TorrentPiece { idx: 3, piece_size: 4096 };
    let (name, block) = piece_to_file_block(&t, &Piece::Physical(piece)).unwrap();
    assert_eq!(name, "fileA");
    assert_eq!(block.offset, 12288);
    assert_eq!(block.size, 4096);
}

#[test]
fn piece_maps_into_second_file() {
    let t = two_file_torrent(4096, "fileB", 8);
    let piece = TorrentPiece { idx: 5, piece_size: 4096 };
    let (name, block) = piece_to_file_block(&t, &Piece::Physical(piece)).unwrap();
    assert_eq!(name, "fileB");
    assert_eq!(block.offset, 5 * 4096 - 20000);
    assert_eq!(block.size, 4096);
}

#[test]
fn piece_beyond_layout_is_out_of_range() {
    let t = two_file_torrent(4096, "fileB", 8);
    let piece = TorrentPiece { idx: 8, piece_size: 4096 };
    let r = piece_to_file_block(&t, &Piece::Physical(piece));
    assert_eq!(r.unwrap_err(), MergeError::OutOfRange);
}

#[test]
fn virtual_piece_maps_like_its_offset() {
    let t = two_file_torrent(4096, "fileB", 8);
    let v = piece_merge::block::VirtualPiece { offset: 12288, size: 8192 };
    let (name, block) = piece_to_file_block(&t, &Piece::Virtual(v)).unwrap();
    assert_eq!(name, "fileA");
    assert_eq!(block.offset, 12288);
    assert_eq!(block.size, 8192);
}

#[test]
fn block_maps_back_to_single_piece() {
    let t = two_file_torrent(4096, "fileB", 8);
    let block = FileBlock { offset: 12288, size: 4096 };
    let pieces = file_block_to_pieces(&t, &"fileA".to_string(), &block).unwrap();
    assert_eq!(pieces.len(), 1);
    assert_eq!(pieces[0].idx, 3);
    assert_eq!(pieces[0].piece_size, 4096);
}

#[test]
fn round_trip_contains_original_index() {
    let t = two_file_torrent(4096, "fileB", 8);
    for idx in 0..8usize {
        let piece = TorrentPiece { idx, piece_size: 4096 };
        let (name, block) = piece_to_file_block(&t, &Piece::Physical(piece)).unwrap();
        let pieces = file_block_to_pieces(&t, &name, &block).unwrap();
        assert!(pieces.iter().any(|p| p.idx == idx), "index {} lost in round trip", idx);
    }
}

#[test]
fn block_in_unknown_file_is_not_found() {
    let t = two_file_torrent(4096, "fileB", 8);
    let block = FileBlock { offset: 0, size: 1 };
    let r = file_block_to_pieces(&t, &"missing".to_string(), &block);
    assert_eq!(r.unwrap_err(), MergeError::FileNotFound);
}

#[test]
fn block_beyond_file_is_out_of_bounds() {
    let t = two_file_torrent(4096, "fileB", 8);
    let block = FileBlock { offset: 20001, size: 1 };
    let r = file_block_to_pieces(&t, &"fileA".to_string(), &block);
    assert_eq!(r.unwrap_err(), MergeError::OffsetOutOfBounds);
}

#[test]
fn misaligned_block_spans_two_pieces() {
    let t = two_file_torrent(4096, "fileB", 8);
    let block = FileBlock { offset: 4000, size: 200 };
    let pieces = file_block_to_pieces(&t, &"fileA".to_string(), &block).unwrap();
    assert_eq!(pieces.len(), 2);
    assert_eq!(pieces[0].idx, 0);
    assert_eq!(pieces[1].idx, 1);
}

#[test]
fn file_offset_sums_preceding_sizes() {
    let t = two_file_torrent(4096, "fileB", 8);
    assert_eq!(get_file_offset(&t.files, &"fileA".to_string()).unwrap(), 0);
    assert_eq!(get_file_offset(&t.files, &"fileB".to_string()).unwrap(), 20000);
    assert_eq!(
        get_file_offset(&t.files, &"other".to_string()).unwrap_err(),
        MergeError::FileNotFound
    );
}

#[test]
fn same_size_files_are_grouped() {
    let src = two_file_torrent(4096, "b_src", 8);
    let dst = two_file_torrent(4096, "b_dst", 8);
    let same = find_same_size_files(&src, &dst);
    assert_eq!(same.len(), 2);
    assert_eq!(same[0].0, vec!["fileA".to_string()]);
    assert_eq!(same[0].1, vec!["fileA".to_string()]);
    assert_eq!(same[1].0, vec!["b_src".to_string()]);
    assert_eq!(same[1].1, vec!["b_dst".to_string()]);
}

#[test]
fn sizes_present_on_one_side_only_are_dropped() {
    let a = make_torrent(4096, vec![("x", 5000), ("y", 3000)], vec![PieceState::Downloaded; 2]);
    let b = make_torrent(4096, vec![("z", 3000)], vec![PieceState::Downloaded; 1]);
    let same = find_same_size_files(&a, &b);
    assert_eq!(same.len(), 1);
    assert_eq!(same[0].0, vec!["y".to_string()]);
    assert_eq!(same[0].1, vec!["z".to_string()]);
}

#[test]
fn convert_filename_crosses_the_pair() {
    let src = two_file_torrent(4096, "b_src", 8);
    let dst = two_file_torrent(4096, "b_dst", 8);
    let same = find_same_size_files(&src, &dst);
    assert_eq!(convert_filename(&same, &"b_src".to_string()).unwrap(), "b_dst");
    assert_eq!(convert_filename(&same, &"b_dst".to_string()).unwrap(), "b_src");
    assert_eq!(convert_filename(&same, &"fileA".to_string()).unwrap(), "fileA");
    assert_eq!(
        convert_filename(&same, &"nowhere".to_string()).unwrap_err(),
        MergeError::FileNotFound
    );
}

#[test]
fn ambiguous_sizes_resolve_to_first_candidate() {
    let a = make_torrent(
        4096,
        vec![("dup1", 3000), ("dup2", 3000)],
        vec![PieceState::Downloaded; 2],
    );
    let b = make_torrent(
        4096,
        vec![("other1", 3000), ("other2", 3000)],
        vec![PieceState::Downloaded; 2],
    );
    let same = find_same_size_files(&a, &b);
    assert_eq!(same.len(), 1);
    assert_eq!(same[0].0, vec!["dup1".to_string(), "dup2".to_string()]);
    assert_eq!(same[0].1, vec!["other1".to_string(), "other2".to_string()]);
    assert_eq!(convert_filename(&same, &"dup2".to_string()).unwrap(), "other1");
    assert_eq!(convert_filename(&same, &"other2".to_string()).unwrap(), "dup1");
}

#[test]
fn zero_size_files_are_skipped_by_the_mapper() {
    let t = make_torrent(
        4096,
        vec![("empty", 0), ("real", 5000)],
        vec![PieceState::Downloaded; 2],
    );
    let piece = TorrentPiece { idx: 0, piece_size: 4096 };
    let (name, block) = piece_to_file_block(&t, &Piece::Physical(piece)).unwrap();
    assert_eq!(name, "real");
    assert_eq!(block.offset, 0);
}

#[test]
fn snapshot_rejects_zero_piece_size() {
    let r = Torrent::new(
        "abcd".to_string(),
        0,
        vec![],
        vec![],
        vec![],
        "/save".to_string(),
        "/incomplete".to_string(),
        0,
    );
    assert_eq!(r.unwrap_err(), MergeError::InvalidMetadata);
}

#[test]
fn snapshot_rejects_malformed_hash() {
    let r = Torrent::new(
        "abcd".to_string(),
        4096,
        vec![FileEntry { name: "f".to_string(), size: 100 }],
        vec![PieceState::Downloaded],
        vec!["zz".repeat(20)],
        "/save".to_string(),
        "/incomplete".to_string(),
        1,
    );
    assert_eq!(r.unwrap_err(), MergeError::InvalidMetadata);
}

#[test]
fn snapshot_rejects_oversized_layout() {
    let r = Torrent::new(
        "abcd".to_string(),
        4096,
        vec![FileEntry { name: "f".to_string(), size: 5000 }],
        vec![PieceState::Downloaded],
        vec!["0".repeat(40)],
        "/save".to_string(),
        "/incomplete".to_string(),
        1,
    );
    assert_eq!(r.unwrap_err(), MergeError::InvalidMetadata);
}

#[test]
fn snapshot_decodes_piece_hashes() {
    let digest: Vec<u8> = (0u8..20).collect();
    let t = Torrent::new(
        "abcd".to_string(),
        4096,
        vec![FileEntry { name: "f".to_string(), size: 100 }],
        vec![PieceState::Downloaded],
        vec![hex::encode(&digest)],
        "/save".to_string(),
        "/incomplete".to_string(),
        1,
    )
    .unwrap();
    assert_eq!(t.piece_hashes[0], digest);
}

#[test]
fn current_root_follows_completeness() {
    let complete = make_torrent(4096, vec![("f", 100)], vec![PieceState::Downloaded]);
    // pieces_have was set to 0 by the helper, so one piece means incomplete
    assert!(!complete.is_complete());
    assert_eq!(complete.current_root().as_str(), "/incomplete");
    let t = Torrent::new(
        "abcd".to_string(),
        4096,
        vec![FileEntry { name: "f".to_string(), size: 100 }],
        vec![PieceState::Downloaded],
        vec![zero_hash()],
        "/save".to_string(),
        "/incomplete".to_string(),
        1,
    )
    .unwrap();
    assert!(t.is_complete());
    assert_eq!(t.current_root().as_str(), "/save");
}

#[test]
fn piece_is_downloaded_checks_state_and_bounds() {
    let t = make_torrent(
        4096,
        vec![("f", 8000)],
        vec![PieceState::Downloaded, PieceState::NotDownloaded],
    );
    assert!(t.piece_is_downloaded(&TorrentPiece { idx: 0, piece_size: 4096 }));
    assert!(!t.piece_is_downloaded(&TorrentPiece { idx: 1, piece_size: 4096 }));
    assert!(!t.piece_is_downloaded(&TorrentPiece { idx: 2, piece_size: 4096 }));
}
