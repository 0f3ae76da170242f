use std::collections::HashMap;

use piece_merge::block::FileBlock;
use piece_merge::engine::{
    get_missing_pieces, plan_piece_recovery, verify_and_extract, MergeStats, PieceOutcome,
    PiecePlan, SkipReason,
};
use piece_merge::matcher::find_same_size_files;
use piece_merge::snapshot::{FileEntry, PieceState, Torrent};
use sha1::Digest;

const PIECE: u64 = 4096;
const A_SIZE: u64 = 20000;
const B_SIZE: u64 = 10000;

fn sha1_hex(data: &[u8]) -> String {
    let mut hasher = sha1::Sha1::new();
    hasher.update(data);
    hex::encode(hasher.finalize())
}

fn pattern_bytes(len: usize, seed: u8) -> Vec<u8> {
    (0..len).map(|i| ((i as u64 * 31 + seed as u64) % 251) as u8).collect()
}

/// The torrent's logical byte stream: the two files concatenated.
fn stream(file_a: &[u8], file_b: &[u8]) -> Vec<u8> {
    let mut s = file_a.to_vec();
    s.extend_from_slice(file_b);
    s
}

fn piece_hashes(stream: &[u8], piece_size: u64, n_pieces: usize) -> Vec<String> {
    (0..n_pieces)
        .map(|i| {
            let start = i * piece_size as usize;
            let end = (start + piece_size as usize).min(stream.len());
            sha1_hex(&stream[start..end])
        })
        .collect()
}

fn make_torrent(
    piece_size: u64,
    second_name: &str,
    states: Vec<PieceState>,
    hashes: Vec<String>,
) -> Torrent {
    Torrent::new(
        "hash".to_string(),
        piece_size,
        vec![
            FileEntry { name: "fileA".to_string(), size: A_SIZE },
            FileEntry { name: second_name.to_string(), size: B_SIZE },
        ],
        states,
        hashes,
        "/save".to_string(),
        "/incomplete".to_string(),
        0,
    )
    .unwrap()
}

/// Drives one recovery run over in-memory file contents, exactly as the
/// engine's contracts prescribe: plan each missing piece, read the
/// planned source block, verify and extract, write on success.
fn run_merge(
    src: &Torrent,
    dst: &Torrent,
    src_files: &HashMap<String, Vec<u8>>,
    dst_files: &mut HashMap<String, Vec<u8>>,
) -> MergeStats {
    let mut stats = MergeStats::new();
    let same = find_same_size_files(src, dst);
    for pair in &same {
        let dst_filename = &pair.1[0];
        let missing = get_missing_pieces(dst, dst_filename).unwrap();
        for &idx in &missing {
            match plan_piece_recovery(src, dst, &same, idx) {
                PiecePlan::Skip(reason) => stats.record(&PieceOutcome::Skipped(reason)),
                PiecePlan::Fetch(plan) => {
                    let read = src_files.get(&plan.src_file).and_then(|bytes| {
                        let start = plan.src_block.offset as usize;
                        let end = start.checked_add(plan.src_block.size as usize)?;
                        bytes.get(start..end).map(|s| s.to_vec())
                    });
                    match read {
                        None => stats.record(&PieceOutcome::ReadFailed),
                        Some(data) => {
                            match verify_and_extract(
                                &data,
                                &plan.src_block,
                                &plan.dst_block,
                                &plan.expected_hash,
                            ) {
                                Some(bytes) => {
                                    let f = dst_files.get_mut(&plan.dst_file).unwrap();
                                    let start = plan.dst_block.offset as usize;
                                    f[start..start + bytes.len()].copy_from_slice(&bytes);
                                    stats.record(&PieceOutcome::Restored);
                                },
                                None => stats.record(&PieceOutcome::HashMismatch),
                            }
                        },
                    }
                },
            }
        }
    }
    stats
}

/// Two 2-file torrents: file A identical in both, file B matching by
/// size only; the destination misses piece 3 inside file A.
struct Scenario {
    src: Torrent,
    dst: Torrent,
    src_files: HashMap<String, Vec<u8>>,
    dst_files: HashMap<String, Vec<u8>>,
    expected_a: Vec<u8>,
}

fn scenario(src_piece_size: u64, src_states_override: Option<Vec<PieceState>>) -> Scenario {
    let file_a = pattern_bytes(A_SIZE as usize, 7);
    let b_src = pattern_bytes(B_SIZE as usize, 11);
    let b_dst = pattern_bytes(B_SIZE as usize, 13);

    let n_src = ((A_SIZE + B_SIZE) as usize).div_ceil(src_piece_size as usize);
    let src_states = src_states_override.unwrap_or(vec![PieceState::Downloaded; n_src]);
    let src_stream = stream(&file_a, &b_src);
    let src = make_torrent(
        src_piece_size,
        "b_src",
        src_states,
        piece_hashes(&src_stream, src_piece_size, n_src),
    );

    let n_dst = ((A_SIZE + B_SIZE) as usize).div_ceil(PIECE as usize);
    let mut dst_states = vec![PieceState::Downloaded; n_dst];
    dst_states[3] = PieceState::NotDownloaded;
    let dst_stream = stream(&file_a, &b_dst);
    let dst = make_torrent(
        PIECE,
        "b_dst",
        dst_states,
        piece_hashes(&dst_stream, PIECE, n_dst),
    );

    let mut damaged_a = file_a.clone();
    for b in &mut damaged_a[12288..16384] {
        *b = 0;
    }

    let mut src_files = HashMap::new();
    src_files.insert("fileA".to_string(), file_a.clone());
    src_files.insert("b_src".to_string(), b_src);
    let mut dst_files = HashMap::new();
    dst_files.insert("fileA".to_string(), damaged_a);
    dst_files.insert("b_dst".to_string(), b_dst);

    Scenario { src, dst, src_files, dst_files, expected_a: file_a }
}

#[test]
fn restores_one_piece_from_identical_file() {
    let mut sc = scenario(PIECE, None);
    let stats = run_merge(&sc.src, &sc.dst, &sc.src_files, &mut sc.dst_files);
    assert_eq!(stats.restored, 1);
    assert_eq!(stats.unavailable, 0);
    assert_eq!(stats.out_of_block, 0);
    assert_eq!(
        &sc.dst_files["fileA"][12288..16384],
        &sc.expected_a[12288..16384]
    );
    assert_eq!(&sc.dst_files["fileA"][..], &sc.expected_a[..]);
}

#[test]
fn unavailable_source_piece_blocks_recovery() {
    // Misaligned piece sizes: destination piece 3 (bytes 12288..16384)
    // needs source pieces 6 and 7 of half the size; piece 7 is missing.
    let n_src = ((A_SIZE + B_SIZE) as usize).div_ceil(2048);
    let mut src_states = vec![PieceState::Downloaded; n_src];
    src_states[7] = PieceState::NotDownloaded;
    let mut sc = scenario(2048, Some(src_states));
    let before = sc.dst_files["fileA"].clone();
    let stats = run_merge(&sc.src, &sc.dst, &sc.src_files, &mut sc.dst_files);
    assert_eq!(stats.restored, 0);
    assert_eq!(stats.unavailable, 1);
    assert_eq!(stats.out_of_block, 0);
    assert_eq!(sc.dst_files["fileA"], before);
}

#[test]
fn hash_mismatch_blocks_the_write() {
    let mut sc = scenario(PIECE, None);
    // Corrupt one source byte inside the range to be recovered.
    sc.src_files.get_mut("fileA").unwrap()[13000] ^= 0xff;
    let before = sc.dst_files["fileA"].clone();
    let stats = run_merge(&sc.src, &sc.dst, &sc.src_files, &mut sc.dst_files);
    assert_eq!(stats.restored, 0);
    assert_eq!(stats.unavailable, 0);
    assert_eq!(stats.out_of_block, 0);
    assert_eq!(sc.dst_files["fileA"], before);
}

#[test]
fn plan_fetches_matching_blocks() {
    let sc = scenario(PIECE, None);
    let same = find_same_size_files(&sc.src, &sc.dst);
    match plan_piece_recovery(&sc.src, &sc.dst, &same, 3) {
        PiecePlan::Fetch(plan) => {
            assert_eq!(plan.src_file, "fileA");
            assert_eq!(plan.dst_file, "fileA");
            assert_eq!(plan.dst_block.offset, 12288);
            assert_eq!(plan.dst_block.size, PIECE);
            assert_eq!(plan.src_block.offset, 12288);
            assert_eq!(plan.src_block.size, PIECE);
            assert_eq!(plan.expected_hash, sc.dst.piece_hashes[3]);
        },
        PiecePlan::Skip(reason) => panic!("expected a fetch, got skip: {:?}", reason),
    }
}

#[test]
fn plan_skips_unavailable_source() {
    let n_src = ((A_SIZE + B_SIZE) as usize).div_ceil(PIECE as usize);
    let mut src_states = vec![PieceState::Downloaded; n_src];
    src_states[3] = PieceState::Checking;
    let sc = scenario(PIECE, Some(src_states));
    let same = find_same_size_files(&sc.src, &sc.dst);
    match plan_piece_recovery(&sc.src, &sc.dst, &same, 3) {
        PiecePlan::Skip(reason) => assert_eq!(reason, SkipReason::SourceUnavailable),
        PiecePlan::Fetch(_) => panic!("expected a skip"),
    }
}

#[test]
fn missing_pieces_cover_the_file_span() {
    let sc = scenario(PIECE, None);
    let missing = get_missing_pieces(&sc.dst, &"fileA".to_string()).unwrap();
    assert_eq!(missing, vec![3]);
    let missing_b = get_missing_pieces(&sc.dst, &"b_dst".to_string()).unwrap();
    assert_eq!(missing_b, Vec::<usize>::new());
}

#[test]
fn missing_pieces_exclude_aligned_boundary() {
    // A file ending exactly on a piece boundary spans pieces 0 and 1
    // only; piece 2 belongs wholly to the next file.
    let states = vec![
        PieceState::NotDownloaded,
        PieceState::NotDownloaded,
        PieceState::NotDownloaded,
    ];
    let t = Torrent::new(
        "hash".to_string(),
        4096,
        vec![
            FileEntry { name: "exact".to_string(), size: 8192 },
            FileEntry { name: "rest".to_string(), size: 4096 },
        ],
        states,
        vec!["0".repeat(40); 3],
        "/save".to_string(),
        "/incomplete".to_string(),
        0,
    )
    .unwrap();
    let missing = get_missing_pieces(&t, &"exact".to_string()).unwrap();
    assert_eq!(missing, vec![0, 1]);
}

#[test]
fn verify_and_extract_accepts_matching_hash() {
    let data = pattern_bytes(300, 3);
    let src_block = FileBlock { offset: 1000, size: 300 };
    let dst_block = FileBlock { offset: 1100, size: 100 };
    let expected = {
        let mut hasher = sha1::Sha1::new();
        hasher.update(&data[100..200]);
        hasher.finalize().to_vec()
    };
    let r = verify_and_extract(&data, &src_block, &dst_block, &expected).unwrap();
    assert_eq!(r, &data[100..200]);
}

#[test]
fn verify_and_extract_rejects_altered_bytes() {
    let mut data = pattern_bytes(300, 3);
    let src_block = FileBlock { offset: 1000, size: 300 };
    let dst_block = FileBlock { offset: 1100, size: 100 };
    let expected = {
        let mut hasher = sha1::Sha1::new();
        hasher.update(&data[100..200]);
        hasher.finalize().to_vec()
    };
    data[150] ^= 1;
    assert!(verify_and_extract(&data, &src_block, &dst_block, &expected).is_none());
}

#[test]
fn stats_record_moves_one_counter() {
    let mut stats = MergeStats::new();
    stats.record(&PieceOutcome::Restored);
    stats.record(&PieceOutcome::Skipped(SkipReason::SourceUnavailable));
    stats.record(&PieceOutcome::ReadFailed);
    stats.record(&PieceOutcome::Skipped(SkipReason::OutOfBlock));
    stats.record(&PieceOutcome::Skipped(SkipReason::MapFailed));
    stats.record(&PieceOutcome::Skipped(SkipReason::NoSourceFile));
    stats.record(&PieceOutcome::HashMismatch);
    assert_eq!(stats.restored, 1);
    assert_eq!(stats.unavailable, 2);
    assert_eq!(stats.out_of_block, 1);
}
