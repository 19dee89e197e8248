use parsync::checksum::{chunk_checksum, chunk_needs_write, content_hash, hashes_allow_skip};
use parsync::chunk::{merge_chunks, plan_chunks, DEFAULT_CHUNK_SIZE, LARGE_FILE_THRESHOLD};

#[test]
fn constants_match_engine_defaults() {
    assert_eq!(DEFAULT_CHUNK_SIZE, 1 << 20);
    assert_eq!(LARGE_FILE_THRESHOLD, 32 * 1024 * 1024);
}

#[test]
fn chunk_plan_covers_file_exactly() {
    let plan = plan_chunks("s", "d", 10, 4);
    assert_eq!(plan.len(), 3);
    assert_eq!((plan[0].offset, plan[0].size), (0, 4));
    assert_eq!((plan[1].offset, plan[1].size), (4, 4));
    assert_eq!((plan[2].offset, plan[2].size), (8, 2));
    assert_eq!(plan[2].chunk_index, 2);
    assert_eq!(plan[0].src_path, "s");
    assert_eq!(plan[0].dst_path, "d");

    let exact = plan_chunks("s", "d", 8, 4);
    assert_eq!(exact.len(), 2);
    assert_eq!((exact[1].offset, exact[1].size), (4, 4));

    let empty = plan_chunks("s", "d", 0, 4);
    assert_eq!(empty.len(), 0);
}

#[test]
fn adler_checksum_matches_reference() {
    // The checksum of nothing is the Adler-32 seed.
    assert_eq!(chunk_checksum(&[]), 1);
    let data = b"rustacean";
    assert_eq!(chunk_checksum(data), adler::adler32_slice(data));
    assert_ne!(chunk_checksum(b"abc"), chunk_checksum(b"abd"));
}

#[test]
fn blake3_hash_matches_reference() {
    let empty = content_hash(&[]);
    assert_eq!(empty, "af1349b9f5f9a1a6a0404dea36dcc9499bcb25c9adc112b7cc9a93cae41f3262");
    let data = b"hello world";
    assert_eq!(content_hash(data), blake3::hash(data).to_hex().to_string());
}

#[test]
fn identical_chunks_are_not_rewritten() {
    assert!(!chunk_needs_write(b"same", b"same"));
    assert!(chunk_needs_write(b"same", b"sam"));
    assert!(chunk_needs_write(b"same", b"Same"));
}

#[test]
fn hash_skip_needs_both_digests_equal() {
    let a = Some("aa".to_string());
    let b = Some("bb".to_string());
    assert!(hashes_allow_skip(&a, &a.clone()));
    assert!(!hashes_allow_skip(&a, &b));
    assert!(!hashes_allow_skip(&a, &None));
    assert!(!hashes_allow_skip(&None, &a));
}

#[test]
fn merge_rewrites_only_the_differing_chunk() {
    // 12 bytes, three chunks of 4; only the middle chunk differs.
    let src: Vec<u8> = vec![1, 1, 1, 1, 2, 2, 2, 2, 3, 3, 3, 3];
    let mut dst = src.clone();
    dst[5] = 9;
    let (merged, written) = merge_chunks(&src, &dst, 4);
    assert_eq!(merged, src);
    assert_eq!(written, 1);
}

#[test]
fn merge_of_identical_content_writes_nothing() {
    let src: Vec<u8> = (0..100).collect();
    let dst = src.clone();
    let (merged, written) = merge_chunks(&src, &dst, 8);
    assert_eq!(merged, src);
    assert_eq!(written, 0);
}

#[test]
fn merge_extends_a_shorter_destination() {
    let src: Vec<u8> = vec![5; 10];
    let dst: Vec<u8> = vec![5; 3];
    let (merged, written) = merge_chunks(&src, &dst, 4);
    assert_eq!(merged, src);
    assert!(written >= 1);
}

#[test]
fn merge_keeps_a_longer_destinations_tail() {
    // A chunked sync never truncates: bytes past the source's length stay.
    let src: Vec<u8> = vec![1, 2, 3, 4];
    let dst: Vec<u8> = vec![1, 2, 3, 4, 9, 9];
    let (merged, _) = merge_chunks(&src, &dst, 4);
    assert_eq!(merged, vec![1, 2, 3, 4, 9, 9]);
}
