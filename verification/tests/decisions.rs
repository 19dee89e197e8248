use parsync::backend::{copy_route, CopyRoute};
use parsync::copy_plan::{next_copy_tier, stream_copy, CopyTier};
use parsync::errors::{aggregate_result, u64_to_dec, SyncError};
use parsync::progress::ProgressCounter;
use parsync::sync_plan::{
    compare_file, entry_action, list_entry, sync_decision, sync_decision_default, EntryAction,
    EntryKind, FileMeta, Status, SyncDecision,
};

fn meta(size: u64, s: i64, ns: i64) -> FileMeta {
    FileMeta { size, mtime_s: s, mtime_ns: ns }
}

#[test]
fn matching_metadata_is_skipped() {
    // Size and modification time exactly equal: the file is never opened.
    let src = meta(2 * 1024 * 1024, 100, 5);
    let dst = Some(meta(2 * 1024 * 1024, 100, 5));
    assert_eq!(sync_decision(&src, &dst, 32 * 1024 * 1024), SyncDecision::Skip);
    assert_eq!(sync_decision_default(&src, &dst), SyncDecision::Skip);
}

#[test]
fn metadata_mismatch_routes_by_size() {
    let small = meta(10, 100, 5);
    let large = meta(64 * 1024 * 1024, 100, 5);
    let other = Some(meta(10, 100, 6));
    let other_large = Some(meta(64 * 1024 * 1024, 101, 5));
    assert_eq!(sync_decision(&small, &other, 32 * 1024 * 1024), SyncDecision::CopyWhole);
    assert_eq!(sync_decision(&large, &other_large, 32 * 1024 * 1024), SyncDecision::Chunked);
    assert_eq!(sync_decision(&large, &None, 32 * 1024 * 1024), SyncDecision::CopyWhole);
}

#[test]
fn nanosecond_difference_defeats_the_skip() {
    let src = meta(4, 100, 5);
    let dst = Some(meta(4, 100, 6));
    assert_ne!(sync_decision(&src, &dst, 32), SyncDecision::Skip);
}

#[test]
fn entry_actions_follow_kind() {
    assert!(matches!(entry_action(true, false, None, false), EntryAction::CreateDir));
    match entry_action(false, true, Some("t".to_string()), false) {
        EntryAction::CreateSymlink(t) => assert_eq!(t, "t"),
        _ => panic!("expected a symlink action"),
    }
    assert!(matches!(entry_action(false, true, None, false), EntryAction::CreateBrokenSymlink));
    assert!(matches!(entry_action(false, false, None, false), EntryAction::CopyFile));
    assert!(matches!(entry_action(false, false, None, true), EntryAction::Nothing));
}

#[test]
fn listing_skips_matching_hashes_only_when_hashing() {
    let h = Some("h".to_string());
    // Equal digests skip the file when hashing is on.
    assert!(!list_entry(EntryKind::File, false, true, false, &h, &h.clone()));
    // With hashing off the file is always listed.
    assert!(list_entry(EntryKind::File, false, true, true, &h, &h.clone()));
    // A missing digest never skips.
    assert!(list_entry(EntryKind::File, false, true, false, &h, &None));
    // Only empty directories are listed; special files never.
    assert!(list_entry(EntryKind::Directory, true, true, false, &None, &None));
    assert!(!list_entry(EntryKind::Directory, false, true, false, &None, &None));
    assert!(!list_entry(EntryKind::OtherSpecial, false, true, false, &None, &None));
    assert!(list_entry(EntryKind::Symlink, false, true, false, &None, &None));
    // The filters decide first.
    assert!(!list_entry(EntryKind::File, false, false, false, &None, &None));
}

#[test]
fn comparison_fails_on_any_mismatch() {
    let h1 = Some("a".to_string());
    let h2 = Some("b".to_string());
    assert_eq!(compare_file(4, 4, false, false, &h1, &h1.clone()), Status::Passed);
    assert_eq!(compare_file(4, 5, false, false, &h1, &h1.clone()), Status::Failed);
    assert_eq!(compare_file(4, 4, true, false, &h1, &h1.clone()), Status::Failed);
    assert_eq!(compare_file(4, 4, false, false, &h1, &h2), Status::Failed);
    assert_eq!(compare_file(4, 4, false, false, &h1, &None), Status::Failed);
    // Two symlinks of one size compare by shape alone.
    assert_eq!(compare_file(4, 4, true, true, &None, &None), Status::Passed);
}

#[test]
fn copy_routing_prefers_the_local_fast_path() {
    assert_eq!(copy_route(true, true, true), CopyRoute::SkipMutation);
    assert_eq!(copy_route(false, true, true), CopyRoute::FastLocal);
    assert_eq!(copy_route(false, true, false), CopyRoute::GetPut);
    assert_eq!(copy_route(false, false, true), CopyRoute::GetPut);
}

#[test]
fn fallback_chain_ends_at_streaming() {
    let mut tier = CopyTier::Reflink;
    let mut steps = 0;
    while let Some(next) = next_copy_tier(tier) {
        tier = next;
        steps += 1;
        assert!(steps <= 4);
    }
    assert_eq!(tier, CopyTier::Streaming);
    assert_eq!(steps, 4);
    assert_eq!(next_copy_tier(CopyTier::Streaming), None);
}

#[test]
fn streaming_fallback_copies_exactly() {
    let data: Vec<u8> = (0u16..3000).map(|x| (x % 251) as u8).collect();
    // A buffer far smaller than the data still produces identical bytes.
    assert_eq!(stream_copy(&data, 7), data);
    assert_eq!(stream_copy(&data, 1024 * 1024), data);
    assert_eq!(stream_copy(&Vec::new(), 1), Vec::<u8>::new());
}

#[test]
fn aggregate_reports_the_failure_count() {
    assert!(aggregate_result(0, "copy").is_ok());
    match aggregate_result(3, "copy") {
        Err(SyncError::Other(m)) => assert_eq!(m, "3 errors occurred during copy"),
        _ => panic!("expected an aggregate error"),
    }
    match aggregate_result(1, "delete") {
        Err(SyncError::Other(m)) => assert_eq!(m, "1 errors occurred during delete"),
        _ => panic!("expected an aggregate error"),
    }
}

#[test]
fn decimal_rendering_is_exact() {
    assert_eq!(u64_to_dec(0), "0");
    assert_eq!(u64_to_dec(7), "7");
    assert_eq!(u64_to_dec(107), "107");
    assert_eq!(u64_to_dec(18446744073709551615), "18446744073709551615");
}

#[test]
fn error_variants_carry_their_message() {
    assert_eq!(SyncError::Io("broken pipe".to_string()).message(), "broken pipe");
    assert_eq!(SyncError::NotFound("/gone".to_string()).message(), "/gone");
    assert_eq!(SyncError::Other("x".to_string()).message(), "x");
}

#[test]
fn progress_grows_and_finishes() {
    let mut p = ProgressCounter::new();
    p.inc_length(10);
    p.inc_length(5);
    assert_eq!(p.total(), 15);
    assert_eq!(p.processed(), 0);
    assert!(!p.is_finished());
    p.inc(10);
    p.inc(5);
    assert_eq!(p.processed(), 15);
    assert!(p.is_finished());
}
