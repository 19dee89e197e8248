use parsync::sync_plan::{compare_dirs_status, compare_path_sets, Status};

fn paths(v: &[&str]) -> Vec<String> {
    v.iter().map(|s| s.to_string()).collect()
}

#[test]
fn path_sets_split_into_missing_extra_common() {
    let src = paths(&["a", "b", "c"]);
    let dst = paths(&["b", "c", "d"]);
    let (missing, extra, common) = compare_path_sets(&src, &dst);
    assert_eq!(missing, paths(&["a"]));
    assert_eq!(extra, paths(&["d"]));
    assert_eq!(common, paths(&["b", "c"]));
}

#[test]
fn identical_listings_have_no_difference() {
    let src = paths(&["x/y", "z"]);
    let (missing, extra, common) = compare_path_sets(&src, &src.clone());
    assert!(missing.is_empty());
    assert!(extra.is_empty());
    assert_eq!(common, src);
}

#[test]
fn comparison_verdict_needs_everything_clean() {
    assert_eq!(compare_dirs_status(0, 0, 0), Status::Passed);
    assert_eq!(compare_dirs_status(1, 0, 0), Status::Failed);
    assert_eq!(compare_dirs_status(0, 2, 0), Status::Failed);
    assert_eq!(compare_dirs_status(0, 0, 3), Status::Failed);
}
