use parsync::copy_plan::{select_jobs, FileJob, WalkEntry};
use parsync::filter::CompiledPattern;
use parsync::tree::{apply_copy, Tree};

fn entry(path: &str, size: u64) -> WalkEntry {
    WalkEntry { path: path.to_string(), size, is_file: true, modified: None }
}

fn job(src: &str, dst: &str, size: u64) -> FileJob {
    FileJob {
        source_path: src.to_string(),
        dest_path: dst.to_string(),
        size,
        source_modified: None,
    }
}

#[test]
fn copy_mirrors_source_tree() {
    // A small source tree: a short text file and a 2 MiB binary file.
    let mut src = Tree::new();
    src.put_file("src/a.txt".to_string(), b"abcd".to_vec());
    src.put_file("src/dir/b.bin".to_string(), vec![0x41u8; 2 * 1024 * 1024]);

    let entries = vec![entry("src/a.txt", 4), entry("src/dir/b.bin", 2 * 1024 * 1024)];
    let jobs = select_jobs(&entries, "src", "dest", None, None);
    assert_eq!(jobs.len(), 2);
    assert_eq!(jobs[0].source_path, "src/a.txt");
    assert_eq!(jobs[0].dest_path, "dest/a.txt");
    assert_eq!(jobs[1].dest_path, "dest/dir/b.bin");

    let mut dest = Tree::new();
    let failed = apply_copy(&mut dest, &src, &jobs, false);
    assert_eq!(failed, 0);
    assert_eq!(dest.get_file("dest/a.txt").unwrap(), &b"abcd".to_vec());
    let big = dest.get_file("dest/dir/b.bin").unwrap();
    assert_eq!(big.len(), 2 * 1024 * 1024);
    assert!(big.iter().all(|&b| b == 0x41));
}

#[test]
fn copy_twice_equals_copy_once() {
    let mut src = Tree::new();
    src.put_file("s/x".to_string(), vec![1, 2, 3]);
    src.put_file("s/y".to_string(), vec![9]);
    let jobs = vec![job("s/x", "d/x", 3), job("s/y", "d/y", 1)];

    let mut once = Tree::new();
    once.put_file("d/x".to_string(), vec![0]);
    let mut twice = Tree::new();
    twice.put_file("d/x".to_string(), vec![0]);

    apply_copy(&mut once, &src, &jobs, false);
    apply_copy(&mut twice, &src, &jobs, false);
    apply_copy(&mut twice, &src, &jobs, false);

    assert_eq!(once.get_file("d/x"), twice.get_file("d/x"));
    assert_eq!(once.get_file("d/y"), twice.get_file("d/y"));
}

#[test]
fn copy_dry_run_changes_nothing() {
    let mut src = Tree::new();
    src.put_file("s/x".to_string(), vec![1, 2, 3]);
    let jobs = vec![job("s/x", "d/x", 3)];

    let mut dest = Tree::new();
    dest.put_file("d/old".to_string(), vec![7]);
    let failed = apply_copy(&mut dest, &src, &jobs, true);
    assert_eq!(failed, 0);
    assert!(dest.get_file("d/x").is_none());
    assert_eq!(dest.get_file("d/old").unwrap(), &vec![7]);
}

#[test]
fn copy_missing_source_is_counted() {
    let src = Tree::new();
    let jobs = vec![job("s/gone", "d/gone", 1)];
    let mut dest = Tree::new();
    let failed = apply_copy(&mut dest, &src, &jobs, false);
    assert_eq!(failed, 1);
    assert!(dest.get_file("d/gone").is_none());
}

#[test]
fn selection_applies_filters() {
    let entries = vec![
        entry("src/file1.txt", 1),
        entry("src/file2.log", 2),
        entry("src/file3.txt", 3),
    ];
    let inclusion = CompiledPattern::compile("\\.txt$").unwrap();
    let jobs = select_jobs(&entries, "src", "dest", Some(&inclusion), None);
    assert_eq!(jobs.len(), 2);
    assert_eq!(jobs[0].dest_path, "dest/file1.txt");
    assert_eq!(jobs[1].dest_path, "dest/file3.txt");

    let exclusion = CompiledPattern::compile("\\.log$").unwrap();
    let jobs = select_jobs(&entries, "src", "dest", None, Some(&exclusion));
    assert_eq!(jobs.len(), 2);
    assert_eq!(jobs[0].dest_path, "dest/file1.txt");
    assert_eq!(jobs[1].dest_path, "dest/file3.txt");
}

#[test]
fn selection_skips_entries_outside_root() {
    let entries = vec![entry("elsewhere/a", 1), entry("src/a", 1), entry("src", 0)];
    let jobs = select_jobs(&entries, "src", "dest", None, None);
    assert_eq!(jobs.len(), 1);
    assert_eq!(jobs[0].source_path, "src/a");
}
