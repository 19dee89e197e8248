use parsync::delete_plan::plan_delete;
use parsync::paths::path_depth;
use parsync::tree::{apply_delete, Tree};

#[test]
fn delete_plan_orders_files_then_deepest_dirs() {
    let files = vec!["r/a/x.txt".to_string(), "r/b.txt".to_string()];
    let dirs = vec!["r".to_string(), "r/a/b/c".to_string(), "r/a".to_string(), "r/a/b".to_string()];
    let plan = plan_delete(files, dirs);
    assert_eq!(plan.len(), 6);
    // Files first, in traversal order.
    assert!(!plan[0].is_directory);
    assert!(!plan[1].is_directory);
    assert_eq!(plan[0].path, "r/a/x.txt");
    assert_eq!(plan[1].path, "r/b.txt");
    // Then every directory, deepest first.
    let depths: Vec<usize> = plan[2..].iter().map(|j| path_depth(&j.path)).collect();
    assert_eq!(depths, vec![3, 2, 1, 0]);
    assert_eq!(plan[2].path, "r/a/b/c");
    assert_eq!(plan[5].path, "r");
    assert!(plan[2..].iter().all(|j| j.is_directory));
}

#[test]
fn delete_leaves_no_residual_entries() {
    let mut tree = Tree::new();
    tree.put_file("r/a/x.txt".to_string(), vec![1]);
    tree.put_file("r/y.txt".to_string(), vec![2]);
    tree.add_dir("r".to_string());
    tree.add_dir("r/a".to_string());
    assert!(!tree.is_empty());

    let plan = plan_delete(tree.file_paths(), tree.dir_paths());
    apply_delete(&mut tree, &plan, false);
    assert!(tree.is_empty());
}

#[test]
fn delete_dry_run_changes_nothing() {
    let mut tree = Tree::new();
    tree.put_file("r/x".to_string(), vec![1]);
    tree.add_dir("r".to_string());
    let plan = plan_delete(tree.file_paths(), tree.dir_paths());
    apply_delete(&mut tree, &plan, true);
    assert!(!tree.is_empty());
    assert_eq!(tree.get_file("r/x").unwrap(), &vec![1]);
    assert!(tree.has_dir("r"));
}

#[test]
fn delete_removes_only_planned_paths() {
    let mut tree = Tree::new();
    tree.put_file("keep".to_string(), vec![1]);
    tree.put_file("drop".to_string(), vec![2]);
    let plan = plan_delete(vec!["drop".to_string()], Vec::new());
    apply_delete(&mut tree, &plan, false);
    assert!(tree.get_file("drop").is_none());
    assert_eq!(tree.get_file("keep").unwrap(), &vec![1]);
}
