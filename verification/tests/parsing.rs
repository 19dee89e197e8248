use parsync::backend::{backend_and_path, BackendKind};
use parsync::errors::SyncError;
use parsync::filter::{selected, CompiledPattern};
use parsync::paths::{
    count_char, join_path, parent_dir, path_depth, split_once_char, str_eq, strip_prefix, trim_str,
};
use parsync::ssh::{
    b3sum_command, parse_connection_string, parse_hash_output, parse_symlink_output,
    readlink_command, symlink_create_command, symlink_test_command, SSHSessionHelper, SSHSink,
    SSHSource,
};

#[test]
fn backend_resolution_strips_the_file_scheme() {
    match backend_and_path("file:///tmp/x") {
        Ok((kind, path)) => {
            assert_eq!(kind, BackendKind::Local);
            assert_eq!(path, "/tmp/x");
        },
        Err(_) => panic!("file scheme must resolve"),
    }
    match backend_and_path("/tmp/x") {
        Ok((kind, path)) => {
            assert_eq!(kind, BackendKind::Local);
            assert_eq!(path, "/tmp/x");
        },
        Err(_) => panic!("a bare path must resolve"),
    }
    match backend_and_path("sftp://host/x") {
        Err(SyncError::Other(m)) => assert_eq!(m, "Unsupported protocol: sftp"),
        _ => panic!("an unknown scheme must be rejected"),
    }
}

#[test]
fn connection_strings_parse_exactly() {
    let e = parse_connection_string("alice@example.com:/srv/data").unwrap();
    assert_eq!(e.user, "alice");
    assert_eq!(e.host, "example.com");
    assert_eq!(e.root, "/srv/data");

    assert!(parse_connection_string("no-at-sign").is_err());
    assert!(parse_connection_string("a@b@c:/x").is_err());
    assert!(parse_connection_string("alice@host-no-colon").is_err());
    assert!(parse_connection_string("alice@host:/a:/b").is_err());
    match parse_connection_string("bad") {
        Err(m) => assert_eq!(m, "Invalid SSH connection string: bad"),
        Ok(_) => panic!("must not parse"),
    }
}

#[test]
fn ssh_endpoints_expose_their_parts() {
    let src = SSHSource::new("u@h:/r").unwrap();
    assert_eq!(src.root(), "/r");
    let sink = SSHSink::new("u@h:/r").unwrap();
    assert_eq!(sink.root(), "/r");
    assert_eq!(sink.connection_string(), "u@h");
    let helper = SSHSessionHelper::new("u".to_string(), "h".to_string());
    assert_eq!(helper.user(), "u");
    assert_eq!(helper.host(), "h");
}

#[test]
fn remote_commands_are_built_verbatim() {
    assert_eq!(
        b3sum_command("/x/y"),
        "if command -v b3sum >/dev/null 2>&1; then b3sum '/x/y' | cut -d' ' -f1; else echo 'NO_B3SUM'; fi"
    );
    assert_eq!(symlink_test_command("/p"), "test -L '/p' && echo 'true' || echo 'false'");
    assert_eq!(readlink_command("/p"), "readlink '/p'");
    assert_eq!(symlink_create_command("/t", "/l"), "ln -s '/t' '/l'");
}

#[test]
fn remote_output_is_interpreted() {
    assert_eq!(parse_hash_output("abc123\n"), Some("abc123".to_string()));
    assert_eq!(parse_hash_output("NO_B3SUM\n"), None);
    assert_eq!(parse_hash_output("   \n"), None);
    assert!(parse_symlink_output("true\n"));
    assert!(!parse_symlink_output("false\n"));
    assert!(!parse_symlink_output("garbage"));
}

#[test]
fn path_helpers_behave() {
    assert_eq!(join_path("/a", "b/c"), "/a/b/c");
    assert_eq!(path_depth("a/b/c"), 2);
    assert_eq!(path_depth("abc"), 0);
    assert_eq!(strip_prefix("/a/b/c", "/a"), Some("b/c".to_string()));
    assert_eq!(strip_prefix("/a/b", "/x"), None);
    assert_eq!(strip_prefix("/a", "/a"), None);
    assert_eq!(parent_dir("/a/b/c"), Some("/a/b".to_string()));
    assert_eq!(parent_dir("abc"), None);
    assert!(str_eq("same", "same"));
    assert!(!str_eq("same", "sane"));
    assert_eq!(count_char("a:b:c", ':'), 2);
    assert_eq!(split_once_char("a@b@c", '@'), Some(("a".to_string(), "b@c".to_string())));
    assert_eq!(split_once_char("abc", '@'), None);
    assert_eq!(trim_str("  x y\t\n"), "x y");
}

#[test]
fn filters_select_by_both_patterns() {
    let inc = CompiledPattern::compile("\\.txt$").unwrap();
    let exc = CompiledPattern::compile("^skip").unwrap();
    assert!(selected("a.txt", Some(&inc), Some(&exc)));
    assert!(!selected("a.log", Some(&inc), Some(&exc)));
    assert!(!selected("skip/a.txt", Some(&inc), Some(&exc)));
    assert!(selected("anything", None, None));
    assert!(CompiledPattern::compile("(unclosed").is_err());
}
