use std::io::Write;

use xerg::crawler::{get_files, is_hidden};

fn path_string(p: &std::path::Path) -> String {
    p.to_string_lossy().into_owned()
}

#[test]
fn test_is_hidden_checks_basename_only() {
    assert!(is_hidden(&".hidden".to_string()));
    assert!(is_hidden(&"/tmp/dir/.hidden".to_string()));
    assert!(!is_hidden(&"visible.txt".to_string()));
    assert!(!is_hidden(&"/tmp/.dir/visible.txt".to_string()));
    assert!(!is_hidden(&"a.b/c".to_string()));
    assert!(!is_hidden(&"".to_string()));
}

#[test]
fn test_get_files_single_file_root() {
    // A root that is itself a regular file is returned alone.
    let dir = tempfile::Builder::new()
        .prefix("xergtest_")
        .tempdir()
        .unwrap();
    let mut f = tempfile::Builder::new()
        .prefix("test.txt")
        .rand_bytes(0)
        .tempfile_in(dir.path())
        .unwrap();
    f.write_all(b"hit\n").unwrap();
    let root = path_string(f.path());
    let files = get_files(&root);
    assert_eq!(files, vec![root]);
}

#[test]
fn test_get_files_skips_hidden_directories() {
    // `.hidden/secret.txt` is pruned with its whole subtree; `visible.txt`
    // is found.
    let dir = tempfile::Builder::new()
        .prefix("xergtest_")
        .tempdir()
        .unwrap();
    let hidden = tempfile::Builder::new()
        .prefix(".hidden")
        .rand_bytes(0)
        .tempdir_in(dir.path())
        .unwrap();
    let mut secret = tempfile::Builder::new()
        .prefix("secret.txt")
        .rand_bytes(0)
        .tempfile_in(hidden.path())
        .unwrap();
    secret.write_all(b"hit\n").unwrap();
    let mut visible = tempfile::Builder::new()
        .prefix("visible.txt")
        .rand_bytes(0)
        .tempfile_in(dir.path())
        .unwrap();
    visible.write_all(b"hit\n").unwrap();

    let files = get_files(&path_string(dir.path()));
    assert_eq!(files.len(), 1);
    assert!(files[0].ends_with("visible.txt"));
}

#[test]
fn test_get_files_skips_hidden_files() {
    let dir = tempfile::Builder::new()
        .prefix("xergtest_")
        .tempdir()
        .unwrap();
    let _hidden_file = tempfile::Builder::new()
        .prefix(".hidden_file")
        .rand_bytes(0)
        .tempfile_in(dir.path())
        .unwrap();
    let regular = tempfile::Builder::new()
        .prefix("regular_file.txt")
        .rand_bytes(0)
        .tempfile_in(dir.path())
        .unwrap();

    let files = get_files(&path_string(dir.path()));
    assert_eq!(files, vec![path_string(regular.path())]);
}

#[test]
fn test_get_files_empty_directory() {
    let dir = tempfile::Builder::new()
        .prefix("xergtest_")
        .tempdir()
        .unwrap();
    let files = get_files(&path_string(dir.path()));
    assert_eq!(files, Vec::<String>::new());
}

#[test]
fn test_get_files_nested_directories() {
    let dir = tempfile::Builder::new()
        .prefix("xergtest_")
        .tempdir()
        .unwrap();
    let sub = tempfile::Builder::new()
        .prefix("subdir")
        .rand_bytes(0)
        .tempdir_in(dir.path())
        .unwrap();
    let f1 = tempfile::Builder::new()
        .prefix("file1.txt")
        .rand_bytes(0)
        .tempfile_in(dir.path())
        .unwrap();
    let f2 = tempfile::Builder::new()
        .prefix("file2.txt")
        .rand_bytes(0)
        .tempfile_in(sub.path())
        .unwrap();

    let mut files = get_files(&path_string(dir.path()));
    files.sort();
    let mut expected = vec![path_string(f1.path()), path_string(f2.path())];
    expected.sort();
    assert_eq!(files, expected);
}

#[test]
fn test_get_files_nonexistent_root() {
    let files = get_files(&"/definitely/does/not/exist/path".to_string());
    assert_eq!(files, Vec::<String>::new());
}
