use cloudone::storage::{FileManager, PathError};

fn fm(root: &str) -> FileManager {
    FileManager::new(root.to_string())
}

#[test]
fn requests_resolve_below_the_root() {
    let f = fm("/srv/files");
    assert_eq!(f.abs_path("/a/b").unwrap(), "/srv/files/a/b");
    assert_eq!(f.abs_path("../../etc/passwd").unwrap(), "/srv/files/etc/passwd");
    assert_eq!(f.abs_path("").unwrap(), "/srv/files/");
    assert_eq!(f.abs_path("/").unwrap(), "/srv/files/");
    assert_eq!(fm("./data/storage").abs_path("x").unwrap(), "./data/storage/x");
    assert_eq!(fm("/").abs_path("x").unwrap(), "/x");
}

#[test]
fn virtual_file_systems_are_refused() {
    let f = fm("/");
    assert_eq!(f.safe_abs_path("/proc/self"), Err(PathError::Denied));
    assert_eq!(f.safe_abs_path("sys"), Err(PathError::Denied));
    assert_eq!(f.safe_abs_path("/home").unwrap(), "/home");
    assert_eq!(fm("/srv").safe_abs_path("/proc").unwrap(), "/srv/proc");
    assert_eq!(PathError::Denied.message(), "access denied: virtual filesystem path");
    assert_eq!(PathError::Traversal.message(), "invalid path: path traversal detected");
}

#[test]
fn the_root_can_be_moved() {
    let mut f = fm("/a");
    assert_eq!(f.root(), "/a");
    f.set_root("/b".to_string());
    assert_eq!(f.root(), "/b");
    assert_eq!(f.safe_abs_path("x").unwrap(), "/b/x");
}
