use cloudone::files::{
    batch_delete, batch_delete_reply, batch_move_copy, batch_reply, batch_transfer_reply,
    delete_file, detect_file_type, forget_path, get_file_content, get_permission,
    list_public_files, path_or, place, public_entry, public_parent, public_paths, public_place,
    raw_path, set_permission, set_visibility, transfer_paths, upload_file, upload_folder,
    upload_reply, write_rel, PublicListing, VisibilityPlan,
};
use cloudone::reply::ApiError;
use cloudone::sql::Param;
use cloudone::storage::{FileManager, PathError};
use cloudone::types::{BatchPaths, PathQuery, VisReq};

fn fm(root: &str) -> FileManager {
    FileManager::new(root.to_string())
}

fn some(s: &str) -> Option<String> {
    Some(s.to_string())
}

fn list(v: &[&str]) -> Vec<String> {
    v.iter().map(|s| s.to_string()).collect()
}

fn says<T>(r: Result<T, ApiError>) -> (u16, String) {
    match r {
        Ok(_) => panic!("accepted"),
        Err(e) => (e.status, e.message),
    }
}

fn query(path: Option<String>) -> PathQuery {
    PathQuery { path, name: None, dir: None, subpath: None }
}

fn batch(target: Option<String>, paths: Vec<String>) -> BatchPaths {
    BatchPaths { paths, target, filename: None }
}

const DENIED: &str = "access denied: virtual filesystem path";

#[test]
fn places() {
    assert_eq!(place(&fm("/srv"), "a", 500).unwrap(), "/srv/a");
    assert_eq!(says(place(&fm("/"), "proc/1", 400)), (400, DENIED.to_string()));
    assert_eq!(path_or(None, "/"), "/");
    assert_eq!(path_or(some("x"), "/"), "x");
}

#[test]
fn deletions() {
    let f = fm("/srv");
    assert_eq!(says(delete_file(&f, &query(None))), (400, "path is required".to_string()));
    assert_eq!(says(delete_file(&f, &query(some("/")))), (500, "cannot delete root directory".to_string()));
    assert_eq!(says(delete_file(&f, &query(some("")))), (500, "cannot delete root directory".to_string()));
    assert_eq!(delete_file(&f, &query(some("a/b"))).unwrap(), "/srv/a/b");
    assert_eq!(says(delete_file(&fm("/"), &query(some("sys")))), (500, DENIED.to_string()));
}

#[test]
fn writes_and_transfers() {
    let t = write_rel(&fm("/srv"), "a/b").unwrap();
    assert_eq!((t.path.as_str(), t.parent), ("/srv/a/b", some("/srv/a")));
    assert!(matches!(write_rel(&fm("/"), "dev/x"), Err(PathError::Denied)));
    assert_eq!(transfer_paths(&fm("/srv"), "a", "b").unwrap(), ("/srv/a".to_string(), "/srv/b".to_string()));
    assert_eq!(says(transfer_paths(&fm("/"), "a", "proc")), (500, DENIED.to_string()));
    assert_eq!(says(transfer_paths(&fm("/"), "dev", "a")), (500, DENIED.to_string()));
}

#[test]
fn uploads() {
    let u = upload_file(&query(some("/d")), &some("files"), &some("x/y.txt")).unwrap();
    assert_eq!((u.label.as_str(), u.rel.as_str()), ("x/y.txt", "/d/y.txt"));
    let u = upload_file(&query(None), &some("files"), &None).unwrap();
    assert_eq!((u.label.as_str(), u.rel.as_str()), ("", "//download"));
    assert!(upload_file(&query(None), &some("other"), &some("x")).is_none());
    assert!(upload_file(&query(None), &None, &some("x")).is_none());
    let u = upload_folder(&query(some("/d")), &some("files"), &some("a/../b/c.txt")).unwrap();
    assert_eq!((u.label.as_str(), u.rel.as_str()), ("a/b/c.txt", "/d/a/b/c.txt"));
    assert!(upload_folder(&query(None), &None, &None).is_none());
}

#[test]
fn uploads_land_in_their_folder() {
    let f = fm("/srv");
    let u = upload_file(&query(some("../d/")), &some("files"), &some("../../x")).unwrap();
    assert_eq!(f.abs_path("../d/").unwrap(), "/srv/d");
    assert_eq!(f.abs_path(&u.rel).unwrap(), "/srv/d/x");
    let u = upload_folder(&query(some("d")), &some("files"), &some("../a/../b/x")).unwrap();
    assert_eq!(f.abs_path(&u.rel).unwrap(), "/srv/d/a/b/x");
    assert_eq!(f.abs_path("d/./e").unwrap(), "/srv/d/e");
}

#[test]
fn reports() {
    let r = upload_reply(vec![]);
    assert_eq!((r.status, r.ok, r.failed.len()), (200, true, 0));
    let r = upload_reply(list(&["x"]));
    assert_eq!((r.status, r.ok, r.failed), (207, true, list(&["x"])));
    let r = batch_reply(list(&["x"]));
    assert_eq!((r.status, r.ok, r.failed), (207, false, list(&["x"])));
    let r = batch_reply(vec![]);
    assert_eq!((r.status, r.ok), (200, true));
}

#[test]
fn several_deletions() {
    let steps = batch_delete(&fm("/"), &batch(None, list(&["a", "", "/", "proc/x", "/b/"])));
    let got: Vec<(&str, Option<&str>)> = steps.iter().map(|s| (s.rel.as_str(), s.path.as_deref())).collect();
    assert_eq!(got, [("a", Some("/a")), ("proc/x", None), ("/b/", Some("/b"))]);
    let r = batch_delete_reply(&steps);
    assert_eq!((r.status, r.ok, r.failed), (207, false, list(&["proc/x"])));
    let r = batch_delete_reply(&batch_delete(&fm("/"), &batch(None, list(&["a"]))));
    assert_eq!((r.status, r.ok), (200, true));
}

#[test]
fn nothing_moves_into_itself() {
    let go = |t: &str, p: &str| batch_move_copy(&batch(some(t), list(&[p]))).remove(0).dst;
    assert_eq!(go("/a", "/a"), None);
    assert_eq!(go("/a/b", "/a"), None);
    assert_eq!(go("/ab", "/a"), some("/ab/a"));
    assert_eq!(go("/a", "/a/b"), some("/a/b"));
    assert_eq!(go("/", "/a/b"), some("/b"));
    assert_eq!(go("/x/", "a"), some("/x/a"));
    assert_eq!(go("/x", "/"), some("/x/"));
    assert_eq!(batch_move_copy(&batch(None, list(&["/q/r"]))).remove(0).dst, some("/r"));
}

#[test]
fn one_blocked_path_spoils_the_answer() {
    let steps = batch_move_copy(&batch(some("/a/b"), list(&["/a", "/c"])));
    assert_eq!(steps[1].dst, some("/a/b/c"));
    let message = "cannot move/copy a folder into itself or its subdirectory";
    assert_eq!(says(batch_transfer_reply(&steps, vec![])), (400, message.to_string()));
    let steps = batch_move_copy(&batch(some("/x"), list(&["/a", "/c"])));
    let r = batch_transfer_reply(&steps, list(&["/c"])).unwrap();
    assert_eq!((r.status, r.ok, r.failed), (207, false, list(&["/c"])));
    assert_eq!(batch_transfer_reply(&steps, vec![]).unwrap().status, 200);
}

#[test]
fn contents() {
    assert_eq!(get_file_content(&b"abc".to_vec()), "abc");
    assert_eq!(get_file_content(&vec![b'a', 0xff, b'b']), "a\u{fffd}b");
    assert_eq!(detect_file_type(&b"abc".to_vec()), (true, "text/plain; charset=utf-8"));
    assert_eq!(detect_file_type(&vec![1, 0]), (false, "application/octet-stream"));
    assert_eq!(detect_file_type(&vec![]).0, true);
    assert_eq!(get_permission(0o100644), 0o644);
    assert_eq!(get_permission(0o4755), 0o755);
    assert_eq!(set_permission(None), 0o644);
    assert_eq!(set_permission(Some(0o600)), 0o600);
}

#[test]
fn public_files() {
    assert_eq!(public_parent("/a"), None);
    assert_eq!(public_parent("/"), None);
    assert_eq!(public_parent("/a/b"), some("/a"));
    assert_eq!(public_parent("a"), some(""));
    assert_eq!(says(public_place(&fm("/srv"), "a", false)), (403, "not public".to_string()));
    assert_eq!(public_place(&fm("/srv"), "a", true).unwrap(), "/srv/a");
    assert_eq!(says(public_place(&fm("/"), "dev", true)), (400, DENIED.to_string()));
    assert_eq!(raw_path("a/b"), "/a/b");
    assert_eq!(public_entry(&fm("/srv"), "/a/b", true), None);
    assert_eq!(public_entry(&fm("/srv"), "/a/b", false), some("/srv/a/b"));
    assert_eq!(public_entry(&fm("/srv"), "/a", true), some("/srv/a"));
    assert_eq!(public_entry(&fm("/"), "/proc/x", false), None);
    assert!(matches!(list_public_files(None), PublicListing::Marks));
    assert!(matches!(list_public_files(some("/")), PublicListing::Marks));
    assert!(matches!(list_public_files(some("")), PublicListing::Folder(p) if p.is_empty()));
    assert!(matches!(list_public_files(some("/a/")), PublicListing::Folder(p) if p == "/a/"));
    assert_eq!(public_paths().sql, "SELECT file_path FROM file_visibilities WHERE is_public=1");
    assert!(matches!(&forget_path("/x").params[0], Param::Text(t) if t == "/x"));
}

#[test]
fn visibility_plans() {
    let ask = |root: &str, path: &str, is_public: bool| {
        set_visibility(&fm(root), &VisReq { path: path.to_string(), is_public })
    };
    assert!(matches!(ask("/srv", "a", true), Ok(VisibilityPlan::Mark(p)) if p == "/srv/a"));
    assert!(matches!(ask("/srv", "a", false), Ok(VisibilityPlan::Forget(s)) if s.sql.starts_with("DELETE")));
    assert!(matches!(ask("/", "dev", false), Ok(VisibilityPlan::Forget(_))));
    assert_eq!(says(ask("/", "dev", true)), (500, DENIED.to_string()));
}
