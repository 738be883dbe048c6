use cloudone::sql::{Param, Statement};
use cloudone::visibility::{
    copy_visibility, delete_visibility_tree, is_public, is_public_statement, mark_public,
    migrate_visibility, relative_key, upsert_visibility, visibility_tree,
};

fn text(p: &Param) -> &str {
    match p {
        Param::Text(t) => t,
        _ => panic!("no text"),
    }
}

fn number(p: &Param) -> i64 {
    match p {
        Param::Int(n) => *n,
        _ => panic!("no number"),
    }
}

fn mark(path: &str, public: i64) -> (String, i64) {
    (path.to_string(), public)
}

fn keys(v: &[Statement]) -> Vec<(&str, i64)> {
    v.iter().map(|s| (text(&s.params[0]), number(&s.params[1]))).collect()
}

#[test]
fn marks_are_found_again() {
    let set = upsert_visibility("a//b", true);
    let ask = is_public_statement("/a/./b");
    assert_eq!(text(&set.params[0]), "/a/b");
    assert_eq!(number(&set.params[1]), 1);
    assert_eq!(text(&ask.params[0]), text(&set.params[0]));
    assert_eq!(ask.sql, "SELECT COUNT(*) FROM file_visibilities WHERE file_path=? AND is_public=1");
    assert_ne!(text(&is_public_statement("/a").params[0]), text(&set.params[0]));
    assert_ne!(text(&is_public_statement("/a/b/c").params[0]), text(&set.params[0]));
    assert_eq!(number(&upsert_visibility("x", false).params[1]), 0);
    assert!(is_public(Some(1)));
    assert!(!is_public(Some(0)));
    assert!(!is_public(None));
}

#[test]
fn trees() {
    let d = delete_visibility_tree("a/");
    assert_eq!(d.sql, "DELETE FROM file_visibilities WHERE file_path=? OR file_path LIKE ?");
    assert_eq!((text(&d.params[0]), text(&d.params[1])), ("/a", "/a/%"));
    let s = visibility_tree("/");
    assert_eq!(s.sql, "SELECT file_path,is_public FROM file_visibilities WHERE file_path=? OR file_path LIKE ?");
    assert_eq!((text(&s.params[0]), text(&s.params[1])), ("/", "//%"));
}

#[test]
fn marks_follow_a_copy() {
    let v = copy_visibility("/a", "b/c", &vec![mark("/a", 1), mark("/a/x", 0), mark("/a/y/z", 1)]);
    assert_eq!(keys(&v), [("/b/c", 1), ("/b/c/x", 0), ("/b/c/y/z", 1)]);
    let v = copy_visibility("/a", "/b", &vec![mark("/a/a/x", 1)]);
    assert_eq!(keys(&v), [("/b/x", 1)]);
}

#[test]
fn marks_leave_with_a_move() {
    let v = migrate_visibility("/a", "/b", &vec![mark("/a/x", 1)]);
    assert_eq!(v.len(), 2);
    assert_eq!(text(&v[0].params[0]), "/b/x");
    assert_eq!(v[1].sql, "DELETE FROM file_visibilities WHERE file_path=? OR file_path LIKE ?");
    assert_eq!(text(&v[1].params[0]), "/a");
}

#[test]
fn keys_of_files_on_disk() {
    assert_eq!(relative_key("/srv", "/srv/a/b"), Some("/a/b".to_string()));
    assert_eq!(relative_key("/srv/", "/srv"), Some("/".to_string()));
    assert_eq!(relative_key("./data", "./data/x\\y"), Some("/x/y".to_string()));
    assert_eq!(relative_key("/srv", "/other"), None);
    assert_eq!(relative_key("/srv", "/srvx"), None);
}

#[test]
fn published_paths_are_public() {
    let paths = vec!["/srv/a".to_string(), "/srv/a/b".to_string()];
    let v = mark_public("/srv", &paths).unwrap();
    assert_eq!(keys(&v), [("/a", 1), ("/a/b", 1)]);
    assert_eq!(text(&is_public_statement("a").params[0]), "/a");
    assert!(mark_public("/srv", &vec!["/x".to_string()]).is_none());
}
