use cloudone::listing::{
    file_info, list_dir, list_dir_tree, only_public, search_files, select_entries,
    visible_statement, DirEntry, FileMeta, Found, Search, MOST_HITS,
};
use cloudone::sql::Param;

fn entry(path: &str, name: &str) -> DirEntry {
    DirEntry { path: path.to_string(), name: name.to_string() }
}

fn meta(is_dir: bool) -> FileMeta {
    FileMeta { is_dir, len: 12, modified: (1_000_000_000, 0), mode: 0o100644 }
}

#[test]
fn one_file() {
    let f = file_info("/a/./b.txt", &meta(false), true);
    assert_eq!((f.name.as_str(), f.path.as_str()), ("b.txt", "/a/b.txt"));
    assert_eq!((f.is_dir, f.size, f.is_public, f.mode), (false, 12, true, 0o100644));
    assert_eq!(f.mod_time, "2001-09-09T01:46:40+00:00");
    let d = file_info("/a", &meta(true), false);
    assert_eq!((d.is_dir, d.size), (true, 0));
}

#[test]
fn what_is_listed() {
    let entries = vec![
        entry("/srv/d/a", "a"),
        entry("/srv/d/.b", ".b"),
        entry("/proc/x", "x"),
        entry("/srv/d/c", "c"),
    ];
    let c = select_entries("d/", false, &entries);
    let got: Vec<(usize, &str)> = c.iter().map(|x| (x.index, x.child.as_str())).collect();
    assert_eq!(got, [(0, "/d/a"), (3, "/d/c")]);
    let c = select_entries("/", true, &entries);
    let got: Vec<(usize, &str)> = c.iter().map(|x| (x.index, x.child.as_str())).collect();
    assert_eq!(got, [(0, "/a"), (1, "/.b"), (3, "/c")]);
}

#[test]
fn listed_paths_lead_to_their_entries() {
    let f = cloudone::storage::FileManager::new("/srv".to_string());
    let c = select_entries("/d/../e", true, &vec![entry("/srv/d/e/.x", ".x")]);
    assert_eq!(f.abs_path("/d/../e").unwrap(), "/srv/d/e");
    assert_eq!(f.abs_path(&c[0].child).unwrap(), c[0].path);
}

#[test]
fn hits_lead_to_their_files() {
    let f = cloudone::storage::FileManager::new("/srv".to_string());
    let r = search_files("/srv", "x", &vec![found("/srv/a/b/x.txt", "x.txt")]);
    assert_eq!(f.abs_path(&r[0].path).unwrap(), "/srv/a/b/x.txt");
}

#[test]
fn which_of_them_are_public() {
    let c = select_entries("/d", false, &vec![entry("/srv/d/a", "a"), entry("/srv/d/b", "b")]);
    let s = visible_statement(&c).unwrap();
    assert_eq!(s.sql, "SELECT file_path FROM file_visibilities WHERE is_public=1 AND file_path IN (?,?)");
    assert!(matches!(&s.params[0], Param::Text(t) if t == "/d/a"));
    assert!(matches!(&s.params[1], Param::Text(t) if t == "/d/b"));
    let one = select_entries("/d", false, &vec![entry("/srv/d/a", "a")]);
    assert!(visible_statement(&one).unwrap().sql.ends_with("IN (?)"));
    assert!(visible_statement(&vec![]).is_none());
}

#[test]
fn listings() {
    let c = select_entries("/d", false, &vec![entry("/srv/d/a", "a"), entry("/srv/d/b", "b"), entry("/srv/d/e", "e")]);
    let v = list_dir(&c, &vec![Some(meta(false)), None, Some(meta(true))], &vec!["/d/e".to_string()]);
    assert_eq!(v.len(), 2);
    assert_eq!((v[0].name.as_str(), v[0].is_public, v[0].size), ("a", false, 12));
    assert_eq!((v[1].name.as_str(), v[1].is_public, v[1].size), ("e", true, 0));
    let p = only_public(&v);
    assert_eq!(p.len(), 1);
    assert_eq!(p[0].path, "/d/e");
    let t = list_dir_tree(&v);
    assert_eq!(t.len(), 1);
    assert_eq!((t[0].name.as_str(), t[0].path.as_str()), ("e", "/d/e"));
}

fn found(path: &str, name: &str) -> Found {
    Found { path: path.to_string(), name: name.to_string(), is_dir: false }
}

#[test]
fn searches_ignore_case() {
    let v = vec![found("/srv/a/Notes.TXT", "Notes.TXT"), found("/srv/b", "b"), found("/srv/x/\u{c9}t\u{e9}", "\u{c9}t\u{e9}")];
    let r = search_files("/srv", "tes.t", &v);
    assert_eq!(r.len(), 1);
    assert_eq!((r[0].name.as_str(), r[0].path.as_str(), r[0].is_dir), ("Notes.TXT", "/a/Notes.TXT", false));
    assert_eq!(search_files("/srv", "\u{e9}T\u{c9}", &v).len(), 1);
    assert_eq!(search_files("/srv", "", &v).len(), 3);
    assert_eq!(search_files("/srv", "nothing", &v).len(), 0);
}

#[test]
fn searches_end() {
    let mut s = Search::new("/srv".to_string(), "F");
    for i in 0..250 {
        assert_eq!(s.full(), i >= MOST_HITS);
        s.look(&found(&format!("/srv/f{i}"), &format!("f{i}")));
    }
    s.look(&found("/elsewhere/f", "f"));
    let r = s.finish();
    assert_eq!(r.len(), 200);
    assert_eq!(r[199].path, "/f199");
}
