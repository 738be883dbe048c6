use cloudone::archive::{
    archive_kind, batch_download, compress_files, decompress_file, member_name, safe_extract,
    tar_add, unsupported, zip_add_lstat, ArchiveFormat, ArchiveKind, ExtractStep, MemberStep,
    NodeKind,
};
use cloudone::reply::ApiError;
use cloudone::storage::FileManager;
use cloudone::types::{BatchPaths, CompressReq, DecompressReq};

fn fm(root: &str) -> FileManager {
    FileManager::new(root.to_string())
}

fn some(s: &str) -> Option<String> {
    Some(s.to_string())
}

fn list(v: &[&str]) -> Vec<String> {
    v.iter().map(|s| s.to_string()).collect()
}

fn says<T>(r: Result<T, ApiError>) -> (u16, String) {
    match r {
        Ok(_) => panic!("accepted"),
        Err(e) => (e.status, e.message),
    }
}

fn batch(filename: Option<String>, paths: Vec<String>) -> BatchPaths {
    BatchPaths { paths, target: None, filename }
}

fn pack(paths: Vec<String>, format: Option<String>, output: Option<String>, dir: Option<String>) -> CompressReq {
    CompressReq { paths, format, output, dir }
}

fn unpack(path: &str, dir: Option<String>) -> DecompressReq {
    DecompressReq { path: path.to_string(), dir }
}

const DENIED: &str = "access denied: virtual filesystem path";

#[test]
fn downloads() {
    let d = batch_download(&fm("/"), batch(some("pack"), list(&["/a/b", "proc/x", "c/"]))).unwrap();
    assert_eq!(d.filename, "pack.zip");
    let got: Vec<(&str, &str)> = d.entries.iter().map(|e| (e.path.as_str(), e.name.as_str())).collect();
    assert_eq!(got, [("/a/b", "b"), ("/c", "c")]);
    assert_eq!(batch_download(&fm("/"), batch(some("X.ZIP"), list(&["a"]))).unwrap().filename, "X.ZIP");
    assert_eq!(batch_download(&fm("/"), batch(None, list(&["a"]))).unwrap().filename, "download.zip");
    assert_eq!(says(batch_download(&fm("/"), batch(None, list(&["dev"])))), (400, "no valid paths".to_string()));
    assert_eq!(says(batch_download(&fm("/"), batch(None, vec![]))), (400, "no valid paths".to_string()));
}

#[test]
fn packing() {
    let f = fm("/srv");
    let c = compress_files(&f, pack(list(&["a/b"]), some("tar.gz"), some("x"), some("/d"))).unwrap();
    assert_eq!(c.format, ArchiveFormat::TarGz);
    assert_eq!((c.path.as_str(), c.output.as_str()), ("/srv/d/x.tar.gz", "x.tar.gz"));
    assert_eq!(c.parent, some("/srv/d"));
    assert_eq!((c.entries[0].path.as_str(), c.entries[0].name.as_str()), ("/srv/a/b", "b"));
    let c = compress_files(&f, pack(list(&["a"]), some("tar"), some("x.tar"), None)).unwrap();
    assert_eq!((c.format, c.path.as_str(), c.output.as_str()), (ArchiveFormat::Tar, "/srv/x.tar", "x.tar"));
    let c = compress_files(&f, pack(list(&["a"]), some("rar"), None, None)).unwrap();
    assert_eq!((c.format, c.output.as_str()), (ArchiveFormat::Zip, "archive.zip"));
    let c = compress_files(&f, pack(list(&["/"]), None, some("y.ZIP"), None)).unwrap();
    assert_eq!((c.output.as_str(), c.entries[0].name.as_str()), ("y.ZIP.zip", "srv"));
}

#[test]
fn packing_is_refused() {
    assert_eq!(says(compress_files(&fm("/"), pack(list(&["proc"]), None, None, None))), (400, "no valid paths".to_string()));
    assert_eq!(says(compress_files(&fm("/"), pack(list(&["a"]), None, None, some("/dev")))), (400, DENIED.to_string()));
}

#[test]
fn members() {
    assert_eq!(member_name("a", "b"), "a/b");
    assert!(matches!(zip_add_lstat(Some(NodeKind::Dir)), MemberStep::Descend { member: None }));
    assert!(matches!(zip_add_lstat(Some(NodeKind::File)), MemberStep::Add));
    assert!(matches!(zip_add_lstat(Some(NodeKind::Other)), MemberStep::Skip));
    assert!(matches!(zip_add_lstat(None), MemberStep::Skip));
    assert!(matches!(tar_add(Some(NodeKind::Dir), "d"), MemberStep::Descend { member: Some(m) } if m == "d/"));
    assert!(matches!(tar_add(Some(NodeKind::File), "d"), MemberStep::Add));
    assert!(matches!(tar_add(Some(NodeKind::Other), "d"), MemberStep::Skip));
    assert!(matches!(tar_add(None, "d"), MemberStep::Fail));
}

#[test]
fn kinds() {
    assert!(matches!(archive_kind("/a/B.ZIP"), ArchiveKind::Zip));
    assert!(matches!(archive_kind("/a/b.tar.gz"), ArchiveKind::TarGz));
    assert!(matches!(archive_kind("b.TGZ"), ArchiveKind::TarGz));
    assert!(matches!(archive_kind("b.tar"), ArchiveKind::Tar));
    assert!(matches!(archive_kind("/x/Notes.txt.gz"), ArchiveKind::Gz(n) if n == "Notes.txt"));
    assert!(matches!(archive_kind("b.7z"), ArchiveKind::Unsupported));
    assert!(matches!(archive_kind("/zip/b"), ArchiveKind::Unsupported));
    assert_eq!(unsupported().message, "unsupported archive format");
    assert_eq!(unsupported().status, 500);
}

#[test]
fn unpacking() {
    let f = fm("/srv");
    let d = decompress_file(&f, unpack("/d/a.zip", None)).unwrap();
    assert_eq!((d.path.as_str(), d.dest.as_str()), ("/srv/d/a.zip", "/srv/d"));
    assert!(matches!(d.kind, ArchiveKind::Zip));
    assert_eq!(decompress_file(&f, unpack("a.zip", None)).unwrap().dest, "/srv/");
    assert_eq!(decompress_file(&f, unpack("./a.zip", None)).unwrap().dest, "/srv/");
    assert_eq!(decompress_file(&f, unpack("/a.zip", None)).unwrap().dest, "/srv/");
    assert_eq!(decompress_file(&f, unpack("/", None)).unwrap().dest, "/srv/");
    assert_eq!(decompress_file(&f, unpack("a.zip", some("x"))).unwrap().dest, "/srv/x");
    assert_eq!(says(decompress_file(&fm("/"), unpack("proc/a.zip", some("x")))), (400, DENIED.to_string()));
    assert_eq!(says(decompress_file(&fm("/"), unpack("a.zip", some("sys")))), (400, DENIED.to_string()));
}

#[test]
fn members_stay_below() {
    let path = |name: &str| match safe_extract("/srv/d", name, 0o755, false) {
        ExtractStep::Write { path, .. } => path,
        _ => panic!("not written"),
    };
    assert_eq!(path("a/b"), "/srv/d/a/b");
    assert_eq!(path("../../etc/passwd"), "/srv/d/etc/passwd");
    assert_eq!(path("/etc/passwd"), "/srv/d/etc/passwd");
    assert_eq!(path("./a/./b"), "/srv/d/a/b");
    assert_eq!(path("a\\b"), "/srv/d/a\\b");
    assert_eq!(path(""), "/srv/d/");
    assert!(matches!(safe_extract("/srv/d", "a/b/", 0, true), ExtractStep::MakeDir(p) if p == "/srv/d/a/b"));
}

#[test]
fn permissions_of_members() {
    let mode = |m: u32| match safe_extract("/d", "a/b", m, false) {
        ExtractStep::Write { mode, parent, .. } => {
            assert_eq!(parent, some("/d/a"));
            mode
        }
        _ => panic!("not written"),
    };
    assert_eq!(mode(0o755), 0o755);
    assert_eq!(mode(0o100444), 0o644);
    assert_eq!(mode(0), 0o600);
    assert_eq!(mode(0o7777), 0o777);
}
