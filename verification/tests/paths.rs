use cloudone::paths::{
    base_name_of, extension_of, file_name, is_absolute, is_danger_path, is_under, join_path,
    names_of, normalize_path, parent_of, path_components, path_starts_with, safe_name, stem_of,
    Component,
};
use std::path::{Path, PathBuf};

const SAMPLES: [&str; 34] = [
    "",
    "/",
    "//",
    ".",
    "..",
    "./",
    "/.",
    "/..",
    "a",
    "/a",
    "a/",
    "a/b",
    "/a/b",
    "/a//b",
    "/a/./b",
    "/a/b/",
    "/a/b/.",
    "/a/b/..",
    "./a",
    "./a/./b",
    "../a",
    "a/../b",
    "//a",
    "///a/b",
    "a/./",
    "a/.",
    ".a",
    ".a.b",
    "a.b.c",
    "a.",
    "/x/.tar.gz",
    "/x/y.tar.gz",
    "\u{6587}\u{4ef6}/\u{e9}.txt",
    "a\\b",
];

fn reference_components(p: &str) -> Vec<String> {
    Path::new(p)
        .components()
        .map(|c| match c {
            std::path::Component::RootDir => "ROOT".to_string(),
            std::path::Component::CurDir => "CUR".to_string(),
            std::path::Component::ParentDir => "UP".to_string(),
            std::path::Component::Normal(n) => format!("NAME {}", n.to_str().unwrap()),
            std::path::Component::Prefix(_) => unreachable!(),
        })
        .collect()
}

#[test]
fn components_agree_with_std() {
    for p in SAMPLES {
        let mine: Vec<String> = path_components(p)
            .iter()
            .map(|c| match c {
                Component::Root => "ROOT".to_string(),
                Component::Cur => "CUR".to_string(),
                Component::Up => "UP".to_string(),
                Component::Name(n) => format!("NAME {n}"),
            })
            .collect();
        assert_eq!(mine, reference_components(p), "{p:?}");
    }
}

#[test]
fn parts_agree_with_std() {
    for p in SAMPLES {
        let r = Path::new(p);
        assert_eq!(file_name(p), r.file_name().map(|s| s.to_str().unwrap().to_string()), "file_name {p:?}");
        assert_eq!(extension_of(p), r.extension().map(|s| s.to_str().unwrap().to_string()), "extension {p:?}");
        assert_eq!(stem_of(p), r.file_stem().map(|s| s.to_str().unwrap().to_string()), "stem {p:?}");
        assert_eq!(is_absolute(p), r.is_absolute(), "absolute {p:?}");
        let parent = r.parent().map(|q| q.to_str().unwrap().to_string());
        assert_eq!(parent_of(p), parent, "parent {p:?}");
    }
}

#[test]
fn joining_agrees_with_std() {
    for a in SAMPLES {
        for b in SAMPLES {
            let r = Path::new(a).join(b);
            assert_eq!(join_path(a, b), r.to_str().unwrap(), "{a:?} {b:?}");
            assert_eq!(path_starts_with(b, a), Path::new(b).starts_with(a), "{b:?} {a:?}");
        }
    }
}

#[test]
fn normal_forms() {
    assert_eq!(normalize_path(""), "/");
    assert_eq!(normalize_path("/"), "/");
    assert_eq!(normalize_path("a/b"), "/a/b");
    assert_eq!(normalize_path("//a//b/"), "/a/b");
    assert_eq!(normalize_path("/a/../b/./c"), "/a/b/c");
    assert_eq!(normalize_path("../../etc"), "/etc");
    assert_eq!(normalize_path("a\\b"), "/a/b");
    assert_eq!(normalize_path("/.."), "/");
}

#[test]
fn normal_form_agrees_with_std() {
    for p in SAMPLES {
        let mut out = PathBuf::from("/");
        for c in Path::new(p.trim_start_matches('/')).components() {
            if let std::path::Component::Normal(v) = c {
                out.push(v);
            }
        }
        let expected = out.to_str().unwrap().replace('\\', "/");
        assert_eq!(normalize_path(p), expected, "{p:?}");
    }
}

#[test]
fn normalizing_twice_is_once_for_plain_paths() {
    for p in SAMPLES {
        if !p.contains('\\') {
            let q = normalize_path(p);
            assert_eq!(normalize_path(&q), q);
            assert_eq!(names_of(&q), names_of(p));
        }
    }
    let q = normalize_path("a\\..\\b");
    assert_eq!(q, "/a/../b");
    assert_ne!(normalize_path(&q), q);
}

#[test]
fn danger_zones() {
    assert!(is_danger_path("/proc"));
    assert!(is_danger_path("/proc/1/mem"));
    assert!(is_danger_path("/sys/kernel"));
    assert!(is_danger_path("/dev"));
    assert!(!is_danger_path("/process"));
    assert!(!is_danger_path("/data/proc"));
    assert!(!is_danger_path("proc"));
    assert!(is_under("/a/b", "/a"));
    assert!(!is_under("/ab", "/a"));
}

#[test]
fn names_for_files() {
    assert_eq!(safe_name("a/b.txt"), "b.txt");
    assert_eq!(safe_name("/x/y/"), "y");
    assert_eq!(safe_name(".."), "download");
    assert_eq!(safe_name(""), "download");
    assert_eq!(base_name_of("/"), "");
    assert_eq!(base_name_of("/a/b"), "b");
}
