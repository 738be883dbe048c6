use cloudone::text::{
    contains, decimal, decimal2, ends_with, find, is_white, join_with, replace_char,
    same_ignoring_case, split_on, split_once, starts_with, strip_all_prefix, trim, trim_end_char,
    trim_start_char,
};

const SAMPLES: [&str; 12] = [
    "", " ", "a", " a ", "\t a b\u{a0}\n", "aaa", "aab", "a:b:c", "::", "\u{3000}x\u{2003}",
    "\u{e9}t\u{e9}", "/dav/dav/x",
];

#[test]
fn agrees_with_std() {
    for s in SAMPLES {
        assert_eq!(trim(s), s.trim(), "{s:?}");
        for c in ['a', ':', ' ', '/', '\u{e9}'] {
            assert_eq!(trim_start_char(s, c), s.trim_start_matches(c));
            assert_eq!(trim_end_char(s, c), s.trim_end_matches(c));
            assert_eq!(replace_char(s, c, '_'), s.replace(c, "_"));
            let pieces: Vec<String> = s.split(c).map(str::to_string).collect();
            assert_eq!(split_on(s, c), pieces);
            assert_eq!(join_with(&pieces, c), s);
            let cut = s.split_once(c).map(|(a, b)| (a.to_string(), b.to_string()));
            assert_eq!(split_once(s, c), cut);
        }
        for p in SAMPLES {
            assert_eq!(starts_with(s, p), s.starts_with(p));
            assert_eq!(ends_with(s, p), s.ends_with(p));
            assert_eq!(contains(s, p), s.contains(p), "{s:?} {p:?}");
            assert_eq!(find(s, p), s.find(p).map(|i| s[..i].chars().count()));
            if !p.is_empty() {
                assert_eq!(strip_all_prefix(s, p), s.trim_start_matches(p));
            }
        }
    }
}

#[test]
fn white_space_agrees_with_std() {
    for n in 0..=0x10ffffu32 {
        if let Some(c) = char::from_u32(n) {
            assert_eq!(is_white(c), c.is_whitespace(), "{n:x}");
        }
    }
}

#[test]
fn numbers() {
    for n in [0u64, 7, 9, 10, 99, 100, 12345, u64::MAX] {
        assert_eq!(decimal(n), n.to_string());
        assert_eq!(decimal2(n), format!("{n:02}"));
    }
}

#[test]
fn case_is_ignored_for_ascii_only() {
    assert!(same_ignoring_case("LocalHost", "localhost"));
    assert!(!same_ignoring_case("\u{c9}", "\u{e9}"));
    assert!(!same_ignoring_case("local", "localhost"));
}
