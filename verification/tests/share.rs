use cloudone::reply::ApiError;
use cloudone::share::{
    access_share, create_share, create_share_at, delete_share, download_share, get_share,
    get_share_by_id, list_shares, open_share, serve_share_raw, share_by_code, share_clock, share_expiry,
    share_not_found, ShareError,
};
use cloudone::sql::Param;
use cloudone::types::{ShareLink, ShareReq};

fn link(is_dir: bool) -> ShareLink {
    ShareLink {
        id: 5,
        code: "AbCdEfGh".to_string(),
        file_path: "/docs".to_string(),
        is_dir,
        user_id: 1,
        expires_at: None,
        max_views: 0,
        view_count: 0,
        created_at: String::new(),
    }
}

fn req(expire_in: Option<i64>, max_views: Option<i64>) -> ShareReq {
    ShareReq { path: "/a".to_string(), is_dir: true, expire_in, max_views }
}

fn some(s: &str) -> Option<String> {
    Some(s.to_string())
}

fn text(p: &Param) -> String {
    match p {
        Param::Text(t) => t.clone(),
        _ => panic!("no text"),
    }
}

fn says<T>(r: Result<T, ApiError>) -> (u16, String) {
    match r {
        Ok(_) => panic!("accepted"),
        Err(e) => (e.status, e.message),
    }
}

#[test]
fn ends_are_written() {
    assert_eq!(share_expiry((999_999_990, 0), Some(10)), some("2001-09-09T01:46:40+00:00"));
    assert_eq!(share_expiry((0, 500_000_000), Some(1)), some("1970-01-01T00:00:01.500+00:00"));
    assert_eq!(share_expiry((0, 0), Some(0)), None);
    assert_eq!(share_expiry((0, 0), Some(-5)), None);
    assert_eq!(share_expiry((0, 0), None), None);
}

#[test]
fn links_end_on_time() {
    let made = (1_700_000_000, 250);
    let mut l = link(false);
    l.expires_at = share_expiry(made, Some(60));
    assert!(get_share(l.clone(), made, false).is_ok());
    assert!(get_share(l.clone(), (1_700_000_060, 250), false).is_ok());
    assert!(matches!(get_share(l.clone(), (1_700_000_060, 251), false), Err(ShareError::Expired)));
    assert!(matches!(get_share(l, (1_800_000_000, 0), true), Err(ShareError::Expired)));
}

#[test]
fn other_offsets_and_bad_texts() {
    let mut l = link(false);
    l.expires_at = some("1970-01-01T02:00:00+02:00");
    assert!(get_share(l.clone(), (0, 0), false).is_ok());
    assert!(matches!(get_share(l.clone(), (0, 1), false), Err(ShareError::Expired)));
    l.expires_at = some("soon");
    assert!(get_share(l, (1_800_000_000, 0), false).is_ok());
}

#[test]
fn views_are_limited_and_counted() {
    let mut l = link(false);
    l.max_views = 2;
    for n in 1..=2 {
        let (next, s) = get_share(l, (0, 0), true).unwrap();
        assert_eq!(next.view_count, n);
        let s = s.unwrap();
        assert_eq!(s.sql, "UPDATE share_links SET view_count=? WHERE id=?");
        assert!(matches!(s.params[0], Param::Int(k) if k == n));
        assert!(matches!(s.params[1], Param::Int(5)));
        l = next;
    }
    assert!(matches!(get_share(l.clone(), (0, 0), true), Err(ShareError::Exhausted)));
    assert!(matches!(get_share(l.clone(), (0, 0), false), Err(ShareError::Exhausted)));
    l.max_views = 0;
    let (next, s) = get_share(l, (0, 0), false).unwrap();
    assert_eq!(next.view_count, 2);
    assert!(s.is_none());
    assert_eq!(ShareError::Exhausted.message(), "share link has reached maximum views");
    assert_eq!(ShareError::Expired.message(), "share link has expired");
    assert_eq!(share_not_found().status, 404);
}

#[test]
fn views_that_cannot_be_counted() {
    let mut l = link(false);
    l.view_count = i64::MAX;
    assert!(open_share(l.clone(), (5, 0), true).is_none());
    let (next, s) = open_share(l.clone(), (5, 0), false).unwrap().unwrap();
    assert_eq!((next.view_count, s.is_none()), (i64::MAX, true));
    l.expires_at = some("1970-01-01T00:00:01+00:00");
    assert!(matches!(open_share(l.clone(), (5, 0), true), Some(Err(ShareError::Expired))));
    assert!(matches!(get_share(l.clone(), (5, 0), true), Err(ShareError::Expired)));
    l.expires_at = None;
    l.max_views = i64::MAX;
    assert!(matches!(open_share(l.clone(), (5, 0), true), Some(Err(ShareError::Exhausted))));
    l.view_count = i64::MAX - 1;
    assert_eq!(open_share(l, (5, 0), true).unwrap().unwrap().0.view_count, i64::MAX);
}

#[test]
fn looking_uses_up_no_view() {
    let mut l = link(false);
    l.max_views = 3;
    for n in 0..3 {
        l = get_share(l, (0, 0), false).unwrap().0;
        assert_eq!(l.view_count, n);
        l = get_share(l, (0, 0), true).unwrap().0;
    }
    assert!(get_share(l, (0, 0), false).is_err());
}

#[test]
fn links_are_made() {
    let s = create_share_at("code1234", &req(Some(10), Some(3)), 9, (999_999_990, 0), "then").unwrap();
    assert_eq!(s.sql, "INSERT INTO share_links (code,file_path,is_dir,user_id,expires_at,max_views,view_count,created_at) VALUES (?,?,?,?,?,?,0,?)");
    assert_eq!(text(&s.params[0]), "code1234");
    assert_eq!(text(&s.params[1]), "/a");
    assert!(matches!(s.params[2], Param::Int(1)));
    assert!(matches!(s.params[3], Param::Int(9)));
    assert_eq!(text(&s.params[4]), "2001-09-09T01:46:40+00:00");
    assert!(matches!(s.params[5], Param::Int(3)));
    assert_eq!(text(&s.params[6]), "then");
    assert!(create_share_at("c", &req(Some(i64::MAX), None), 9, (5, 0), "").is_none());
    let s = create_share_at("c", &req(None, None), 9, (5, 0), "").unwrap();
    assert!(matches!(s.params[4], Param::Null));
    assert!(matches!(s.params[5], Param::Int(0)));
}

#[test]
fn codes_are_random_letters_and_digits() {
    let a = create_share(&req(Some(60), None), 1).unwrap();
    let b = create_share(&req(None, None), 1).unwrap();
    let code = text(&a.params[0]);
    assert_eq!(code.len(), 8);
    assert!(code.bytes().all(|c| c.is_ascii_alphanumeric()));
    assert_ne!(code, text(&b.params[0]));
    assert!(chrono::DateTime::parse_from_rfc3339(&text(&a.params[4])).is_ok());
    assert!(chrono::DateTime::parse_from_rfc3339(&text(&a.params[6])).is_ok());
    assert!(create_share(&req(Some(i64::MAX), None), 1).is_none());
    assert!(share_clock().0 > 1_700_000_000);
}

#[test]
fn where_links_lead() {
    assert_eq!(access_share(&link(false), some("x")), None);
    assert_eq!(access_share(&link(true), None), some("/docs"));
    assert_eq!(access_share(&link(true), some("")), some("/docs"));
    assert_eq!(access_share(&link(true), some("../a/./b")), some("/docs/a/b"));
    assert_eq!(download_share(&link(true), some("../x")).unwrap(), "/docs/x");
    assert_eq!(download_share(&link(true), some("")).unwrap(), "/docs/");
    assert_eq!(says(download_share(&link(true), None)), (400, "subpath required for directory share".to_string()));
    assert_eq!(download_share(&link(false), some("x")).unwrap(), "/docs");
    assert_eq!(serve_share_raw(&link(false)).unwrap(), "/docs");
    assert_eq!(says(serve_share_raw(&link(true))), (400, "cannot view directory as raw".to_string()));
}

#[test]
fn statements_on_links() {
    assert!(matches!(get_share_by_id(3).params[0], Param::Int(3)));
    assert_eq!(text(&share_by_code("x").params[0]), "x");
    assert!(matches!(list_shares(4).params[0], Param::Int(4)));
    let s = delete_share(3, 4);
    assert_eq!(s.sql, "DELETE FROM share_links WHERE id=? AND user_id=?");
    assert!(matches!(s.params[1], Param::Int(4)));
}
