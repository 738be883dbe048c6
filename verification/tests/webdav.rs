use cloudone::limiter::RateLimiter;
use cloudone::reply::Reply;
use cloudone::types::Settings;
use cloudone::webdav::{
    authorize, created, credentials, dav_propfind, deleted, lock_answer, login, login_at, login_of,
    needs_first_user, needs_stored_password, plan_with, webdav_handler, write_propfind_entry,
    DavLogin, DavMeta, DavPlan, DavSession,
};

fn settings() -> Settings {
    Settings {
        id: 1,
        storage_dir: String::new(),
        lang: "en".to_string(),
        ui_theme: String::new(),
        ui_font: String::new(),
        editor_font: String::new(),
        webdav_enabled: true,
        webdav_sub_path: String::new(),
        webdav_username: String::new(),
        webdav_password_enc: String::new(),
        jwt_secret_enc: String::new(),
        show_hidden: false,
    }
}

fn limiter() -> RateLimiter {
    RateLimiter::new(1, 100)
}

fn ip() -> String {
    "1.2.3.4".to_string()
}

fn refused(r: Result<DavLogin, Reply>) -> Reply {
    match r {
        Ok(_) => panic!("let in"),
        Err(e) => e,
    }
}

#[test]
fn disabled() {
    let mut s = settings();
    s.webdav_enabled = false;
    let mut l = limiter();
    let r = refused(login_at(&s, "Basic YTpi", &mut l, ip(), 0));
    assert_eq!((r.status, r.headers.len(), r.body.as_str()), (503, 0, ""));
    assert!(l.hits.is_empty());
}

#[test]
fn credentials_are_asked_for() {
    let mut l = limiter();
    for h in ["", "Bearer x", "basic YTpi", "Basic"] {
        let r = refused(login_at(&settings(), h, &mut l, ip(), 0));
        assert_eq!(r.status, 401);
        assert_eq!(r.headers[0].0, "www-authenticate");
        assert_eq!(r.headers[0].1, "Basic realm=\"CloudOne WebDAV\"");
    }
    assert!(l.hits.is_empty());
}

#[test]
fn too_many_requests() {
    let mut l = limiter();
    assert!(login_at(&settings(), "Basic YTpi", &mut l, ip(), 0).is_ok());
    let r = refused(login_at(&settings(), "Basic YTpi", &mut l, ip(), 1));
    assert_eq!(r.status, 429);
    assert!(login(&settings(), "Basic YTpi", &mut l, "other".to_string()).is_ok());
}

#[test]
fn credentials_are_decoded() {
    let pair = |l: DavLogin| (l.user, l.password);
    let p = |a: &str, b: &str| (a.to_string(), b.to_string());
    assert_eq!(pair(credentials("YTpi")), p("a", "b"));
    assert_eq!(pair(credentials("YTpiOmM=")), p("a", "b:c"));
    assert_eq!(pair(credentials("YWI=")), p("", ""));
    assert_eq!(pair(credentials("***")), p("", ""));
    assert_eq!(pair(credentials("/zpi")), p("\u{fffd}", "b"));
    assert_eq!(pair(login_of("u:")), p("u", ""));
}

fn as_login(u: &str, p: &str) -> DavLogin {
    DavLogin { user: u.to_string(), password: p.to_string() }
}

#[test]
fn the_account_is_the_default_user() {
    let s = settings();
    assert!(needs_first_user(&s));
    assert!(needs_stored_password(&s));
    let h = bcrypt::hash("pw", 4).unwrap();
    let key = [0u8; 32];
    let some = |t: &str| Some(t.to_string());
    let ok = |u: &str, p: &str, first: Option<String>, stored: Option<String>| {
        authorize(&s, &key, "/srv", &as_login(u, p), first, stored).is_ok()
    };
    assert!(ok("admin", "pw", some("admin"), some(&h)));
    assert!(!ok("admin", "no", some("admin"), some(&h)));
    assert!(!ok("other", "pw", some("admin"), some(&h)));
    assert!(!ok("admin", "pw", some("admin"), None));
    assert!(!ok("admin", "pw", None, some(&h)));
    assert!(ok("", "pw", None, some(&h)));
}

#[test]
fn the_settings_can_name_another_user() {
    let key = [3u8; 32];
    let mut s = settings();
    s.webdav_username = "dav".to_string();
    s.webdav_password_enc = cloudone::crypto::encrypt(&key, &bcrypt::hash("secret", 4).unwrap()).unwrap();
    assert!(!needs_first_user(&s));
    assert!(!needs_stored_password(&s));
    let h = bcrypt::hash("pw", 4).unwrap();
    let ok = |u: &str, p: &str, key: &[u8; 32]| {
        authorize(&s, key, "/srv", &as_login(u, p), Some("admin".to_string()), Some(h.clone())).is_ok()
    };
    assert!(ok("dav", "secret", &key));
    assert!(!ok("dav", "pw", &key));
    assert!(!ok("admin", "secret", &key));
    assert!(!ok("dav", "secret", &[4u8; 32]));
}

fn session(sub: &str) -> DavSession {
    let mut s = settings();
    s.webdav_sub_path = sub.to_string();
    let h = bcrypt::hash("pw", 4).unwrap();
    match authorize(&s, &[0u8; 32], "/srv", &as_login("a", "pw"), Some("a".to_string()), Some(h)) {
        Ok(s) => s,
        Err(_) => panic!("refused"),
    }
}

#[test]
fn the_folder_of_a_session() {
    assert_eq!(session("").base(), "/srv/webdav");
    assert_eq!(session("/x/y").base(), "/srv/x/y");
    assert_eq!(session("//").base(), "/srv/");
}

fn plan(method: &str, path: &str, depth: Option<&str>, dest: Option<&str>) -> DavPlan {
    let bytes = vec![0, 1, 2, 3, 0xfc, 0xfd, 0xfe, 0xff];
    plan_with(&session(""), method, path, depth.map(str::to_string), dest.map(str::to_string), &bytes)
}

fn answer(p: DavPlan) -> Reply {
    match p {
        DavPlan::Answer(r) => r,
        _ => panic!("no answer"),
    }
}

#[test]
fn plans() {
    assert!(matches!(plan("GET", "/dav/a/b", None, None), DavPlan::Serve(p) if p == "/srv/webdav/a/b"));
    assert!(matches!(plan("GET", "/dav///a/./b", None, None), DavPlan::Serve(p) if p == "/srv/webdav/a/./b"));
    assert!(matches!(plan("HEAD", "/dav/a", None, None), DavPlan::Serve(p) if p == "/srv/webdav/a"));
    assert!(matches!(plan("PUT", "/dav/a/b", None, None), DavPlan::Put { path, parent: Some(d) } if path == "/srv/webdav/a/b" && d == "/srv/webdav/a"));
    assert!(matches!(plan("DELETE", "/dav/a", None, None), DavPlan::Delete(p) if p == "/srv/webdav/a"));
    assert!(matches!(plan("MKCOL", "/dav/a", None, None), DavPlan::MakeDir(p) if p == "/srv/webdav/a"));
    assert!(matches!(plan("PROPFIND", "/dav/a", None, None), DavPlan::Find { rel, path, deep: true } if rel == "/a" && path == "/srv/webdav/a"));
    assert!(matches!(plan("PROPFIND", "/dav", Some("0"), None), DavPlan::Find { rel, deep: false, .. } if rel.is_empty()));
    assert!(matches!(plan("PROPFIND", "/dav", Some("infinity"), None), DavPlan::Find { deep: true, .. }));
}

#[test]
fn the_mount_point_is_stripped_as_often_as_it_stands_there() {
    assert!(matches!(plan("GET", "/dav/davit", None, None), DavPlan::Serve(p) if p == "/srv/webdav/it"));
    assert!(matches!(plan("GET", "/dav/dav/a", None, None), DavPlan::Serve(p) if p == "/srv/webdav/a"));
    assert!(matches!(plan("GET", "/dav/dav", None, None), DavPlan::Serve(p) if p == "/srv/webdav/"));
}

#[test]
fn transfers() {
    assert!(matches!(plan("COPY", "/dav/a", None, Some("http://h/dav/b/c")), DavPlan::Copy { from, to, parent: Some(d) } if from == "/srv/webdav/a" && to == "/srv/webdav/b/c" && d == "/srv/webdav/b"));
    assert!(matches!(plan("MOVE", "/dav/a", None, Some("/dav/b")), DavPlan::Move { to, .. } if to == "/srv/webdav/b"));
    assert!(matches!(plan("MOVE", "/dav/a", None, Some("/elsewhere")), DavPlan::Move { to, .. } if to == "/srv/webdav/elsewhere"));
    assert_eq!(answer(plan("COPY", "/dav/a", None, None)).status, 400);
    assert_eq!(answer(plan("MOVE", "/dav/a", None, Some(""))).status, 400);
}

#[test]
fn fixed_answers() {
    let r = answer(plan("OPTIONS", "/dav", None, None));
    assert_eq!(r.status, 200);
    assert_eq!(r.headers[0], ("DAV".to_string(), "1, 2".to_string()));
    assert_eq!(r.headers[2], ("ms-author-via".to_string(), "DAV".to_string()));
    assert_eq!(answer(plan("UNLOCK", "/dav", None, None)).status, 204);
    let r = answer(plan("PROPPATCH", "/dav", None, None));
    assert_eq!(r.status, 207);
    assert_eq!(r.body, "<?xml version=\"1.0\" encoding=\"utf-8\"?><D:multistatus xmlns:D=\"DAV:\"></D:multistatus>");
    assert_eq!(answer(plan("PATCH", "/dav", None, None)).status, 405);
    assert_eq!(created(true).status, 201);
    assert_eq!(created(false).status, 500);
    assert_eq!(deleted(true).status, 204);
    assert_eq!(deleted(false).status, 500);
}

#[test]
fn locks() {
    let r = answer(plan("LOCK", "/dav/a", None, None));
    let token = "urn:uuid:cloudone-lock-00010203fcfdfeff";
    assert_eq!(r.status, 200);
    assert_eq!(r.headers[0], ("Lock-Token".to_string(), format!("<{token}>")));
    assert!(r.body.starts_with("<?xml version=\"1.0\" encoding=\"utf-8\"?>\n<D:prop xmlns:D=\"DAV:\">"));
    assert!(r.body.contains(&format!("<D:locktoken><D:href>{token}</D:href></D:locktoken>\n")));
    assert_eq!(lock_answer(&vec![0xab]).headers[0].1, "<urn:uuid:cloudone-lock-ab>");
    let a = answer(webdav_handler(&session(""), "LOCK", "/dav", None, None));
    let b = answer(webdav_handler(&session(""), "LOCK", "/dav", None, None));
    assert_eq!(a.headers[0].1.len(), token.len() + 2);
    assert_ne!(a.headers[0].1, b.headers[0].1);
}

#[test]
fn descriptions() {
    let file = DavMeta { is_dir: false, len: 42, modified: Some(0) };
    let dir = DavMeta { is_dir: true, len: 4096, modified: None };
    let mut body = "x".to_string();
    write_propfind_entry(&mut body, "/a/b.txt", &file);
    assert_eq!(body, "x<D:response><D:href>/dav/a/b.txt</D:href><D:propstat><D:prop><D:resourcetype/><D:getcontentlength>42</D:getcontentlength><D:getlastmodified>Thu, 01 Jan 1970 00:00:00 GMT</D:getlastmodified><D:displayname>b.txt</D:displayname></D:prop><D:status>HTTP/1.1 200 OK</D:status></D:propstat></D:response>");
    let mut body = String::new();
    write_propfind_entry(&mut body, "/a", &dir);
    assert_eq!(body, "<D:response><D:href>/dav/a/</D:href><D:propstat><D:prop><D:resourcetype><D:collection/></D:resourcetype><D:getlastmodified></D:getlastmodified><D:displayname>a</D:displayname></D:prop><D:status>HTTP/1.1 200 OK</D:status></D:propstat></D:response>");
}

#[test]
fn folders_are_described_with_what_is_in_them() {
    let file = DavMeta { is_dir: false, len: 1, modified: None };
    let dir = DavMeta { is_dir: true, len: 0, modified: None };
    let children = vec![("x".to_string(), file), ("y".to_string(), dir)];
    assert_eq!(dav_propfind("/a", None, true, &children).status, 404);
    let r = dav_propfind("/a", Some(dir), true, &children);
    assert_eq!(r.status, 207);
    assert_eq!(r.headers[0].1, "application/xml; charset=utf-8");
    let hrefs: Vec<&str> = r.body.split("<D:href>").skip(1).map(|s| s.split('<').next().unwrap()).collect();
    assert_eq!(hrefs, ["/dav/a/", "/dav/a/x", "/dav/a/y/"]);
    assert!(r.body.ends_with("</D:multistatus>"));
    let shallow = dav_propfind("/a", Some(dir), false, &children);
    assert_eq!(shallow.body.matches("<D:response>").count(), 1);
    let plain = dav_propfind("/a", Some(file), true, &children);
    assert_eq!(plain.body.matches("<D:response>").count(), 1);
    let root = dav_propfind("/", Some(dir), true, &children);
    assert!(root.body.contains("<D:href>/dav/x</D:href>"));
}
