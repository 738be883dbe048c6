use cloudone::fetch::{
    check_url, fetch_url, is_github_host, is_github_url, name_from_segment, url_last_segment,
    urls_to_try, validate_public_url, FetchEvent, FetchRun, FetchStep, UrlParts,
};
use cloudone::reply::ApiError;
use cloudone::storage::FileManager;
use cloudone::types::FetchReq;

fn fm(root: &str) -> FileManager {
    FileManager::new(root.to_string())
}

fn some(s: &str) -> Option<String> {
    Some(s.to_string())
}

fn says<T>(r: Result<T, ApiError>) -> (u16, String) {
    match r {
        Ok(_) => panic!("accepted"),
        Err(e) => (e.status, e.message),
    }
}

fn req(url: &str, filename: Option<String>, dir: Option<String>) -> FetchReq {
    FetchReq { url: url.to_string(), filename, dir }
}

const INTERNAL: &str = "requests to private/internal addresses are not allowed";

#[test]
fn fetch_addresses() {
    assert!(validate_public_url("https://example.com/x").is_ok());
    assert!(validate_public_url("http://8.8.8.8:80/").is_ok());
    assert_eq!(validate_public_url("ftp://example.com/x").unwrap_err(), "only http/https URLs are allowed");
    for u in ["http://LOCALHOST/", "http://127.0.0.1/", "http://10.1.2.3/x", "http://0x7f000001/", "http://192.168.0.1:8080/"] {
        assert_eq!(validate_public_url(u).unwrap_err(), INTERNAL, "{u}");
    }
    assert_eq!(validate_public_url("no url").unwrap_err(), "relative URL without a base");
    assert_eq!(validate_public_url("http://").unwrap_err(), "empty host");
}

#[test]
fn parts_of_addresses() {
    let parts = |scheme: &str, host: Option<&str>| UrlParts { scheme: scheme.to_string(), host: host.map(str::to_string), segments: None };
    assert_eq!(check_url(&parts("http", Some("example.com"))), None);
    assert_eq!(check_url(&parts("https", Some("[::1]"))), None);
    assert_eq!(check_url(&parts("https", None)), some("missing host"));
    assert_eq!(check_url(&parts("file", None)), some("only http/https URLs are allowed"));
    assert_eq!(check_url(&parts("http", Some("169.254.1.1"))), some(INTERNAL));
    assert_eq!(check_url(&parts("http", Some("localHOST"))), some(INTERNAL));
}

#[test]
fn last_segments() {
    let last = |segments: Option<Vec<&str>>| {
        let segments = segments.map(|v| v.into_iter().map(str::to_string).collect());
        url_last_segment(&UrlParts { scheme: String::new(), host: None, segments })
    };
    assert_eq!(last(None), None);
    assert_eq!(last(Some(vec![])), None);
    assert_eq!(last(Some(vec!["a", "b"])), some("b"));
    assert_eq!(last(Some(vec!["a", ""])), some(""));
}

#[test]
fn github() {
    assert!(is_github_url("https://github.com/a/b"));
    assert!(is_github_url("https://RAW.githubusercontent.com/x"));
    assert!(is_github_url("https://x.gist.github.com/"));
    assert!(!is_github_url("https://notgithub.com/"));
    assert!(!is_github_url("https://github.com.example.org/"));
    assert!(!is_github_url("github.com"));
    assert!(is_github_host(&some("codeload.github.com")));
    assert!(!is_github_host(&None));
    assert_eq!(urls_to_try("u", false), ["u"]);
    assert_eq!(urls_to_try("u", true), ["u", "https://gh-proxy.com/u", "https://gh.ddlc.top/u", "https://ghproxy.it/u"]);
}

#[test]
fn names_of_fetched_files() {
    assert_eq!(name_from_segment(some("x.txt")), "x.txt");
    assert_eq!(name_from_segment(some("")), "download");
    assert_eq!(name_from_segment(some(".")), "download");
    assert_eq!(name_from_segment(None), "download");
}

#[test]
fn fetch_plans() {
    let p = fetch_url(&fm("/srv"), req("https://example.com/a/b.bin?x=1", None, some("d"))).unwrap();
    assert_eq!((p.dir.as_str(), p.path.as_str()), ("/srv/d", "/srv/d/b.bin"));
    assert_eq!(p.urls, ["https://example.com/a/b.bin?x=1"]);
    let p = fetch_url(&fm("/srv"), req("https://github.com/", some("../y"), None)).unwrap();
    assert_eq!((p.dir.as_str(), p.path.as_str(), p.urls.len()), ("/srv/", "/srv/y", 4));
    assert_eq!(says(fetch_url(&fm("/srv"), req("http://localhost", None, None))), (400, INTERNAL.to_string()));
    assert_eq!(says(fetch_url(&fm("/"), req("http://example.com", None, some("dev")))), (400, "access denied: virtual filesystem path".to_string()));
}

#[test]
fn attempts_follow_each_other() {
    let mut r = FetchRun::start(vec!["a".to_string(), "b".to_string(), "c".to_string(), "d".to_string()]);
    assert_eq!(r.next().unwrap(), "a");
    assert!(matches!(r.step(FetchEvent::SendFailed("no route".to_string())), FetchStep::Again { remove: false }));
    assert_eq!(r.next().unwrap(), "b");
    assert!(matches!(r.step(FetchEvent::Refused("404 Not Found".to_string())), FetchStep::Again { remove: false }));
    assert_eq!(r.next().unwrap(), "c");
    assert!(matches!(r.step(FetchEvent::BodyFailed("cut off".to_string())), FetchStep::Again { remove: true }));
    assert_eq!(r.next().unwrap(), "d");
    assert!(matches!(r.step(FetchEvent::Done), FetchStep::Finish));
}

#[test]
fn the_last_error_is_reported() {
    let mut r = FetchRun::start(vec!["a".to_string()]);
    r.step(FetchEvent::SendFailed("no route".to_string()));
    assert_eq!(says(r.next()), (500, "fetch failed [a]: no route".to_string()));
    let mut r = FetchRun::start(vec!["a".to_string()]);
    r.step(FetchEvent::Refused("404 Not Found".to_string()));
    assert_eq!(says(r.next()), (500, "remote returned 404 Not Found [a]".to_string()));
    let mut r = FetchRun::start(vec!["a".to_string()]);
    match r.step(FetchEvent::CreateFailed("full".to_string())) {
        FetchStep::Fail(e) => assert_eq!((e.status, e.message.as_str()), (500, "full")),
        _ => panic!("goes on"),
    }
    assert_eq!(says(FetchRun::start(vec![]).next()), (500, String::new()));
}
