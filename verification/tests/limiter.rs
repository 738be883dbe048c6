use cloudone::limiter::RateLimiter;
use cloudone::start::{login_limiter, webdav_limiter, MINUTE};
use cloudone::time::nanos_at;

fn ip(s: &str) -> String {
    s.to_string()
}

#[test]
fn at_most_max_in_a_window() {
    let mut l = RateLimiter::new(2, 100);
    assert!(l.allow_at(ip("a"), 1000));
    assert!(l.allow_at(ip("a"), 1010));
    assert!(!l.allow_at(ip("a"), 1020));
    assert!(l.allow_at(ip("b"), 1020));
    assert!(!l.allow_at(ip("a"), 1099));
    assert!(l.allow_at(ip("a"), 1100));
    assert!(!l.allow_at(ip("a"), 1109));
    assert!(l.allow_at(ip("a"), 1110));
}

#[test]
fn hits_before_the_epoch_age() {
    let at = |secs: u64| nanos_at(Err((secs, 0)));
    let mut l = RateLimiter::new(1, MINUTE);
    assert!(l.allow_at(ip("a"), at(100)));
    assert!(!l.allow_at(ip("a"), at(41)));
    assert!(l.allow_at(ip("a"), at(40)));
    assert!(l.allow_at(ip("a"), nanos_at(Ok((20, 0)))));
}

#[test]
fn refused_hits_do_not_count() {
    let mut l = RateLimiter::new(1, 100);
    assert!(l.allow_at(ip("a"), 0));
    for t in 1..100 {
        assert!(!l.allow_at(ip("a"), t));
    }
    assert!(l.allow_at(ip("a"), 100));
}

#[test]
fn cleanup_forgets_idle_addresses_only() {
    let mut l = RateLimiter::new(1, 100);
    assert!(l.allow_at(ip("old"), 0));
    assert!(l.allow_at(ip("new"), 150));
    l.cleanup_at(200);
    assert_eq!(l.hits.len(), 1);
    assert_eq!(l.hits[0].ip, "new");
    assert!(!l.allow_at(ip("new"), 201));
    assert!(l.allow_at(ip("old"), 201));
}

#[test]
fn refused_addresses_are_known_until_cleanup() {
    let mut l = RateLimiter::new(0, 100);
    assert!(!l.allow_at(ip("a"), 5));
    assert_eq!((l.hits.len(), l.hits[0].times.len()), (1, 0));
    l.cleanup_at(6);
    assert!(l.hits.is_empty());
}

#[test]
fn limits_of_the_server() {
    let l = login_limiter();
    assert!(l.hits.is_empty() && webdav_limiter().hits.is_empty());
    assert_eq!((l.max, l.window), (5, MINUTE));
    let w = webdav_limiter();
    assert_eq!((w.max, w.window), (10, MINUTE));
    assert_eq!(MINUTE, 60_000_000_000);
}

#[test]
fn the_clock_runs() {
    let mut l = login_limiter();
    for _ in 0..5 {
        assert!(l.allow(ip("a")));
    }
    assert!(!l.allow(ip("a")));
    l.cleanup();
    assert!(!l.allow(ip("a")));
    assert!(l.allow(ip("b")));
}

#[test]
fn nobody_passes_the_default() {
    let mut l = RateLimiter::default();
    assert!(!l.allow_at(ip("a"), 5));
}
