use cloudone::crypto::decrypt_opt;
use cloudone::routes::{Endpoint, Verb};
use cloudone::settings::{row_to_settings, SettingsRow};
use cloudone::sql::Param;
use cloudone::start::{
    choose_storage_dir, database_url, directories, jwt_secret, master_secret, BODY_LIMIT,
};
use cloudone::types::Settings;

fn some(s: &str) -> Option<String> {
    Some(s.to_string())
}

fn settings(dir: &str) -> Settings {
    row_to_settings(SettingsRow {
        id: 1,
        storage_dir: some(dir),
        lang: None,
        ui_theme: None,
        ui_font: None,
        editor_font: None,
        webdav_enabled: None,
        webdav_sub_path: None,
        webdav_username: None,
        webdav_password_enc: None,
        jwt_secret_enc: None,
        show_hidden: None,
    })
}

#[test]
fn directories_from_arguments() {
    let pair = |a: &str, b: &str| (a.to_string(), b.to_string());
    assert_eq!(directories(&None, &None), pair("./data", "./data/storage"));
    assert_eq!(directories(&some("/c"), &None), pair("/c", "/c/storage"));
    assert_eq!(directories(&None, &some("/d")), pair("./data", "/d"));
    assert_eq!(directories(&some("/c"), &some("/d")), pair("/c", "/d"));
    assert_eq!(database_url("/c"), "sqlite:///c/cloudone.db?mode=rwc");
}

#[test]
fn the_storage_directory() {
    let (d, s) = choose_storage_dir(&some("/d"), &settings("/s"), "/f".to_string());
    assert_eq!(d, "/d");
    assert!(matches!(&s.unwrap().params[0], Param::Text(t) if t == "/d"));
    let (d, s) = choose_storage_dir(&None, &settings("/s"), "/f".to_string());
    assert_eq!(d, "/s");
    assert!(s.is_none());
    let (d, _) = choose_storage_dir(&None, &settings(""), "/f".to_string());
    assert_eq!(d, "/f");
}

#[test]
fn the_master_secret() {
    let s = master_secret(some("e"), some("f"));
    assert_eq!((s.text.as_str(), s.fresh), ("e", false));
    let s = master_secret(None, some("f"));
    assert_eq!((s.text.as_str(), s.fresh), ("f", false));
    let s = master_secret(None, None);
    assert_eq!((s.text.len(), s.fresh), (64, true));
}

#[test]
fn the_secret_of_the_sessions() {
    let key = [5u8; 32];
    let (s, st) = jwt_secret(some("mine"), &key);
    assert_eq!(s, "mine");
    assert!(st.is_none());
    let (a, st) = jwt_secret(None, &key);
    let st = st.unwrap();
    assert_eq!(st.sql, "UPDATE settings SET jwt_secret_enc=? WHERE id=1");
    assert!(matches!(&st.params[0], Param::Text(t) if decrypt_opt(&key, t).unwrap() == a));
    let (b, _) = jwt_secret(some(""), &key);
    assert_ne!(a, b);
    assert_eq!(BODY_LIMIT, 1024 * 1024 * 1024);
}

#[test]
fn routes_do_not_collide() {
    let all = Endpoint::all();
    assert_eq!(all.len(), 46);
    for i in 0..all.len() {
        for j in 0..i {
            assert!(all[i].pattern() != all[j].pattern() || all[i].verb() != all[j].verb());
        }
    }
}

#[test]
fn sessions_are_asked_for() {
    for e in Endpoint::all() {
        let p = e.pattern();
        let open = !p.starts_with("/api/") || p.starts_with("/api/auth/") || p.starts_with("/api/s/");
        assert_eq!(e.needs_session(), !open, "{p}");
    }
    assert_eq!((Endpoint::Dav.verb(), Endpoint::Dav.pattern()), (Verb::Any, "/dav"));
    assert_eq!((Endpoint::DeleteShare.verb(), Endpoint::DeleteShare.pattern()), (Verb::Delete, "/api/share/{id}"));
}
