use cloudone::crypto::{check_password, decrypt_opt};
use cloudone::settings::{
    count_settings, get_settings, get_webdav_settings, init_settings, new_storage_dir,
    row_to_settings, row_to_share, row_to_user, settings_statement, settings_table, shares_table,
    storage_dir_failed, update_setting_storage, update_settings, update_webdav_settings,
    users_table, visibilities_table, webdav_password_statement, webdav_statement, SettingsRow, ShareRow,
    UserRow,
};
use cloudone::sql::Param;
use cloudone::types::{public_settings, public_user, Settings, SettingsReq, WebdavReq};

fn some(s: &str) -> Option<String> {
    Some(s.to_string())
}

fn text(p: &Param) -> &str {
    match p {
        Param::Text(t) => t,
        _ => panic!("no text"),
    }
}

fn row() -> SettingsRow {
    SettingsRow {
        id: 1,
        storage_dir: some("/srv"),
        lang: some("en"),
        ui_theme: some("dark"),
        ui_font: some("f"),
        editor_font: some("g"),
        webdav_enabled: Some(2),
        webdav_sub_path: some("dav"),
        webdav_username: some("u"),
        webdav_password_enc: some("enc"),
        jwt_secret_enc: some("jwt"),
        show_hidden: Some(0),
    }
}

fn settings() -> Settings {
    row_to_settings(row())
}

fn no_change() -> SettingsReq {
    SettingsReq { storage_dir: None, lang: None, ui_theme: None, ui_font: None, editor_font: None, show_hidden: None }
}

#[test]
fn tables() {
    assert!(users_table().sql.starts_with("CREATE TABLE IF NOT EXISTS users (id INTEGER PRIMARY KEY"));
    assert!(settings_table().sql.contains("show_hidden BOOLEAN DEFAULT 0"));
    assert!(shares_table().sql.contains("code TEXT UNIQUE"));
    assert!(visibilities_table().sql.contains("file_path TEXT UNIQUE"));
    assert_eq!(count_settings().sql, "SELECT COUNT(*) FROM settings");
    assert_eq!(init_settings(0).unwrap().sql, "INSERT INTO settings (id, storage_dir, lang) VALUES (1, './data/storage', 'zh')");
    assert!(init_settings(1).is_none());
    assert_eq!(get_settings().sql, "SELECT * FROM settings ORDER BY id LIMIT 1");
}

#[test]
fn rows_of_settings() {
    let s = settings();
    assert!(s.webdav_enabled && !s.show_hidden);
    assert_eq!((s.lang.as_str(), s.storage_dir.as_str()), ("en", "/srv"));
    let s = row_to_settings(SettingsRow {
        id: 3,
        storage_dir: None,
        lang: None,
        ui_theme: None,
        ui_font: None,
        editor_font: None,
        webdav_enabled: None,
        webdav_sub_path: None,
        webdav_username: None,
        webdav_password_enc: None,
        jwt_secret_enc: None,
        show_hidden: None,
    });
    assert_eq!((s.id, s.lang.as_str(), s.storage_dir.as_str()), (3, "zh", ""));
    assert!(!s.webdav_enabled && !s.show_hidden);
}

#[test]
fn other_rows() {
    let u = row_to_user(UserRow { id: 1, username: "a".to_string(), password: "h".to_string(), token_version: None, created_at: None, updated_at: some("t") });
    assert_eq!((u.token_version, u.created_at.as_str(), u.updated_at.as_str()), (0, "", "t"));
    let p = public_user(&u);
    assert_eq!((p.id, p.username.as_str()), (1, "a"));
    let l = row_to_share(ShareRow { id: 2, code: "c".to_string(), file_path: "/x".to_string(), is_dir: 1, user_id: 1, expires_at: None, max_views: None, view_count: Some(4), created_at: None });
    assert_eq!((l.is_dir, l.max_views, l.view_count, l.expires_at), (true, 0, 4, None));
}

#[test]
fn system_directories_are_refused() {
    let ask = |d: &str| {
        let mut r = no_change();
        r.storage_dir = some(d);
        new_storage_dir(&r)
    };
    for d in ["/etc", "/etc/x", "/usr/bin", "/var/run/x", "/proc", "/boot"] {
        let e = ask(d).unwrap_err();
        assert_eq!((e.status, e.message.as_str()), (400, "storage_dir points to a system directory"));
    }
    for d in ["/etcetera", "/usr/local", "/srv", "data"] {
        assert_eq!(ask(d).unwrap(), some(d));
    }
    assert_eq!(ask("").unwrap(), None);
    assert_eq!(new_storage_dir(&no_change()).unwrap(), None);
    assert_eq!(storage_dir_failed("why").message, "cannot create storage dir: why");
}

#[test]
fn changes() {
    let mut r = no_change();
    r.lang = some("zh");
    r.ui_theme = some("");
    r.storage_dir = some("/new");
    r.show_hidden = Some(true);
    let s = update_settings(settings(), r);
    assert_eq!((s.lang.as_str(), s.ui_theme.as_str(), s.storage_dir.as_str(), s.show_hidden), ("zh", "dark", "/new", true));
    assert_eq!(s.webdav_password_enc, "enc");
    let st = settings_statement(&s);
    assert_eq!(st.sql, "UPDATE settings SET storage_dir=?,lang=?,ui_theme=?,ui_font=?,editor_font=?,show_hidden=? WHERE id=?");
    assert_eq!((text(&st.params[0]), text(&st.params[1])), ("/new", "zh"));
    assert!(matches!(st.params[5], Param::Int(1)));
    assert_eq!(text(&update_setting_storage("/q").params[0]), "/q");
}

#[test]
fn what_is_shown() {
    let p = public_settings(&settings());
    assert_eq!((p.storage_dir.as_str(), p.webdav_username.as_str()), ("/srv", "u"));
    let w = get_webdav_settings(&settings());
    assert!(w.enabled && w.has_password);
    assert_eq!((w.sub_path.as_str(), w.username.as_str()), ("dav", "u"));
}

fn webdav(password: Option<&str>) -> WebdavReq {
    WebdavReq { webdav_enabled: true, webdav_sub_path: None, webdav_username: some("u"), webdav_password: password.map(str::to_string) }
}

#[test]
fn webdav_settings_are_stored() {
    let st = update_webdav_settings(&[0u8; 32], &webdav(Some(""))).unwrap();
    assert_eq!(st.sql, "UPDATE settings SET webdav_enabled=?,webdav_sub_path=?,webdav_username=? WHERE id=1");
    assert_eq!((text(&st.params[1]), text(&st.params[2])), ("", "u"));
    assert_eq!(st.params.len(), 3);
    let st = webdav_statement(&webdav(None), some("e"));
    assert_eq!(text(&st.params[3]), "e");
}

#[test]
fn the_webdav_password_is_hashed_and_encrypted() {
    let key = [9u8; 32];
    let st = update_webdav_settings(&key, &webdav(Some("pw"))).unwrap();
    assert_eq!(st.sql, "UPDATE settings SET webdav_enabled=?,webdav_sub_path=?,webdav_username=?,webdav_password_enc=? WHERE id=1");
    let hash = decrypt_opt(&key, text(&st.params[3])).unwrap();
    assert!(check_password("pw", &hash));
    let st = webdav_password_statement(&key, &webdav(Some("pw")), some("hash")).unwrap();
    assert_eq!(decrypt_opt(&key, text(&st.params[3])), some("hash"));
    assert!(webdav_password_statement(&key, &webdav(Some("pw")), None).is_none());
}
