//! The settings, the tables behind them, and what a row of a table means.

use vstd::prelude::*;
use vstd::utf8::encode_utf8;

use crate::crypto::{
    accepted, decrypted, encrypt, fits, hash_password, lemma_ascii_fits, LONGEST_PLAINTEXT,
};
use crate::paths::{is_under, under};
use crate::reply::{json_error, ApiError};
use crate::sql::{statement, truth, ParamView, Statement, StatementView};
use crate::text::{cat, opt_text};
use crate::types::{Settings, SettingsReq, ShareLink, User, WebdavReq};
use crate::webdav::password_right;

verus! {

// ---------------------------------------------------------------------------
// Tables
// ---------------------------------------------------------------------------

/// The statement that makes the table of accounts.
pub fn users_table() -> (r: Statement)
    ensures
        r@ == statement(
            "CREATE TABLE IF NOT EXISTS users (id INTEGER PRIMARY KEY AUTOINCREMENT, username TEXT UNIQUE, password TEXT, token_version INTEGER DEFAULT 0, created_at TEXT, updated_at TEXT)"@,
            Seq::<ParamView>::empty(),
        ),
{
    Statement::new(
        "CREATE TABLE IF NOT EXISTS users (id INTEGER PRIMARY KEY AUTOINCREMENT, username TEXT UNIQUE, password TEXT, token_version INTEGER DEFAULT 0, created_at TEXT, updated_at TEXT)",
    )
}

/// The statement that makes the table of settings.
pub fn settings_table() -> (r: Statement)
    ensures
        r@ == statement(
            "CREATE TABLE IF NOT EXISTS settings (id INTEGER PRIMARY KEY AUTOINCREMENT, storage_dir TEXT, lang TEXT, ui_theme TEXT DEFAULT '', ui_font TEXT DEFAULT '', editor_font TEXT DEFAULT '', webdav_enabled BOOLEAN DEFAULT 0, webdav_sub_path TEXT DEFAULT '', webdav_username TEXT DEFAULT '', webdav_password_enc TEXT DEFAULT '', jwt_secret_enc TEXT DEFAULT '', show_hidden BOOLEAN DEFAULT 0)"@,
            Seq::<ParamView>::empty(),
        ),
{
    Statement::new(
        "CREATE TABLE IF NOT EXISTS settings (id INTEGER PRIMARY KEY AUTOINCREMENT, storage_dir TEXT, lang TEXT, ui_theme TEXT DEFAULT '', ui_font TEXT DEFAULT '', editor_font TEXT DEFAULT '', webdav_enabled BOOLEAN DEFAULT 0, webdav_sub_path TEXT DEFAULT '', webdav_username TEXT DEFAULT '', webdav_password_enc TEXT DEFAULT '', jwt_secret_enc TEXT DEFAULT '', show_hidden BOOLEAN DEFAULT 0)",
    )
}

/// The statement that makes the table of share links.
pub fn shares_table() -> (r: Statement)
    ensures
        r@ == statement(
            "CREATE TABLE IF NOT EXISTS share_links (id INTEGER PRIMARY KEY AUTOINCREMENT, code TEXT UNIQUE, file_path TEXT, is_dir BOOLEAN, user_id INTEGER, expires_at TEXT NULL, max_views INTEGER DEFAULT 0, view_count INTEGER DEFAULT 0, created_at TEXT)"@,
            Seq::<ParamView>::empty(),
        ),
{
    Statement::new(
        "CREATE TABLE IF NOT EXISTS share_links (id INTEGER PRIMARY KEY AUTOINCREMENT, code TEXT UNIQUE, file_path TEXT, is_dir BOOLEAN, user_id INTEGER, expires_at TEXT NULL, max_views INTEGER DEFAULT 0, view_count INTEGER DEFAULT 0, created_at TEXT)",
    )
}

/// The statement that makes the table of public marks.
pub fn visibilities_table() -> (r: Statement)
    ensures
        r@ == statement(
            "CREATE TABLE IF NOT EXISTS file_visibilities (id INTEGER PRIMARY KEY AUTOINCREMENT, file_path TEXT UNIQUE, is_public BOOLEAN)"@,
            Seq::<ParamView>::empty(),
        ),
{
    Statement::new(
        "CREATE TABLE IF NOT EXISTS file_visibilities (id INTEGER PRIMARY KEY AUTOINCREMENT, file_path TEXT UNIQUE, is_public BOOLEAN)",
    )
}

/// The statement that counts the settings.
pub fn count_settings() -> (r: Statement)
    ensures
        r@ == statement("SELECT COUNT(*) FROM settings"@, Seq::<ParamView>::empty()),
{
    Statement::new("SELECT COUNT(*) FROM settings")
}

/// The statement that stores the first settings, where the count says that there are none.
pub fn init_settings(count: i64) -> (r: Option<Statement>)
    ensures
        match r {
            Some(s) => count == 0 && s@ == statement(
                "INSERT INTO settings (id, storage_dir, lang) VALUES (1, './data/storage', 'zh')"@,
                Seq::<ParamView>::empty(),
            ),
            None => count != 0,
        },
{
    if count == 0 {
        Some(
            Statement::new(
                "INSERT INTO settings (id, storage_dir, lang) VALUES (1, './data/storage', 'zh')",
            ),
        )
    } else {
        None
    }
}

/// The statement that reads the settings.
pub fn get_settings() -> (r: Statement)
    ensures
        r@ == statement(
            "SELECT * FROM settings ORDER BY id LIMIT 1"@,
            Seq::<ParamView>::empty(),
        ),
{
    Statement::new("SELECT * FROM settings ORDER BY id LIMIT 1")
}

// ---------------------------------------------------------------------------
// Rows
// ---------------------------------------------------------------------------

/// A row of the table of settings; a column that cannot be read is missing.
pub struct SettingsRow {
    pub id: i64,
    pub storage_dir: Option<String>,
    pub lang: Option<String>,
    pub ui_theme: Option<String>,
    pub ui_font: Option<String>,
    pub editor_font: Option<String>,
    pub webdav_enabled: Option<i64>,
    pub webdav_sub_path: Option<String>,
    pub webdav_username: Option<String>,
    pub webdav_password_enc: Option<String>,
    pub jwt_secret_enc: Option<String>,
    pub show_hidden: Option<i64>,
}

/// A text, or another where it is missing.
pub open spec fn text_or(t: Option<Seq<char>>, default: Seq<char>) -> Seq<char> {
    match t {
        Some(s) => s,
        None => default,
    }
}

/// A text, or another where it is missing.
fn string_or(t: Option<String>, default: &str) -> (r: String)
    ensures
        r@ == text_or(opt_text(t), default@),
{
    match t {
        Some(s) => s,
        None => default.to_owned(),
    }
}

/// A number that is there and not zero.
fn is_set(n: Option<i64>) -> (r: bool)
    ensures
        r == (n matches Some(k) && k != 0),
{
    match n {
        Some(k) => k != 0,
        None => false,
    }
}

/// Settings are those in a row.
pub open spec fn settings_in(row: SettingsRow, s: Settings) -> bool {
    &&& s.id == row.id
    &&& s.storage_dir@ == text_or(opt_text(row.storage_dir), ""@)
    &&& s.lang@ == text_or(opt_text(row.lang), "zh"@)
    &&& s.ui_theme@ == text_or(opt_text(row.ui_theme), ""@)
    &&& s.ui_font@ == text_or(opt_text(row.ui_font), ""@)
    &&& s.editor_font@ == text_or(opt_text(row.editor_font), ""@)
    &&& s.webdav_enabled <==> row.webdav_enabled.unwrap_or(0) != 0
    &&& s.webdav_sub_path@ == text_or(opt_text(row.webdav_sub_path), ""@)
    &&& s.webdav_username@ == text_or(opt_text(row.webdav_username), ""@)
    &&& s.webdav_password_enc@ == text_or(opt_text(row.webdav_password_enc), ""@)
    &&& s.jwt_secret_enc@ == text_or(opt_text(row.jwt_secret_enc), ""@)
    &&& s.show_hidden <==> row.show_hidden.unwrap_or(0) != 0
}

/// The settings in a row. What is missing is empty or off, and the language Chinese.
pub fn row_to_settings(row: SettingsRow) -> (r: Settings)
    ensures
        settings_in(row, r),
        r.id == row.id,
        r.storage_dir@ == text_or(opt_text(row.storage_dir), ""@),
        r.lang@ == text_or(opt_text(row.lang), "zh"@),
        r.ui_theme@ == text_or(opt_text(row.ui_theme), ""@),
        r.ui_font@ == text_or(opt_text(row.ui_font), ""@),
        r.editor_font@ == text_or(opt_text(row.editor_font), ""@),
        r.webdav_enabled == (row.webdav_enabled matches Some(n) && n != 0),
        r.webdav_sub_path@ == text_or(opt_text(row.webdav_sub_path), ""@),
        r.webdav_username@ == text_or(opt_text(row.webdav_username), ""@),
        r.webdav_password_enc@ == text_or(opt_text(row.webdav_password_enc), ""@),
        r.jwt_secret_enc@ == text_or(opt_text(row.jwt_secret_enc), ""@),
        r.show_hidden == (row.show_hidden matches Some(n) && n != 0),
{
    Settings {
        id: row.id,
        storage_dir: string_or(row.storage_dir, ""),
        lang: string_or(row.lang, "zh"),
        ui_theme: string_or(row.ui_theme, ""),
        ui_font: string_or(row.ui_font, ""),
        editor_font: string_or(row.editor_font, ""),
        webdav_enabled: is_set(row.webdav_enabled),
        webdav_sub_path: string_or(row.webdav_sub_path, ""),
        webdav_username: string_or(row.webdav_username, ""),
        webdav_password_enc: string_or(row.webdav_password_enc, ""),
        jwt_secret_enc: string_or(row.jwt_secret_enc, ""),
        show_hidden: is_set(row.show_hidden),
    }
}

/// A row of the table of accounts; a column that cannot be read is missing.
pub struct UserRow {
    pub id: i64,
    pub username: String,
    pub password: String,
    pub token_version: Option<i64>,
    pub created_at: Option<String>,
    pub updated_at: Option<String>,
}

/// An account is the one in a row.
pub open spec fn user_in(row: UserRow, user: User) -> bool {
    &&& user.id == row.id
    &&& user.username@ == row.username@
    &&& user.password@ == row.password@
    &&& user.token_version == row.token_version.unwrap_or(0)
    &&& user.created_at@ == text_or(opt_text(row.created_at), ""@)
    &&& user.updated_at@ == text_or(opt_text(row.updated_at), ""@)
}

/// The account in a row.
pub fn row_to_user(row: UserRow) -> (r: User)
    ensures
        user_in(row, r),
        r.id == row.id,
        r.username == row.username,
        r.password == row.password,
        r.token_version == (match row.token_version {
            Some(n) => n,
            None => 0,
        }),
        r.created_at@ == text_or(opt_text(row.created_at), ""@),
        r.updated_at@ == text_or(opt_text(row.updated_at), ""@),
{
    let token_version: i64 = match row.token_version {
        Some(n) => n,
        None => 0,
    };
    User {
        id: row.id,
        username: row.username,
        password: row.password,
        token_version,
        created_at: string_or(row.created_at, ""),
        updated_at: string_or(row.updated_at, ""),
    }
}

/// A row of the table of share links; a column that cannot be read is missing.
pub struct ShareRow {
    pub id: i64,
    pub code: String,
    pub file_path: String,
    pub is_dir: i64,
    pub user_id: i64,
    pub expires_at: Option<String>,
    pub max_views: Option<i64>,
    pub view_count: Option<i64>,
    pub created_at: Option<String>,
}

/// A link is the one in a row. A link without a limit or a count in its row has none.
pub open spec fn link_in(row: ShareRow, link: ShareLink) -> bool {
    &&& link.id == row.id
    &&& link.code@ == row.code@
    &&& link.file_path@ == row.file_path@
    &&& link.is_dir <==> row.is_dir != 0
    &&& link.user_id == row.user_id
    &&& opt_text(link.expires_at) == opt_text(row.expires_at)
    &&& link.max_views == row.max_views.unwrap_or(0)
    &&& link.view_count == row.view_count.unwrap_or(0)
    &&& link.created_at@ == text_or(opt_text(row.created_at), ""@)
}

/// The link in a row.
pub fn row_to_share(row: ShareRow) -> (r: ShareLink)
    ensures
        link_in(row, r),
        r.id == row.id,
        r.code == row.code,
        r.file_path == row.file_path,
        r.is_dir == (row.is_dir != 0),
        r.user_id == row.user_id,
        r.expires_at == row.expires_at,
        r.max_views == (match row.max_views {
            Some(n) => n,
            None => 0,
        }),
        r.view_count == (match row.view_count {
            Some(n) => n,
            None => 0,
        }),
        r.created_at@ == text_or(opt_text(row.created_at), ""@),
{
    let max_views: i64 = match row.max_views {
        Some(n) => n,
        None => 0,
    };
    let view_count: i64 = match row.view_count {
        Some(n) => n,
        None => 0,
    };
    ShareLink {
        id: row.id,
        code: row.code,
        file_path: row.file_path,
        is_dir: row.is_dir != 0,
        user_id: row.user_id,
        expires_at: row.expires_at,
        max_views,
        view_count,
        created_at: string_or(row.created_at, ""),
    }
}

// ---------------------------------------------------------------------------
// Changing the settings
// ---------------------------------------------------------------------------

/// The directories that the files cannot be stored in.
pub open spec fn system_dir(dir: Seq<char>) -> bool {
    ||| under(dir, "/etc"@)
    ||| under(dir, "/bin"@)
    ||| under(dir, "/sbin"@)
    ||| under(dir, "/usr/bin"@)
    ||| under(dir, "/usr/sbin"@)
    ||| under(dir, "/boot"@)
    ||| under(dir, "/sys"@)
    ||| under(dir, "/proc"@)
    ||| under(dir, "/dev"@)
    ||| under(dir, "/run"@)
    ||| under(dir, "/var/run"@)
}

/// Whether files cannot be stored in a directory.
fn is_system_dir(dir: &str) -> (r: bool)
    ensures
        r == system_dir(dir@),
{
    is_under(dir, "/etc") || is_under(dir, "/bin") || is_under(dir, "/sbin") || is_under(dir, "/usr/bin")
        || is_under(dir, "/usr/sbin") || is_under(dir, "/boot") || is_under(dir, "/sys") || is_under(
        dir,
        "/proc",
    ) || is_under(dir, "/dev") || is_under(dir, "/run") || is_under(dir, "/var/run")
}

/// The directory that a request asks the files to be stored in, if it asks for one; an error if it belongs
/// to the system.
pub open spec fn requested_dir(dir: Option<Seq<char>>) -> Result<Option<Seq<char>>, ()> {
    match dir {
        Some(d) => if d.len() == 0 {
            Ok(None)
        } else if system_dir(d) {
            Err(())
        } else {
            Ok(Some(d))
        },
        None => Ok(None),
    }
}

/// The directory that a request asks the files to be stored in, if it asks for one: refused if it
/// belongs to the system.
pub fn new_storage_dir(req: &SettingsReq) -> (r: Result<Option<String>, ApiError>)
    ensures
        match requested_dir(opt_text(req.storage_dir)) {
            Ok(d) => r matches Ok(o) && opt_text(o) == d,
            Err(_) => r is Err,
        },
        match opt_text(req.storage_dir) {
            Some(d) => if d.len() == 0 {
                r matches Ok(o) && o is None
            } else if system_dir(d) {
                r matches Err(e) && e.says(400, "storage_dir points to a system directory"@)
            } else {
                r matches Ok(o) && opt_text(o) == Some(d)
            },
            None => r matches Ok(o) && o is None,
        },
{
    match &req.storage_dir {
        Some(d) => {
            if d.as_str().unicode_len() == 0 {
                return Ok(None);
            }
            if is_system_dir(d.as_str()) {
                return Err(json_error(400, "storage_dir points to a system directory"));
            }
            Ok(Some(d.clone()))
        },
        None => Ok(None),
    }
}

/// What a client is told where the directory could not be made.
pub fn storage_dir_failed(reason: &str) -> (r: ApiError)
    ensures
        r.says(500, "cannot create storage dir: "@ + reason@),
{
    json_error(500, cat("cannot create storage dir: ", reason).as_str())
}

/// A text replaces another if it is given and not empty.
pub open spec fn replaced(old_text: Seq<char>, new_text: Option<Seq<char>>) -> Seq<char> {
    match new_text {
        Some(s) => if s.len() == 0 {
            old_text
        } else {
            s
        },
        None => old_text,
    }
}

/// A text replaces another if it is given and not empty.
fn replace(old_text: String, new_text: Option<String>) -> (r: String)
    ensures
        r@ == replaced(old_text@, opt_text(new_text)),
{
    match new_text {
        Some(s) => {
            if s.as_str().unicode_len() == 0 {
                old_text
            } else {
                s
            }
        },
        None => old_text,
    }
}

/// A request has turned settings into others.
pub open spec fn updates(s: Settings, req: SettingsReq, r: Settings) -> bool {
    &&& r.id == s.id
    &&& r.storage_dir@ == replaced(s.storage_dir@, opt_text(req.storage_dir))
    &&& r.lang@ == replaced(s.lang@, opt_text(req.lang))
    &&& r.ui_theme@ == replaced(s.ui_theme@, opt_text(req.ui_theme))
    &&& r.ui_font@ == replaced(s.ui_font@, opt_text(req.ui_font))
    &&& r.editor_font@ == replaced(s.editor_font@, opt_text(req.editor_font))
    &&& r.show_hidden == req.show_hidden.unwrap_or(s.show_hidden)
    &&& r.webdav_enabled == s.webdav_enabled
    &&& r.webdav_sub_path@ == s.webdav_sub_path@
    &&& r.webdav_username@ == s.webdav_username@
    &&& r.webdav_password_enc@ == s.webdav_password_enc@
    &&& r.jwt_secret_enc@ == s.jwt_secret_enc@
}

/// The settings after a request: what it gives replaces what was, the rest stays. An empty text
/// counts as not given.
pub fn update_settings(s: Settings, req: SettingsReq) -> (r: Settings)
    ensures
        updates(s, req, r),
        r.id == s.id,
        r.storage_dir@ == replaced(s.storage_dir@, opt_text(req.storage_dir)),
        r.lang@ == replaced(s.lang@, opt_text(req.lang)),
        r.ui_theme@ == replaced(s.ui_theme@, opt_text(req.ui_theme)),
        r.ui_font@ == replaced(s.ui_font@, opt_text(req.ui_font)),
        r.editor_font@ == replaced(s.editor_font@, opt_text(req.editor_font)),
        r.show_hidden == (match req.show_hidden {
            Some(b) => b,
            None => s.show_hidden,
        }),
        r.webdav_enabled == s.webdav_enabled,
        r.webdav_sub_path == s.webdav_sub_path,
        r.webdav_username == s.webdav_username,
        r.webdav_password_enc == s.webdav_password_enc,
        r.jwt_secret_enc == s.jwt_secret_enc,
{
    Settings {
        id: s.id,
        storage_dir: replace(s.storage_dir, req.storage_dir),
        lang: replace(s.lang, req.lang),
        ui_theme: replace(s.ui_theme, req.ui_theme),
        ui_font: replace(s.ui_font, req.ui_font),
        editor_font: replace(s.editor_font, req.editor_font),
        webdav_enabled: s.webdav_enabled,
        webdav_sub_path: s.webdav_sub_path,
        webdav_username: s.webdav_username,
        webdav_password_enc: s.webdav_password_enc,
        jwt_secret_enc: s.jwt_secret_enc,
        show_hidden: match req.show_hidden {
            Some(b) => b,
            None => s.show_hidden,
        },
    }
}

/// The statement that stores changed settings.
pub open spec fn store_settings(s: Settings) -> StatementView {
    statement(
        "UPDATE settings SET storage_dir=?,lang=?,ui_theme=?,ui_font=?,editor_font=?,show_hidden=? WHERE id=?"@,
        seq![
            ParamView::Text(s.storage_dir@),
            ParamView::Text(s.lang@),
            ParamView::Text(s.ui_theme@),
            ParamView::Text(s.ui_font@),
            ParamView::Text(s.editor_font@),
            truth(s.show_hidden),
            ParamView::Int(s.id),
        ],
    )
}

/// The statement that stores changed settings.
pub fn settings_statement(s: &Settings) -> (r: Statement)
    ensures
        r@ == store_settings(*s),
{
    let r = Statement::new(
        "UPDATE settings SET storage_dir=?,lang=?,ui_theme=?,ui_font=?,editor_font=?,show_hidden=? WHERE id=?",
    ).text(s.storage_dir.as_str()).text(s.lang.as_str()).text(s.ui_theme.as_str()).text(
        s.ui_font.as_str(),
    ).text(s.editor_font.as_str()).flag(s.show_hidden).number(s.id);
    assert(r@ =~= store_settings(*s));
    r
}

/// The statement that stores where the files are.
pub open spec fn store_dir(dir: Seq<char>) -> StatementView {
    statement("UPDATE settings SET storage_dir=? WHERE id=1"@, seq![ParamView::Text(dir)])
}

/// The statement that stores where the files are.
pub fn update_setting_storage(dir: &str) -> (r: Statement)
    ensures
        r@ == store_dir(dir@),
        r@ == statement(
            "UPDATE settings SET storage_dir=? WHERE id=1"@,
            seq![ParamView::Text(dir@)],
        ),
{
    let r = Statement::new("UPDATE settings SET storage_dir=? WHERE id=1").text(dir);
    assert(r@ =~= statement(
        "UPDATE settings SET storage_dir=? WHERE id=1"@,
        seq![ParamView::Text(dir@)],
    ));
    r
}

// ---------------------------------------------------------------------------
// WebDAV settings
// ---------------------------------------------------------------------------

/// What the WebDAV settings show of themselves.
pub struct WebdavView {
    pub enabled: bool,
    pub sub_path: String,
    pub username: String,
    pub has_password: bool,
}

/// What is shown of the WebDAV settings.
pub open spec fn shows(r: WebdavView, s: Settings) -> bool {
    &&& r.enabled == s.webdav_enabled
    &&& r.sub_path@ == s.webdav_sub_path@
    &&& r.username@ == s.webdav_username@
    &&& r.has_password <==> s.webdav_password_enc@.len() > 0
}

/// What the WebDAV settings show of themselves: of the password only whether there is one.
pub fn get_webdav_settings(s: &Settings) -> (r: WebdavView)
    ensures
        shows(r, *s),
        r.enabled == s.webdav_enabled,
        r.sub_path@ == s.webdav_sub_path@,
        r.username@ == s.webdav_username@,
        r.has_password == (s.webdav_password_enc@.len() > 0),
{
    WebdavView {
        enabled: s.webdav_enabled,
        sub_path: s.webdav_sub_path.clone(),
        username: s.webdav_username.clone(),
        has_password: s.webdav_password_enc.as_str().unicode_len() > 0,
    }
}

/// The statement that stores the WebDAV settings, with an encrypted password if there is a new one.
pub open spec fn store_webdav(req: WebdavReq, enc: Option<Seq<char>>) -> StatementView {
    let params = seq![
        truth(req.webdav_enabled),
        ParamView::Text(text_or(opt_text(req.webdav_sub_path), ""@)),
        ParamView::Text(text_or(opt_text(req.webdav_username), ""@)),
    ];
    match enc {
        Some(e) => statement(
            "UPDATE settings SET webdav_enabled=?,webdav_sub_path=?,webdav_username=?,webdav_password_enc=? WHERE id=1"@,
            params.push(ParamView::Text(e)),
        ),
        None => statement(
            "UPDATE settings SET webdav_enabled=?,webdav_sub_path=?,webdav_username=? WHERE id=1"@,
            params,
        ),
    }
}

/// The text of an optional string, empty where it is missing.
fn text_or_empty(t: &Option<String>) -> (r: String)
    ensures
        r@ == text_or(opt_text(*t), ""@),
{
    match t {
        Some(s) => s.clone(),
        None => "".to_owned(),
    }
}

/// The statement that stores the WebDAV settings.
pub fn webdav_statement(req: &WebdavReq, enc: Option<String>) -> (r: Statement)
    ensures
        r@ == store_webdav(*req, opt_text(enc)),
{
    let sql = match &enc {
        Some(_) => "UPDATE settings SET webdav_enabled=?,webdav_sub_path=?,webdav_username=?,webdav_password_enc=? WHERE id=1",
        None => "UPDATE settings SET webdav_enabled=?,webdav_sub_path=?,webdav_username=? WHERE id=1",
    };
    let s = Statement::new(sql).flag(req.webdav_enabled).text(
        text_or_empty(&req.webdav_sub_path).as_str(),
    ).text(text_or_empty(&req.webdav_username).as_str());
    let r = match enc {
        Some(e) => s.text(e.as_str()),
        None => s,
    };
    assert(r@ =~= store_webdav(*req, opt_text(enc)));
    r
}

/// The statement that stores the WebDAV settings with a new password, whose hash is encrypted;
/// nothing where there is no hash, or one that is too long for the cipher.
pub fn webdav_password_statement(key: &[u8; 32], req: &WebdavReq, hash: Option<String>) -> (r: Option<
    Statement,
>)
    requires
        hash matches Some(h) ==> fits(h@),
    ensures
        r is Some <==> (hash matches Some(h) && encode_utf8(h@).len() <= LONGEST_PLAINTEXT),
        r matches Some(s) ==> exists|e: Seq<char>|
            s@ == #[trigger] store_webdav(*req, Some(e)) && e.len() > 0 && decrypted(key@, e) == opt_text(
                hash,
            ),
{
    match hash {
        Some(h) => match encrypt(key, h.as_str()) {
            Ok(e) => {
                let s = webdav_statement(req, Some(e));
                assert(s@ == store_webdav(*req, Some(e@)));
                Some(s)
            },
            Err(_) => None,
        },
        None => None,
    }
}

/// A statement stores the WebDAV settings of a request: with the encrypted hash of a password that is given,
/// else without one.
pub open spec fn sets_webdav(s: StatementView, key: Seq<u8>, req: WebdavReq) -> bool {
    if not_given(req.webdav_password) {
        s == store_webdav(req, None)
    } else {
        exists|e: Seq<char>, h: Seq<char>|
            #![trigger store_webdav(req, Some(e)), accepted(req.webdav_password->0@, h)]
            s == store_webdav(req, Some(e)) && e.len() > 0 && decrypted(key, e) == Some(h) && accepted(
                req.webdav_password->0@,
                h,
            )
    }
}

/// The statement that stores the WebDAV settings. A new password is hashed and the hash encrypted;
/// nothing where it could not be hashed. An empty password leaves the old one.
pub fn update_webdav_settings(key: &[u8; 32], req: &WebdavReq) -> (r: Option<Statement>)
    ensures
        r matches Some(s) ==> sets_webdav(s@, key@, *req),
        not_given(req.webdav_password) ==> r is Some,
        match opt_text(req.webdav_password) {
            Some(p) => if p.len() == 0 {
                r matches Some(s) && s@ == store_webdav(*req, None)
            } else {
                r matches Some(s) ==> exists|e: Seq<char>, h: Seq<char>|
                    #![trigger store_webdav(*req, Some(e)), accepted(p, h)]
                    s@ == store_webdav(*req, Some(e)) && e.len() > 0 && decrypted(key@, e) == Some(h) && accepted(
                        p,
                        h,
                    )
            },
            None => r matches Some(s) && s@ == store_webdav(*req, None),
        },
{
    match &req.webdav_password {
        Some(p) => {
            if p.as_str().unicode_len() == 0 {
                return Some(webdav_statement(req, None));
            }
            let hash = hash_password(p.as_str());
            proof {
                if let Some(h) = &hash {
                    lemma_ascii_fits(h@);
                    assert(accepted(p@, h@));
                }
            }
            webdav_password_statement(key, req, hash)
        },
        None => Some(webdav_statement(req, None)),
    }
}

/// The settings hold the WebDAV password that was set: it is the one that a user has to give.
pub proof fn law_webdav_password_is_the_one_set(
    settings: Settings,
    key: Seq<u8>,
    hash: Seq<char>,
    password: Seq<char>,
    stored: Option<Seq<char>>,
)
    requires
        settings.webdav_password_enc@.len() > 0,
        decrypted(key, settings.webdav_password_enc@) == Some(hash),
    ensures
        password_right(settings, key, password, stored) == accepted(password, hash),
{
}

// ---------------------------------------------------------------------------
// Laws
// ---------------------------------------------------------------------------

/// A row of settings into which a change of them was stored: each value stands in its column.
pub open spec fn holds_settings(row: SettingsRow, values: Seq<ParamView>) -> bool {
    &&& row.storage_dir is Some && row.lang is Some && row.ui_theme is Some
    &&& row.ui_font is Some && row.editor_font is Some && row.show_hidden is Some
    &&& values == seq![
        ParamView::Text(row.storage_dir->0@),
        ParamView::Text(row.lang->0@),
        ParamView::Text(row.ui_theme->0@),
        ParamView::Text(row.ui_font->0@),
        ParamView::Text(row.editor_font->0@),
        ParamView::Int(row.show_hidden->0),
        ParamView::Int(row.id),
    ]
}

/// Settings that were stored are read back as they were.
pub proof fn law_settings_are_read_back(s: Settings, row: SettingsRow, t: Settings)
    requires
        holds_settings(row, store_settings(s).params),
        settings_in(row, t),
    ensures
        t.id == s.id,
        t.storage_dir@ == s.storage_dir@,
        t.lang@ == s.lang@,
        t.ui_theme@ == s.ui_theme@,
        t.ui_font@ == s.ui_font@,
        t.editor_font@ == s.editor_font@,
        t.show_hidden == s.show_hidden,
{
    let p = store_settings(s).params;
    assert(p[0] == ParamView::Text(row.storage_dir->0@));
    assert(p[1] == ParamView::Text(row.lang->0@));
    assert(p[2] == ParamView::Text(row.ui_theme->0@));
    assert(p[3] == ParamView::Text(row.ui_font->0@));
    assert(p[4] == ParamView::Text(row.editor_font->0@));
    assert(p[5] == ParamView::Int(row.show_hidden->0));
    assert(p[6] == ParamView::Int(row.id));
}

/// A row of settings into which WebDAV settings were stored: each value stands in its column, and a
/// password that is not among the values is as it was.
pub open spec fn holds_webdav(row: SettingsRow, values: Seq<ParamView>, was: Seq<char>) -> bool {
    &&& row.webdav_enabled is Some && row.webdav_sub_path is Some
    &&& row.webdav_username is Some && row.webdav_password_enc is Some
    &&& values.take(3) == seq![
        ParamView::Int(row.webdav_enabled->0),
        ParamView::Text(row.webdav_sub_path->0@),
        ParamView::Text(row.webdav_username->0@),
    ]
    &&& values.len() == 4 ==> values[3] == ParamView::Text(row.webdav_password_enc->0@)
    &&& values.len() == 3 ==> row.webdav_password_enc->0@ == was
}

/// WebDAV settings that were stored are read back as they were requested, what is not given as empty.
/// The password changes exactly if there is a new one.
pub proof fn law_webdav_settings_are_read_back(
    req: WebdavReq,
    enc: Option<Seq<char>>,
    was: Seq<char>,
    row: SettingsRow,
    s: Settings,
)
    requires
        holds_webdav(row, store_webdav(req, enc).params, was),
        settings_in(row, s),
    ensures
        s.webdav_enabled == req.webdav_enabled,
        req.webdav_sub_path matches Some(p) ==> s.webdav_sub_path@ == p@,
        req.webdav_sub_path is None ==> s.webdav_sub_path@.len() == 0,
        req.webdav_username matches Some(u) ==> s.webdav_username@ == u@,
        req.webdav_username is None ==> s.webdav_username@.len() == 0,
        enc matches Some(e) ==> s.webdav_password_enc@ == e,
        enc is None ==> s.webdav_password_enc@ == was,
        store_webdav(req, enc).params.len() == if enc is Some {
            4
        } else {
            3int
        },
{
    reveal_strlit("");
    let p = store_webdav(req, enc).params;
    assert(p[0] == p.take(3)[0]);
    assert(p[1] == p.take(3)[1]);
    assert(p[2] == p.take(3)[2]);
}

/// A text is missing or empty.
pub open spec fn not_given(t: Option<String>) -> bool {
    match t {
        Some(s) => s@.len() == 0,
        None => true,
    }
}

/// What a request says nothing of stays, and what it gives is what there is afterwards: of the texts
/// only one that is not empty. The WebDAV settings and the secret stay in any case.
pub proof fn law_update_changes_what_is_given(s: Settings, req: SettingsReq, r: Settings)
    requires
        updates(s, req, r),
    ensures
        !not_given(req.storage_dir) ==> r.storage_dir@ == req.storage_dir->0@,
        not_given(req.storage_dir) ==> r.storage_dir@ == s.storage_dir@,
        !not_given(req.lang) ==> r.lang@ == req.lang->0@,
        not_given(req.lang) ==> r.lang@ == s.lang@,
        !not_given(req.ui_theme) ==> r.ui_theme@ == req.ui_theme->0@,
        not_given(req.ui_theme) ==> r.ui_theme@ == s.ui_theme@,
        !not_given(req.ui_font) ==> r.ui_font@ == req.ui_font->0@,
        not_given(req.ui_font) ==> r.ui_font@ == s.ui_font@,
        !not_given(req.editor_font) ==> r.editor_font@ == req.editor_font->0@,
        not_given(req.editor_font) ==> r.editor_font@ == s.editor_font@,
        req.show_hidden matches Some(b) ==> r.show_hidden == b,
        req.show_hidden is None ==> r.show_hidden == s.show_hidden,
        r.id == s.id,
        r.webdav_enabled == s.webdav_enabled,
        r.webdav_sub_path@ == s.webdav_sub_path@,
        r.webdav_username@ == s.webdav_username@,
        r.webdav_password_enc@ == s.webdav_password_enc@,
        r.jwt_secret_enc@ == s.jwt_secret_enc@,
{
}

/// The same request twice changes no more than once.
pub proof fn law_update_twice_is_once(s: Settings, req: SettingsReq, r: Settings, again: Settings)
    requires
        updates(s, req, r),
        updates(r, req, again),
    ensures
        again.storage_dir@ == r.storage_dir@,
        again.lang@ == r.lang@,
        again.ui_theme@ == r.ui_theme@,
        again.ui_font@ == r.ui_font@,
        again.editor_font@ == r.editor_font@,
        again.show_hidden == r.show_hidden,
{
}

/// The directories of the system.
pub open spec fn system_dirs() -> Seq<Seq<char>> {
    seq![
        "/etc"@,
        "/bin"@,
        "/sbin"@,
        "/usr/bin"@,
        "/usr/sbin"@,
        "/boot"@,
        "/sys"@,
        "/proc"@,
        "/dev"@,
        "/run"@,
        "/var/run"@,
    ]
}

/// Files can be stored neither in a directory of the system nor anywhere below one, and anywhere else.
pub proof fn law_system_directories_are_closed(dir: Seq<char>)
    ensures
        system_dir(dir) <==> exists|i: int|
            0 <= i < system_dirs().len() && (dir == #[trigger] system_dirs()[i] || (system_dirs()[i]
                + seq!['/']).is_prefix_of(dir)),
{
    let ds = system_dirs();
    assert(ds[0] == "/etc"@ && ds[1] == "/bin"@ && ds[2] == "/sbin"@ && ds[3] == "/usr/bin"@ && ds[4]
        == "/usr/sbin"@ && ds[5] == "/boot"@ && ds[6] == "/sys"@ && ds[7] == "/proc"@ && ds[8] == "/dev"@
        && ds[9] == "/run"@ && ds[10] == "/var/run"@);
    reveal_strlit("/");
    assert("/"@ =~= seq!['/']);
}

/// A request for a directory of the system is refused; any other directory that is named is the one asked
/// for, and none if nothing is named.
pub proof fn law_requested_directory(dir: Seq<char>)
    ensures
        requested_dir(None) == Ok::<Option<Seq<char>>, ()>(None),
        dir.len() == 0 ==> requested_dir(Some(dir)) == Ok::<Option<Seq<char>>, ()>(None),
        dir.len() > 0 && !system_dir(dir) ==> requested_dir(Some(dir)) == Ok::<Option<Seq<char>>, ()>(Some(dir)),
        dir.len() > 0 ==> (requested_dir(Some(dir)) is Err <==> system_dir(dir)),
{
}

/// What was set for WebDAV is shown as it was set, and a password is shown to be there once one was set.
pub proof fn law_webdav_settings_are_shown(
    req: WebdavReq,
    enc: Option<Seq<char>>,
    was: Seq<char>,
    row: SettingsRow,
    s: Settings,
    v: WebdavView,
)
    requires
        holds_webdav(row, store_webdav(req, enc).params, was),
        settings_in(row, s),
        shows(v, s),
    ensures
        v.enabled == req.webdav_enabled,
        req.webdav_sub_path matches Some(p) ==> v.sub_path@ == p@,
        req.webdav_username matches Some(u) ==> v.username@ == u@,
        enc matches Some(e) ==> (v.has_password <==> e.len() > 0),
        enc is None ==> (v.has_password <==> was.len() > 0),
{
    law_webdav_settings_are_read_back(req, enc, was, row, s);
}

/// A directory that was stored is the one that the settings name.
pub proof fn law_stored_directory_is_read_back(dir: Seq<char>, row: SettingsRow, s: Settings)
    requires
        row.storage_dir is Some,
        store_dir(dir).params == seq![ParamView::Text(row.storage_dir->0@)],
        settings_in(row, s),
    ensures
        s.storage_dir@ == dir,
        store_dir(dir).sql == "UPDATE "@ + "settings"@ + " SET "@ + "storage_dir"@ + "=? WHERE id=1"@,
{
    assert(store_dir(dir).params[0] == ParamView::Text(row.storage_dir->0@));
    reveal_strlit("UPDATE ");
    reveal_strlit("settings");
    reveal_strlit(" SET ");
    reveal_strlit("storage_dir");
    reveal_strlit("=? WHERE id=1");
    reveal_strlit("UPDATE settings SET storage_dir=? WHERE id=1");
    assert("UPDATE settings SET storage_dir=? WHERE id=1"@ =~= "UPDATE "@ + "settings"@ + " SET "@
        + "storage_dir"@ + "=? WHERE id=1"@);
}

/// After the WebDAV settings were stored, they are those of the request, and who enters gives the password of
/// the request. Where it names none, or an empty one, the password is the one from before.
pub proof fn law_set_password_enters(
    st: StatementView,
    key: Seq<u8>,
    req: WebdavReq,
    was: Seq<char>,
    row: SettingsRow,
    s: Settings,
    stored: Option<Seq<char>>,
)
    requires
        sets_webdav(st, key, req),
        holds_webdav(row, st.params, was),
        settings_in(row, s),
    ensures
        s.webdav_enabled == req.webdav_enabled,
        req.webdav_sub_path matches Some(p) ==> s.webdav_sub_path@ == p@,
        req.webdav_username matches Some(u) ==> s.webdav_username@ == u@,
        not_given(req.webdav_password) ==> s.webdav_password_enc@ == was,
        !not_given(req.webdav_password) ==> password_right(s, key, req.webdav_password->0@, stored),
{
    if not_given(req.webdav_password) {
        law_webdav_settings_are_read_back(req, None, was, row, s);
    } else {
        let (e, h) = choose|e: Seq<char>, h: Seq<char>|
            #![trigger store_webdav(req, Some(e)), accepted(req.webdav_password->0@, h)]
            st == store_webdav(req, Some(e)) && e.len() > 0 && decrypted(key, e) == Some(h) && accepted(
                req.webdav_password->0@,
                h,
            );
        law_webdav_settings_are_read_back(req, Some(e), was, row, s);
    }
}

} // verus!
