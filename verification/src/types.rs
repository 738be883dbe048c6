//! The records that the application stores and the requests that it takes.

use vstd::prelude::*;

verus! {

// ---------------------------------------------------------------------------
// Records
// ---------------------------------------------------------------------------

/// An account.
#[derive(Debug, Clone)]
pub struct User {
    pub id: i64,
    pub username: String,
    pub password: String,
    pub token_version: i64,
    pub created_at: String,
    pub updated_at: String,
}

/// What an account shows of itself: neither the password hash nor the token version.
#[derive(Debug, Clone)]
pub struct PublicUser {
    pub id: i64,
    pub username: String,
    pub created_at: String,
    pub updated_at: String,
}

/// The settings of the installation.
#[derive(Debug, Clone)]
pub struct Settings {
    pub id: i64,
    pub storage_dir: String,
    pub lang: String,
    pub ui_theme: String,
    pub ui_font: String,
    pub editor_font: String,
    pub webdav_enabled: bool,
    pub webdav_sub_path: String,
    pub webdav_username: String,
    pub webdav_password_enc: String,
    pub jwt_secret_enc: String,
    pub show_hidden: bool,
}

/// What the settings show of themselves: none of the encrypted secrets.
#[derive(Debug, Clone)]
pub struct PublicSettings {
    pub id: i64,
    pub storage_dir: String,
    pub lang: String,
    pub ui_theme: String,
    pub ui_font: String,
    pub editor_font: String,
    pub webdav_enabled: bool,
    pub webdav_sub_path: String,
    pub webdav_username: String,
    pub show_hidden: bool,
}

/// A link under which a file or folder is shared.
#[derive(Debug, Clone)]
pub struct ShareLink {
    pub id: i64,
    pub code: String,
    pub file_path: String,
    pub is_dir: bool,
    pub user_id: i64,
    pub expires_at: Option<String>,
    pub max_views: i64,
    pub view_count: i64,
    pub created_at: String,
}

/// An entry of a directory listing.
#[derive(Debug, Clone)]
pub struct FileInfo {
    pub name: String,
    pub path: String,
    pub is_dir: bool,
    pub size: u64,
    pub mod_time: String,
    pub is_public: bool,
    pub mode: u32,
}

/// A hit of a file search.
#[derive(Debug)]
pub struct SearchResult {
    pub name: String,
    pub path: String,
    pub is_dir: bool,
}

/// What a session token says.
#[derive(Debug, Clone, Copy)]
pub struct Claims {
    pub sub: i64,
    pub version: i64,
    pub exp: usize,
    pub iat: usize,
}

// ---------------------------------------------------------------------------
// Requests
// ---------------------------------------------------------------------------

/// A user name and a password.
pub struct AuthReq {
    pub username: String,
    pub password: String,
}

/// A change of an account.
pub struct UpdateUserReq {
    pub username: Option<String>,
    pub password: Option<String>,
}

/// The query of a request on files.
pub struct PathQuery {
    pub path: Option<String>,
    pub name: Option<String>,
    pub dir: Option<String>,
    pub subpath: Option<String>,
}

/// A request on one path.
pub struct OnePath {
    pub path: String,
    pub content: Option<String>,
    pub mode: Option<u32>,
}

/// A request to move or copy.
pub struct MoveReq {
    pub src: String,
    pub dst: String,
}

/// A request on several paths.
pub struct BatchPaths {
    pub paths: Vec<String>,
    pub target: Option<String>,
    pub filename: Option<String>,
}

/// A request to show or hide a path.
pub struct VisReq {
    pub path: String,
    pub is_public: bool,
}

/// A request for a share link.
pub struct ShareReq {
    pub path: String,
    pub is_dir: bool,
    pub expire_in: Option<i64>,
    pub max_views: Option<i64>,
}

/// A request to pack files.
pub struct CompressReq {
    pub paths: Vec<String>,
    pub format: Option<String>,
    pub output: Option<String>,
    pub dir: Option<String>,
}

/// A request to unpack an archive.
pub struct DecompressReq {
    pub path: String,
    pub dir: Option<String>,
}

/// A request to fetch a file from the network.
pub struct FetchReq {
    pub url: String,
    pub filename: Option<String>,
    pub dir: Option<String>,
}

/// A change of the settings.
pub struct SettingsReq {
    pub storage_dir: Option<String>,
    pub lang: Option<String>,
    pub ui_theme: Option<String>,
    pub ui_font: Option<String>,
    pub editor_font: Option<String>,
    pub show_hidden: Option<bool>,
}

/// A change of the WebDAV settings.
pub struct WebdavReq {
    pub webdav_enabled: bool,
    pub webdav_sub_path: Option<String>,
    pub webdav_username: Option<String>,
    pub webdav_password: Option<String>,
}

// ---------------------------------------------------------------------------
// What is shown
// ---------------------------------------------------------------------------

/// What an account shows of itself.
pub fn public_user(u: &User) -> (r: PublicUser)
    ensures
        r.id == u.id,
        r.username@ == u.username@,
        r.created_at@ == u.created_at@,
        r.updated_at@ == u.updated_at@,
{
    PublicUser {
        id: u.id,
        username: u.username.clone(),
        created_at: u.created_at.clone(),
        updated_at: u.updated_at.clone(),
    }
}

/// What the settings show of themselves.
pub fn public_settings(s: &Settings) -> (r: PublicSettings)
    ensures
        r.id == s.id,
        r.storage_dir@ == s.storage_dir@,
        r.lang@ == s.lang@,
        r.ui_theme@ == s.ui_theme@,
        r.ui_font@ == s.ui_font@,
        r.editor_font@ == s.editor_font@,
        r.webdav_enabled == s.webdav_enabled,
        r.webdav_sub_path@ == s.webdav_sub_path@,
        r.webdav_username@ == s.webdav_username@,
        r.show_hidden == s.show_hidden,
{
    PublicSettings {
        id: s.id,
        storage_dir: s.storage_dir.clone(),
        lang: s.lang.clone(),
        ui_theme: s.ui_theme.clone(),
        ui_font: s.ui_font.clone(),
        editor_font: s.editor_font.clone(),
        webdav_enabled: s.webdav_enabled,
        webdav_sub_path: s.webdav_sub_path.clone(),
        webdav_username: s.webdav_username.clone(),
        show_hidden: s.show_hidden,
    }
}

} // verus!
