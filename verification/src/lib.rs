//! The rules of a self-hosted file manager: paths, accounts, share links,
//! WebDAV, archives and downloads, each decided by a verified function.

pub mod archive;
pub mod auth;
pub mod claims;
pub mod config;
pub mod crypto;
pub mod fetch;
pub mod files;
pub mod json;
pub mod limiter;
pub mod listing;
pub mod net;
pub mod paths;
pub mod reply;
pub mod routes;
pub mod serve;
pub mod settings;
pub mod share;
pub mod sql;
pub mod start;
pub mod storage;
pub mod terminal;
pub mod text;
pub mod time;
pub mod types;
pub mod visibility;
pub mod webdav;
