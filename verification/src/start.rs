//! What is decided when the server starts: directories, secrets and limits.

use vstd::prelude::*;

use crate::crypto::{decrypted, encrypt, hex_text, lemma_ascii_fits, lemma_hex_ascii, random_secret};
use crate::limiter::RateLimiter;
use crate::paths::{components, join_path, joined, law_joined_name_is_the_last, Part};
use crate::settings::{
    law_stored_directory_is_read_back, settings_in, store_dir, update_setting_storage, SettingsRow,
};
use crate::sql::{statement, ParamView, Statement, StatementView};
use crate::text::{cat3, opt_text};
use crate::types::Settings;

verus! {

// ---------------------------------------------------------------------------
// Directories
// ---------------------------------------------------------------------------

/// The directory of the configuration and the database.
pub open spec fn data_dir(config: Option<Seq<char>>) -> Seq<char> {
    match config {
        Some(c) => c,
        None => "./data"@,
    }
}

/// The directory of the files that the arguments name.
pub open spec fn first_storage_dir(config: Option<Seq<char>>, dir: Option<Seq<char>>) -> Seq<char> {
    match dir {
        Some(d) => d,
        None => match config {
            Some(c) => joined(c, "storage"@),
            None => "./data/storage"@,
        },
    }
}

/// The two directories that the arguments `--config` and `--dir` name.
pub fn directories(config: &Option<String>, dir: &Option<String>) -> (r: (String, String))
    ensures
        r.0@ == data_dir(opt_text(*config)),
        r.1@ == first_storage_dir(opt_text(*config), opt_text(*dir)),
{
    match (config, dir) {
        (Some(c), Some(d)) => (c.clone(), d.clone()),
        (Some(c), None) => (c.clone(), join_path(c.as_str(), "storage")),
        (None, Some(d)) => ("./data".to_owned(), d.clone()),
        (None, None) => ("./data".to_owned(), "./data/storage".to_owned()),
    }
}

/// The directory of the files: the one that the argument names, else the one in the settings, else
/// the first one.
pub open spec fn storage_dir(dir: Option<Seq<char>>, settings: Seq<char>, first: Seq<char>) -> Seq<char> {
    match dir {
        Some(d) => d,
        None => if settings.len() > 0 {
            settings
        } else {
            first
        },
    }
}

/// The directory of the files, and the statement that stores it where an argument names it.
pub open spec fn chosen_dir(dir: Option<Seq<char>>, settings: Seq<char>, first: Seq<char>) -> (
    Seq<char>,
    Option<StatementView>,
) {
    (
        storage_dir(dir, settings, first),
        match dir {
            Some(d) => Some(store_dir(d)),
            None => None,
        },
    )
}

/// The directory of the files. One that an argument names goes into the settings.
pub fn choose_storage_dir(dir: &Option<String>, settings: &Settings, first: String) -> (r: (
    String,
    Option<Statement>,
))
    ensures
        (
            r.0@,
            match r.1 {
                Some(s) => Some(s@),
                None => None,
            },
        ) == chosen_dir(opt_text(*dir), settings.storage_dir@, first@),
        r.0@ == storage_dir(opt_text(*dir), settings.storage_dir@, first@),
        match r.1 {
            Some(s) => dir is Some && s@ == statement(
                "UPDATE settings SET storage_dir=? WHERE id=1"@,
                seq![ParamView::Text(r.0@)],
            ),
            None => dir is None,
        },
{
    match dir {
        Some(d) => (d.clone(), Some(update_setting_storage(d.as_str()))),
        None => {
            if settings.storage_dir.as_str().unicode_len() > 0 {
                (settings.storage_dir.clone(), None)
            } else {
                (first, None)
            }
        },
    }
}

/// The address of the database.
pub open spec fn database(data_dir: Seq<char>) -> Seq<char> {
    "sqlite://"@ + joined(data_dir, "cloudone.db"@) + "?mode=rwc"@
}

/// The address of the database.
pub fn database_url(data_dir: &str) -> (r: String)
    ensures
        r@ == database(data_dir@),
        r@ == "sqlite://"@ + joined(data_dir@, "cloudone.db"@) + "?mode=rwc"@,
{
    cat3("sqlite://", join_path(data_dir, "cloudone.db").as_str(), "?mode=rwc")
}

// ---------------------------------------------------------------------------
// Secrets
// ---------------------------------------------------------------------------

/// A secret, and whether it has just been made.
pub struct Secret {
    pub text: String,
    pub fresh: bool,
}

/// A text that names 32 bytes.
pub open spec fn is_secret(text: Seq<char>) -> bool {
    exists|b: Seq<u8>| b.len() == 32 && text == #[trigger] hex_text(b)
}

/// The master secret that is there already, if there is one.
pub open spec fn known_secret(env: Option<Seq<char>>, file: Option<Seq<char>>) -> Option<Seq<char>> {
    match env {
        Some(v) => Some(v),
        None => file,
    }
}

/// The master secret: from the environment, else from its file, else a new one, which goes into the
/// file.
pub fn master_secret(env: Option<String>, file: Option<String>) -> (r: Secret)
    ensures
        match known_secret(opt_text(env), opt_text(file)) {
            Some(v) => r.text@ == v && !r.fresh,
            None => is_secret(r.text@) && r.fresh,
        },
        match opt_text(env) {
            Some(v) => r.text@ == v && !r.fresh,
            None => match opt_text(file) {
                Some(v) => r.text@ == v && !r.fresh,
                None => is_secret(r.text@) && r.fresh,
            },
        },
{
    match env {
        Some(v) => Secret { text: v, fresh: false },
        None => match file {
            Some(v) => Secret { text: v, fresh: false },
            None => Secret { text: random_secret(), fresh: true },
        },
    }
}

/// The statement that stores the encrypted secret of the sessions.
pub open spec fn store_jwt_secret(enc: Seq<char>) -> StatementView {
    statement("UPDATE settings SET jwt_secret_enc=? WHERE id=1"@, seq![ParamView::Text(enc)])
}

/// The secret of the sessions that the environment sets, if it sets one.
pub open spec fn set_secret(env: Option<Seq<char>>) -> Option<Seq<char>> {
    match env {
        Some(v) => if v.len() > 0 {
            Some(v)
        } else {
            None
        },
        None => None,
    }
}

/// The secret of the sessions: from the environment if one is set there, else a new one at every
/// start, which ends the sessions from before. A new one is stored encrypted.
pub fn jwt_secret(env: Option<String>, key: &[u8; 32]) -> (r: (String, Option<Statement>))
    ensures
        match set_secret(opt_text(env)) {
            Some(v) => r.0@ == v && r.1 is None,
            None => is_secret(r.0@) && r.1 is Some,
        },
        match opt_text(env) {
            Some(v) => v.len() > 0 ==> r.0@ == v && r.1 is None,
            None => true,
        },
        (opt_text(env) is None || opt_text(env)->0.len() == 0) ==> is_secret(r.0@) && (r.1 matches Some(s)
            && exists|enc: Seq<char>|
            s@ == #[trigger] store_jwt_secret(enc) && decrypted(key@, enc) == Some(r.0@)),
{
    match env {
        Some(v) => {
            if v.as_str().unicode_len() > 0 {
                return (v, None);
            }
        },
        None => {},
    }
    let text = random_secret();
    proof {
        let b = choose|b: Seq<u8>| b.len() == 32 && text@ == #[trigger] hex_text(b);
        lemma_hex_ascii(b);
        lemma_ascii_fits(text@);
    }
    match encrypt(key, text.as_str()) {
        Ok(enc) => {
            let s = Statement::new("UPDATE settings SET jwt_secret_enc=? WHERE id=1").text(enc.as_str());
            assert(s@ =~= store_jwt_secret(enc@));
            (text, Some(s))
        },
        Err(_) => (text, None),
    }
}

// ---------------------------------------------------------------------------
// Limits
// ---------------------------------------------------------------------------

/// A minute, in nanoseconds.
pub const MINUTE: u128 = 60_000_000_000;

/// The largest body of a request, in bytes.
pub const BODY_LIMIT: usize = 1_073_741_824;

/// The limit on logins: five a minute from each address.
pub fn login_limiter() -> (r: RateLimiter)
    ensures
        r.wf(),
        r.max == 5,
        r.window == MINUTE,
        r.hits@.len() == 0,
        forall|ip: Seq<char>| #[trigger] r.hits_of(ip) == Seq::<u128>::empty(),
{
    RateLimiter::new(5, MINUTE)
}

/// The limit on WebDAV requests: ten a minute from each address.
pub fn webdav_limiter() -> (r: RateLimiter)
    ensures
        r.wf(),
        r.max == 10,
        r.window == MINUTE,
        r.hits@.len() == 0,
        forall|ip: Seq<char>| #[trigger] r.hits_of(ip) == Seq::<u128>::empty(),
{
    RateLimiter::new(10, MINUTE)
}

// ---------------------------------------------------------------------------
// Laws
// ---------------------------------------------------------------------------

/// Without a directory of their own the files are in the folder `storage` of the data directory, whether or
/// not that one is named.
pub proof fn law_files_are_beside_the_data(config: Option<Seq<char>>, dir: Seq<char>)
    requires
        config matches Some(c) ==> c.len() > 0,
    ensures
        components(first_storage_dir(config, None)) == components(data_dir(config)).push(
            Part::Name("storage"@),
        ),
        first_storage_dir(config, Some(dir)) == dir,
        config matches Some(c) ==> data_dir(config) == c,
        data_dir(None) == "./data"@,
{
    let d = data_dir(config);
    reveal_strlit("storage");
    reveal_strlit("./data");
    reveal_strlit("./data/storage");
    let n = "storage"@;
    assert(n.len() == 7 && n[0] == 's');
    assert forall|i: int| 0 <= i < n.len() implies n[i] != '/' by {}
    law_joined_name_is_the_last(d, n);
    if config is None {
        let b = "./data"@;
        assert(b.last() == 'a');
        assert(joined(b, n) =~= "./data/storage"@);
    }
}

/// The argument goes before the settings, and these before the first directory.
pub proof fn law_argument_goes_first(dir: Seq<char>, stored: Seq<char>, first: Seq<char>)
    ensures
        storage_dir(Some(dir), stored, first) == dir,
        stored.len() > 0 ==> storage_dir(None, stored, first) == stored,
        stored.len() == 0 ==> storage_dir(None, stored, first) == first,
{
}

/// A new secret is 64 characters long.
pub proof fn law_secret_length(text: Seq<char>)
    requires
        is_secret(text),
    ensures
        text.len() == 64,
{
    let b = choose|b: Seq<u8>| b.len() == 32 && text == #[trigger] hex_text(b);
    lemma_hex_ascii(b);
}

/// A row of settings into which the secret of the sessions was stored holds it in its column, and so do the
/// settings that are read from it.
pub proof fn law_stored_secret_is_read_back(enc: Seq<char>, row: SettingsRow, s: Settings)
    requires
        row.jwt_secret_enc is Some,
        store_jwt_secret(enc).params == seq![ParamView::Text(row.jwt_secret_enc->0@)],
        settings_in(row, s),
    ensures
        s.jwt_secret_enc@ == enc,
{
    assert(store_jwt_secret(enc).params[0] == ParamView::Text(row.jwt_secret_enc->0@));
}

/// The limits: a minute is sixty seconds of a thousand million nanoseconds, and a body has at most a
/// gibibyte.
pub proof fn law_limits()
    ensures
        MINUTE == 60 * 1_000_000_000,
        BODY_LIMIT == 1024 * 1024 * 1024,
{
}

/// A directory that an argument names is stored, and is the directory of the files also at the next start
/// without an argument. Without one nothing is stored.
pub proof fn law_named_directory_stays(
    dir: Seq<char>,
    was: Seq<char>,
    first: Seq<char>,
    row: SettingsRow,
    s: Settings,
)
    requires
        dir.len() > 0,
        chosen_dir(Some(dir), was, first).1 is Some,
        row.storage_dir is Some,
        chosen_dir(Some(dir), was, first).1->0.params == seq![ParamView::Text(row.storage_dir->0@)],
        settings_in(row, s),
    ensures
        chosen_dir(Some(dir), was, first).0 == dir,
        chosen_dir(None, s.storage_dir@, first).0 == dir,
        chosen_dir(None, was, first).1 is None,
{
    law_stored_directory_is_read_back(dir, row, s);
}

/// The argument alone decides whether a directory is stored.
pub proof fn law_only_named_directories_are_stored(dir: Option<Seq<char>>, was: Seq<char>, first: Seq<char>)
    ensures
        chosen_dir(dir, was, first).1 is Some <==> dir is Some,
        dir matches Some(d) ==> chosen_dir(dir, was, first) == (d, Some(store_dir(d))),
        dir is None && was.len() > 0 ==> chosen_dir(dir, was, first).0 == was,
        dir is None && was.len() == 0 ==> chosen_dir(dir, was, first).0 == first,
{
}

/// The database is the file `cloudone.db` in the data directory, and is made where it is missing.
pub proof fn law_database_is_in_the_data_directory(dir: Seq<char>)
    requires
        dir.len() > 0,
        dir.last() != '/',
    ensures
        database(dir) == "sqlite://"@ + dir + "/cloudone.db?mode=rwc"@,
{
    reveal_strlit("cloudone.db");
    reveal_strlit("?mode=rwc");
    reveal_strlit("/cloudone.db?mode=rwc");
    assert("cloudone.db"@[0] == 'c');
    assert(database(dir) =~= "sqlite://"@ + dir + "/cloudone.db?mode=rwc"@);
}

/// The environment goes before the file, and both before a new secret.
pub proof fn law_environment_goes_first(env: Seq<char>, file: Option<Seq<char>>)
    ensures
        known_secret(Some(env), file) == Some(env),
        known_secret(None, file) == file,
{
}

/// The environment sets the secret of the sessions by any text that is not empty.
pub proof fn law_environment_sets_the_secret(v: Seq<char>)
    ensures
        v.len() > 0 ==> set_secret(Some(v)) == Some(v),
        v.len() == 0 ==> set_secret(Some(v)) is None,
        set_secret(None) is None,
{
}

} // verus!
