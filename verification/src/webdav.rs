//! The WebDAV interface: who may use it, what a request means, and how it is answered.

use vstd::prelude::*;
use vstd::utf8::{encode_utf8, encode_utf8_decode_utf8, encode_utf8_valid_utf8};

use crate::crypto::{
    accepted, base64_bytes, base64_decode, check_password, decrypt_opt, decrypted, hex_encode,
    hex_text, law_hex_text_is_read_back, random_bytes,
};
use crate::limiter::{admits, counted, live, RateLimiter};
use crate::paths::{
    components, dot_dot, join_path, joined, law_joined_name_is_the_last,
    law_parent_lacks_the_last_component, law_path_of_names, lemma_joined_below,
    lemma_joined_components, lemma_names_concat, lemma_no_names, lemma_parts_are_names,
    lemma_parts_of_trimmed, names, parent, parent_of, path_starts_with, Part,
};
use crate::reply::{bare, Reply, ReplyView};
use crate::storage::lemma_trim_start_relative;
use crate::text::{
    cat, cat3, cut, decimal, differs, digits, ends_with, find, first_at, from_lossy, join, lemma_lead,
    lemma_split_concat, lemma_split_whole, occurs, occurs_at, opt_text, position, readable, same,
    slice_text, split, split_on, split_once, starts_with, strip_all, strip_all_prefix, texts, to_chars,
    trim_end, trim_end_char, trim_start, trim_start_char,
};
use crate::time::{http_date, http_date_text, nanos_now};
use crate::types::Settings;

verus! {

// ---------------------------------------------------------------------------
// Who may enter
// ---------------------------------------------------------------------------

/// The answer to a request without valid credentials.
pub open spec fn unauthorized() -> ReplyView {
    ReplyView {
        status: 401,
        headers: seq![("www-authenticate"@, "Basic realm=\"CloudOne WebDAV\""@)],
        body: Seq::<char>::empty(),
    }
}

/// The answer to a request without valid credentials.
fn basic_unauth() -> (r: Reply)
    ensures
        r@ == unauthorized(),
{
    let r = Reply::bare(401).with_header("www-authenticate", "Basic realm=\"CloudOne WebDAV\"");
    assert(r@ =~= unauthorized());
    r
}

/// A user name and a password from the `Authorization` header.
pub struct DavLogin {
    pub user: String,
    pub password: String,
}

/// The user name and password in decoded credentials: what stands before and after the first
/// colon, and two empty texts where there is none.
pub open spec fn pair(credentials: Seq<char>) -> (Seq<char>, Seq<char>) {
    match cut(credentials, ':') {
        Some((u, p)) => (u, p),
        None => (Seq::<char>::empty(), Seq::<char>::empty()),
    }
}

/// The bytes in base 64 credentials, none where the text is not base 64.
pub open spec fn credential_bytes(text: Seq<char>) -> Seq<u8> {
    match base64_bytes(text) {
        Some(b) => b,
        None => Seq::<u8>::empty(),
    }
}

/// The user name and password that the header names after `Basic `.
pub fn credentials(text: &str) -> (r: DavLogin)
    ensures
        (r.user@, r.password@) == pair(readable(credential_bytes(text@))),
{
    let decoded = match base64_decode(text) {
        Some(b) => b,
        None => Vec::new(),
    };
    let text = from_lossy(decoded.as_slice());
    login_of(text.as_str())
}

/// The user name and password in decoded credentials.
pub fn login_of(credentials: &str) -> (r: DavLogin)
    ensures
        (r.user@, r.password@) == pair(credentials@),
{
    match split_once(credentials, ':') {
        Some((user, password)) => DavLogin { user, password },
        None => DavLogin { user: String::new(), password: String::new() },
    }
}

/// What comes of the first gate at the time `now`.
pub open spec fn passes(
    r: Result<DavLogin, Reply>,
    enabled: bool,
    authorization: Seq<char>,
    before: RateLimiter,
    after: RateLimiter,
    ip: Seq<char>,
    now: u128,
) -> bool {
    if !enabled {
        (r matches Err(e) && e@ == bare(503)) && after == before
    } else if !"Basic "@.is_prefix_of(authorization) {
        (r matches Err(e) && e@ == unauthorized()) && after == before
    } else {
        &&& counted(before, after, ip, now)
        &&& if admits(before.hits_of(ip), before.max, before.window, now) {
            r matches Ok(l) && (l.user@, l.password@) == pair(
                readable(credential_bytes(authorization.skip(6))),
            )
        } else {
            r matches Err(e) && e@ == bare(429)
        }
    }
}

/// The first gate, at the time `now`: the interface is enabled, the header offers basic
/// credentials, and the address has not asked too often. Only a request that offers credentials
/// counts against its address.
pub fn login_at(
    settings: &Settings,
    authorization: &str,
    limiter: &mut RateLimiter,
    ip: String,
    now: u128,
) -> (r: Result<DavLogin, Reply>)
    requires
        old(limiter).wf(),
    ensures
        passes(
            r,
            settings.webdav_enabled,
            authorization@,
            *old(limiter),
            *final(limiter),
            ip@,
            now,
        ),
        !settings.webdav_enabled ==> (r matches Err(e) && e@ == bare(503)) && *final(limiter) == *old(
            limiter,
        ),
        settings.webdav_enabled && !"Basic "@.is_prefix_of(authorization@) ==> (r matches Err(e) && e@
            == unauthorized()) && *final(limiter) == *old(limiter),
        settings.webdav_enabled && "Basic "@.is_prefix_of(authorization@) ==> {
            &&& counted(*old(limiter), *final(limiter), ip@, now)
            &&& match r {
                Ok(l) => admits(old(limiter).hits_of(ip@), old(limiter).max, old(limiter).window, now)
                    && (l.user@, l.password@) == pair(readable(credential_bytes(authorization@.skip(6)))),
                Err(e) => e@ == bare(429) && !admits(
                    old(limiter).hits_of(ip@),
                    old(limiter).max,
                    old(limiter).window,
                    now,
                ),
            }
        },
{
    if !settings.webdav_enabled {
        return Err(Reply::bare(503));
    }
    if !starts_with(authorization, "Basic ") {
        return Err(basic_unauth());
    }
    if !limiter.allow_at(ip, now) {
        return Err(Reply::bare(429));
    }
    let cs = to_chars(authorization);
    proof {
        reveal_strlit("Basic ");
        assert(cs@.subrange(6, cs@.len() as int) =~= authorization@.skip(6));
    }
    let n: usize = cs.len();
    Ok(credentials(slice_text(&cs, 6, n).as_str()))
}

/// The first gate, now.
pub fn login(
    settings: &Settings,
    authorization: &str,
    limiter: &mut RateLimiter,
    ip: String,
) -> (r: Result<DavLogin, Reply>)
    requires
        old(limiter).wf(),
    ensures
        !settings.webdav_enabled ==> (r matches Err(e) && e@ == bare(503)) && *final(limiter) == *old(
            limiter,
        ),
        settings.webdav_enabled && !"Basic "@.is_prefix_of(authorization@) ==> (r matches Err(e) && e@
            == unauthorized()) && *final(limiter) == *old(limiter),
        settings.webdav_enabled && "Basic "@.is_prefix_of(authorization@) ==> {
            &&& match r {
                Ok(l) => (l.user@, l.password@) == pair(
                    readable(credential_bytes(authorization@.skip(6))),
                ),
                Err(e) => e@ == bare(429),
            }
            &&& exists|now: u128| #[trigger]
                counted(*old(limiter), *final(limiter), ip@, now) && (r is Ok <==> admits(
                    old(limiter).hits_of(ip@),
                    old(limiter).max,
                    old(limiter).window,
                    now,
                ))
        },
{
    let now: u128 = nanos_now();
    login_at(settings, authorization, limiter, ip, now)
}

/// The name that a WebDAV user has to give: the one in the settings, else that of the first
/// account.
pub open spec fn expected_user(settings: Settings, first_user: Option<Seq<char>>) -> Seq<char> {
    if settings.webdav_username@.len() > 0 {
        settings.webdav_username@
    } else {
        match first_user {
            Some(u) => u,
            None => Seq::<char>::empty(),
        }
    }
}

/// The password is right: against the WebDAV password if one is set, else against that of the
/// account.
pub open spec fn password_right(
    settings: Settings,
    key: Seq<u8>,
    password: Seq<char>,
    stored: Option<Seq<char>>,
) -> bool {
    let hash = if settings.webdav_password_enc@.len() > 0 {
        decrypted(key, settings.webdav_password_enc@)
    } else {
        stored
    };
    match hash {
        Some(h) => accepted(password, h),
        None => false,
    }
}

/// The second gate: the name is the expected one and the password is right.
pub open spec fn authorized(
    settings: Settings,
    key: Seq<u8>,
    user: Seq<char>,
    password: Seq<char>,
    first_user: Option<Seq<char>>,
    stored: Option<Seq<char>>,
) -> bool {
    user == expected_user(settings, first_user) && password_right(settings, key, password, stored)
}

/// Whether the name of the first account is needed to tell who may enter.
pub fn needs_first_user(settings: &Settings) -> (r: bool)
    ensures
        r == (settings.webdav_username@.len() == 0),
{
    settings.webdav_username.as_str().unicode_len() == 0
}

/// Whether the password of the account is needed to tell who may enter.
pub fn needs_stored_password(settings: &Settings) -> (r: bool)
    ensures
        r == (settings.webdav_password_enc@.len() == 0),
{
    settings.webdav_password_enc.as_str().unicode_len() == 0
}

/// What was decrypted, or what was stored, is the hash that the password has to match.
fn password_ok(
    settings: &Settings,
    key: &[u8; 32],
    password: &str,
    stored: &Option<String>,
) -> (r: bool)
    ensures
        r == password_right(*settings, key@, password@, opt_text(*stored)),
{
    if !needs_stored_password(settings) {
        match decrypt_opt(key, settings.webdav_password_enc.as_str()) {
            Some(h) => check_password(password, h.as_str()),
            None => false,
        }
    } else {
        match stored {
            Some(h) => check_password(password, h.as_str()),
            None => false,
        }
    }
}

/// The folder that a WebDAV user sees as the root.
pub open spec fn dav_base(root: Seq<char>, sub_path: Seq<char>) -> Seq<char> {
    joined(
        root,
        if sub_path.len() == 0 {
            "webdav"@
        } else {
            trim_start(sub_path, '/')
        },
    )
}

/// A request that has passed both gates. It cannot be made otherwise.
pub struct DavSession {
    base: String,
}

impl DavSession {
    /// The folder that the user sees as the root.
    pub closed spec fn base_view(self) -> Seq<char> {
        self.base@
    }

    /// The folder that the user sees as the root.
    pub fn base(&self) -> (r: String)
        ensures
            r@ == self.base_view(),
    {
        self.base.clone()
    }
}

/// What comes of the second gate: the folder that the user sees as the root, for who is authorized.
pub open spec fn admitted(
    r: Result<DavSession, Reply>,
    settings: Settings,
    key: Seq<u8>,
    root: Seq<char>,
    login: DavLogin,
    first_user: Option<Seq<char>>,
    stored: Option<Seq<char>>,
) -> bool {
    if authorized(settings, key, login.user@, login.password@, first_user, stored) {
        r matches Ok(s) && s.base_view() == dav_base(root, settings.webdav_sub_path@)
    } else {
        r matches Err(e) && e@ == unauthorized()
    }
}

/// The second gate, from the name of the first account and the password hash of the account that
/// the user names, each needed only where the settings name none.
pub fn authorize(
    settings: &Settings,
    key: &[u8; 32],
    root: &str,
    login: &DavLogin,
    first_user: Option<String>,
    stored: Option<String>,
) -> (r: Result<DavSession, Reply>)
    ensures
        admitted(r, *settings, key@, root@, *login, opt_text(first_user), opt_text(stored)),
        match r {
            Ok(s) => authorized(
                *settings,
                key@,
                login.user@,
                login.password@,
                opt_text(first_user),
                opt_text(stored),
            ) && s.base_view() == dav_base(root@, settings.webdav_sub_path@),
            Err(e) => !authorized(
                *settings,
                key@,
                login.user@,
                login.password@,
                opt_text(first_user),
                opt_text(stored),
            ) && e@ == unauthorized(),
        },
{
    let expected: String = if needs_first_user(settings) {
        match first_user {
            Some(u) => u,
            None => {
                let e = String::new();
                assert(e@ =~= Seq::<char>::empty());
                e
            },
        }
    } else {
        settings.webdav_username.clone()
    };
    if !same(login.user.as_str(), expected.as_str()) {
        return Err(basic_unauth());
    }
    if !password_ok(settings, key, login.password.as_str(), &stored) {
        return Err(basic_unauth());
    }
    let base = if settings.webdav_sub_path.as_str().unicode_len() == 0 {
        join_path(root, "webdav")
    } else {
        join_path(root, trim_start_char(settings.webdav_sub_path.as_str(), '/').as_str())
    };
    Ok(DavSession { base })
}

// ---------------------------------------------------------------------------
// What a request means
// ---------------------------------------------------------------------------

/// The path of a request below the mount point.
pub open spec fn dav_rel(path: Seq<char>) -> Seq<char> {
    strip_all(path, "/dav"@)
}

/// Where a path below the mount point lies on disk.
pub open spec fn dav_target(base: Seq<char>, rel: Seq<char>) -> Seq<char> {
    joined(base, trim_start(rel, '/'))
}

/// The path that a `Destination` header names: what follows the first `/dav`, or all of it.
pub open spec fn dav_destination(header: Seq<char>) -> Seq<char> {
    if occurs(header, "/dav"@) {
        header.skip(position(header, "/dav"@) + 4)
    } else {
        header
    }
}

/// What is to be done for a request.
pub enum DavPlan {
    /// Answer.
    Answer(Reply),
    /// Send a file.
    Serve(String),
    /// Make the parent folder and write the body of the request.
    Put { path: String, parent: Option<String> },
    /// Delete a folder or a file.
    Delete(String),
    /// Make a folder.
    MakeDir(String),
    /// Describe a resource, and if `deep` what is in it.
    Find { rel: String, path: String, deep: bool },
    /// Make the parent folder and copy.
    Copy { from: String, to: String, parent: Option<String> },
    /// Make the parent folder and move.
    Move { from: String, to: String, parent: Option<String> },
}

/// What is to be done for a request, in terms of texts.
pub ghost enum DavPlanView {
    Answer(ReplyView),
    Serve(Seq<char>),
    Put { path: Seq<char>, parent: Option<Seq<char>> },
    Delete(Seq<char>),
    MakeDir(Seq<char>),
    Find { rel: Seq<char>, path: Seq<char>, deep: bool },
    Copy { from: Seq<char>, to: Seq<char>, parent: Option<Seq<char>> },
    Move { from: Seq<char>, to: Seq<char>, parent: Option<Seq<char>> },
}

impl View for DavPlan {
    type V = DavPlanView;

    open spec fn view(&self) -> DavPlanView {
        match *self {
            DavPlan::Answer(r) => DavPlanView::Answer(r@),
            DavPlan::Serve(p) => DavPlanView::Serve(p@),
            DavPlan::Put { path, parent } => DavPlanView::Put { path: path@, parent: opt_text(parent) },
            DavPlan::Delete(p) => DavPlanView::Delete(p@),
            DavPlan::MakeDir(p) => DavPlanView::MakeDir(p@),
            DavPlan::Find { rel, path, deep } => DavPlanView::Find { rel: rel@, path: path@, deep },
            DavPlan::Copy { from, to, parent } => DavPlanView::Copy {
                from: from@,
                to: to@,
                parent: opt_text(parent),
            },
            DavPlan::Move { from, to, parent } => DavPlanView::Move {
                from: from@,
                to: to@,
                parent: opt_text(parent),
            },
        }
    }
}

/// The answer to `OPTIONS`.
pub open spec fn options_reply() -> ReplyView {
    ReplyView {
        status: 200,
        headers: seq![
            ("DAV"@, "1, 2"@),
            (
                "allow"@,
                "OPTIONS, GET, HEAD, PUT, DELETE, MKCOL, COPY, MOVE, PROPFIND, PROPPATCH, LOCK, UNLOCK"@,
            ),
            ("ms-author-via"@, "DAV"@),
        ],
        body: Seq::<char>::empty(),
    }
}

/// The answer to `PROPPATCH`: no property was changed.
pub open spec fn proppatch_reply() -> ReplyView {
    ReplyView {
        status: 207,
        headers: seq![("content-type"@, "application/xml; charset=utf-8"@)],
        body: "<?xml version=\"1.0\" encoding=\"utf-8\"?><D:multistatus xmlns:D=\"DAV:\"></D:multistatus>"@,
    }
}

/// The name of a lock.
pub open spec fn lock_token(bytes: Seq<u8>) -> Seq<char> {
    "urn:uuid:cloudone-lock-"@ + hex_text(bytes)
}

/// The answer to `LOCK`. Nothing is locked.
pub open spec fn lock_reply(bytes: Seq<u8>) -> ReplyView {
    ReplyView {
        status: 200,
        headers: seq![
            ("Lock-Token"@, "<"@ + lock_token(bytes) + ">"@),
            ("content-type"@, "application/xml; charset=utf-8"@),
        ],
        body: "<?xml version=\"1.0\" encoding=\"utf-8\"?>\n<D:prop xmlns:D=\"DAV:\"><D:lockdiscovery><D:activelock>\n<D:locktype><D:write/></D:locktype>\n<D:lockscope><D:exclusive/></D:lockscope>\n<D:depth>infinity</D:depth>\n<D:timeout>Second-3600</D:timeout>\n<D:locktoken><D:href>"@
            + lock_token(bytes)
            + "</D:href></D:locktoken>\n</D:activelock></D:lockdiscovery></D:prop>"@,
    }
}

/// What is to be done for a request with the given method, below the given folder. `bytes` names
/// the lock that a `LOCK` request is told of.
pub open spec fn dav_plan(
    method: Seq<char>,
    base: Seq<char>,
    path: Seq<char>,
    depth: Option<Seq<char>>,
    destination: Option<Seq<char>>,
    bytes: Seq<u8>,
) -> DavPlanView {
    let rel = dav_rel(path);
    let abs = dav_target(base, rel);
    if method == "OPTIONS"@ {
        DavPlanView::Answer(options_reply())
    } else if method == "GET"@ || method == "HEAD"@ {
        DavPlanView::Serve(abs)
    } else if method == "PUT"@ {
        DavPlanView::Put { path: abs, parent: parent(abs) }
    } else if method == "DELETE"@ {
        DavPlanView::Delete(abs)
    } else if method == "MKCOL"@ {
        DavPlanView::MakeDir(abs)
    } else if method == "PROPFIND"@ {
        DavPlanView::Find { rel, path: abs, deep: depth != Some("0"@) }
    } else if method == "COPY"@ || method == "MOVE"@ {
        transfer_plan(method, base, abs, destination)
    } else if method == "LOCK"@ {
        DavPlanView::Answer(lock_reply(bytes))
    } else if method == "UNLOCK"@ {
        DavPlanView::Answer(bare(204))
    } else if method == "PROPPATCH"@ {
        DavPlanView::Answer(proppatch_reply())
    } else {
        DavPlanView::Answer(bare(405))
    }
}

/// What is to be done to copy or move.
pub open spec fn transfer_plan(
    method: Seq<char>,
    base: Seq<char>,
    from: Seq<char>,
    destination: Option<Seq<char>>,
) -> DavPlanView {
    match destination {
        Some(d) => {
            let to = dav_target(base, dav_destination(d));
            if d.len() == 0 {
                DavPlanView::Answer(bare(400))
            } else if method == "COPY"@ {
                DavPlanView::Copy { from, to, parent: parent(to) }
            } else {
                DavPlanView::Move { from, to, parent: parent(to) }
            }
        },
        None => DavPlanView::Answer(bare(400)),
    }
}

/// The path of whatever a request asks for starts with the components of the folder that the user
/// sees as the root. What follows them may still be `..`.
pub proof fn law_dav_target_below_base(base: Seq<char>, rel: Seq<char>)
    ensures
        components(base).is_prefix_of(components(dav_target(base, rel))),
{
    lemma_trim_start_relative(rel);
    lemma_joined_below(base, trim_start(rel, '/'));
}

/// A request without a `..` lies in the folder that the user sees as the root: at the names of the
/// path asked for.
pub proof fn law_dav_target_follows_its_names(base: Seq<char>, rel: Seq<char>)
    requires
        base.len() > 0,
        !split(rel, '/').contains(dot_dot()),
    ensures
        components(dav_target(base, rel)) == components(base) + names(rel).map_values(
            |n: Seq<char>| Part::Name(n),
        ),
{
    lemma_trim_start_relative(rel);
    lemma_joined_components(base, trim_start(rel, '/'));
    lemma_parts_of_trimmed(rel);
    lemma_parts_are_names(split(rel, '/'));
}

/// Where a path below the mount point lies on disk. The check of the components never fails.
fn target(base: &str, rel: &str) -> (r: Result<String, Reply>)
    ensures
        r matches Ok(p) && p@ == dav_target(base@, rel@),
{
    let abs = join_path(base, trim_start_char(rel, '/').as_str());
    proof {
        law_dav_target_below_base(base@, rel@);
    }
    if !path_starts_with(abs.as_str(), base) {
        return Err(Reply::bare(403));
    }
    Ok(abs)
}

/// The path that a `Destination` header names.
fn destination_path(header: &str) -> (r: String)
    ensures
        r@ == dav_destination(header@),
{
    match find(header, "/dav") {
        Some(idx) => {
            let cs = to_chars(header);
            proof {
                reveal_strlit("/dav");
                assert(cs@.subrange(idx + 4, cs@.len() as int) =~= header@.skip(idx + 4));
            }
            let n: usize = cs.len();
            slice_text(&cs, idx + 4, n)
        },
        None => header.to_owned(),
    }
}

/// The answer to `LOCK`, with the given bytes for a name.
pub fn lock_answer(bytes: &Vec<u8>) -> (r: Reply)
    requires
        bytes@.len() * 2 <= usize::MAX,
    ensures
        r@ == lock_reply(bytes@),
{
    let token = cat("urn:uuid:cloudone-lock-", hex_encode(bytes.as_slice()).as_str());
    let body = cat3(
        "<?xml version=\"1.0\" encoding=\"utf-8\"?>\n<D:prop xmlns:D=\"DAV:\"><D:lockdiscovery><D:activelock>\n<D:locktype><D:write/></D:locktype>\n<D:lockscope><D:exclusive/></D:lockscope>\n<D:depth>infinity</D:depth>\n<D:timeout>Second-3600</D:timeout>\n<D:locktoken><D:href>",
        token.as_str(),
        "</D:href></D:locktoken>\n</D:activelock></D:lockdiscovery></D:prop>",
    );
    let r = Reply::bare(200).with_header("Lock-Token", cat3("<", token.as_str(), ">").as_str()).with_header(
        "content-type",
        "application/xml; charset=utf-8",
    ).with_body(body);
    assert(r@ =~= lock_reply(bytes@));
    r
}

/// The answer to `OPTIONS`.
fn options_answer() -> (r: Reply)
    ensures
        r@ == options_reply(),
{
    let r = Reply::bare(200).with_header("DAV", "1, 2").with_header(
        "allow",
        "OPTIONS, GET, HEAD, PUT, DELETE, MKCOL, COPY, MOVE, PROPFIND, PROPPATCH, LOCK, UNLOCK",
    ).with_header("ms-author-via", "DAV");
    assert(r@ =~= options_reply());
    r
}

/// The answer to `PROPPATCH`.
fn proppatch_answer() -> (r: Reply)
    ensures
        r@ == proppatch_reply(),
{
    let body: String = "<?xml version=\"1.0\" encoding=\"utf-8\"?><D:multistatus xmlns:D=\"DAV:\"></D:multistatus>".to_owned();
    let r = Reply::bare(207).with_header("content-type", "application/xml; charset=utf-8").with_body(
        body,
    );
    assert(r@ =~= proppatch_reply());
    r
}

/// What is to be done to copy or move.
fn plan_transfer(method: &str, base: &str, from: String, destination: Option<String>) -> (r: DavPlan)
    ensures
        r@ == transfer_plan(method@, base@, from@, opt_text(destination)),
{
    match destination {
        Some(d) => {
            if d.as_str().unicode_len() == 0 {
                return DavPlan::Answer(Reply::bare(400));
            }
            let dest = destination_path(d.as_str());
            match target(base, dest.as_str()) {
                Ok(to) => {
                    let parent = parent_of(to.as_str());
                    if same(method, "COPY") {
                        DavPlan::Copy { from, to, parent }
                    } else {
                        DavPlan::Move { from, to, parent }
                    }
                },
                Err(e) => DavPlan::Answer(e),
            }
        },
        None => DavPlan::Answer(Reply::bare(400)),
    }
}

/// What is to be done for a request; `bytes` names the lock that a `LOCK` request is told of.
pub fn plan_with(
    session: &DavSession,
    method: &str,
    path: &str,
    depth: Option<String>,
    destination: Option<String>,
    bytes: &Vec<u8>,
) -> (r: DavPlan)
    requires
        bytes@.len() * 2 <= usize::MAX,
    ensures
        r@ == dav_plan(
            method@,
            session.base_view(),
            path@,
            opt_text(depth),
            opt_text(destination),
            bytes@,
        ),
{
    let rel = strip_all_prefix(path, "/dav");
    let abs = match target(session.base.as_str(), rel.as_str()) {
        Ok(p) => p,
        Err(e) => {
            return DavPlan::Answer(e);
        },
    };
    if same(method, "OPTIONS") {
        DavPlan::Answer(options_answer())
    } else if same(method, "GET") || same(method, "HEAD") {
        DavPlan::Serve(abs)
    } else if same(method, "PUT") {
        let parent = parent_of(abs.as_str());
        DavPlan::Put { path: abs, parent }
    } else if same(method, "DELETE") {
        DavPlan::Delete(abs)
    } else if same(method, "MKCOL") {
        DavPlan::MakeDir(abs)
    } else if same(method, "PROPFIND") {
        let deep = match depth {
            Some(d) => !same(d.as_str(), "0"),
            None => true,
        };
        DavPlan::Find { rel, path: abs, deep }
    } else if same(method, "COPY") || same(method, "MOVE") {
        plan_transfer(method, session.base.as_str(), abs, destination)
    } else if same(method, "LOCK") {
        DavPlan::Answer(lock_answer(bytes))
    } else if same(method, "UNLOCK") {
        DavPlan::Answer(Reply::bare(204))
    } else if same(method, "PROPPATCH") {
        DavPlan::Answer(proppatch_answer())
    } else {
        DavPlan::Answer(Reply::bare(405))
    }
}

/// A plan is one for a request, whatever lock is given out.
pub open spec fn handles(
    plan: DavPlanView,
    base: Seq<char>,
    method: Seq<char>,
    path: Seq<char>,
    depth: Option<Seq<char>>,
    destination: Option<Seq<char>>,
) -> bool {
    exists|bytes: Seq<u8>|
        bytes.len() == 8 && plan == #[trigger] dav_plan(method, base, path, depth, destination, bytes)
}

/// What is to be done for a request that has passed both gates, from its method, its path, and
/// the headers `Depth` and `Destination`.
pub fn webdav_handler(
    session: &DavSession,
    method: &str,
    path: &str,
    depth: Option<String>,
    destination: Option<String>,
) -> (r: DavPlan)
    ensures
        handles(
            r@,
            session.base_view(),
            method@,
            path@,
            opt_text(depth),
            opt_text(destination),
        ),
        exists|bytes: Seq<u8>|
            bytes.len() == 8 && r@ == #[trigger] dav_plan(
                method@,
                session.base_view(),
                path@,
                opt_text(depth),
                opt_text(destination),
                bytes,
            ),
{
    let bytes = random_bytes(8);
    plan_with(session, method, path, depth, destination, &bytes)
}

// ---------------------------------------------------------------------------
// How the work is answered
// ---------------------------------------------------------------------------

/// The answer to `PUT`, `MKCOL`, `COPY` and `MOVE`.
pub fn created(ok: bool) -> (r: Reply)
    ensures
        r@ == bare(
            if ok {
                201
            } else {
                500
            },
        ),
{
    if ok {
        Reply::bare(201)
    } else {
        Reply::bare(500)
    }
}

/// The answer to `DELETE`.
pub fn deleted(ok: bool) -> (r: Reply)
    ensures
        r@ == bare(
            if ok {
                204
            } else {
                500
            },
        ),
{
    if ok {
        Reply::bare(204)
    } else {
        Reply::bare(500)
    }
}

/// What is known of a resource: whether it is a folder, its length, and when it was last modified,
/// in seconds since the Unix epoch.
#[derive(Debug, Clone, Copy)]
pub struct DavMeta {
    pub is_dir: bool,
    pub len: u64,
    pub modified: Option<u64>,
}

/// The address of a resource; that of a folder ends in a slash.
pub open spec fn href(rel: Seq<char>, is_dir: bool) -> Seq<char> {
    if is_dir && !"/"@.is_suffix_of(rel) {
        "/dav"@ + rel + "/"@
    } else {
        "/dav"@ + rel
    }
}

/// The name of a resource: what follows the last slash, trailing slashes aside.
pub open spec fn display_name(rel: Seq<char>) -> Seq<char> {
    split(trim_end(rel, '/'), '/').last()
}

/// The description of one resource.
pub open spec fn propfind_entry(rel: Seq<char>, md: DavMeta) -> Seq<char> {
    "<D:response><D:href>"@ + href(rel, md.is_dir) + "</D:href><D:propstat><D:prop>"@ + (if md.is_dir {
        "<D:resourcetype><D:collection/></D:resourcetype>"@
    } else {
        "<D:resourcetype/><D:getcontentlength>"@ + digits(md.len as nat) + "</D:getcontentlength>"@
    }) + "<D:getlastmodified>"@ + (match md.modified {
        Some(secs) => http_date(secs as int),
        None => Seq::<char>::empty(),
    }) + "</D:getlastmodified><D:displayname>"@ + display_name(rel)
        + "</D:displayname></D:prop><D:status>HTTP/1.1 200 OK</D:status></D:propstat></D:response>"@
}

/// Adds the description of one resource.
pub fn write_propfind_entry(body: &mut String, rel: &str, md: &DavMeta)
    ensures
        final(body)@ == old(body)@ + propfind_entry(rel@, *md),
{
    let mut s: String = "<D:response><D:href>".to_owned();
    if md.is_dir && !ends_with(rel, "/") {
        s.append(cat3("/dav", rel, "/").as_str());
    } else {
        s.append(cat("/dav", rel).as_str());
    }
    s.append("</D:href><D:propstat><D:prop>");
    if md.is_dir {
        s.append("<D:resourcetype><D:collection/></D:resourcetype>");
    } else {
        s.append(
            cat3(
                "<D:resourcetype/><D:getcontentlength>",
                decimal(md.len).as_str(),
                "</D:getcontentlength>",
            ).as_str(),
        );
    }
    s.append("<D:getlastmodified>");
    match md.modified {
        Some(secs) => {
            s.append(http_date_text(secs).as_str());
        },
        None => {
            assert(s@ + Seq::<char>::empty() =~= s@);
        },
    }
    s.append("</D:getlastmodified><D:displayname>");
    let pieces = split_on(trim_end_char(rel, '/').as_str(), '/');
    let n: usize = pieces.len();
    assert(texts(pieces@)[n - 1] == pieces@[n - 1]@);
    s.append(pieces[n - 1].as_str());
    s.append("</D:displayname></D:prop><D:status>HTTP/1.1 200 OK</D:status></D:propstat></D:response>");
    body.append(s.as_str());
}

/// The path of what is in a folder.
pub open spec fn child_rel(rel: Seq<char>, name: Seq<char>) -> Seq<char> {
    if "/"@.is_suffix_of(rel) {
        rel + name
    } else {
        rel + "/"@ + name
    }
}

/// The descriptions of what is in a folder, one after the other.
pub open spec fn child_entries(rel: Seq<char>, children: Seq<(String, DavMeta)>) -> Seq<char>
    decreases children.len(),
{
    if children.len() == 0 {
        Seq::<char>::empty()
    } else {
        child_entries(rel, children.drop_last()) + propfind_entry(
            child_rel(rel, children.last().0@),
            children.last().1,
        )
    }
}

/// The answer to `PROPFIND` on a resource that is there.
pub open spec fn propfind_reply(
    rel: Seq<char>,
    md: DavMeta,
    deep: bool,
    children: Seq<(String, DavMeta)>,
) -> ReplyView {
    ReplyView {
        status: 207,
        headers: seq![("content-type"@, "application/xml; charset=utf-8"@)],
        body: "<?xml version=\"1.0\" encoding=\"utf-8\"?><D:multistatus xmlns:D=\"DAV:\">"@
            + propfind_entry(rel, md) + (if md.is_dir && deep {
            child_entries(rel, children)
        } else {
            Seq::<char>::empty()
        }) + "</D:multistatus>"@,
    }
}

/// The answer to `PROPFIND`: 404 where the resource is not there, else a description of it, and of
/// what is in it where the request asks for that.
pub fn dav_propfind(
    rel: &str,
    md: Option<DavMeta>,
    deep: bool,
    children: &Vec<(String, DavMeta)>,
) -> (r: Reply)
    ensures
        r@ == (match md {
            Some(m) => propfind_reply(rel@, m, deep, children@),
            None => bare(404),
        }),
{
    let md = match md {
        Some(m) => m,
        None => {
            return Reply::bare(404);
        },
    };
    let mut body: String = "<?xml version=\"1.0\" encoding=\"utf-8\"?><D:multistatus xmlns:D=\"DAV:\">".to_owned();
    write_propfind_entry(&mut body, rel, &md);
    let ghost start = body@;
    if md.is_dir && deep {
        let base: String = if ends_with(rel, "/") {
            rel.to_owned()
        } else {
            cat(rel, "/")
        };
        let mut i: usize = 0;
        assert(body@ =~= start + child_entries(rel@, children@.take(0)));
        while i < children.len()
            invariant
                i <= children@.len(),
                base@ == if "/"@.is_suffix_of(rel@) {
                    rel@
                } else {
                    rel@ + "/"@
                },
                body@ == start + child_entries(rel@, children@.take(i as int)),
            decreases children.len() - i,
        {
            let child = cat(base.as_str(), children[i].0.as_str());
            write_propfind_entry(&mut body, child.as_str(), &children[i].1);
            proof {
                let t = children@.take(i + 1);
                assert(t.drop_last() =~= children@.take(i as int));
                assert(t.last() == children@[i as int]);
                assert(body@ =~= start + child_entries(rel@, t));
            }
            i = i + 1;
        }
        assert(children@.take(children@.len() as int) =~= children@);
    } else {
        assert(body@ =~= start + Seq::<char>::empty());
    }
    body.append("</D:multistatus>");
    let r = Reply::bare(207).with_header("content-type", "application/xml; charset=utf-8").with_body(
        body,
    );
    assert(r@ =~= propfind_reply(rel@, md, deep, children@));
    r
}

// ---------------------------------------------------------------------------
// Laws
// ---------------------------------------------------------------------------

/// The methods are told apart.
proof fn lemma_methods()
    ensures
        "OPTIONS"@.len() == 7,
        "GET"@.len() == 3 && "GET"@[0] == 'G',
        "HEAD"@.len() == 4 && "HEAD"@[0] == 'H',
        "PUT"@.len() == 3 && "PUT"@[0] == 'P',
        "DELETE"@.len() == 6 && "DELETE"@[0] == 'D',
        "MKCOL"@.len() == 5,
        "PROPFIND"@.len() == 8,
        "COPY"@.len() == 4 && "COPY"@[0] == 'C',
        "MOVE"@.len() == 4 && "MOVE"@[0] == 'M',
        "LOCK"@.len() == 4 && "LOCK"@[0] == 'L',
        "UNLOCK"@.len() == 6 && "UNLOCK"@[0] == 'U',
        "PROPPATCH"@.len() == 9,
{
    reveal_strlit("OPTIONS");
    reveal_strlit("GET");
    reveal_strlit("HEAD");
    reveal_strlit("PUT");
    reveal_strlit("DELETE");
    reveal_strlit("MKCOL");
    reveal_strlit("PROPFIND");
    reveal_strlit("COPY");
    reveal_strlit("MOVE");
    reveal_strlit("LOCK");
    reveal_strlit("UNLOCK");
    reveal_strlit("PROPPATCH");
}

/// What follows the mount point is the path of a request.
proof fn lemma_mounted(p: Seq<char>)
    requires
        !"/dav"@.is_prefix_of(p),
    ensures
        dav_rel("/dav"@ + p) == p,
{
    reveal_strlit("/dav");
    let m = "/dav"@;
    assert((m + p).skip(4) =~= p);
    assert((m + p).subrange(0, 4) =~= m);
    assert(strip_all(p, m) == p);
}

/// A folder is described together with what is in it unless the request gives the depth 0: every
/// other depth asks for the same as none.
pub proof fn law_depth_zero_alone_is_shallow(
    base: Seq<char>,
    path: Seq<char>,
    depth: Seq<char>,
    destination: Option<Seq<char>>,
    bytes: Seq<u8>,
)
    ensures
        ({
            let none = dav_plan("PROPFIND"@, base, path, None, destination, bytes);
            let some = dav_plan("PROPFIND"@, base, path, Some(depth), destination, bytes);
            let one = dav_plan("PROPFIND"@, base, path, Some("1"@), destination, bytes);
            &&& none matches DavPlanView::Find { rel: r, path: p, deep: d } && d
            &&& some matches DavPlanView::Find { rel: r, path: p, deep: d } && (d <==> depth != seq!['0'])
            &&& depth != seq!['0'] ==> some == none
            &&& one == none
            &&& some is Find && some->Find_rel == none->Find_rel && some->Find_path == none->Find_path
        }),
{
    lemma_methods();
    reveal_strlit("0");
    reveal_strlit("1");
    assert("0"@ =~= seq!['0']);
    assert("1"@[0] == '1');
}

/// Every method acts on the resource that the path below the mount point names: the one at its names,
/// in the folder that the user sees as the root.
pub proof fn law_dav_methods_act_on_the_resource(
    base: Seq<char>,
    p: Seq<char>,
    depth: Option<Seq<char>>,
    destination: Option<Seq<char>>,
    bytes: Seq<u8>,
)
    requires
        base.len() > 0,
        !"/dav"@.is_prefix_of(p),
        !split(p, '/').contains(dot_dot()),
    ensures
        ({
            let plan = |m: Seq<char>| dav_plan(m, base, "/dav"@ + p, depth, destination, bytes);
            let place = components(base) + names(p).map_values(|n: Seq<char>| Part::Name(n));
            &&& plan("GET"@) matches DavPlanView::Serve(t) && components(t) == place
            &&& plan("HEAD"@) == plan("GET"@)
            &&& plan("PUT"@) matches DavPlanView::Put { path: t, parent: up } && components(t) == place && (
            up matches Some(d) ==> components(d) == place.drop_last()) && (up is None ==> place.len() == 0
                || place == seq![Part::Root])
            &&& plan("DELETE"@) matches DavPlanView::Delete(t) && components(t) == place
            &&& plan("MKCOL"@) matches DavPlanView::MakeDir(t) && components(t) == place
            &&& plan("PROPFIND"@) matches DavPlanView::Find { rel: r, path: t, deep: d } && r == p
                && components(t) == place
        }),
{
    lemma_methods();
    lemma_mounted(p);
    law_dav_target_follows_its_names(base, p);
    law_parent_lacks_the_last_component(dav_target(base, p));
}

/// A copy goes from the resource that the path names to the one that the header names, and so does a
/// move.
pub proof fn law_dav_transfers_go_where_the_header_says(
    base: Seq<char>,
    path: Seq<char>,
    depth: Option<Seq<char>>,
    host: Seq<char>,
    q: Seq<char>,
    bytes: Seq<u8>,
)
    requires
        base.len() > 0,
        forall|i: int| 0 <= i < host.len() ==> !#[trigger] occurs_at(host + "/dav"@ + q, "/dav"@, i),
        !split(q, '/').contains(dot_dot()),
    ensures
        ({
            let plan = |m: Seq<char>|
                dav_plan(m, base, path, depth, Some(host + "/dav"@ + q), bytes);
            let place = components(base) + names(q).map_values(|n: Seq<char>| Part::Name(n));
            &&& plan("COPY"@) matches DavPlanView::Copy { from: f, to: t, parent: up } && plan("GET"@)
                == DavPlanView::Serve(f) && components(t) == place && (up matches Some(d) ==> components(d)
                == place.drop_last()) && (up is None ==> place.len() == 0 || place == seq![Part::Root])
                && plan("MOVE"@) == (DavPlanView::Move { from: f, to: t, parent: up })
        }),
{
    lemma_methods();
    reveal_strlit("/dav");
    let m = "/dav"@;
    let header = host + m + q;
    let i = host.len() as int;
    assert(header.subrange(i, i + 4) =~= m);
    assert(occurs_at(header, m, i));
    assert(first_at(header, m, i));
    let j = position(header, m);
    assert(first_at(header, m, j));
    assert(occurs_at(header, m, i) && occurs_at(header, m, j));
    assert(i == j);
    assert(header.skip(i + 4) =~= q);
    law_dav_target_follows_its_names(base, q);
    law_parent_lacks_the_last_component(dav_target(base, q));
}

/// A copy or move without a destination is refused and touches nothing, and a method that is not
/// known as well.
pub proof fn law_dav_refusals(
    method: Seq<char>,
    base: Seq<char>,
    path: Seq<char>,
    depth: Option<Seq<char>>,
    bytes: Seq<u8>,
)
    ensures
        method == "COPY"@ || method == "MOVE"@ ==> (dav_plan(method, base, path, depth, None, bytes) matches DavPlanView::Answer(
            r,
        ) && r.status == 400 && r.body.len() == 0),
        method == "COPY"@ || method == "MOVE"@ ==> (dav_plan(
            method,
            base,
            path,
            depth,
            Some(Seq::<char>::empty()),
            bytes,
        ) matches DavPlanView::Answer(r) && r.status == 400 && r.body.len() == 0),
        ![
            "OPTIONS"@,
            "GET"@,
            "HEAD"@,
            "PUT"@,
            "DELETE"@,
            "MKCOL"@,
            "PROPFIND"@,
            "COPY"@,
            "MOVE"@,
            "LOCK"@,
            "UNLOCK"@,
            "PROPPATCH"@,
        ]@.contains(method) ==> (dav_plan(method, base, path, depth, None, bytes) matches DavPlanView::Answer(
            r,
        ) && r.status == 405 && r.body.len() == 0),
{
    lemma_methods();
    let known = [
        "OPTIONS"@,
        "GET"@,
        "HEAD"@,
        "PUT"@,
        "DELETE"@,
        "MKCOL"@,
        "PROPFIND"@,
        "COPY"@,
        "MOVE"@,
        "LOCK"@,
        "UNLOCK"@,
        "PROPPATCH"@,
    ]@;
    assert(known[0] == "OPTIONS"@ && known[1] == "GET"@ && known[2] == "HEAD"@ && known[3] == "PUT"@
        && known[4] == "DELETE"@ && known[5] == "MKCOL"@ && known[6] == "PROPFIND"@ && known[7] == "COPY"@
        && known[8] == "MOVE"@ && known[9] == "LOCK"@ && known[10] == "UNLOCK"@ && known[11]
        == "PROPPATCH"@);
}

/// What stands between two texts occurs in the whole.
proof fn lemma_occurs_between(a: Seq<char>, p: Seq<char>, b: Seq<char>)
    ensures
        occurs(a + p + b, p),
{
    let s = a + p + b;
    assert(s.subrange(a.len() as int, (a.len() + p.len()) as int) =~= p);
    assert(occurs_at(s, p, a.len() as int));
}

/// A lock is told of by one name, in the header and in the body, and two locks have two names.
pub proof fn law_locks_are_told_apart(
    base: Seq<char>,
    path: Seq<char>,
    depth: Option<Seq<char>>,
    destination: Option<Seq<char>>,
    a: Seq<u8>,
    b: Seq<u8>,
)
    ensures
        ({
            let plan = |bytes: Seq<u8>| dav_plan("LOCK"@, base, path, depth, destination, bytes);
            &&& plan(a) matches DavPlanView::Answer(r) && r.status == 200 && r.headers.contains(
                ("Lock-Token"@, "<"@ + lock_token(a) + ">"@),
            ) && occurs(r.body, "<D:href>"@ + lock_token(a) + "</D:href>"@)
            &&& lock_token(a) == lock_token(b) ==> a == b
        }),
{
    lemma_methods();
    let r = lock_reply(a);
    assert(r.headers[0] == ("Lock-Token"@, "<"@ + lock_token(a) + ">"@));
    let head = "<?xml version=\"1.0\" encoding=\"utf-8\"?>\n<D:prop xmlns:D=\"DAV:\"><D:lockdiscovery><D:activelock>\n<D:locktype><D:write/></D:locktype>\n<D:lockscope><D:exclusive/></D:lockscope>\n<D:depth>infinity</D:depth>\n<D:timeout>Second-3600</D:timeout>\n<D:locktoken><D:href>"@;
    let tail = "</D:href></D:locktoken>\n</D:activelock></D:lockdiscovery></D:prop>"@;
    reveal_strlit(
        "<?xml version=\"1.0\" encoding=\"utf-8\"?>\n<D:prop xmlns:D=\"DAV:\"><D:lockdiscovery><D:activelock>\n<D:locktype><D:write/></D:locktype>\n<D:lockscope><D:exclusive/></D:lockscope>\n<D:depth>infinity</D:depth>\n<D:timeout>Second-3600</D:timeout>\n<D:locktoken><D:href>",
    );
    reveal_strlit("</D:href></D:locktoken>\n</D:activelock></D:lockdiscovery></D:prop>");
    reveal_strlit("<D:href>");
    reveal_strlit("</D:href>");
    let x = head.len() - 8;
    assert(head =~= head.take(x) + "<D:href>"@);
    assert(tail =~= "</D:href>"@ + tail.skip(9));
    assert(r.body =~= head.take(x) + ("<D:href>"@ + lock_token(a) + "</D:href>"@) + tail.skip(9));
    lemma_occurs_between(head.take(x), "<D:href>"@ + lock_token(a) + "</D:href>"@, tail.skip(9));
    if lock_token(a) == lock_token(b) {
        let u = "urn:uuid:cloudone-lock-"@;
        assert(lock_token(a).skip(u.len() as int) =~= hex_text(a));
        assert(lock_token(b).skip(u.len() as int) =~= hex_text(b));
        law_hex_text_is_read_back(a, b);
    }
}

/// A client that asks for an address that it was told of reaches the resource with that address; that
/// of a folder ends in a slash.
pub proof fn law_told_address_leads_back(rel: Seq<char>, is_dir: bool)
    requires
        !"/dav"@.is_prefix_of(rel),
    ensures
        names(dav_rel(href(rel, is_dir))) == names(rel),
        is_dir ==> href(rel, is_dir).last() == '/',
        !is_dir ==> href(rel, is_dir) == "/dav"@ + rel,
{
    reveal_strlit("/dav");
    reveal_strlit("/");
    let m = "/dav"@;
    lemma_mounted(rel);
    assert("/"@ =~= seq!['/']);
    if is_dir && !"/"@.is_suffix_of(rel) {
        let t = rel + "/"@;
        assert(!m.is_prefix_of(t)) by {
            if m.is_prefix_of(t) {
                assert(t.subrange(0, 4) =~= m);
                if rel.len() >= 4 {
                    assert(rel.subrange(0, 4) =~= t.subrange(0, 4));
                } else {
                    assert(t[3] == m[3]);
                }
            }
        }
        lemma_mounted(t);
        assert(href(rel, is_dir) =~= m + t);
        lemma_names_concat(rel, Seq::<char>::empty());
        lemma_no_names();
        assert(t =~= rel + seq!['/'] + Seq::<char>::empty());
        assert(names(t) =~= names(rel));
    } else if is_dir {
        assert(rel.last() == '/') by {
            assert(rel.subrange(rel.len() - 1, rel.len() as int) =~= "/"@);
            assert(rel.subrange(rel.len() - 1, rel.len() as int)[0] == rel.last());
        }
    }
}

/// What is in a folder has the names of the folder and its own, and is called by its own.
pub proof fn law_child_is_below_its_folder(rel: Seq<char>, name: Seq<char>)
    requires
        name.len() > 0,
        name != seq!['.'],
        name != seq!['.', '.'],
        !name.contains('/'),
    ensures
        names(child_rel(rel, name)) == names(rel).push(name),
        display_name(child_rel(rel, name)) == name,
{
    reveal_strlit("/");
    let c = child_rel(rel, name);
    let e = Seq::<char>::empty();
    assert("/"@ =~= seq!['/']);
    let front = if "/"@.is_suffix_of(rel) {
        rel.drop_last()
    } else {
        rel
    };
    if "/"@.is_suffix_of(rel) {
        assert(rel.subrange(rel.len() - 1, rel.len() as int)[0] == rel.last());
        assert(rel =~= front + seq!['/'] + e);
        lemma_names_concat(front, e);
        lemma_no_names();
        assert(names(rel) =~= names(front));
    }
    assert(c =~= front + seq!['/'] + name);
    assert(c =~= front.push('/') + name);
    lemma_names_concat(front, name);
    law_path_of_names(seq![name]);
    assert(join(seq![name], '/') == name);
    assert(names(front) + seq![name] =~= names(front).push(name));
    assert(c.last() == name.last());
    assert(c.last() != '/') by {
        assert(name.last() == name[name.len() - 1]);
    }
    assert(trim_end(c, '/') =~= c);
    lemma_split_concat(front, name, '/');
    lemma_split_whole(name, '/');
    assert(split(c, '/').last() == name);
}

/// A description gives the address, the kind, the length of a file, when it was last modified, and the
/// name.
pub proof fn law_description_says_what_is_known(rel: Seq<char>, md: DavMeta)
    ensures
        ({
            let entry = propfind_entry(rel, md);
            &&& ("<D:response><D:href>"@ + href(rel, md.is_dir) + "</D:href>"@).is_prefix_of(entry)
            &&& md.is_dir ==> occurs(entry, "<D:resourcetype><D:collection/></D:resourcetype>"@)
            &&& !md.is_dir ==> occurs(
                entry,
                "<D:resourcetype/><D:getcontentlength>"@ + digits(md.len as nat)
                    + "</D:getcontentlength>"@,
            )
            &&& md.modified matches Some(secs) ==> occurs(
                entry,
                "<D:getlastmodified>"@ + http_date(secs as int) + "</D:getlastmodified>"@,
            )
            &&& occurs(entry, "<D:displayname>"@ + display_name(rel) + "</D:displayname>"@)
        }),
{
    let entry = propfind_entry(rel, md);
    let a = "<D:response><D:href>"@ + href(rel, md.is_dir);
    let b = "</D:href><D:propstat><D:prop>"@;
    let kind = if md.is_dir {
        "<D:resourcetype><D:collection/></D:resourcetype>"@
    } else {
        "<D:resourcetype/><D:getcontentlength>"@ + digits(md.len as nat) + "</D:getcontentlength>"@
    };
    let c = "<D:getlastmodified>"@;
    let date = match md.modified {
        Some(secs) => http_date(secs as int),
        None => Seq::<char>::empty(),
    };
    let d = "</D:getlastmodified><D:displayname>"@;
    let name = display_name(rel);
    let e = "</D:displayname></D:prop><D:status>HTTP/1.1 200 OK</D:status></D:propstat></D:response>"@;
    reveal_strlit("</D:href><D:propstat><D:prop>");
    reveal_strlit("</D:href>");
    reveal_strlit("</D:getlastmodified><D:displayname>");
    reveal_strlit("</D:getlastmodified>");
    reveal_strlit("<D:displayname>");
    reveal_strlit("</D:displayname>");
    reveal_strlit(
        "</D:displayname></D:prop><D:status>HTTP/1.1 200 OK</D:status></D:propstat></D:response>",
    );
    assert(entry =~= a + b + kind + c + date + d + name + e);
    assert(b =~= "</D:href>"@ + b.skip(9));
    assert(entry.subrange(0, (a + "</D:href>"@).len() as int) =~= a + "</D:href>"@);
    assert(entry =~= (a + b) + kind + (c + date + d + name + e));
    lemma_occurs_between(a + b, kind, c + date + d + name + e);
    assert(d =~= "</D:getlastmodified>"@ + "<D:displayname>"@);
    let mid = c + date + "</D:getlastmodified>"@;
    assert(entry =~= (a + b + kind) + mid + ("<D:displayname>"@ + name + e));
    lemma_occurs_between(a + b + kind, mid, "<D:displayname>"@ + name + e);
    assert(e =~= "</D:displayname>"@ + e.skip(16));
    let last = "<D:displayname>"@ + name + "</D:displayname>"@;
    assert(entry =~= (a + b + kind + mid) + last + e.skip(16));
    lemma_occurs_between(a + b + kind + mid, last, e.skip(16));
}

/// The descriptions of what is in a folder follow each other, one for each.
pub proof fn law_children_are_described_in_order(
    rel: Seq<char>,
    a: Seq<(String, DavMeta)>,
    b: Seq<(String, DavMeta)>,
    c: (String, DavMeta),
)
    ensures
        child_entries(rel, a + b) == child_entries(rel, a) + child_entries(rel, b),
        child_entries(rel, seq![c]) == propfind_entry(child_rel(rel, c.0@), c.1),
        child_entries(rel, Seq::<(String, DavMeta)>::empty()).len() == 0,
    decreases b.len(),
{
    let none = Seq::<(String, DavMeta)>::empty();
    assert(seq![c].drop_last() =~= none);
    reveal_with_fuel(child_entries, 2);
    assert(child_entries(rel, seq![c]) =~= propfind_entry(child_rel(rel, c.0@), c.1));
    if b.len() == 0 {
        assert(a + b =~= a);
        assert(child_entries(rel, a) + child_entries(rel, b) =~= child_entries(rel, a));
    } else {
        law_children_are_described_in_order(rel, a, b.drop_last(), c);
        assert((a + b).drop_last() =~= a + b.drop_last());
        assert((a + b).last() == b.last());
        assert(child_entries(rel, a + b) =~= child_entries(rel, a) + child_entries(rel, b));
    }
}

/// The answer to `PROPFIND` describes the resource first, and a folder that is asked for in depth is
/// followed by what is in it. Nothing else is described.
pub proof fn law_propfind_describes_the_folder_and_its_contents(
    rel: Seq<char>,
    md: DavMeta,
    deep: bool,
    children: Seq<(String, DavMeta)>,
)
    ensures
        ({
            let none = Seq::<(String, DavMeta)>::empty();
            let body = propfind_reply(rel, md, deep, children).body;
            let alone = propfind_reply(rel, md, false, none).body;
            &&& propfind_reply(rel, md, deep, children).status == 207
            &&& occurs(alone, propfind_entry(rel, md))
            &&& occurs(body, propfind_entry(rel, md))
            &&& !md.is_dir || !deep ==> body == alone
            &&& md.is_dir && deep ==> occurs(body, propfind_entry(rel, md) + child_entries(rel, children))
                && body.len() == alone.len() + child_entries(rel, children).len()
        }),
{
    let none = Seq::<(String, DavMeta)>::empty();
    let head = "<?xml version=\"1.0\" encoding=\"utf-8\"?><D:multistatus xmlns:D=\"DAV:\">"@;
    let tail = "</D:multistatus>"@;
    let own = propfind_entry(rel, md);
    let below = child_entries(rel, children);
    let body = propfind_reply(rel, md, deep, children).body;
    let alone = propfind_reply(rel, md, false, none).body;
    assert(alone =~= head + own + tail);
    lemma_occurs_between(head, own, tail);
    if md.is_dir && deep {
        assert(body =~= head + own + (below + tail));
        lemma_occurs_between(head, own, below + tail);
        assert(body =~= head + (own + below) + tail);
        lemma_occurs_between(head, own + below, tail);
    } else {
        assert(body =~= head + own + tail);
    }
}

/// Credentials are parted at the first colon: a password may hold more of them.
pub proof fn law_credentials_are_parted_at_the_first_colon(user: Seq<char>, password: Seq<char>)
    requires
        !user.contains(':'),
    ensures
        pair(user + seq![':'] + password) == (user, password),
{
    let s = user + seq![':'] + password;
    assert forall|j: int| 0 <= j < user.len() implies differs(':')(#[trigger] s[j]) by {
        assert(s[j] == user[j]);
    }
    assert(s[user.len() as int] == ':');
    lemma_lead(s, differs(':'), user.len());
    assert(s.take(user.len() as int) =~= user);
    assert(s.skip(user.len() as int + 1) =~= password);
}

/// Whoever enters gives the name in the settings, or that of the first account where the settings have
/// none, and the password whose hash is set for WebDAV, or that of the account where none is set.
/// Nothing else decides.
pub proof fn law_webdav_entry(
    settings: Settings,
    key: Seq<u8>,
    user: Seq<char>,
    password: Seq<char>,
    first: Option<Seq<char>>,
    other_first: Option<Seq<char>>,
    stored: Option<Seq<char>>,
    other_stored: Option<Seq<char>>,
)
    ensures
        settings.webdav_username@.len() > 0 ==> authorized(settings, key, user, password, first, stored)
            == authorized(settings, key, user, password, other_first, stored),
        settings.webdav_password_enc@.len() > 0 ==> authorized(
            settings,
            key,
            user,
            password,
            first,
            stored,
        ) == authorized(settings, key, user, password, first, other_stored),
        authorized(settings, key, user, password, first, stored) ==> user == if settings.webdav_username@.len()
            > 0 {
            settings.webdav_username@
        } else if first is Some {
            first->0
        } else {
            Seq::<char>::empty()
        },
        authorized(settings, key, user, password, first, stored) && settings.webdav_password_enc@.len()
            > 0 ==> (decrypted(key, settings.webdav_password_enc@) matches Some(h) && accepted(password, h)),
        authorized(settings, key, user, password, first, stored) && settings.webdav_password_enc@.len()
            == 0 ==> (stored matches Some(h) && accepted(password, h)),
        settings.webdav_password_enc@.len() == 0 && stored is None ==> !authorized(
            settings,
            key,
            user,
            password,
            first,
            stored,
        ),
        settings.webdav_username@.len() > 0 && user == settings.webdav_username@
            && settings.webdav_password_enc@.len() == 0 && (stored matches Some(h) && accepted(password, h))
            ==> authorized(settings, key, user, password, first, stored),
        settings.webdav_username@.len() == 0 && first == Some(user) && settings.webdav_password_enc@.len()
            > 0 && (decrypted(key, settings.webdav_password_enc@) matches Some(h) && accepted(password, h))
            ==> authorized(settings, key, user, password, first, stored),
{
}

/// The folder that a WebDAV user sees lies below the storage root: at the names in the settings, or
/// in `webdav` where there are none.
pub proof fn law_dav_folder_is_below_the_root(root: Seq<char>, sub_path: Seq<char>)
    requires
        root.len() > 0,
        !split(sub_path, '/').contains(dot_dot()),
    ensures
        components(dav_base(root, sub_path)) == components(root) + if sub_path.len() == 0 {
            seq![Part::Name("webdav"@)]
        } else {
            names(sub_path).map_values(|n: Seq<char>| Part::Name(n))
        },
{
    if sub_path.len() == 0 {
        reveal_strlit("webdav");
        assert("webdav"@.len() == 6);
        law_joined_name_is_the_last(root, "webdav"@);
        assert(components(root).push(Part::Name("webdav"@)) =~= components(root) + seq![
            Part::Name("webdav"@),
        ]);
    } else {
        law_dav_target_follows_its_names(root, sub_path);
    }
}

/// Nobody enters while the interface is off. What offers no basic credentials is asked for them. Neither
/// counts against the address.
pub proof fn law_gate_is_closed(
    r: Result<DavLogin, Reply>,
    enabled: bool,
    authorization: Seq<char>,
    before: RateLimiter,
    after: RateLimiter,
    ip: Seq<char>,
    now: u128,
)
    requires
        passes(r, enabled, authorization, before, after, ip, now),
        !enabled || authorization.len() < 6 || authorization.take(6) != "Basic "@,
    ensures
        after == before,
        r is Err,
        !enabled ==> r->Err_0@.status == 503,
        enabled ==> r->Err_0@.status == 401,
{
    reveal_strlit("Basic ");
    if "Basic "@.is_prefix_of(authorization) {
        assert(authorization.subrange(0, 6) =~= authorization.take(6));
    }
}

/// Where the interface is on, a name and a password in base 64 are those that were sent, unless the address
/// has asked too often; either way the request counts against it.
pub proof fn law_sent_credentials_are_read(
    r: Result<DavLogin, Reply>,
    text: Seq<char>,
    user: Seq<char>,
    password: Seq<char>,
    before: RateLimiter,
    after: RateLimiter,
    ip: Seq<char>,
    now: u128,
)
    requires
        passes(r, true, "Basic "@ + text, before, after, ip, now),
        base64_bytes(text) == Some(encode_utf8(user + seq![':'] + password)),
        !user.contains(':'),
    ensures
        counted(before, after, ip, now),
        r is Ok <==> live(before.hits_of(ip), before.window, now).len() < before.max,
        r matches Ok(l) ==> l.user@ == user && l.password@ == password,
        r matches Err(e) ==> e@.status == 429,
{
    reveal_strlit("Basic ");
    let b = "Basic "@;
    let a = b + text;
    let s = user + seq![':'] + password;
    assert(b.len() == 6);
    assert(a.subrange(0, 6) =~= b);
    assert(a.skip(6) =~= text);
    encode_utf8_valid_utf8(s);
    encode_utf8_decode_utf8(s);
    law_credentials_are_parted_at_the_first_colon(user, password);
}

/// The right name with the right password enters: the password that is set for WebDAV, and where none is
/// set, that of the account.
pub proof fn law_right_credentials_enter(
    settings: Settings,
    key: Seq<u8>,
    password: Seq<char>,
    first: Seq<char>,
    hash: Seq<char>,
)
    requires
        accepted(password, hash),
    ensures
        settings.webdav_username@.len() > 0 && settings.webdav_password_enc@.len() > 0 && decrypted(
            key,
            settings.webdav_password_enc@,
        ) == Some(hash) ==> authorized(settings, key, settings.webdav_username@, password, None, None),
        settings.webdav_username@.len() == 0 && settings.webdav_password_enc@.len() == 0 ==> authorized(
            settings,
            key,
            first,
            password,
            Some(first),
            Some(hash),
        ),
        settings.webdav_username@.len() > 0 && settings.webdav_password_enc@.len() == 0 ==> authorized(
            settings,
            key,
            settings.webdav_username@,
            password,
            None,
            Some(hash),
        ),
{
}

/// Who is authorized sees the folder that the settings name below the root, or the folder `webdav` where
/// they name none; everybody else is asked for credentials.
pub proof fn law_authorized_users_see_their_folder(
    r: Result<DavSession, Reply>,
    settings: Settings,
    key: Seq<u8>,
    root: Seq<char>,
    login: DavLogin,
    first_user: Option<Seq<char>>,
    stored: Option<Seq<char>>,
)
    requires
        admitted(r, settings, key, root, login, first_user, stored),
        root.len() > 0,
        !split(settings.webdav_sub_path@, '/').contains(dot_dot()),
    ensures
        r is Ok <==> authorized(settings, key, login.user@, login.password@, first_user, stored),
        r matches Ok(s) ==> components(s.base_view()) == components(root)
            + if settings.webdav_sub_path@.len() == 0 {
            seq![Part::Name("webdav"@)]
        } else {
            names(settings.webdav_sub_path@).map_values(|n: Seq<char>| Part::Name(n))
        },
        r matches Err(e) ==> e@.status == 401,
{
    law_dav_folder_is_below_the_root(root, settings.webdav_sub_path@);
}

/// What is to be done for a request does not depend on chance: only what a lock is called does.
pub proof fn law_only_locks_are_random(
    plan: DavPlanView,
    base: Seq<char>,
    method: Seq<char>,
    path: Seq<char>,
    depth: Option<Seq<char>>,
    destination: Option<Seq<char>>,
    bytes: Seq<u8>,
)
    requires
        handles(plan, base, method, path, depth, destination),
    ensures
        method != "LOCK"@ ==> plan == dav_plan(method, base, path, depth, destination, bytes),
        method == "LOCK"@ ==> exists|b: Seq<u8>|
            b.len() == 8 && plan == DavPlanView::Answer(#[trigger] lock_reply(b)),
{
    lemma_methods();
    let b = choose|b: Seq<u8>|
        b.len() == 8 && plan == #[trigger] dav_plan(method, base, path, depth, destination, b);
    if method == "LOCK"@ {
        assert(plan == DavPlanView::Answer(lock_reply(b)));
    }
}

/// The methods that are answered.
pub open spec fn methods() -> Seq<Seq<char>> {
    seq![
        "OPTIONS"@,
        "GET"@,
        "HEAD"@,
        "PUT"@,
        "DELETE"@,
        "MKCOL"@,
        "COPY"@,
        "MOVE"@,
        "PROPFIND"@,
        "PROPPATCH"@,
        "LOCK"@,
        "UNLOCK"@,
    ]
}

/// Each method that is answered stands in the list of those that are allowed, and any other method is
/// refused.
pub proof fn law_allowed_methods_are_answered(
    base: Seq<char>,
    method: Seq<char>,
    path: Seq<char>,
    depth: Option<Seq<char>>,
    destination: Option<Seq<char>>,
    bytes: Seq<u8>,
)
    ensures
        options_reply().status == 200,
        options_reply().headers.len() == 3,
        options_reply().headers[0] == ("DAV"@, "1, 2"@),
        options_reply().headers[1].0 == "allow"@,
        options_reply().headers[1].1 == methods()[0] + ", "@ + methods()[1] + ", "@ + methods()[2] + ", "@ + methods()[3] + ", "@ + methods()[4] + ", "@ + methods()[5] + ", "@ + methods()[6] + ", "@ + methods()[7] + ", "@ + methods()[8] + ", "@ + methods()[9] + ", "@ + methods()[10] + ", "@ + methods()[11],
        methods().contains(method) ==> dav_plan(method, base, path, depth, destination, bytes)
            != DavPlanView::Answer(bare(405)),
        !methods().contains(method) ==> dav_plan(method, base, path, depth, destination, bytes)
            == DavPlanView::Answer(bare(405)),
{
    lemma_methods();
    let t = methods();
    assert(t[0] == "OPTIONS"@);
    reveal_strlit("OPTIONS");
    assert(t[1] == "GET"@);
    reveal_strlit("GET");
    assert(t[2] == "HEAD"@);
    reveal_strlit("HEAD");
    assert(t[3] == "PUT"@);
    reveal_strlit("PUT");
    assert(t[4] == "DELETE"@);
    reveal_strlit("DELETE");
    assert(t[5] == "MKCOL"@);
    reveal_strlit("MKCOL");
    assert(t[6] == "COPY"@);
    reveal_strlit("COPY");
    assert(t[7] == "MOVE"@);
    reveal_strlit("MOVE");
    assert(t[8] == "PROPFIND"@);
    reveal_strlit("PROPFIND");
    assert(t[9] == "PROPPATCH"@);
    reveal_strlit("PROPPATCH");
    assert(t[10] == "LOCK"@);
    reveal_strlit("LOCK");
    assert(t[11] == "UNLOCK"@);
    reveal_strlit("UNLOCK");
    reveal_strlit(", ");
    reveal_strlit("OPTIONS, GET, HEAD, PUT, DELETE, MKCOL, COPY, MOVE, PROPFIND, PROPPATCH, LOCK, UNLOCK");
    assert(options_reply().headers[1].1 =~= t[0] + ", "@ + t[1] + ", "@ + t[2] + ", "@ + t[3] + ", "@ + t[4] + ", "@ + t[5] + ", "@ + t[6] + ", "@ + t[7] + ", "@ + t[8] + ", "@ + t[9] + ", "@ + t[10] + ", "@ + t[11]);
}

/// What is told of resources, of their properties and of locks is XML, with the status for several answers
/// where it is on several things.
pub proof fn law_answers_are_xml(
    rel: Seq<char>,
    md: DavMeta,
    deep: bool,
    children: Seq<(String, DavMeta)>,
    bytes: Seq<u8>,
)
    ensures
        propfind_reply(rel, md, deep, children).status == 207,
        proppatch_reply().status == 207,
        lock_reply(bytes).status == 200,
        propfind_reply(rel, md, deep, children).headers == seq![
            ("content-type"@, "application/xml"@ + "; charset=utf-8"@),
        ],
        proppatch_reply().headers == seq![("content-type"@, "application/xml"@ + "; charset=utf-8"@)],
        lock_reply(bytes).headers.len() == 2,
        lock_reply(bytes).headers[1] == ("content-type"@, "application/xml"@ + "; charset=utf-8"@),
{
    reveal_strlit("application/xml");
    reveal_strlit("; charset=utf-8");
    reveal_strlit("application/xml; charset=utf-8");
    assert("application/xml"@ + "; charset=utf-8"@ =~= "application/xml; charset=utf-8"@);
}

} // verus!
