//! Share links: how they are made, when they are open, and where they lead.

use vstd::prelude::*;

use crate::paths::{
    components, law_normal_form_of_plain_request, lemma_no_names, names, normalize_path, normalized, Part,
};
use crate::reply::{json_error, outcome, ApiError};
use crate::settings::{link_in, ShareRow};
use crate::sql::{selection, statement, text_or_null, truth, ParamView, Statement, StatementView};
use crate::storage::{law_requests_go_down, lemma_trimmed_normal_form, resolved};
use crate::text::{cat3, opt_text, trim_start, trim_start_char};
use crate::time::{
    before, four_digit_year, is_before, now_string, parse_rfc3339, representable, rfc3339,
    rfc3339_instant, rfc3339_text, utc_now, LAST_SECOND,
};
use crate::types::{ShareLink, ShareReq};

verus! {

// ---------------------------------------------------------------------------
// Making a link
// ---------------------------------------------------------------------------

/// How many characters the code of a link has.
pub const CODE_LENGTH: usize = 8;

/// A letter or digit of ASCII.
pub open spec fn alphanumeric(c: char) -> bool {
    'A' <= c <= 'Z' || 'a' <= c <= 'z' || '0' <= c <= '9'
}

/// A code for a link.
pub open spec fn is_code(s: Seq<char>) -> bool {
    s.len() == CODE_LENGTH && forall|i: int| 0 <= i < s.len() ==> alphanumeric(#[trigger] s[i])
}

/// `Rng::sample_iter` of `rand` over its `Alphanumeric` characters: `n` letters and digits of which
/// nothing more is known.
#[verifier::external_body]
fn random_code(n: usize) -> (r: String)
    ensures
        r@.len() == n,
        forall|i: int| 0 <= i < r@.len() ==> alphanumeric(#[trigger] r@[i]),
{
    let chars = rand::Rng::sample_iter(rand::thread_rng(), &rand::distributions::Alphanumeric);
    chars.take(n).map(char::from).collect()
}

/// A link expires after the given seconds, if they are more than none.
pub open spec fn lasts(expire_in: Option<i64>) -> bool {
    expire_in matches Some(s) && s > 0
}

/// The end of a link that is made at `now` can be written.
pub open spec fn end_fits(now: (i64, u32), expire_in: Option<i64>) -> bool {
    expire_in matches Some(s) ==> (s > 0 ==> now.0 + s <= LAST_SECOND)
}

/// An instant since the Unix epoch that can be written.
pub open spec fn since_1970(now: (i64, u32)) -> bool {
    now.0 >= 0 && representable(now.0, now.1)
}

/// When a link that is made at `now` expires.
pub open spec fn end_of(now: (i64, u32), expire_in: Option<i64>) -> (i64, u32) {
    ((now.0 + expire_in->0) as i64, now.1)
}

/// When a link that is made at `now` expires, if it does.
pub fn share_expiry(now: (i64, u32), expire_in: Option<i64>) -> (r: Option<String>)
    requires
        representable(now.0, now.1),
        end_fits(now, expire_in),
    ensures
        !lasts(expire_in) ==> r is None,
        lasts(expire_in) ==> {
            let end = end_of(now, expire_in);
            &&& opt_text(r) == Some(rfc3339_text(end.0, end.1))
            &&& four_digit_year(end.0) ==> (r matches Some(t) && rfc3339_instant(t@) == Some(end))
        },
{
    match expire_in {
        Some(s) => {
            if s > 0 {
                Some(rfc3339(now.0 + s, now.1))
            } else {
                None
            }
        },
        None => None,
    }
}

/// The statement that stores a new link, which nobody has viewed.
pub open spec fn insert_share(
    code: Seq<char>,
    req: ShareReq,
    user_id: i64,
    expires: Option<Seq<char>>,
    created: Seq<char>,
) -> StatementView {
    statement(
        "INSERT INTO share_links (code,file_path,is_dir,user_id,expires_at,max_views,view_count,created_at) VALUES (?,?,?,?,?,?,0,?)"@,
        seq![
            ParamView::Text(code),
            ParamView::Text(req.path@),
            truth(req.is_dir),
            ParamView::Int(user_id),
            text_or_null(expires),
            ParamView::Int(
                match req.max_views {
                    Some(n) => n,
                    None => 0,
                },
            ),
            ParamView::Text(created),
        ],
    )
}

/// The statement that stores a new link.
pub fn share_statement(
    code: &str,
    req: &ShareReq,
    user_id: i64,
    expires: &Option<String>,
    created: &str,
) -> (r: Statement)
    ensures
        r@ == insert_share(code@, *req, user_id, opt_text(*expires), created@),
{
    let max_views: i64 = match req.max_views {
        Some(n) => n,
        None => 0,
    };
    let r = Statement::new(
        "INSERT INTO share_links (code,file_path,is_dir,user_id,expires_at,max_views,view_count,created_at) VALUES (?,?,?,?,?,?,0,?)",
    ).text(code).text(req.path.as_str()).flag(req.is_dir).number(user_id).maybe_text(expires).number(
        max_views,
    ).text(created);
    assert(r@ =~= insert_share(code@, *req, user_id, opt_text(*expires), created@));
    r
}

/// When a link made at `now` expires, in writing, if it does.
pub open spec fn written_end(now: (i64, u32), expire_in: Option<i64>) -> Option<Seq<char>> {
    if lasts(expire_in) {
        let end = end_of(now, expire_in);
        Some(rfc3339_text(end.0, end.1))
    } else {
        None
    }
}

/// The statement that stores a link made at `now` under a code; nothing where its end cannot be written.
pub open spec fn creation(
    code: Seq<char>,
    req: ShareReq,
    user_id: i64,
    now: (i64, u32),
    created: Seq<char>,
) -> Option<StatementView> {
    if end_fits(now, req.expire_in) {
        Some(insert_share(code, req, user_id, written_end(now, req.expire_in), created))
    } else {
        None
    }
}

/// A statement stores a new link under some code, made at some instant.
pub open spec fn creates(s: StatementView, req: ShareReq, user_id: i64) -> bool {
    exists|code: Seq<char>, now: (i64, u32), created: (i64, u32)|
        #![trigger creation(code, req, user_id, now, rfc3339_text(created.0, created.1))]
        is_code(code) && since_1970(now) && representable(created.0, created.1) && creation(
            code,
            req,
            user_id,
            now,
            rfc3339_text(created.0, created.1),
        ) == Some(s)
}

/// The statement that stores a link made at `now` under a code.
pub fn create_share_at(
    code: &str,
    req: &ShareReq,
    user_id: i64,
    now: (i64, u32),
    created: &str,
) -> (r: Option<Statement>)
    requires
        representable(now.0, now.1),
    ensures
        (match r {
            Some(s) => Some(s@),
            None => None,
        }) == creation(code@, *req, user_id, now, created@),
        match r {
            Some(s) => end_fits(now, req.expire_in) && s@ == insert_share(
                code@,
                *req,
                user_id,
                written_end(now, req.expire_in),
                created@,
            ),
            None => !end_fits(now, req.expire_in),
        },
{
    match req.expire_in {
        Some(s) => {
            if s > 0 && now.0 > LAST_SECOND - s {
                return None;
            }
        },
        None => {},
    }
    let expires = share_expiry(now, req.expire_in);
    Some(share_statement(code, req, user_id, &expires, created))
}

/// The statement that stores a new link under a random code; nothing where the end of the link
/// cannot be written.
pub fn create_share(req: &ShareReq, user_id: i64) -> (r: Option<Statement>)
    ensures
        r matches Some(s) ==> creates(s@, *req, user_id),
        !lasts(req.expire_in) ==> r is Some,
        match r {
            Some(s) => exists|code: Seq<char>, now: (i64, u32), created: (i64, u32)|
                #![trigger insert_share(code, *req, user_id, written_end(now, req.expire_in), rfc3339_text(created.0, created.1))]
                is_code(code) && since_1970(now) && representable(created.0, created.1) && end_fits(
                    now,
                    req.expire_in,
                ) && s@ == insert_share(
                    code,
                    *req,
                    user_id,
                    written_end(now, req.expire_in),
                    rfc3339_text(created.0, created.1),
                ),
            None => exists|now: (i64, u32)| #[trigger]
                since_1970(now) && !end_fits(now, req.expire_in),
        },
{
    let code = random_code(CODE_LENGTH);
    assert(is_code(code@));
    let now = utc_now();
    assert(since_1970(now));
    let created = now_string();
    proof {
        let (secs, nanos) = choose|secs: i64, nanos: u32|
            #![trigger rfc3339_text(secs, nanos)]
            representable(secs, nanos) && created@ == rfc3339_text(secs, nanos);
        assert(representable((secs, nanos).0, (secs, nanos).1) && created@ == rfc3339_text(
            (secs, nanos).0,
            (secs, nanos).1,
        ));
    }
    let r = create_share_at(code.as_str(), req, user_id, now, created.as_str());
    proof {
        let (secs, nanos) = choose|secs: i64, nanos: u32|
            #![trigger rfc3339_text(secs, nanos)]
            representable(secs, nanos) && created@ == rfc3339_text(secs, nanos);
        let made = (secs, nanos);
        if r is Some {
            assert(creation(code@, *req, user_id, now, rfc3339_text(made.0, made.1)) == Some(r->0@));
        }
    }
    r
}

// ---------------------------------------------------------------------------
// Opening a link
// ---------------------------------------------------------------------------

/// Why a link is closed.
#[derive(Debug, PartialEq, Eq, Structural, Clone, Copy)]
pub enum ShareError {
    Expired,
    Exhausted,
}

impl ShareError {
    /// The reason in words.
    pub fn message(&self) -> (r: String)
        ensures
            r@ == (match *self {
                ShareError::Expired => "share link has expired"@,
                ShareError::Exhausted => "share link has reached maximum views"@,
            }),
    {
        match *self {
            ShareError::Expired => "share link has expired".to_owned(),
            ShareError::Exhausted => "share link has reached maximum views".to_owned(),
        }
    }
}

/// The end of a link is past. One that cannot be read never is.
pub open spec fn expired(expires: Option<Seq<char>>, now: (i64, u32)) -> bool {
    match expires {
        Some(e) => rfc3339_instant(e) matches Some(t) && before(t, now),
        None => false,
    }
}

/// A link has been viewed as often as it may be. Without a positive limit it may always be.
pub open spec fn exhausted(max_views: i64, view_count: int) -> bool {
    max_views > 0 && view_count >= max_views
}

/// The statement that stores how often a link has been viewed.
pub open spec fn store_views(id: i64, view_count: i64) -> StatementView {
    statement(
        "UPDATE share_links SET view_count=? WHERE id=?"@,
        seq![ParamView::Int(view_count), ParamView::Int(id)],
    )
}

/// A link with another number of views.
pub open spec fn with_views(link: ShareLink, view_count: int) -> ShareLink {
    ShareLink { view_count: view_count as i64, ..link }
}

/// A link is open at `now`.
pub open spec fn is_open(link: ShareLink, now: (i64, u32)) -> bool {
    !expired(opt_text(link.expires_at), now) && !exhausted(link.max_views, link.view_count as int)
}

/// What opening a link at `now` gives: the link, with the view counted if asked for, and the
/// statement that stores the new count; or why the link is closed.
pub open spec fn opens(
    link: ShareLink,
    now: (i64, u32),
    count: bool,
    r: Result<(ShareLink, Option<Statement>), ShareError>,
) -> bool {
    match r {
        Ok((l, s)) => {
            &&& is_open(link, now)
            &&& if count {
                l == with_views(link, link.view_count + 1) && (s matches Some(st) && st@
                    == store_views(link.id, (link.view_count + 1) as i64))
            } else {
                l == link && s is None
            }
        },
        Err(ShareError::Expired) => expired(opt_text(link.expires_at), now),
        Err(ShareError::Exhausted) => !expired(opt_text(link.expires_at), now) && exhausted(
            link.max_views,
            link.view_count as int,
        ),
    }
}

/// Whether the end of a link is past.
fn is_past(expires: &Option<String>, now: (i64, u32)) -> (r: bool)
    ensures
        r == expired(opt_text(*expires), now),
{
    match expires {
        Some(e) => match parse_rfc3339(e.as_str()) {
            Some(t) => is_before(t, now),
            None => false,
        },
        None => false,
    }
}

/// Opens a link at `now`, and counts the view if asked to. The statement stores the new count.
pub fn get_share(link: ShareLink, now: (i64, u32), count: bool) -> (r: Result<
    (ShareLink, Option<Statement>),
    ShareError,
>)
    requires
        count && is_open(link, now) ==> link.view_count < i64::MAX,
    ensures
        opens(link, now, count, r),
{
    if is_past(&link.expires_at, now) {
        return Err(ShareError::Expired);
    }
    if link.max_views > 0 && link.view_count >= link.max_views {
        return Err(ShareError::Exhausted);
    }
    if count {
        let mut l = link;
        l.view_count = l.view_count + 1;
        let s = Statement::new("UPDATE share_links SET view_count=? WHERE id=?").number(l.view_count).number(
            l.id,
        );
        assert(s@ =~= store_views(link.id, (link.view_count + 1) as i64));
        Ok((l, Some(s)))
    } else {
        Ok((link, None))
    }
}

/// Opens a link as `get_share` does; nothing where the link is open and one more view cannot be
/// counted.
pub fn open_share(link: ShareLink, now: (i64, u32), count: bool) -> (r: Option<
    Result<(ShareLink, Option<Statement>), ShareError>,
>)
    ensures
        match r {
            Some(opened) => opens(link, now, count, opened) && !(count && is_open(link, now)
                && link.view_count == i64::MAX),
            None => count && is_open(link, now) && link.view_count == i64::MAX,
        },
{
    if count && link.view_count == i64::MAX && link.max_views <= 0 && !is_past(&link.expires_at, now) {
        return None;
    }
    Some(get_share(link, now, count))
}

/// The current time, for opening a link: an instant since the Unix epoch that a timestamp can be
/// written for. The clock decides which.
pub fn share_clock() -> (r: (i64, u32))
    ensures
        0 <= r.0 <= LAST_SECOND,
        r.1 < 1_000_000_000,
{
    utc_now()
}

/// What a client is told of a link that is not there or closed.
pub fn share_not_found() -> (r: ApiError)
    ensures
        r.says(404, "not found"@),
{
    json_error(404, "not found")
}

/// A link that was made to last some seconds is open until they have passed, and then no more.
pub proof fn law_share_ends_on_time(made: (i64, u32), expire_in: i64, text: Seq<char>, now: (i64, u32))
    requires
        expire_in > 0,
        rfc3339_instant(text) == Some(end_of(made, Some(expire_in))),
        made.0 + expire_in <= LAST_SECOND,
    ensures
        expired(Some(text), now) <==> before(((made.0 + expire_in) as i64, made.1), now),
{
}

/// A link after it was opened at `now`, the view counted if asked for. One that is closed stays as
/// it is.
pub open spec fn after_call(link: ShareLink, now: (i64, u32), count: bool) -> ShareLink {
    if is_open(link, now) && count {
        with_views(link, link.view_count + 1)
    } else {
        link
    }
}

/// A link after some calls one after the other, each with its instant and whether it is counted.
pub open spec fn after_calls(link: ShareLink, calls: Seq<((i64, u32), bool)>) -> ShareLink
    decreases calls.len(),
{
    if calls.len() == 0 {
        link
    } else {
        after_call(after_calls(link, calls.drop_last()), calls.last().0, calls.last().1)
    }
}

/// How many of the calls are counted.
pub open spec fn counted(calls: Seq<((i64, u32), bool)>) -> nat
    decreases calls.len(),
{
    if calls.len() == 0 {
        0
    } else if calls.last().1 {
        counted(calls.drop_last()) + 1
    } else {
        counted(calls.drop_last())
    }
}

/// The end of a link is not past at any of the calls.
pub open spec fn in_time(link: ShareLink, calls: Seq<((i64, u32), bool)>) -> bool {
    forall|i: int| 0 <= i < calls.len() ==> !expired(opt_text(link.expires_at), (#[trigger] calls[i]).0)
}

proof fn lemma_earlier_in_time(link: ShareLink, calls: Seq<((i64, u32), bool)>)
    requires
        calls.len() > 0,
        in_time(link, calls),
    ensures
        in_time(link, calls.drop_last()),
        !expired(opt_text(link.expires_at), calls.last().0),
{
    let front = calls.drop_last();
    assert forall|i: int| 0 <= i < front.len() implies !expired(
        opt_text(link.expires_at),
        (#[trigger] front[i]).0,
    ) by {
        assert(front[i] == calls[i]);
    }
    assert(calls.last() == calls[calls.len() - 1]);
}

/// Opening a link succeeds exactly if it is open, and leaves it as a call does.
pub proof fn law_opening_is_a_call(
    link: ShareLink,
    now: (i64, u32),
    count: bool,
    r: Result<(ShareLink, Option<Statement>), ShareError>,
)
    requires
        opens(link, now, count, r),
    ensures
        r is Ok <==> is_open(link, now),
        r matches Ok((l, s)) ==> l == after_call(link, now, count),
        r is Err ==> after_call(link, now, count) == link,
{
}

/// A link with a limit counts each counted call until the limit is reached. It is open, in time,
/// until then, and then no more. A call that is not counted uses up no view.
pub proof fn law_views_are_limited(link: ShareLink, calls: Seq<((i64, u32), bool)>, now: (i64, u32))
    requires
        link.max_views > 0,
        link.view_count <= link.max_views,
        in_time(link, calls),
        !expired(opt_text(link.expires_at), now),
    ensures
        after_calls(link, calls) == with_views(
            link,
            if link.view_count + counted(calls) <= link.max_views {
                link.view_count + counted(calls)
            } else {
                link.max_views as int
            },
        ),
        is_open(after_calls(link, calls), now) <==> link.view_count + counted(calls) < link.max_views,
    decreases calls.len(),
{
    if calls.len() > 0 {
        lemma_earlier_in_time(link, calls);
        law_views_are_limited(link, calls.drop_last(), calls.last().0);
    }
}

/// A link without a limit is open, in time, however often it has been viewed, and counts each
/// counted call.
pub proof fn law_unlimited_views(link: ShareLink, calls: Seq<((i64, u32), bool)>, now: (i64, u32))
    requires
        link.max_views <= 0,
        link.view_count + counted(calls) <= i64::MAX,
        in_time(link, calls),
        !expired(opt_text(link.expires_at), now),
    ensures
        after_calls(link, calls) == with_views(link, link.view_count + counted(calls)),
        is_open(after_calls(link, calls), now),
    decreases calls.len(),
{
    if calls.len() > 0 {
        lemma_earlier_in_time(link, calls);
        law_unlimited_views(link, calls.drop_last(), calls.last().0);
    }
}

// ---------------------------------------------------------------------------
// Where a link leads
// ---------------------------------------------------------------------------

/// The request path of what is in a shared folder.
pub open spec fn shared_path(folder: Seq<char>, sub: Seq<char>) -> Seq<char> {
    folder + "/"@ + trim_start(normalized(sub), '/')
}

/// The request path of what is in a shared folder.
fn join_shared(folder: &str, sub: &str) -> (r: String)
    ensures
        r@ == shared_path(folder@, sub@),
{
    cat3(folder, "/", trim_start_char(normalize_path(sub).as_str(), '/').as_str())
}

/// The request path of the folder that a link shows, if the link is one of a folder.
pub open spec fn shown_folder(link: ShareLink, sub: Option<Seq<char>>) -> Option<Seq<char>> {
    if !link.is_dir {
        None
    } else {
        match sub {
            Some(s) => Some(
                if s.len() == 0 {
                    link.file_path@
                } else {
                    shared_path(link.file_path@, s)
                },
            ),
            None => Some(link.file_path@),
        }
    }
}

/// The request path of the folder that a link shows, if the link is one of a folder.
pub fn access_share(link: &ShareLink, subpath: Option<String>) -> (r: Option<String>)
    ensures
        opt_text(r) == shown_folder(*link, opt_text(subpath)),
        !link.is_dir ==> r is None,
        link.is_dir ==> opt_text(r) == Some(
            match opt_text(subpath) {
                Some(s) => if s.len() == 0 {
                    link.file_path@
                } else {
                    shared_path(link.file_path@, s)
                },
                None => link.file_path@,
            },
        ),
{
    if !link.is_dir {
        return None;
    }
    match subpath {
        Some(s) => {
            if s.as_str().unicode_len() == 0 {
                Some(link.file_path.clone())
            } else {
                Some(join_shared(link.file_path.as_str(), s.as_str()))
            }
        },
        None => Some(link.file_path.clone()),
    }
}

/// The request path of the file that a link gives, if it gives one.
pub open spec fn given_file(link: ShareLink, sub: Option<Seq<char>>) -> Option<Seq<char>> {
    if !link.is_dir {
        Some(link.file_path@)
    } else {
        match sub {
            Some(s) => Some(shared_path(link.file_path@, s)),
            None => None,
        }
    }
}

/// The request path of the file that a link gives; of a folder, only of what is named in it.
pub fn download_share(link: &ShareLink, subpath: Option<String>) -> (r: Result<String, ApiError>)
    ensures
        match given_file(*link, opt_text(subpath)) {
            Some(p) => r matches Ok(q) && q@ == p,
            None => r is Err,
        },
        if !link.is_dir {
            r matches Ok(p) && p@ == link.file_path@
        } else {
            match opt_text(subpath) {
                Some(s) => r matches Ok(p) && p@ == shared_path(link.file_path@, s),
                None => r matches Err(e) && e.says(400, "subpath required for directory share"@),
            }
        },
{
    if link.is_dir {
        match subpath {
            Some(s) => Ok(join_shared(link.file_path.as_str(), s.as_str())),
            None => Err(json_error(400, "subpath required for directory share")),
        }
    } else {
        Ok(link.file_path.clone())
    }
}

/// The request path of the file that a link shows, or the status and the message of the refusal.
pub open spec fn raw_file(link: ShareLink) -> Result<Seq<char>, (u16, Seq<char>)> {
    if link.is_dir {
        Err((400, "cannot view directory as raw"@))
    } else {
        Ok(link.file_path@)
    }
}

/// The request path of the file that a link shows; a folder cannot be shown.
pub fn serve_share_raw(link: &ShareLink) -> (r: Result<String, ApiError>)
    ensures
        outcome(r) == raw_file(*link),
        if link.is_dir {
            r matches Err(e) && e.says(400, "cannot view directory as raw"@)
        } else {
            r matches Ok(p) && p@ == link.file_path@
        },
{
    if link.is_dir {
        return Err(json_error(400, "cannot view directory as raw"));
    }
    Ok(link.file_path.clone())
}

/// What a link of a folder leads to lies in that folder: at the names of the folder, then those of
/// the path asked for, if neither holds a backslash.
pub proof fn law_share_stays_in_its_folder(root: Seq<char>, folder: Seq<char>, sub: Seq<char>)
    requires
        root.len() > 0,
        !folder.contains('\\'),
        !sub.contains('\\'),
    ensures
        components(resolved(root, shared_path(folder, sub))) == components(resolved(root, folder))
            + names(sub).map_values(|n: Seq<char>| Part::Name(n)),
{
    let tail = trim_start(normalized(sub), '/');
    law_normal_form_of_plain_request(sub);
    lemma_trimmed_normal_form(sub);
    law_requests_go_down(root, folder, tail);
}

// ---------------------------------------------------------------------------
// Statements
// ---------------------------------------------------------------------------

/// The statement that reads a link by its number.
pub open spec fn link_numbered(id: i64) -> StatementView {
    statement("SELECT * FROM share_links WHERE id=?"@, seq![ParamView::Int(id)])
}

/// The statement that reads a link by its code.
pub open spec fn link_coded(code: Seq<char>) -> StatementView {
    statement("SELECT * FROM share_links WHERE code=?"@, seq![ParamView::Text(code)])
}

/// The statement that reads the links of a user.
pub open spec fn links_of(user_id: i64) -> StatementView {
    statement("SELECT * FROM share_links WHERE user_id=?"@, seq![ParamView::Int(user_id)])
}

/// The statement that deletes a link, if it belongs to the user.
pub open spec fn delete_link(id: i64, user_id: i64) -> StatementView {
    statement(
        "DELETE FROM share_links WHERE id=? AND user_id=?"@,
        seq![ParamView::Int(id), ParamView::Int(user_id)],
    )
}

/// The statement that reads a link by its number.
pub fn get_share_by_id(id: i64) -> (r: Statement)
    ensures
        r@ == link_numbered(id),
        r@ == statement("SELECT * FROM share_links WHERE id=?"@, seq![ParamView::Int(id)]),
{
    let r = Statement::new("SELECT * FROM share_links WHERE id=?").number(id);
    assert(r@ =~= statement("SELECT * FROM share_links WHERE id=?"@, seq![ParamView::Int(id)]));
    r
}

/// The statement that reads a link by its code.
pub fn share_by_code(code: &str) -> (r: Statement)
    ensures
        r@ == link_coded(code@),
        r@ == statement("SELECT * FROM share_links WHERE code=?"@, seq![ParamView::Text(code@)]),
{
    let r = Statement::new("SELECT * FROM share_links WHERE code=?").text(code);
    assert(r@ =~= statement(
        "SELECT * FROM share_links WHERE code=?"@,
        seq![ParamView::Text(code@)],
    ));
    r
}

/// The statement that reads the links of a user.
pub fn list_shares(user_id: i64) -> (r: Statement)
    ensures
        r@ == links_of(user_id),
        r@ == statement(
            "SELECT * FROM share_links WHERE user_id=?"@,
            seq![ParamView::Int(user_id)],
        ),
{
    let r = Statement::new("SELECT * FROM share_links WHERE user_id=?").number(user_id);
    assert(r@ =~= statement(
        "SELECT * FROM share_links WHERE user_id=?"@,
        seq![ParamView::Int(user_id)],
    ));
    r
}

/// The statement that deletes a link, if it belongs to the user.
pub fn delete_share(id: i64, user_id: i64) -> (r: Statement)
    ensures
        r@ == delete_link(id, user_id),
        r@ == statement(
            "DELETE FROM share_links WHERE id=? AND user_id=?"@,
            seq![ParamView::Int(id), ParamView::Int(user_id)],
        ),
{
    let r = Statement::new("DELETE FROM share_links WHERE id=? AND user_id=?").number(id).number(user_id);
    assert(r@ =~= statement(
        "DELETE FROM share_links WHERE id=? AND user_id=?"@,
        seq![ParamView::Int(id), ParamView::Int(user_id)],
    ));
    r
}

// ---------------------------------------------------------------------------
// Laws
// ---------------------------------------------------------------------------

/// A row into which a new link was stored: each value stands in its column, and nobody has viewed the
/// link.
pub open spec fn holds_link(row: ShareRow, values: Seq<ParamView>) -> bool {
    &&& row.max_views is Some && row.created_at is Some
    &&& row.view_count == Some(0i64)
    &&& values == seq![
        ParamView::Text(row.code@),
        ParamView::Text(row.file_path@),
        ParamView::Int(row.is_dir),
        ParamView::Int(row.user_id),
        match row.expires_at {
            Some(t) => ParamView::Text(t@),
            None => ParamView::Null,
        },
        ParamView::Int(row.max_views->0),
        ParamView::Text(row.created_at->0@),
    ]
}

/// A link that was stored is read back as it was requested: under its code, to the same path, to a
/// folder if and only if one was asked for, with the user, the limit and the end that were given.
pub proof fn law_stored_link_is_the_one_requested(
    code: Seq<char>,
    req: ShareReq,
    user_id: i64,
    now: (i64, u32),
    created: Seq<char>,
    row: ShareRow,
    link: ShareLink,
)
    requires
        end_fits(now, req.expire_in),
        holds_link(
            row,
            insert_share(code, req, user_id, written_end(now, req.expire_in), created).params,
        ),
        link_in(row, link),
    ensures
        insert_share(code, req, user_id, written_end(now, req.expire_in), created).params[2]
            == ParamView::Int(
            if req.is_dir {
                1
            } else {
                0
            },
        ),
        link.code@ == code,
        link.file_path@ == req.path@,
        link.is_dir == req.is_dir,
        link.user_id == user_id,
        req.max_views matches Some(n) ==> link.max_views == n,
        req.max_views is None ==> link.max_views == 0,
        link.view_count == 0,
        link.created_at@ == created,
        req.expire_in matches Some(s) && s > 0 ==> opt_text(link.expires_at) == Some(
            rfc3339_text((now.0 + req.expire_in->0) as i64, now.1),
        ),
        !(req.expire_in matches Some(s) && s > 0) ==> link.expires_at is None,
{
    let p = insert_share(code, req, user_id, written_end(now, req.expire_in), created).params;
    assert(p[0] == ParamView::Text(row.code@));
    assert(p[1] == ParamView::Text(row.file_path@));
    assert(p[2] == ParamView::Int(row.is_dir));
    assert(p[3] == ParamView::Int(row.user_id));
    assert(p[4] == match row.expires_at {
        Some(t) => ParamView::Text(t@),
        None => ParamView::Null,
    });
    assert(p[5] == ParamView::Int(row.max_views->0));
    assert(p[6] == ParamView::Text(row.created_at->0@));
}

/// A link that was just stored can be opened until its end is past, whatever its limit; one without an
/// end always.
pub proof fn law_new_link_is_open(
    code: Seq<char>,
    req: ShareReq,
    user_id: i64,
    made: (i64, u32),
    created: Seq<char>,
    row: ShareRow,
    link: ShareLink,
    now: (i64, u32),
)
    requires
        end_fits(made, req.expire_in),
        holds_link(
            row,
            insert_share(code, req, user_id, written_end(made, req.expire_in), created).params,
        ),
        link_in(row, link),
        lasts(req.expire_in) ==> rfc3339_instant(
            rfc3339_text((made.0 + req.expire_in->0) as i64, made.1),
        ) == Some(((made.0 + req.expire_in->0) as i64, made.1)),
    ensures
        req.expire_in matches Some(s) && s > 0 ==> (is_open(link, now) <==> now.0 < made.0
            + req.expire_in->0 || now.0 == made.0 + req.expire_in->0 && now.1 <= made.1),
        !(req.expire_in matches Some(s) && s > 0) ==> is_open(link, now),
{
    law_stored_link_is_the_one_requested(code, req, user_id, made, created, row, link);
}

/// A link that is opened is the link itself, with one view more if the call is counted, and the new
/// count is stored under the number of the link. A link is closed only if its end is past, or if it has
/// a limit and was viewed that often.
pub proof fn law_opening_counts_one_view(
    link: ShareLink,
    now: (i64, u32),
    count: bool,
    r: Result<(ShareLink, Option<Statement>), ShareError>,
)
    requires
        opens(link, now, count, r),
        link.view_count < i64::MAX,
    ensures
        r matches Ok((l, s)) ==> {
            &&& l.id == link.id
            &&& l.code == link.code
            &&& l.file_path == link.file_path
            &&& l.is_dir == link.is_dir
            &&& l.user_id == link.user_id
            &&& l.expires_at == link.expires_at
            &&& l.max_views == link.max_views
            &&& l.created_at == link.created_at
            &&& l.view_count == link.view_count + if count {
                1
            } else {
                0int
            }
            &&& s is Some <==> count
            &&& s matches Some(st) ==> st@.params == seq![
                ParamView::Int(l.view_count),
                ParamView::Int(link.id),
            ]
            &&& link.max_views > 0 ==> link.view_count < link.max_views
        },
        r is Err ==> link.expires_at is Some || link.max_views > 0 && link.view_count >= link.max_views,
        r matches Err(e) ==> (e is Exhausted ==> link.max_views > 0 && link.view_count >= link.max_views),
        r matches Err(e) ==> (e is Expired ==> link.expires_at is Some),
        r matches Err(e) ==> (e is Exhausted ==> !expired(opt_text(link.expires_at), now)),
        r is Ok ==> !expired(opt_text(link.expires_at), now),
        link.max_views > 0 && link.view_count >= link.max_views ==> r is Err,
        link.expires_at is None && (link.max_views <= 0 || link.view_count < link.max_views) ==> r is Ok,
{
}

/// The end of a link is past exactly if it can be read and lies before the present instant.
pub proof fn law_end_is_past(text: Seq<char>, end: (i64, u32), now: (i64, u32))
    ensures
        rfc3339_instant(text) == Some(end) ==> (expired(Some(text), now) <==> end.0 < now.0 || end.0 == now.0
            && end.1 < now.1),
        rfc3339_instant(text) is None ==> !expired(Some(text), now),
        !expired(None, now),
{
}

/// A link that ended once stays ended.
pub proof fn law_ended_links_stay_ended(expires: Option<Seq<char>>, now: (i64, u32), later: (i64, u32))
    requires
        expired(expires, now),
        now.0 < later.0 || now.0 == later.0 && now.1 <= later.1,
    ensures
        expired(expires, later),
{
}

/// A link of a folder shows the folder itself, or what is asked for below it; a link of a file shows no
/// folder. A link of a file gives that file whatever is asked for; a link of a folder gives what is
/// asked for below it, and nothing where nothing is asked for.
pub proof fn law_links_lead_below_what_is_shared(root: Seq<char>, link: ShareLink, sub: Seq<char>)
    requires
        root.len() > 0,
        !link.file_path@.contains('\\'),
        !sub.contains('\\'),
    ensures
        shown_folder(link, Some(sub)) is Some <==> link.is_dir,
        shown_folder(link, None) is Some <==> link.is_dir,
        shown_folder(link, None) matches Some(p) ==> p == link.file_path@,
        shown_folder(link, Some(sub)) matches Some(p) ==> components(resolved(root, p)) == components(
            resolved(root, link.file_path@),
        ) + names(sub).map_values(|n: Seq<char>| Part::Name(n)),
        given_file(link, None) is Some <==> !link.is_dir,
        given_file(link, Some(sub)) is Some,
        !link.is_dir ==> given_file(link, Some(sub)) == Some(link.file_path@) && given_file(link, None)
            == Some(link.file_path@),
        link.is_dir ==> components(resolved(root, given_file(link, Some(sub))->0)) == components(
            resolved(root, link.file_path@),
        ) + names(sub).map_values(|n: Seq<char>| Part::Name(n)),
{
    let part_of = |n: Seq<char>| Part::Name(n);
    law_share_stays_in_its_folder(root, link.file_path@, sub);
    if sub.len() == 0 {
        lemma_no_names();
        assert(sub =~= Seq::<char>::empty());
        assert(names(sub).map_values(part_of) =~= Seq::<Part>::empty());
        assert(components(resolved(root, link.file_path@)) + Seq::<Part>::empty() =~= components(
            resolved(root, link.file_path@),
        ));
    }
}

/// A link of a file is shown as that file, as it is given for download; a link of a folder is not.
pub proof fn law_raw_file_is_the_shared_one(link: ShareLink)
    ensures
        raw_file(link) is Err <==> link.is_dir,
        raw_file(link) matches Ok(p) ==> given_file(link, None) == Some(p) && p == link.file_path@,
        raw_file(link) matches Err(e) ==> e.0 == 400,
{
}

/// Links are looked up by the column that is asked for: a link by its number or its code, the links of a
/// user by that user. A link is deleted by its number and only for its own user, so whoever else asks
/// deletes nothing.
pub proof fn law_links_are_looked_up(id: i64, user_id: i64, code: Seq<char>)
    ensures
        link_numbered(id) == statement(selection("*"@, "share_links"@, "id"@), seq![ParamView::Int(id)]),
        link_coded(code) == statement(selection("*"@, "share_links"@, "code"@), seq![ParamView::Text(code)]),
        links_of(user_id) == statement(
            selection("*"@, "share_links"@, "user_id"@),
            seq![ParamView::Int(user_id)],
        ),
        delete_link(id, user_id) == statement(
            "DELETE FROM "@ + "share_links"@ + " WHERE "@ + "id"@ + "=? AND "@ + "user_id"@ + "=?"@,
            seq![ParamView::Int(id), ParamView::Int(user_id)],
        ),
{
    reveal_strlit("SELECT ");
    reveal_strlit("*");
    reveal_strlit(" FROM ");
    reveal_strlit("share_links");
    reveal_strlit(" WHERE ");
    reveal_strlit("id");
    reveal_strlit("code");
    reveal_strlit("user_id");
    reveal_strlit("=?");
    reveal_strlit("=? AND ");
    reveal_strlit("DELETE FROM ");
    reveal_strlit("SELECT * FROM share_links WHERE id=?");
    reveal_strlit("SELECT * FROM share_links WHERE code=?");
    reveal_strlit("SELECT * FROM share_links WHERE user_id=?");
    reveal_strlit("DELETE FROM share_links WHERE id=? AND user_id=?");
    assert("SELECT * FROM share_links WHERE id=?"@ =~= selection("*"@, "share_links"@, "id"@));
    assert("SELECT * FROM share_links WHERE code=?"@ =~= selection("*"@, "share_links"@, "code"@));
    assert("SELECT * FROM share_links WHERE user_id=?"@ =~= selection("*"@, "share_links"@, "user_id"@));
    assert("DELETE FROM share_links WHERE id=? AND user_id=?"@ =~= "DELETE FROM "@ + "share_links"@ + " WHERE "@
        + "id"@ + "=? AND "@ + "user_id"@ + "=?"@);
}

/// The statement that makes a link stores it as requested: under a code, to the requested path, as a folder
/// if and only if one was asked for, for the user and with the limit. An end is stored exactly where the
/// link is to last some seconds, and is that many seconds after the instant at which it is made.
pub proof fn law_new_link_is_the_one_requested(
    s: StatementView,
    code: Seq<char>,
    req: ShareReq,
    user_id: i64,
    now: (i64, u32),
    created: Seq<char>,
)
    requires
        creation(code, req, user_id, now, created) == Some(s),
    ensures
        s.params.len() == 7,
        s.params[0] == ParamView::Text(code),
        s.params[1] == ParamView::Text(req.path@),
        s.params[2] == ParamView::Int(
            if req.is_dir {
                1
            } else {
                0
            },
        ),
        s.params[3] == ParamView::Int(user_id),
        req.expire_in matches Some(n) && n > 0 ==> s.params[4] == ParamView::Text(
            rfc3339_text((now.0 + req.expire_in->0) as i64, now.1),
        ),
        !(req.expire_in matches Some(n) && n > 0) ==> s.params[4] == ParamView::Null,
        req.max_views matches Some(n) ==> s.params[5] == ParamView::Int(n),
        req.max_views is None ==> s.params[5] == ParamView::Int(0),
        s.params[6] == ParamView::Text(created),
        req.expire_in matches Some(n) && n > 0 ==> now.0 + req.expire_in->0 <= LAST_SECOND,
{
}

/// A link is refused only where its end lies behind the last instant that can be written.
pub proof fn law_links_are_made(
    code: Seq<char>,
    req: ShareReq,
    user_id: i64,
    now: (i64, u32),
    created: Seq<char>,
)
    ensures
        creation(code, req, user_id, now, created) is None <==> (req.expire_in matches Some(n) && n > 0 && now.0
            + n > LAST_SECOND),
{
}

/// Whatever code and instant a new link gets, it is stored for the user and leads to the requested path, under
/// eight letters and digits.
pub proof fn law_random_link_is_the_one_requested(s: StatementView, req: ShareReq, user_id: i64)
    requires
        creates(s, req, user_id),
    ensures
        s.params.len() == 7,
        s.params[0] is Text && s.params[0]->Text_0.len() == 8,
        s.params[1] == ParamView::Text(req.path@),
        s.params[2] == ParamView::Int(
            if req.is_dir {
                1
            } else {
                0
            },
        ),
        s.params[3] == ParamView::Int(user_id),
        s.params[4] is Null <==> !(req.expire_in matches Some(n) && n > 0),
        req.max_views matches Some(n) ==> s.params[5] == ParamView::Int(n),
        req.max_views is None ==> s.params[5] == ParamView::Int(0),
        forall|i: int|
            0 <= i < 8 ==> ('0' <= #[trigger] s.params[0]->Text_0[i] <= '9' || 'A' <= s.params[0]->Text_0[i] <= 'Z'
                || 'a' <= s.params[0]->Text_0[i] <= 'z'),
{
    let (code, now, created) = choose|code: Seq<char>, now: (i64, u32), created: (i64, u32)|
        #![trigger creation(code, req, user_id, now, rfc3339_text(created.0, created.1))]
        is_code(code) && since_1970(now) && representable(created.0, created.1) && creation(
            code,
            req,
            user_id,
            now,
            rfc3339_text(created.0, created.1),
        ) == Some(s);
    law_new_link_is_the_one_requested(s, code, req, user_id, now, rfc3339_text(created.0, created.1));
    assert forall|i: int| 0 <= i < 8 implies ('0' <= #[trigger] s.params[0]->Text_0[i] <= '9' || 'A'
        <= s.params[0]->Text_0[i] <= 'Z' || 'a' <= s.params[0]->Text_0[i] <= 'z') by {
        assert(alphanumeric(code[i]));
    }
}

} // verus!
