//! Accounts and sessions.

use vstd::prelude::*;

use crate::claims::{
    claims_in, claims_json, claims_text, jwt_claims, jwt_open, jwt_payload, jwt_sign, makes, read_claims,
};
use crate::crypto::{accepted, check_password, hash_password};
use crate::limiter::{admits, counted, RateLimiter};
use crate::reply::{json_error, ApiError};
use crate::settings::{user_in, UserRow};
use crate::sql::{selection, statement, ParamView, Statement, StatementView};
use crate::text::{opt_text, same, slice_text, starts_with, to_chars};
use crate::time::{clock_fits, clock_seconds, nanos_now, unix_now};
use crate::types::{Claims, UpdateUserReq, User};

verus! {

// ---------------------------------------------------------------------------
// Tokens
// ---------------------------------------------------------------------------

/// How long a session lasts, in seconds.
pub const SESSION_SECS: usize = 604_800;

/// What a session of a user that starts at `now` says.
pub open spec fn session_claims(user: User, now: usize) -> (i64, i64, usize, usize) {
    (user.id, user.token_version, (now + SESSION_SECS) as usize, now)
}

/// No token could be made.
#[derive(Debug, PartialEq, Eq, Structural, Clone, Copy)]
pub struct TokenFailed {}

/// A token for a session that starts at `now`.
pub fn gen_token_at(secret: &Vec<u8>, user: &User, now: usize) -> (r: Result<String, TokenFailed>)
    requires
        now + SESSION_SECS <= usize::MAX,
    ensures
        r matches Ok(t) && jwt_payload(t@, secret@) == Some(claims_text(session_claims(*user, now))),
{
    let claims = Claims {
        sub: user.id,
        version: user.token_version,
        exp: now + SESSION_SECS,
        iat: now,
    };
    match jwt_sign(claims_json(&claims), secret.as_slice()) {
        Some(t) => Ok(t),
        None => Err(TokenFailed {  }),
    }
}

/// A token for a session that the clock says starts at `now`; fails exactly where the end of the
/// session cannot be written.
pub fn token_from(secret: &Vec<u8>, user: &User, now: usize) -> (r: Result<String, TokenFailed>)
    ensures
        match r {
            Ok(t) => now + SESSION_SECS <= usize::MAX && jwt_payload(t@, secret@) == Some(
                claims_text(session_claims(*user, now)),
            ),
            Err(_) => now + SESSION_SECS > usize::MAX,
        },
{
    if now > usize::MAX - SESSION_SECS {
        return Err(TokenFailed {  });
    }
    gen_token_at(secret, user, now)
}

/// A token for a session that starts now; fails if the clock stands so late that the end of the
/// session cannot be written.
pub fn gen_token(secret: &Vec<u8>, user: &User) -> (r: Result<String, TokenFailed>)
    ensures
        exists|clock: Result<(u64, u32), (u64, u32)>|
            clock_fits(clock) && match r {
                Ok(t) => #[trigger] clock_seconds(clock) + SESSION_SECS <= usize::MAX && jwt_payload(
                    t@,
                    secret@,
                ) == Some(claims_text(session_claims(*user, clock_seconds(clock)))),
                Err(_) => clock_seconds(clock) + SESSION_SECS > usize::MAX,
            },
{
    let now: usize = unix_now();
    token_from(secret, user, now)
}

// ---------------------------------------------------------------------------
// Who is asking
// ---------------------------------------------------------------------------

/// The names and values in a query string, decoded, in order.
pub uninterp spec fn form_pairs(query: Seq<char>) -> Seq<(Seq<char>, Seq<char>)>;

/// The contents of a list of pairs.
pub open spec fn pair_views(v: Seq<(String, String)>) -> Seq<(Seq<char>, Seq<char>)> {
    v.map_values(|p: (String, String)| (p.0@, p.1@))
}

/// `form_urlencoded::parse` of `url`: the names and values in a query string, decoded, in order.
#[verifier::external_body]
fn query_pairs(query: &str) -> (r: Vec<(String, String)>)
    ensures
        pair_views(r@) == form_pairs(query@),
{
    url::form_urlencoded::parse(query.as_bytes()).into_owned().collect()
}

/// The value of the first pair of the given name.
pub open spec fn first_value(pairs: Seq<(Seq<char>, Seq<char>)>, name: Seq<char>) -> Option<Seq<char>>
    decreases pairs.len(),
{
    if pairs.len() == 0 {
        None
    } else if pairs[0].0 == name {
        Some(pairs[0].1)
    } else {
        first_value(pairs.drop_first(), name)
    }
}

/// The value of the first pair of the given name.
pub fn value_of(pairs: &Vec<(String, String)>, name: &str) -> (r: Option<String>)
    ensures
        opt_text(r) == first_value(pair_views(pairs@), name@),
{
    let ghost all = pair_views(pairs@);
    let mut i: usize = 0;
    assert(all.skip(0) =~= all);
    while i < pairs.len()
        invariant
            i <= pairs@.len(),
            all == pair_views(pairs@),
            first_value(all, name@) == first_value(all.skip(i as int), name@),
        decreases pairs.len() - i,
    {
        proof {
            assert(all.skip(i as int)[0] == all[i as int]);
            assert(all.skip(i as int).drop_first() =~= all.skip(i + 1));
        }
        if same(pairs[i].0.as_str(), name) {
            return Some(pairs[i].1.clone());
        }
        i = i + 1;
    }
    None
}

/// The token that an `Authorization` header carries.
pub open spec fn bearer(authorization: Option<Seq<char>>) -> Option<Seq<char>> {
    match authorization {
        Some(a) => if "Bearer "@.is_prefix_of(a) {
            Some(a.skip(7))
        } else {
            None
        },
        None => None,
    }
}

/// The token of a request: from the `Authorization` header, else from the query.
pub open spec fn token_of(authorization: Option<Seq<char>>, query: Option<Seq<char>>) -> Option<Seq<char>> {
    match bearer(authorization) {
        Some(t) => Some(t),
        None => match query {
            Some(q) => first_value(form_pairs(q), "token"@),
            None => None,
        },
    }
}

/// The token of a request.
pub fn request_token(authorization: &Option<String>, query: &Option<String>) -> (r: Option<String>)
    ensures
        opt_text(r) == token_of(opt_text(*authorization), opt_text(*query)),
{
    match authorization {
        Some(a) => {
            if starts_with(a.as_str(), "Bearer ") {
                let cs = to_chars(a.as_str());
                proof {
                    reveal_strlit("Bearer ");
                    assert(cs@.subrange(7, cs@.len() as int) =~= a@.skip(7));
                }
                let n: usize = cs.len();
                return Some(slice_text(&cs, 7, n));
            }
        },
        None => {},
    }
    match query {
        Some(q) => value_of(&query_pairs(q.as_str()), "token"),
        None => None,
    }
}

/// The claims in the text that a token was found to carry; refused where it was found to carry
/// none, or one that makes no claims. The text of claims makes these.
pub fn accept_claims(found: Option<String>) -> (r: Result<Claims, ApiError>)
    ensures
        match r {
            Ok(c) => found matches Some(text) && makes(text@, c),
            Err(e) => e.says(401, "unauthorized"@) && (found matches Some(text) ==> claims_in(text@) is None
                && forall|k: (i64, i64, usize, usize)| text@ != #[trigger] claims_text(k)),
        },
{
    match found {
        Some(text) => match read_claims(text.as_str()) {
            Some(c) => Ok(c),
            None => Err(json_error(401, "unauthorized")),
        },
        None => Err(json_error(401, "unauthorized")),
    }
}

/// The claims of the token of a request; refused without a valid one.
pub fn request_claims(token: Option<String>, secret: &Vec<u8>) -> (r: Result<Claims, ApiError>)
    ensures
        match r {
            Ok(c) => token matches Some(t) && (jwt_payload(t@, secret@) matches Some(text) && makes(
                text,
                c,
            )),
            Err(e) => e.says(401, "unauthorized"@),
        },
        match token {
            Some(t) => jwt_claims(t@, secret@) is None ==> r is Err,
            None => r is Err,
        },
{
    match token {
        Some(t) => accept_claims(jwt_open(t.as_str(), secret.as_slice())),
        None => accept_claims(None),
    }
}

/// The claims of the token that a terminal is opened with; refused without a valid one. An empty
/// token is none.
pub fn terminal_claims(token: Option<String>, secret: &Vec<u8>) -> (r: Result<Claims, ApiError>)
    ensures
        match r {
            Ok(c) => token matches Some(t) && t@.len() > 0 && (jwt_payload(t@, secret@) matches Some(text)
                && makes(text, c)),
            Err(e) => e.says(401, "unauthorized"@),
        },
        match token {
            Some(t) => t@.len() == 0 || jwt_claims(t@, secret@) is None ==> r is Err,
            None => r is Err,
        },
{
    match token {
        Some(t) => {
            if t.as_str().unicode_len() == 0 {
                return Err(json_error(401, "unauthorized"));
            }
            request_claims(Some(t), secret)
        },
        None => Err(json_error(401, "unauthorized")),
    }
}

/// A session is still valid for its user.
pub open spec fn valid_session(c: Claims, user: User) -> bool {
    user.token_version == c.version
}

/// The user of a session: refused if there is none, or if the session has been revoked.
fn session_user(claims: &Claims, user: Option<User>, revoked: &str) -> (r: Result<User, ApiError>)
    ensures
        match user {
            Some(u) => if valid_session(*claims, u) {
                r == Ok::<User, ApiError>(u)
            } else {
                r matches Err(e) && e.says(401, revoked@)
            },
            None => r matches Err(e) && e.says(401, "user not found"@),
        },
{
    match user {
        Some(u) => {
            if u.token_version != claims.version {
                return Err(json_error(401, revoked));
            }
            Ok(u)
        },
        None => Err(json_error(401, "user not found")),
    }
}

/// A request is one of the account that its token names: refused if there is none, or if the session has
/// been revoked.
pub open spec fn authenticates(r: Result<User, ApiError>, claims: Claims, user: Option<User>) -> bool {
    match r {
        Ok(u) => user == Some(u) && valid_session(claims, u),
        Err(e) => e.status == 401 && (user matches Some(u) ==> !valid_session(claims, u)),
    }
}

/// The user of a request, from what its token says and the account that the token names.
pub fn authenticate(claims: &Claims, user: Option<User>) -> (r: Result<User, ApiError>)
    ensures
        authenticates(r, *claims, user),
        match user {
            Some(u) => if valid_session(*claims, u) {
                r == Ok::<User, ApiError>(u)
            } else {
                r matches Err(e) && e.says(401, "token has been revoked, please login again"@)
            },
            None => r matches Err(e) && e.says(401, "user not found"@),
        },
{
    session_user(claims, user, "token has been revoked, please login again")
}

/// The user of a terminal, from what its token says and the account that the token names.
pub fn authenticate_terminal(claims: &Claims, user: Option<User>) -> (r: Result<User, ApiError>)
    ensures
        authenticates(r, *claims, user),
        match user {
            Some(u) => if valid_session(*claims, u) {
                r == Ok::<User, ApiError>(u)
            } else {
                r matches Err(e) && e.says(401, "token revoked"@)
            },
            None => r matches Err(e) && e.says(401, "user not found"@),
        },
{
    session_user(claims, user, "token revoked")
}

/// A token names the user it was made for, and is valid for that user as they were.
pub proof fn law_own_token_is_valid(user: User, now: usize, token: Seq<char>, secret: Seq<u8>, c: Claims)
    requires
        jwt_payload(token, secret) == Some(claims_text(session_claims(user, now))),
        jwt_payload(token, secret) matches Some(text) && makes(text, c),
    ensures
        c.sub == user.id,
        valid_session(c, user),
{
}

// ---------------------------------------------------------------------------
// The first account
// ---------------------------------------------------------------------------

/// The statement that counts the accounts.
pub fn count_users() -> (r: Statement)
    ensures
        r@ == statement("SELECT COUNT(*) FROM users"@, Seq::<ParamView>::empty()),
{
    Statement::new("SELECT COUNT(*) FROM users")
}

/// Whether the first account has been made. A failure of the database counts as no account.
pub fn auth_status(count: Option<i64>) -> (r: bool)
    ensures
        r == taken(SetupEvent::Counted(count)),
        r == (count matches Some(n) && n > 0),
{
    match count {
        Some(n) => n > 0,
        None => false,
    }
}

/// The statement that makes an account.
pub open spec fn insert_user(username: Seq<char>, hash: Seq<char>, now: Seq<char>) -> StatementView {
    statement(
        "INSERT INTO users (username,password,token_version,created_at,updated_at) VALUES (?,?,?,?,?)"@,
        seq![
            ParamView::Text(username),
            ParamView::Text(hash),
            ParamView::Int(0),
            ParamView::Text(now),
            ParamView::Text(now),
        ],
    )
}

/// The statement that makes the first account.
fn setup_statement(username: &str, hash: &str, now: &str) -> (r: Statement)
    ensures
        r@ == insert_user(username@, hash@, now@),
{
    let r = Statement::new(
        "INSERT INTO users (username,password,token_version,created_at,updated_at) VALUES (?,?,?,?,?)",
    ).text(username).text(hash).number(0).text(now).text(now);
    assert(r@ =~= insert_user(username@, hash@, now@));
    r
}

/// How far the making of the first account has come.
pub enum SetupState {
    /// The accounts are being counted.
    Counting,
    /// The password is being hashed.
    Hashing,
    /// The accounts are being counted again; the hash is ready.
    Recounting(String),
    /// The account is being stored.
    Storing,
    /// It has been answered.
    Over,
}

/// What came of a step.
pub enum SetupEvent {
    /// So many accounts were counted; nothing if the database failed.
    Counted(Option<i64>),
    /// The password was hashed; nothing if that failed.
    Hashed(Option<String>),
    /// Hashing came to no end.
    Crashed,
    /// The account was stored under a number.
    Stored(i64),
    /// The account could not be stored.
    StoreFailed(String),
}

/// What is to be done next.
pub enum SetupAction {
    /// Count the accounts.
    Count,
    /// Hash the password.
    Hash,
    /// Store the account.
    Store(Statement),
    /// Answer with the account of a number and a token for it.
    Welcome(i64),
    /// Refuse.
    Refuse(ApiError),
}

/// The event is one that the state waits for.
pub open spec fn awaited(state: SetupState, event: SetupEvent) -> bool {
    match state {
        SetupState::Counting | SetupState::Recounting(_) => event is Counted,
        SetupState::Hashing => event is Hashed || event is Crashed,
        SetupState::Storing => event is Stored || event is StoreFailed,
        SetupState::Over => false,
    }
}

/// There is an account already. A failure of the database counts as no account.
pub open spec fn taken(event: SetupEvent) -> bool {
    event matches SetupEvent::Counted(Some(n)) && n > 0
}

/// What follows an event.
pub open spec fn setup_follows(
    state: SetupState,
    event: SetupEvent,
    username: Seq<char>,
    now: Seq<char>,
    next: SetupState,
    action: SetupAction,
) -> bool {
    match state {
        SetupState::Counting => if taken(event) {
            next is Over && (action matches SetupAction::Refuse(e) && e.says(400, "already setup"@))
        } else {
            next is Hashing && action is Hash
        },
        SetupState::Hashing => match event {
            SetupEvent::Hashed(Some(h)) => next == SetupState::Recounting(h) && action is Count,
            SetupEvent::Hashed(None) => next is Over && (action matches SetupAction::Refuse(e) && e.says(
                500,
                "failed to hash password"@,
            )),
            _ => next is Over && (action matches SetupAction::Refuse(e) && e.says(
                500,
                "internal error"@,
            )),
        },
        SetupState::Recounting(h) => if taken(event) {
            next is Over && (action matches SetupAction::Refuse(e) && e.says(400, "already setup"@))
        } else {
            next is Storing && (action matches SetupAction::Store(s) && s@ == insert_user(
                username,
                h@,
                now,
            ))
        },
        SetupState::Storing => match event {
            SetupEvent::Stored(id) => next is Over && action == SetupAction::Welcome(id),
            SetupEvent::StoreFailed(m) => next is Over && (action matches SetupAction::Refuse(e)
                && e.says(500, m@)),
            _ => true,
        },
        SetupState::Over => true,
    }
}

/// Makes the first account, one step after the other: only while there is no account, which is
/// asked before and after the password is hashed.
pub fn setup(state: SetupState, event: SetupEvent, username: &str, now: &str) -> (r: (
    SetupState,
    SetupAction,
))
    requires
        awaited(state, event),
    ensures
        setup_follows(state, event, username@, now@, r.0, r.1),
{
    match (state, event) {
        (SetupState::Counting, SetupEvent::Counted(n)) => {
            if auth_status(n) {
                (SetupState::Over, SetupAction::Refuse(json_error(400, "already setup")))
            } else {
                (SetupState::Hashing, SetupAction::Hash)
            }
        },
        (SetupState::Hashing, SetupEvent::Hashed(Some(h))) => (
            SetupState::Recounting(h),
            SetupAction::Count,
        ),
        (SetupState::Hashing, SetupEvent::Hashed(None)) => (
            SetupState::Over,
            SetupAction::Refuse(json_error(500, "failed to hash password")),
        ),
        (SetupState::Recounting(h), SetupEvent::Counted(n)) => {
            if auth_status(n) {
                (SetupState::Over, SetupAction::Refuse(json_error(400, "already setup")))
            } else {
                let s = setup_statement(username, h.as_str(), now);
                (SetupState::Storing, SetupAction::Store(s))
            }
        },
        (SetupState::Storing, SetupEvent::Stored(id)) => (SetupState::Over, SetupAction::Welcome(id)),
        (SetupState::Storing, SetupEvent::StoreFailed(m)) => (
            SetupState::Over,
            SetupAction::Refuse(json_error(500, m.as_str())),
        ),
        _ => (SetupState::Over, SetupAction::Refuse(json_error(500, "internal error"))),
    }
}

/// An account is stored only after the accounts have been counted twice and none was found, and
/// with the hash of its password.
pub proof fn law_accounts_are_counted_twice(
    first: SetupEvent,
    hashed: SetupEvent,
    second: SetupEvent,
    s1: SetupState,
    s2: SetupState,
    s3: SetupState,
    a1: SetupAction,
    a2: SetupAction,
    a3: SetupAction,
    username: Seq<char>,
    now: Seq<char>,
)
    requires
        awaited(SetupState::Counting, first),
        setup_follows(SetupState::Counting, first, username, now, s1, a1),
        awaited(s1, hashed),
        setup_follows(s1, hashed, username, now, s2, a2),
        awaited(s2, second),
        setup_follows(s2, second, username, now, s3, a3),
        a3 is Store,
    ensures
        !taken(first),
        !taken(second),
        hashed matches SetupEvent::Hashed(Some(h)) && a3->Store_0@ == insert_user(username, h@, now),
{
}

/// A run of the making of the first account, step by step: what came in, the states that it went
/// through, and what was done after each event.
pub struct SetupRun {
    pub username: Seq<char>,
    pub now: Seq<char>,
    pub events: Seq<SetupEvent>,
    pub states: Seq<SetupState>,
    pub actions: Seq<SetupAction>,
}

impl SetupRun {
    /// The run goes from one state to the next as it has to.
    pub open spec fn follows(self) -> bool {
        &&& self.states.len() == self.events.len() + 1
        &&& self.actions.len() == self.events.len()
        &&& self.states[0] is Counting
        &&& forall|i: int|
            0 <= i < self.events.len() ==> awaited(#[trigger] self.states[i], self.events[i])
                && setup_follows(
                self.states[i],
                self.events[i],
                self.username,
                self.now,
                self.states[i + 1],
                self.actions[i],
            )
    }

    /// Whenever the accounts were counted, there were as many as given.
    pub open spec fn counts(self, users: nat) -> bool {
        forall|i: int|
            0 <= i < self.events.len() ==> ((#[trigger] self.events[i]) matches SetupEvent::Counted(c)
                ==> (c matches Some(n) && n == users))
    }

    /// The run ended with an account.
    pub open spec fn welcomes(self) -> bool {
        exists|i: int| 0 <= i < self.actions.len() && (#[trigger] self.actions[i]) is Welcome
    }

    /// The statement of a step was carried out.
    pub open spec fn stores_at(self, i: int) -> bool {
        0 <= i < self.actions.len() - 1 && self.actions[i] is Store && self.events[i + 1] is Stored
    }

    /// The statements that were carried out, after those before.
    pub open spec fn rows_after(self, rows: Seq<StatementView>) -> Seq<StatementView> {
        if exists|i: int| self.stores_at(i) {
            rows.push(self.actions[choose|i: int| self.stores_at(i)]->Store_0@)
        } else {
            rows
        }
    }
}

proof fn lemma_setup_run(run: SetupRun, users: nat)
    requires
        run.follows(),
        run.counts(users),
    ensures
        run.welcomes() <==> exists|i: int| run.stores_at(i),
        run.welcomes() ==> {
            &&& users == 0
            &&& run.events.len() == 4
            &&& run.events[1] matches SetupEvent::Hashed(Some(h)) && run.actions[2]->Store_0@
                == insert_user(run.username, h@, run.now)
            &&& forall|i: int| run.stores_at(i) ==> i == 2
        },
        users > 0 && run.events.len() > 0 ==> run.events.len() == 1 && run.states[1] is Over
            && (run.actions[0] matches SetupAction::Refuse(e) && e.says(400, "already setup"@)),
{
    let n = run.events.len();
    if n > 0 {
        assert(awaited(run.states[0], run.events[0]));
        assert(run.events[0] is Counted);
        if users > 0 {
            assert(taken(run.events[0]));
            assert(run.states[1] is Over);
            if n > 1 {
                assert(awaited(run.states[1], run.events[1]));
            }
        } else {
            assert(!taken(run.events[0]));
            assert(run.states[1] is Hashing && run.actions[0] is Hash);
            if n > 1 {
                assert(awaited(run.states[1], run.events[1]));
                if n > 2 {
                    assert(awaited(run.states[2], run.events[2]));
                    assert(run.states[2] is Recounting);
                    assert(run.events[2] is Counted);
                    assert(!taken(run.events[2]));
                    assert(run.states[3] is Storing && run.actions[2] is Store);
                    if n > 3 {
                        assert(awaited(run.states[3], run.events[3]));
                        assert(run.states[4] is Over);
                        if n > 4 {
                            assert(awaited(run.states[4], run.events[4]));
                        }
                        if run.events[3] is Stored {
                            assert(run.stores_at(2));
                            assert(run.actions[3] is Welcome);
                        }
                    }
                }
            }
        }
    }
}

/// Runs one after the other, on a table of accounts that is counted truly.
pub open spec fn in_turn(rows: Seq<StatementView>, runs: Seq<SetupRun>) -> bool
    decreases runs.len(),
{
    runs.len() == 0 || {
        &&& in_turn(rows, runs.drop_last())
        &&& runs.last().follows()
        &&& runs.last().counts(rows_after_runs(rows, runs.drop_last()).len())
    }
}

/// The accounts that there are after some runs.
pub open spec fn rows_after_runs(rows: Seq<StatementView>, runs: Seq<SetupRun>) -> Seq<StatementView>
    decreases runs.len(),
{
    if runs.len() == 0 {
        rows
    } else {
        runs.last().rows_after(rows_after_runs(rows, runs.drop_last()))
    }
}

/// How many of the runs ended with an account.
pub open spec fn welcomed(runs: Seq<SetupRun>) -> nat
    decreases runs.len(),
{
    if runs.len() == 0 {
        0
    } else {
        welcomed(runs.drop_last()) + if runs.last().welcomes() {
            1nat
        } else {
            0nat
        }
    }
}

/// Of any number of runs one after the other at most one ends with an account, and none where there
/// is one already. A run that does not leaves the accounts as they are. The one account that comes
/// about has the requested name and the hash of the password.
pub proof fn law_first_account_is_the_only_one(rows: Seq<StatementView>, runs: Seq<SetupRun>)
    requires
        in_turn(rows, runs),
    ensures
        welcomed(runs) <= 1,
        welcomed(runs) == 0 ==> rows_after_runs(rows, runs) == rows,
        rows.len() > 0 ==> welcomed(runs) == 0,
        welcomed(runs) == 1 ==> exists|k: int, h: String|
            #![trigger insert_user(runs[k].username, h@, runs[k].now)]
            0 <= k < runs.len() && runs[k].welcomes() && runs[k].events.len() == 4 && runs[k].events[1]
                == SetupEvent::Hashed(Some(h)) && rows_after_runs(rows, runs) == seq![
                insert_user(runs[k].username, h@, runs[k].now),
            ],
    decreases runs.len(),
{
    if runs.len() > 0 {
        let front = runs.drop_last();
        let run = runs.last();
        let before = rows_after_runs(rows, front);
        law_first_account_is_the_only_one(rows, front);
        lemma_setup_run(run, before.len());
        if run.welcomes() {
            assert(welcomed(front) == 0);
            let i = choose|i: int| run.stores_at(i);
            assert(run.stores_at(i) && i == 2);
            let k = runs.len() - 1;
            let h = run.events[1]->Hashed_0->0;
            assert(rows_after_runs(rows, runs) =~= seq![insert_user(runs[k].username, h@, runs[k].now)]);
        } else if welcomed(front) == 1 {
            let (k, h) = choose|k: int, h: String|
                #![trigger insert_user(front[k].username, h@, front[k].now)]
                0 <= k < front.len() && front[k].welcomes() && front[k].events.len() == 4 && front[k].events[1]
                    == SetupEvent::Hashed(Some(h)) && rows_after_runs(rows, front) == seq![
                    insert_user(front[k].username, h@, front[k].now),
                ];
            assert(runs[k] == front[k]);
            assert(rows_after_runs(rows, runs) == seq![insert_user(runs[k].username, h@, runs[k].now)]);
        }
    }
}

/// A run where there is an account already is refused at its first step.
pub proof fn law_second_setup_is_refused(run: SetupRun, users: nat)
    requires
        run.follows(),
        run.counts(users),
        users > 0,
        run.events.len() > 0,
    ensures
        run.events.len() == 1,
        run.states[1] is Over,
        run.actions[0] matches SetupAction::Refuse(e) && e.says(400, "already setup"@),
{
    lemma_setup_run(run, users);
}

// ---------------------------------------------------------------------------
// Logging in
// ---------------------------------------------------------------------------

/// Counts a login of an address at `now`, and refuses it if there were too many.
pub fn login_gate_at(limiter: &mut RateLimiter, ip: String, now: u128) -> (r: Result<(), ApiError>)
    requires
        old(limiter).wf(),
    ensures
        counted(*old(limiter), *final(limiter), ip@, now),
        match r {
            Ok(_) => admits(old(limiter).hits_of(ip@), old(limiter).max, old(limiter).window, now),
            Err(e) => !admits(old(limiter).hits_of(ip@), old(limiter).max, old(limiter).window, now)
                && e.says(429, "too many login attempts, please try again later"@),
        },
{
    if limiter.allow_at(ip, now) {
        Ok(())
    } else {
        Err(json_error(429, "too many login attempts, please try again later"))
    }
}

/// Counts a login of an address now, and refuses it if there were too many.
pub fn login_gate(limiter: &mut RateLimiter, ip: String) -> (r: Result<(), ApiError>)
    requires
        old(limiter).wf(),
    ensures
        r matches Err(e) ==> e.says(429, "too many login attempts, please try again later"@),
        exists|now: u128| #[trigger]
            counted(*old(limiter), *final(limiter), ip@, now) && (r is Ok <==> admits(
                old(limiter).hits_of(ip@),
                old(limiter).max,
                old(limiter).window,
                now,
            )),
{
    let now: u128 = nanos_now();
    login_gate_at(limiter, ip, now)
}

/// The statement that reads the account of a name.
pub open spec fn user_named(username: Seq<char>) -> StatementView {
    statement("SELECT * FROM users WHERE username=?"@, seq![ParamView::Text(username)])
}

/// The statement that reads the account of a name.
pub fn user_by_name(username: &str) -> (r: Statement)
    ensures
        r@ == user_named(username@),
        r@ == statement("SELECT * FROM users WHERE username=?"@, seq![ParamView::Text(username@)]),
{
    let r = Statement::new("SELECT * FROM users WHERE username=?").text(username);
    assert(r@ =~= statement(
        "SELECT * FROM users WHERE username=?"@,
        seq![ParamView::Text(username@)],
    ));
    r
}

/// The account logs in with the password.
pub open spec fn logs_in(user: Option<User>, password: Seq<char>) -> bool {
    match user {
        Some(u) => accepted(password, u.password@),
        None => false,
    }
}

/// The account that logs in: refused if the name has none, or if the password is not the one of
/// the account. The client is not told which.
pub fn login(user: Option<User>, password: &str) -> (r: Result<User, ApiError>)
    ensures
        r is Ok <==> logs_in(user, password@),
        r matches Ok(u) ==> user == Some(u),
        match user {
            Some(u) => if accepted(password@, u.password@) {
                r == Ok::<User, ApiError>(u)
            } else {
                r matches Err(e) && e.says(401, "invalid credentials"@)
            },
            None => r matches Err(e) && e.says(401, "invalid credentials"@),
        },
{
    match user {
        Some(u) => {
            if check_password(password, u.password.as_str()) {
                Ok(u)
            } else {
                Err(json_error(401, "invalid credentials"))
            }
        },
        None => Err(json_error(401, "invalid credentials")),
    }
}

// ---------------------------------------------------------------------------
// Changing an account
// ---------------------------------------------------------------------------

/// An account after a change, and whether its password was changed.
pub struct UserChange {
    pub username: String,
    pub password: String,
    pub token_version: i64,
    pub password_changed: bool,
}

/// A text that is given and not empty.
pub open spec fn given(t: Option<Seq<char>>) -> bool {
    t matches Some(s) && s.len() > 0
}

/// The outcome of a change: a given name replaces the old one, and a given hash the old one; only
/// the latter raises the version, which revokes the sessions.
pub open spec fn changed(c: UserChange, user: User, username: Option<Seq<char>>, hash: Option<Seq<char>>) -> bool {
    &&& c.username@ == (if given(username) {
        username->0
    } else {
        user.username@
    })
    &&& c.password_changed == (hash is Some)
    &&& c.password@ == (match hash {
        Some(h) => h,
        None => user.password@,
    })
    &&& c.token_version == user.token_version + (if hash is Some {
        1int
    } else {
        0int
    })
}

/// Whether a text is given and not empty.
fn is_given(t: &Option<String>) -> (r: bool)
    ensures
        r == given(opt_text(*t)),
{
    match t {
        Some(s) => s.as_str().unicode_len() > 0,
        None => false,
    }
}

/// An account after a change to the name, and to the password whose hash is given.
pub fn change_user(user: &User, username: Option<String>, hash: Option<String>) -> (r: UserChange)
    requires
        hash is Some ==> user.token_version < i64::MAX,
    ensures
        changed(r, *user, opt_text(username), opt_text(hash)),
{
    let name: String = if is_given(&username) {
        match username {
            Some(u) => u,
            None => user.username.clone(),
        }
    } else {
        user.username.clone()
    };
    match hash {
        Some(h) => UserChange {
            username: name,
            password: h,
            token_version: user.token_version + 1,
            password_changed: true,
        },
        None => UserChange {
            username: name,
            password: user.password.clone(),
            token_version: user.token_version,
            password_changed: false,
        },
    }
}

/// An account after a requested change; nothing where the new password could not be hashed. An
/// empty name or password changes nothing.
pub fn update_user(user: &User, req: UpdateUserReq) -> (r: Option<UserChange>)
    requires
        given(opt_text(req.password)) ==> user.token_version < i64::MAX,
    ensures
        !given(opt_text(req.password)) ==> (r matches Some(c) && changed(
            c,
            *user,
            opt_text(req.username),
            None,
        )),
        given(opt_text(req.password)) ==> (r matches Some(c) ==> changed(
            c,
            *user,
            opt_text(req.username),
            Some(c.password@),
        ) && accepted(req.password->0@, c.password@)),
{
    if is_given(&req.password) {
        match req.password {
            Some(p) => match hash_password(p.as_str()) {
                Some(h) => Some(change_user(user, req.username, Some(h))),
                None => None,
            },
            None => None,
        }
    } else {
        Some(change_user(user, req.username, None))
    }
}

/// A change of the password revokes every session that was opened before it.
pub proof fn law_password_change_revokes_sessions(
    user: User,
    c: UserChange,
    username: Option<Seq<char>>,
    hash: Seq<char>,
    after: User,
    session: Claims,
)
    requires
        changed(c, user, username, Some(hash)),
        after.token_version == c.token_version,
        session.version <= user.token_version,
    ensures
        !valid_session(session, after),
{
}

/// After a change of the password the token of an earlier session is refused, and one that is made
/// then is valid.
pub proof fn law_password_change_replaces_tokens(
    user: User,
    c: UserChange,
    username: Option<Seq<char>>,
    hash: Seq<char>,
    after: User,
    earlier: (Claims, usize),
    later: (Claims, usize),
)
    requires
        changed(c, user, username, Some(hash)),
        after.id == user.id,
        after.token_version == c.token_version,
        makes(claims_text(session_claims(user, earlier.1)), earlier.0),
        makes(claims_text(session_claims(after, later.1)), later.0),
    ensures
        earlier.0.sub == user.id && !valid_session(earlier.0, after),
        later.0.sub == user.id && valid_session(later.0, after),
{
}

/// A change without a new password revokes no session.
pub proof fn law_other_changes_keep_sessions(
    user: User,
    c: UserChange,
    username: Option<Seq<char>>,
    after: User,
    session: Claims,
)
    requires
        changed(c, user, username, None),
        after.token_version == c.token_version,
    ensures
        valid_session(session, after) == valid_session(session, user),
{
}

/// The statement that stores a changed account.
pub open spec fn store_user(c: UserChange, id: i64, now: Seq<char>) -> StatementView {
    statement(
        "UPDATE users SET username=?,password=?,token_version=?,updated_at=? WHERE id=?"@,
        seq![
            ParamView::Text(c.username@),
            ParamView::Text(c.password@),
            ParamView::Int(c.token_version),
            ParamView::Text(now),
            ParamView::Int(id),
        ],
    )
}

/// The statement that stores a changed account.
pub fn update_user_statement(c: &UserChange, id: i64, now: &str) -> (r: Statement)
    ensures
        r@ == store_user(*c, id, now@),
{
    let r = Statement::new(
        "UPDATE users SET username=?,password=?,token_version=?,updated_at=? WHERE id=?",
    ).text(c.username.as_str()).text(c.password.as_str()).number(c.token_version).text(now).number(id);
    assert(r@ =~= store_user(*c, id, now@));
    r
}

/// The statement that reads an account.
pub open spec fn user_numbered(id: i64) -> StatementView {
    statement("SELECT * FROM users WHERE id=?"@, seq![ParamView::Int(id)])
}

/// The statement that reads the password hash of a name.
pub open spec fn password_named(username: Seq<char>) -> StatementView {
    statement("SELECT password FROM users WHERE username=?"@, seq![ParamView::Text(username)])
}

/// The statement that reads an account.
pub fn get_user_by_id(id: i64) -> (r: Statement)
    ensures
        r@ == user_numbered(id),
        r@ == statement("SELECT * FROM users WHERE id=?"@, seq![ParamView::Int(id)]),
{
    let r = Statement::new("SELECT * FROM users WHERE id=?").number(id);
    assert(r@ =~= statement("SELECT * FROM users WHERE id=?"@, seq![ParamView::Int(id)]));
    r
}

/// The statement that reads the name of the first account.
pub fn first_user() -> (r: Statement)
    ensures
        r@ == statement("SELECT username FROM users LIMIT 1"@, Seq::<ParamView>::empty()),
{
    Statement::new("SELECT username FROM users LIMIT 1")
}

/// The statement that reads the password hash of a name.
pub fn password_of(username: &str) -> (r: Statement)
    ensures
        r@ == password_named(username@),
        r@ == statement(
            "SELECT password FROM users WHERE username=?"@,
            seq![ParamView::Text(username@)],
        ),
{
    let r = Statement::new("SELECT password FROM users WHERE username=?").text(username);
    assert(r@ =~= statement(
        "SELECT password FROM users WHERE username=?"@,
        seq![ParamView::Text(username@)],
    ));
    r
}

// ---------------------------------------------------------------------------
// Laws
// ---------------------------------------------------------------------------

/// A session lasts seven days from when it starts, and carries the number and the version of its user.
pub proof fn law_session_lasts_a_week(user: User, now: usize, c: Claims)
    requires
        now + SESSION_SECS <= usize::MAX,
        makes(claims_text(session_claims(user, now)), c),
    ensures
        c.exp == c.iat + 7 * 24 * 60 * 60,
        c.iat == now,
        c.sub == user.id,
        c.version == user.token_version,
{
}

/// A session is valid exactly while the version of its user is the one that it was opened with.
pub proof fn law_sessions_go_by_the_version(c: Claims, user: User, other: User)
    ensures
        valid_session(c, user) && valid_session(c, other) ==> user.token_version == other.token_version,
        user.token_version == other.token_version ==> valid_session(c, user) == valid_session(c, other),
        c.version == user.token_version ==> valid_session(c, user),
{
}

/// The value found under a name is that of the first pair of that name, and nothing is found exactly if no
/// pair has it.
pub proof fn law_first_value_is_found(pairs: Seq<(Seq<char>, Seq<char>)>, name: Seq<char>, k: int)
    ensures
        0 <= k < pairs.len() && pairs[k].0 == name && (forall|j: int|
            0 <= j < k ==> (#[trigger] pairs[j]).0 != name) ==> first_value(pairs, name) == Some(pairs[k].1),
        (forall|j: int| 0 <= j < pairs.len() ==> (#[trigger] pairs[j]).0 != name) ==> first_value(pairs, name)
            is None,
    decreases pairs.len(),
{
    if pairs.len() > 0 && pairs[0].0 != name {
        let rest = pairs.drop_first();
        law_first_value_is_found(rest, name, k - 1);
        assert(forall|j: int| 0 <= j < rest.len() ==> #[trigger] rest[j] == pairs[j + 1]);
        if 0 <= k < pairs.len() && pairs[k].0 == name && (forall|j: int|
            0 <= j < k ==> (#[trigger] pairs[j]).0 != name) {
            assert(rest[k - 1] == pairs[k]);
            assert forall|j: int| 0 <= j < k - 1 implies (#[trigger] rest[j]).0 != name by {
                assert(pairs[j + 1].0 != name);
            }
        }
        if forall|j: int| 0 <= j < pairs.len() ==> (#[trigger] pairs[j]).0 != name {
            assert forall|j: int| 0 <= j < rest.len() implies (#[trigger] rest[j]).0 != name by {
                assert(pairs[j + 1].0 != name);
            }
        }
    } else if pairs.len() > 0 {
        assert(pairs[0].0 == name);
    }
}

/// The token is what stands behind the word in the header, whatever the query says; without it, it is the
/// one in the query, and without either there is none.
pub proof fn law_token_is_found(token: Seq<char>, header: Seq<char>, query: Option<Seq<char>>)
    ensures
        token_of(Some("Bearer "@ + token), query) == Some(token),
        bearer(Some(header)) matches Some(t) ==> header == "Bearer "@ + t,
        bearer(Some(header)) is None ==> token_of(Some(header), query) == token_of(None, query),
        token_of(None, None) is None,
        query matches Some(q) ==> token_of(None, query) == first_value(form_pairs(q), "token"@),
{
    reveal_strlit("Bearer ");
    let b = "Bearer "@;
    let h = b + token;
    assert(h.subrange(0, 7) =~= b);
    assert(h.skip(7) =~= token);
    if b.is_prefix_of(header) {
        assert(header.subrange(0, 7) == b);
        assert(header =~= b + header.skip(7));
    }
}

/// A row into which an account was stored as a new one: each value stands in its column.
pub open spec fn holds_new_user(row: UserRow, values: Seq<ParamView>) -> bool {
    &&& row.token_version is Some && row.created_at is Some && row.updated_at is Some
    &&& values == seq![
        ParamView::Text(row.username@),
        ParamView::Text(row.password@),
        ParamView::Int(row.token_version->0),
        ParamView::Text(row.created_at->0@),
        ParamView::Text(row.updated_at->0@),
    ]
}

/// A new account is read back with its name and the hash of its password, with no session revoked yet, and
/// as old as its last change.
pub proof fn law_new_account_is_read_back(
    username: Seq<char>,
    hash: Seq<char>,
    now: Seq<char>,
    row: UserRow,
    user: User,
)
    requires
        holds_new_user(row, insert_user(username, hash, now).params),
        user_in(row, user),
    ensures
        user.username@ == username,
        user.password@ == hash,
        user.token_version == 0,
        user.created_at@ == now,
        user.updated_at@ == now,
{
    let p = insert_user(username, hash, now).params;
    assert(p[0] == ParamView::Text(row.username@));
    assert(p[1] == ParamView::Text(row.password@));
    assert(p[2] == ParamView::Int(row.token_version->0));
    assert(p[3] == ParamView::Text(row.created_at->0@));
    assert(p[4] == ParamView::Text(row.updated_at->0@));
}

/// A row into which a changed account was stored: each value stands in its column, under the number.
pub open spec fn holds_changed_user(row: UserRow, values: Seq<ParamView>) -> bool {
    &&& row.token_version is Some && row.updated_at is Some
    &&& values == seq![
        ParamView::Text(row.username@),
        ParamView::Text(row.password@),
        ParamView::Int(row.token_version->0),
        ParamView::Text(row.updated_at->0@),
        ParamView::Int(row.id),
    ]
}

/// A changed account is read back as it was changed: under its number, with a new name only where one was
/// given, and with a new hash exactly where there is one, which raises the version by one.
pub proof fn law_changed_account_is_read_back(
    user: User,
    username: Option<Seq<char>>,
    hash: Option<Seq<char>>,
    c: UserChange,
    now: Seq<char>,
    row: UserRow,
    after: User,
)
    requires
        changed(c, user, username, hash),
        holds_changed_user(row, store_user(c, user.id, now).params),
        user_in(row, after),
    ensures
        after.id == user.id,
        username matches Some(n) ==> (n.len() > 0 ==> after.username@ == n),
        username matches Some(n) ==> (n.len() == 0 ==> after.username@ == user.username@),
        username is None ==> after.username@ == user.username@,
        hash matches Some(h) ==> after.password@ == h && after.token_version == user.token_version + 1,
        hash is None ==> after.password@ == user.password@ && after.token_version == user.token_version,
        after.updated_at@ == now,
        c.password_changed <==> hash is Some,
{
    let p = store_user(c, user.id, now).params;
    assert(p[0] == ParamView::Text(row.username@));
    assert(p[1] == ParamView::Text(row.password@));
    assert(p[2] == ParamView::Int(row.token_version->0));
    assert(p[3] == ParamView::Text(row.updated_at->0@));
    assert(p[4] == ParamView::Int(row.id));
}

/// The first account can be made while no account is counted, also where they cannot be counted.
pub proof fn law_setup_goes_on_without_accounts(n: i64)
    ensures
        taken(SetupEvent::Counted(Some(n))) <==> n >= 1,
        !taken(SetupEvent::Counted(None)),
{
}

/// Who gives the password of an account logs in, and nobody else; without an account nobody does.
pub proof fn law_only_the_password_logs_in(user: User, password: Seq<char>)
    ensures
        logs_in(Some(user), password) <==> accepted(password, user.password@),
        !logs_in(None, password),
{
}

/// A request is answered as that of the account exactly if there is one whose version is that of the session.
pub proof fn law_sessions_authenticate(r: Result<User, ApiError>, claims: Claims, user: Option<User>)
    requires
        authenticates(r, claims, user),
    ensures
        user is None ==> r is Err,
        user matches Some(u) ==> (r is Ok <==> u.token_version == claims.version),
        r matches Ok(u) ==> user == Some(u),
        r matches Err(e) ==> e.status == 401,
{
}

/// Accounts are looked up by the column that is asked for: by their number, or by their name, as the hash of
/// their password is.
pub proof fn law_accounts_are_looked_up(id: i64, username: Seq<char>)
    ensures
        user_numbered(id) == statement(selection("*"@, "users"@, "id"@), seq![ParamView::Int(id)]),
        user_named(username) == statement(
            selection("*"@, "users"@, "username"@),
            seq![ParamView::Text(username)],
        ),
        password_named(username) == statement(
            selection("password"@, "users"@, "username"@),
            seq![ParamView::Text(username)],
        ),
{
    reveal_strlit("SELECT ");
    reveal_strlit("*");
    reveal_strlit("password");
    reveal_strlit(" FROM ");
    reveal_strlit("users");
    reveal_strlit(" WHERE ");
    reveal_strlit("id");
    reveal_strlit("username");
    reveal_strlit("=?");
    reveal_strlit("SELECT * FROM users WHERE id=?");
    reveal_strlit("SELECT * FROM users WHERE username=?");
    reveal_strlit("SELECT password FROM users WHERE username=?");
    assert("SELECT * FROM users WHERE id=?"@ =~= selection("*"@, "users"@, "id"@));
    assert("SELECT * FROM users WHERE username=?"@ =~= selection("*"@, "users"@, "username"@));
    assert("SELECT password FROM users WHERE username=?"@ =~= selection("password"@, "users"@, "username"@));
}

/// A state waits for what its step can come to: a count, a hash or none, an account or a failure; after the
/// answer for nothing more.
pub proof fn law_each_state_waits_for_its_step(h: Option<String>, n: Option<i64>, id: i64, m: String)
    ensures
        awaited(SetupState::Counting, SetupEvent::Counted(n)),
        awaited(SetupState::Recounting(m), SetupEvent::Counted(n)),
        awaited(SetupState::Hashing, SetupEvent::Hashed(h)),
        awaited(SetupState::Hashing, SetupEvent::Crashed),
        awaited(SetupState::Storing, SetupEvent::Stored(id)),
        awaited(SetupState::Storing, SetupEvent::StoreFailed(m)),
        !awaited(SetupState::Over, SetupEvent::Counted(n)),
{
}

/// A failure ends the making of an account with an answer: 500 where the password could not be hashed or the
/// account not be stored, 400 where there is an account already. The account that was stored is answered with.
pub proof fn law_setup_answers(
    state: SetupState,
    event: SetupEvent,
    username: Seq<char>,
    now: Seq<char>,
    next: SetupState,
    action: SetupAction,
)
    requires
        awaited(state, event),
        setup_follows(state, event, username, now, next, action),
    ensures
        event is Crashed || event is StoreFailed ==> next is Over && (action matches SetupAction::Refuse(e)
            && e.status == 500),
        event matches SetupEvent::Hashed(None) ==> next is Over && (action matches SetupAction::Refuse(e)
            && e.status == 500),
        event matches SetupEvent::Counted(Some(n)) && n > 0 ==> next is Over && (
        action matches SetupAction::Refuse(e) && e.status == 400),
        event matches SetupEvent::Stored(id) ==> next is Over && (action matches SetupAction::Welcome(k) && k
            == id),
        action is Refuse || action is Welcome <==> next is Over,
        event matches SetupEvent::Counted(None) ==> !(next is Over),
{
}

/// A pair is seen as its name and its value, each pair at its position.
pub proof fn law_pairs_are_seen(v: Seq<(String, String)>, i: int)
    requires
        0 <= i < v.len(),
    ensures
        pair_views(v).len() == v.len(),
        pair_views(v)[i].0 == v[i].0@,
        pair_views(v)[i].1 == v[i].1@,
{
}

} // verus!
