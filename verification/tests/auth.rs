use cloudone::auth::{
    accept_claims, auth_status, authenticate, authenticate_terminal, change_user, count_users,
    first_user, gen_token, gen_token_at, get_user_by_id, login, login_gate, login_gate_at,
    password_of, request_claims, request_token, setup, terminal_claims, token_from,
    update_user, update_user_statement, user_by_name, value_of, SetupAction, SetupEvent, SetupState,
    SESSION_SECS,
};
use cloudone::claims::read_claims;
use cloudone::limiter::RateLimiter;
use cloudone::reply::ApiError;
use cloudone::sql::Param;
use cloudone::types::{Claims, UpdateUserReq, User};

fn user(password: &str, version: i64) -> User {
    User {
        id: 7,
        username: "admin".to_string(),
        password: password.to_string(),
        token_version: version,
        created_at: String::new(),
        updated_at: String::new(),
    }
}

fn some(s: &str) -> Option<String> {
    Some(s.to_string())
}

fn says<T>(r: Result<T, ApiError>) -> (u16, String) {
    match r {
        Ok(_) => panic!("accepted"),
        Err(e) => (e.status, e.message),
    }
}

fn refusal(status: u16, m: &str) -> (u16, String) {
    (status, m.to_string())
}

#[test]
fn tokens_say_who_they_are_for() {
    let secret = b"secret".to_vec();
    let now = cloudone::time::unix_now();
    let t = gen_token_at(&secret, &user("", 3), now).unwrap();
    let c = request_claims(Some(t.clone()), &secret).unwrap();
    assert_eq!((c.sub, c.version, c.iat, c.exp), (7, 3, now, now + 604_800));
    assert_eq!(SESSION_SECS, 604_800);
    assert_eq!(says(request_claims(Some(t), &b"other".to_vec())), refusal(401, "unauthorized"));
    let t = gen_token(&secret, &user("", 4)).unwrap();
    assert_eq!(request_claims(Some(t), &secret).unwrap().version, 4);
}

#[test]
fn outcomes_are_refused() {
    assert_eq!(says(accept_claims(None)), refusal(401, "unauthorized"));
    let c = accept_claims(some("{\"sub\":1,\"version\":2,\"exp\":3,\"iat\":4}")).unwrap();
    assert_eq!((c.sub, c.version, c.exp, c.iat), (1, 2, 3, 4));
    assert_eq!(says(accept_claims(some("{\"sub\":1}"))), refusal(401, "unauthorized"));
}

/// A token that carries the text.
fn signed(text: String, secret: &[u8]) -> String {
    let raw = serde_json::value::RawValue::from_string(text).unwrap();
    let key = jsonwebtoken::EncodingKey::from_secret(secret);
    jsonwebtoken::encode(&jsonwebtoken::Header::default(), &raw, &key).unwrap()
}

#[test]
fn tokens_carry_their_claims_in_order() {
    let t = gen_token_at(&b"secret".to_vec(), &user("", -3), 1_700_000_000).unwrap();
    let body = t.split('.').nth(1).unwrap();
    let engine = &base64::engine::general_purpose::URL_SAFE_NO_PAD;
    let text = String::from_utf8(base64::Engine::decode(engine, body).unwrap()).unwrap();
    assert_eq!(text, "{\"sub\":7,\"version\":-3,\"exp\":1700604800,\"iat\":1700000000}");
    assert_eq!(t, signed(text, b"secret"));
}

#[test]
fn tokens_that_repeat_a_claim_are_refused() {
    let ask = |text: &str| request_claims(Some(signed(text.to_string(), b"secret")), &b"secret".to_vec());
    let c = ask("{\"iat\":5,\"exp\":9999999999,\"x\":{\"sub\":1,\"sub\":2},\"sub\":7,\"x\":[],\"version\":1}");
    let c = c.unwrap();
    assert_eq!((c.sub, c.version, c.exp, c.iat), (7, 1, 9_999_999_999, 5));
    let twice = "{\"sub\":7,\"version\":1,\"version\":1,\"exp\":9999999999,\"iat\":5}";
    assert_eq!(says(ask(twice)), refusal(401, "unauthorized"));
    let escaped = "{\"sub\":7,\"version\":1,\"exp\":9999999999,\"iat\":5,\"\\u0069at\":6}";
    assert_eq!(says(ask(escaped)), refusal(401, "unauthorized"));
    let old = "{\"sub\":7,\"version\":1,\"exp\":5,\"iat\":5}";
    assert_eq!(says(ask(old)), refusal(401, "unauthorized"));
}

#[test]
fn claims_are_read() {
    let read = |text: &str| read_claims(text).map(|c| (c.sub, c.version, c.exp, c.iat));
    assert_eq!(read(" { \"sub\" : -1, \"version\":2,\"exp\":3 ,\"iat\":4 } "), Some((-1, 2, 3, 4)));
    assert_eq!(read("{\"sub\":1,\"version\":2,\"exp\":3}"), None);
    assert_eq!(read("{\"sub\":1,\"version\":2,\"exp\":-3,\"iat\":4}"), None);
    assert_eq!(read("{\"sub\":1,\"version\":2,\"exp\":3.0,\"iat\":4}"), None);
    assert_eq!(read("{\"sub\":\"1\",\"version\":2,\"exp\":3,\"iat\":4}"), None);
    assert_eq!(read("[1,2,3,4]"), None);
    assert_eq!(read("{"), None);
    let said = "{\"sub\":1,\"version\":2,\"exp\":3,\"iat\":4,\"say\":\"\\\"sub\\\": \",\"l\":[{\"sub\":0}]}";
    assert_eq!(read(said), Some((1, 2, 3, 4)));
    for name in ["sub", "version", "exp", "iat"] {
        let text = format!("{{\"sub\":1,\"version\":2,\"exp\":3,\"iat\":4,\"{name}\":4}}");
        assert_eq!(read(&text), None);
    }
}

#[test]
fn sessions_that_end_too_late_get_no_token() {
    let secret = b"secret".to_vec();
    assert!(token_from(&secret, &user("", 3), usize::MAX - SESSION_SECS).is_ok());
    assert!(token_from(&secret, &user("", 3), usize::MAX - SESSION_SECS + 1).is_err());
    let now = cloudone::time::unix_now();
    let t = token_from(&secret, &user("", 3), now).unwrap();
    assert_eq!(request_claims(Some(t), &secret).unwrap().exp, now + SESSION_SECS);
}

#[test]
fn tokens_expire() {
    let secret = b"secret".to_vec();
    let t = gen_token_at(&secret, &user("", 3), 1_000_000).unwrap();
    assert_eq!(says(request_claims(Some(t), &secret)), refusal(401, "unauthorized"));
}

#[test]
fn tokens_have_the_usual_form() {
    let secret = b"secret".to_vec();
    let t = gen_token_at(&secret, &user("", 3), 0).unwrap();
    assert_eq!(t.split('.').count(), 3);
    assert!(t.starts_with("eyJ0eXAiOiJKV1QiLCJhbGciOiJIUzI1NiJ9."));
    let mut other = t.clone();
    other.pop();
    assert!(request_claims(Some(other), &secret).is_err());
    assert!(request_claims(None, &secret).is_err());
    assert!(request_claims(some("x"), &secret).is_err());
}

#[test]
fn where_the_token_comes_from() {
    assert_eq!(request_token(&some("Bearer abc"), &some("token=x")), some("abc"));
    assert_eq!(request_token(&some("Basic abc"), &some("a=1&token=x%20y&token=z")), some("x y"));
    assert_eq!(request_token(&None, &some("tok=1")), None);
    assert_eq!(request_token(&some("bearer abc"), &None), None);
    let pairs = vec![("a".to_string(), "1".to_string()), ("b".to_string(), "2".to_string()), ("b".to_string(), "3".to_string())];
    assert_eq!(value_of(&pairs, "b"), some("2"));
    assert_eq!(value_of(&pairs, "c"), None);
}

#[test]
fn sessions_are_checked_against_the_account() {
    let c = Claims { sub: 7, version: 3, exp: 0, iat: 0 };
    assert_eq!(authenticate(&c, Some(user("", 3))).unwrap().id, 7);
    assert_eq!(says(authenticate(&c, Some(user("", 4)))), refusal(401, "token has been revoked, please login again"));
    assert_eq!(says(authenticate(&c, None)), refusal(401, "user not found"));
    assert!(authenticate_terminal(&c, Some(user("", 3))).is_ok());
    assert_eq!(says(authenticate_terminal(&c, Some(user("", 4)))), refusal(401, "token revoked"));
    assert_eq!(says(authenticate_terminal(&c, None)), refusal(401, "user not found"));
}

#[test]
fn terminals_need_a_token() {
    let secret = b"secret".to_vec();
    assert_eq!(says(terminal_claims(None, &secret)), refusal(401, "unauthorized"));
    assert_eq!(says(terminal_claims(some(""), &secret)), refusal(401, "unauthorized"));
    assert_eq!(says(terminal_claims(some("x"), &secret)), refusal(401, "unauthorized"));
    let t = gen_token(&secret, &user("", 4)).unwrap();
    assert_eq!(terminal_claims(Some(t), &secret).unwrap().sub, 7);
}

fn refused(r: (SetupState, SetupAction)) -> (u16, String) {
    match r {
        (SetupState::Over, SetupAction::Refuse(e)) => (e.status, e.message),
        _ => panic!("accepted"),
    }
}

#[test]
fn the_first_account() {
    assert!(!auth_status(None));
    assert!(!auth_status(Some(0)));
    assert!(auth_status(Some(1)));
    let go = |s: SetupState, e: SetupEvent| setup(s, e, "admin", "now");
    assert!(matches!(go(SetupState::Counting, SetupEvent::Counted(Some(0))), (SetupState::Hashing, SetupAction::Hash)));
    assert!(matches!(go(SetupState::Counting, SetupEvent::Counted(None)), (SetupState::Hashing, SetupAction::Hash)));
    assert!(matches!(go(SetupState::Hashing, SetupEvent::Hashed(some("h"))), (SetupState::Recounting(h), SetupAction::Count) if h == "h"));
    let (next, action) = go(SetupState::Recounting("hash".to_string()), SetupEvent::Counted(Some(0)));
    assert!(matches!(next, SetupState::Storing));
    let SetupAction::Store(s) = action else { panic!("not stored") };
    assert_eq!(s.sql, "INSERT INTO users (username,password,token_version,created_at,updated_at) VALUES (?,?,?,?,?)");
    assert_eq!(s.params.len(), 5);
    assert!(matches!(&s.params[0], Param::Text(t) if t == "admin"));
    assert!(matches!(&s.params[1], Param::Text(t) if t == "hash"));
    assert!(matches!(s.params[2], Param::Int(0)));
    assert!(matches!(&s.params[4], Param::Text(t) if t == "now"));
    assert!(matches!(go(SetupState::Storing, SetupEvent::Stored(1)), (SetupState::Over, SetupAction::Welcome(1))));
}

#[test]
fn no_second_account() {
    let go = |s: SetupState, e: SetupEvent| refused(setup(s, e, "admin", "now"));
    assert_eq!(go(SetupState::Counting, SetupEvent::Counted(Some(1))), refusal(400, "already setup"));
    assert_eq!(go(SetupState::Recounting(String::new()), SetupEvent::Counted(Some(2))), refusal(400, "already setup"));
    assert_eq!(go(SetupState::Hashing, SetupEvent::Hashed(None)), refusal(500, "failed to hash password"));
    assert_eq!(go(SetupState::Hashing, SetupEvent::Crashed), refusal(500, "internal error"));
    assert_eq!(go(SetupState::Storing, SetupEvent::StoreFailed("full".to_string())), refusal(500, "full"));
}

#[test]
fn logging_in() {
    let h = bcrypt::hash("pw", 4).unwrap();
    assert_eq!(login(Some(user(&h, 0)), "pw").unwrap().id, 7);
    assert_eq!(says(login(Some(user(&h, 0)), "no")), refusal(401, "invalid credentials"));
    assert_eq!(says(login(None, "pw")), refusal(401, "invalid credentials"));
    assert_eq!(says(login(Some(user("no hash", 0)), "pw")), refusal(401, "invalid credentials"));
}

#[test]
fn logins_are_limited() {
    let mut l = RateLimiter::new(1, 100);
    assert!(login_gate_at(&mut l, "a".to_string(), 0).is_ok());
    assert_eq!(says(login_gate_at(&mut l, "a".to_string(), 1)), refusal(429, "too many login attempts, please try again later"));
    assert!(login_gate_at(&mut l, "a".to_string(), 100).is_ok());
    assert!(login_gate(&mut l, "b".to_string()).is_ok());
}

#[test]
fn a_new_password_revokes_sessions() {
    let u = user("old", 3);
    let c = change_user(&u, None, some("new hash"));
    assert_eq!((c.token_version, c.password_changed), (4, true));
    assert_eq!(c.password, "new hash");
    assert_eq!(c.username, "admin");
    let session = Claims { sub: 7, version: 3, exp: 0, iat: 0 };
    assert!(authenticate(&session, Some(user("new hash", c.token_version))).is_err());
    let c = change_user(&user("old", i64::MAX), some("root"), None);
    assert_eq!((c.username.as_str(), c.token_version), ("root", i64::MAX));
    let c = change_user(&u, some("root"), None);
    assert_eq!((c.token_version, c.password_changed), (3, false));
    assert_eq!((c.username.as_str(), c.password.as_str()), ("root", "old"));
    assert!(authenticate(&session, Some(user("old", c.token_version))).is_ok());
}

#[test]
fn changes_of_an_account() {
    let u = user("old", 3);
    let c = update_user(&u, UpdateUserReq { username: some(""), password: some("") }).unwrap();
    assert_eq!((c.username.as_str(), c.password.as_str(), c.token_version), ("admin", "old", 3));
    let c = update_user(&u, UpdateUserReq { username: some("root"), password: some("pw") }).unwrap();
    assert_eq!((c.username.as_str(), c.token_version, c.password_changed), ("root", 4, true));
    assert!(login(Some(user(&c.password, 4)), "pw").is_ok());
    let s = update_user_statement(&c, 7, "now");
    assert_eq!(s.sql, "UPDATE users SET username=?,password=?,token_version=?,updated_at=? WHERE id=?");
    assert!(matches!(s.params[2], Param::Int(4)));
    assert!(matches!(s.params[4], Param::Int(7)));
}

#[test]
fn statements_on_accounts() {
    assert_eq!(count_users().sql, "SELECT COUNT(*) FROM users");
    assert_eq!(first_user().sql, "SELECT username FROM users LIMIT 1");
    assert!(matches!(&password_of("x").params[0], Param::Text(t) if t == "x"));
    assert!(matches!(&user_by_name("x").params[0], Param::Text(t) if t == "x"));
    assert!(matches!(get_user_by_id(9).params[0], Param::Int(9)));
}
