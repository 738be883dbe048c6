//! What a session token carries: claims as JSON text, signed with a secret.

use vstd::prelude::*;

use crate::json::{json_string, parse_string, plain, quoted};
use crate::text::{
    digit, digits, lemma_texts_push, same, signed_decimal, signed_digits, texts, to_chars,
};
use crate::types::Claims;

verus! {

// ---------------------------------------------------------------------------
// The names in a JSON object
// ---------------------------------------------------------------------------

/// How far a JSON text has been read: how many brackets are open, whether the place is in a string
/// and behind a backslash there, the last string begun, and the names met so far.
#[verifier::ext_equal]
pub struct Scan {
    pub depth: int,
    pub inside: bool,
    pub escaped: bool,
    pub word: Seq<char>,
    pub keys: Seq<Seq<char>>,
}

/// Nothing has been read.
pub open spec fn scan_start() -> Scan {
    Scan {
        depth: 0,
        inside: false,
        escaped: false,
        word: Seq::<char>::empty(),
        keys: Seq::<Seq<char>>::empty(),
    }
}

/// One more character has been read. A colon in the outermost object stands behind a name.
pub open spec fn scan_step(s: Scan, c: char) -> Scan {
    if s.inside {
        Scan {
            word: s.word.push(c),
            inside: s.escaped || c != '"',
            escaped: !s.escaped && c == '\\',
            ..s
        }
    } else if c == '"' {
        Scan { word: seq![c], inside: true, ..s }
    } else if c == '{' || c == '[' {
        Scan { depth: s.depth + 1, ..s }
    } else if c == '}' || c == ']' {
        Scan { depth: s.depth - 1, ..s }
    } else if c == ':' && s.depth == 1 {
        Scan { keys: s.keys.push(s.word), ..s }
    } else {
        s
    }
}

/// A text has been read.
pub open spec fn scanned(text: Seq<char>) -> Scan
    decreases text.len(),
{
    if text.len() == 0 {
        scan_start()
    } else {
        scan_step(scanned(text.drop_last()), text.last())
    }
}

/// The names in a JSON object, in order, as string literals.
fn object_keys(text: &str) -> (r: Vec<String>)
    ensures
        texts(r@) == scanned(text@).keys,
{
    let cs = to_chars(text);
    let n: usize = cs.len();
    let mut depth: i128 = 0;
    let mut inside: bool = false;
    let mut escaped: bool = false;
    let mut word: String = String::new();
    let mut keys: Vec<String> = Vec::new();
    let mut i: usize = 0;
    proof {
        assert(cs@.take(0) =~= Seq::<char>::empty());
        assert(word@ =~= Seq::<char>::empty());
        assert(texts(keys@) =~= Seq::<Seq<char>>::empty());
    }
    while i < n
        invariant
            n == cs@.len(),
            i <= n,
            -i <= depth <= i,
            scanned(cs@.take(i as int)) == (Scan {
                depth: depth as int,
                inside,
                escaped,
                word: word@,
                keys: texts(keys@),
            }),
        decreases n - i,
    {
        let c: char = cs[i];
        proof {
            assert(cs@.take(i + 1).drop_last() =~= cs@.take(i as int));
            assert(cs@.take(i + 1).last() == c);
        }
        if inside {
            word.push(c);
            inside = escaped || c != '"';
            escaped = !escaped && c == '\\';
        } else if c == '"' {
            word = String::new();
            word.push(c);
            inside = true;
            assert(word@ =~= seq![c]);
        } else if c == '{' || c == '[' {
            depth = depth + 1;
        } else if c == '}' || c == ']' {
            depth = depth - 1;
        } else if c == ':' && depth == 1 {
            let key = word.clone();
            proof {
                lemma_texts_push(keys@, key);
            }
            keys.push(key);
        }
        i = i + 1;
    }
    assert(cs@.take(n as int) =~= cs@);
    keys
}

/// How many of the names are the given one.
pub open spec fn times(keys: Seq<Seq<char>>, name: Seq<char>) -> nat
    decreases keys.len(),
{
    if keys.len() == 0 {
        0
    } else {
        times(keys.drop_last(), name) + if json_string(keys.last()) == Some(name) {
            1nat
        } else {
            0nat
        }
    }
}

/// Whether the given name is met more than once.
fn met_twice(keys: &Vec<String>, name: &str) -> (r: bool)
    ensures
        r == (times(texts(keys@), name@) > 1),
        forall|i: int, n: Seq<char>|
            0 <= i < keys@.len() && plain(n) && (#[trigger] keys@[i])@ == #[trigger] quoted(n)
                ==> json_string(keys@[i]@) == Some(n),
{
    let ghost ks = texts(keys@);
    let mut count: usize = 0;
    let mut i: usize = 0;
    while i < keys.len()
        invariant
            i <= keys@.len(),
            ks == texts(keys@),
            count <= i,
            count == times(ks.take(i as int), name@),
            forall|j: int, n: Seq<char>|
                0 <= j < i && plain(n) && (#[trigger] keys@[j])@ == #[trigger] quoted(n)
                    ==> json_string(keys@[j]@) == Some(n),
        decreases keys.len() - i,
    {
        proof {
            assert(ks.take(i + 1).drop_last() =~= ks.take(i as int));
            assert(ks.take(i + 1).last() == keys@[i as int]@);
        }
        match parse_string(keys[i].as_str()) {
            Some(k) => {
                if same(k.as_str(), name) {
                    count = count + 1;
                }
            },
            None => {},
        }
        i = i + 1;
    }
    assert(ks.take(ks.len() as int) =~= ks);
    count > 1
}

/// A claim is made twice.
pub open spec fn repeats_claim(text: Seq<char>) -> bool {
    let keys = scanned(text).keys;
    ||| times(keys, "sub"@) > 1
    ||| times(keys, "version"@) > 1
    ||| times(keys, "exp"@) > 1
    ||| times(keys, "iat"@) > 1
}

// ---------------------------------------------------------------------------
// Claims
// ---------------------------------------------------------------------------

/// What claims say: the subject, the version, and when the token expires and was issued.
pub open spec fn claims_view(c: Claims) -> (i64, i64, usize, usize) {
    (c.sub, c.version, c.exp, c.iat)
}

/// What claims that may be missing say.
pub open spec fn opt_claims(o: Option<Claims>) -> Option<(i64, i64, usize, usize)> {
    match o {
        Some(c) => Some(claims_view(c)),
        None => None,
    }
}

/// Claims as a JSON object.
pub open spec fn claims_text(c: (i64, i64, usize, usize)) -> Seq<char> {
    "{\"sub\":"@ + signed_digits(c.0 as int) + ",\"version\":"@ + signed_digits(c.1 as int)
        + ",\"exp\":"@ + signed_digits(c.2 as int) + ",\"iat\":"@ + signed_digits(c.3 as int) + "}"@
}

/// The number under a key of a JSON object, if it fits an `i64`; of several, the last.
pub uninterp spec fn json_i64(object: Seq<char>, key: Seq<char>) -> Option<i64>;

/// The number under a key of a JSON object, if it fits a `usize`; of several, the last.
pub uninterp spec fn json_usize(object: Seq<char>, key: Seq<char>) -> Option<usize>;

/// `from_str` of `serde_json` for an object, and again for the number under the key. The subject and
/// the version are read back from the text of claims.
#[verifier::external_body]
fn signed_field(object: &str, key: &str) -> (r: Option<i64>)
    ensures
        r == json_i64(object@, key@),
        forall|c: (i64, i64, usize, usize)|
            key@ == "sub"@ && object@ == #[trigger] claims_text(c) ==> r == Some(c.0),
        forall|c: (i64, i64, usize, usize)|
            key@ == "version"@ && object@ == #[trigger] claims_text(c) ==> r == Some(c.1),
{
    let m: std::collections::BTreeMap<String, Box<serde_json::value::RawValue>> =
        serde_json::from_str(object).ok()?;
    serde_json::from_str(m.get(key)?.get()).ok()
}

/// `from_str` of `serde_json` for an object, and again for the number under the key. The times are
/// read back from the text of claims.
#[verifier::external_body]
fn word_field(object: &str, key: &str) -> (r: Option<usize>)
    ensures
        r == json_usize(object@, key@),
        forall|c: (i64, i64, usize, usize)|
            key@ == "exp"@ && object@ == #[trigger] claims_text(c) ==> r == Some(c.2),
        forall|c: (i64, i64, usize, usize)|
            key@ == "iat"@ && object@ == #[trigger] claims_text(c) ==> r == Some(c.3),
{
    let m: std::collections::BTreeMap<String, Box<serde_json::value::RawValue>> =
        serde_json::from_str(object).ok()?;
    serde_json::from_str(m.get(key)?.get()).ok()
}

/// The claims in a JSON object. Nothing where one is missing or no number that fits.
pub open spec fn json_claims(text: Seq<char>) -> Option<(i64, i64, usize, usize)> {
    match (
        json_i64(text, "sub"@),
        json_i64(text, "version"@),
        json_usize(text, "exp"@),
        json_usize(text, "iat"@),
    ) {
        (Some(sub), Some(version), Some(exp), Some(iat)) => Some((sub, version, exp, iat)),
        _ => None,
    }
}

/// The claims in a JSON object.
fn parse_claims(text: &str) -> (r: Option<Claims>)
    ensures
        opt_claims(r) == json_claims(text@),
        forall|c: (i64, i64, usize, usize)|
            text@ == #[trigger] claims_text(c) ==> opt_claims(r) == Some(c),
{
    let sub = signed_field(text, "sub");
    let version = signed_field(text, "version");
    let exp = word_field(text, "exp");
    let iat = word_field(text, "iat");
    match (sub, version, exp, iat) {
        (Some(sub), Some(version), Some(exp), Some(iat)) => Some(Claims { sub, version, exp, iat }),
        _ => None,
    }
}

/// The claims that a text makes. One that makes a claim twice makes none.
pub open spec fn claims_in(text: Seq<char>) -> Option<(i64, i64, usize, usize)> {
    if repeats_claim(text) {
        None
    } else {
        json_claims(text)
    }
}

/// The names in claims as a JSON object.
pub open spec fn claim_keys() -> Seq<Seq<char>> {
    seq![quoted("sub"@), quoted("version"@), quoted("exp"@), quoted("iat"@)]
}

proof fn lemma_scan_push(text: Seq<char>, c: char)
    ensures
        scanned(text.push(c)) == scan_step(scanned(text), c),
{
    assert(text.push(c).drop_last() =~= text);
}

/// A number is no part of the structure of a text.
proof fn lemma_scan_digits(text: Seq<char>, n: nat)
    requires
        !scanned(text).inside,
    ensures
        scanned(text + digits(n)) == scanned(text),
    decreases n,
{
    if n < 10 {
        assert(text + digits(n) =~= text.push(digit(n)));
        lemma_scan_push(text, digit(n));
    } else {
        lemma_scan_digits(text, n / 10);
        assert(text + digits(n) =~= (text + digits(n / 10)).push(digit(n % 10)));
        lemma_scan_push(text + digits(n / 10), digit(n % 10));
    }
}

proof fn lemma_scan_number(text: Seq<char>, n: int)
    requires
        !scanned(text).inside,
    ensures
        scanned(text + signed_digits(n)) == scanned(text),
{
    if n < 0 {
        lemma_scan_push(text, '-');
        lemma_scan_digits(text.push('-'), (-n) as nat);
        assert(text + signed_digits(n) =~= text.push('-') + digits((-n) as nat));
    } else {
        lemma_scan_digits(text, n as nat);
    }
}

proof fn lemma_scan_inside(text: Seq<char>, name: Seq<char>)
    requires
        scanned(text).inside,
        !scanned(text).escaped,
        plain(name),
    ensures
        scanned(text + name) == (Scan { word: scanned(text).word + name, ..scanned(text) }),
    decreases name.len(),
{
    if name.len() == 0 {
        assert(text + name =~= text);
        assert(scanned(text).word + name =~= scanned(text).word);
    } else {
        let front = name.drop_last();
        assert(plain(front)) by {
            assert forall|i: int| 0 <= i < front.len() implies (#[trigger] front[i]) >= ' ' && front[i]
                != '"' && front[i] != '\\' by {
                assert(front[i] == name[i]);
            }
        }
        lemma_scan_inside(text, front);
        lemma_scan_push(text + front, name.last());
        assert(text + name =~= (text + front).push(name.last()));
        assert(name.last() == name[name.len() - 1]);
        assert(scanned(text).word + name =~= (scanned(text).word + front).push(name.last()));
    }
}

/// A name and a colon in the outermost object are a name met.
proof fn lemma_scan_key(text: Seq<char>, name: Seq<char>)
    requires
        !scanned(text).inside,
        !scanned(text).escaped,
        scanned(text).depth == 1,
        plain(name),
    ensures
        scanned(text + quoted(name) + seq![':']) == (Scan {
            word: quoted(name),
            keys: scanned(text).keys.push(quoted(name)),
            ..scanned(text)
        }),
{
    let a = text.push('"');
    let b = a + name;
    let c = b.push('"');
    lemma_scan_push(text, '"');
    lemma_scan_inside(a, name);
    lemma_scan_push(b, '"');
    assert((seq!['"'] + name).push('"') =~= quoted(name));
    lemma_scan_push(c, ':');
    assert(text + quoted(name) + seq![':'] =~= c.push(':'));
}

/// Claims as a JSON object name each claim once.
pub proof fn law_claims_are_named_once(c: (i64, i64, usize, usize))
    ensures
        scanned(claims_text(c)).keys == claim_keys(),
        plain("sub"@) && plain("version"@) && plain("exp"@) && plain("iat"@),
{
    reveal_strlit("sub");
    reveal_strlit("version");
    reveal_strlit("exp");
    reveal_strlit("iat");
    reveal_strlit("{\"sub\":");
    reveal_strlit(",\"version\":");
    reveal_strlit(",\"exp\":");
    reveal_strlit(",\"iat\":");
    reveal_strlit("}");
    let t0 = seq!['{'];
    assert(scanned(t0).depth == 1 && !scanned(t0).inside && !scanned(t0).escaped && scanned(t0).keys
        =~= Seq::<Seq<char>>::empty()) by {
        assert(t0 =~= Seq::<char>::empty().push('{'));
        lemma_scan_push(Seq::<char>::empty(), '{');
    }
    let t1 = t0 + quoted("sub"@) + seq![':'];
    lemma_scan_key(t0, "sub"@);
    let t2 = t1 + signed_digits(c.0 as int);
    lemma_scan_number(t1, c.0 as int);
    let t3 = t2.push(',');
    lemma_scan_push(t2, ',');
    let t4 = t3 + quoted("version"@) + seq![':'];
    lemma_scan_key(t3, "version"@);
    let t5 = t4 + signed_digits(c.1 as int);
    lemma_scan_number(t4, c.1 as int);
    let t6 = t5.push(',');
    lemma_scan_push(t5, ',');
    let t7 = t6 + quoted("exp"@) + seq![':'];
    lemma_scan_key(t6, "exp"@);
    let t8 = t7 + signed_digits(c.2 as int);
    lemma_scan_number(t7, c.2 as int);
    let t9 = t8.push(',');
    lemma_scan_push(t8, ',');
    let t10 = t9 + quoted("iat"@) + seq![':'];
    lemma_scan_key(t9, "iat"@);
    let t11 = t10 + signed_digits(c.3 as int);
    lemma_scan_number(t10, c.3 as int);
    lemma_scan_push(t11, '}');
    assert("{\"sub\":"@ =~= t1);
    assert(t3 + quoted("version"@) + seq![':'] =~= t2 + ",\"version\":"@);
    assert(t6 + quoted("exp"@) + seq![':'] =~= t5 + ",\"exp\":"@);
    assert(t9 + quoted("iat"@) + seq![':'] =~= t8 + ",\"iat\":"@);
    assert(t11.push('}') =~= t11 + "}"@);
    assert(scanned(claims_text(c)).keys =~= claim_keys());
}

proof fn lemma_claim_keys_differ()
    requires
        json_string(quoted("sub"@)) == Some("sub"@),
        json_string(quoted("version"@)) == Some("version"@),
        json_string(quoted("exp"@)) == Some("exp"@),
        json_string(quoted("iat"@)) == Some("iat"@),
    ensures
        times(claim_keys(), "sub"@) == 1,
        times(claim_keys(), "version"@) == 1,
        times(claim_keys(), "exp"@) == 1,
        times(claim_keys(), "iat"@) == 1,
{
    reveal_strlit("sub");
    reveal_strlit("version");
    reveal_strlit("exp");
    reveal_strlit("iat");
    let k = claim_keys();
    assert("exp"@[0] != "sub"@[0] && "exp"@[0] != "iat"@[0] && "sub"@[0] != "iat"@[0]);
    assert(k.drop_last() =~= seq![quoted("sub"@), quoted("version"@), quoted("exp"@)]);
    assert(k.drop_last().drop_last() =~= seq![quoted("sub"@), quoted("version"@)]);
    assert(k.drop_last().drop_last().drop_last() =~= seq![quoted("sub"@)]);
    assert(k.drop_last().drop_last().drop_last().drop_last() =~= Seq::<Seq<char>>::empty());
    reveal_with_fuel(times, 5);
}

/// A text makes the claims given, and if it is the text of claims, these are they.
pub open spec fn makes(text: Seq<char>, c: Claims) -> bool {
    &&& claims_in(text) == Some(claims_view(c))
    &&& forall|k: (i64, i64, usize, usize)| text == #[trigger] claims_text(k) ==> claims_view(c) == k
}

/// The claims that a text makes. The text of claims makes these.
pub fn read_claims(text: &str) -> (r: Option<Claims>)
    ensures
        opt_claims(r) == claims_in(text@),
        forall|c: (i64, i64, usize, usize)|
            text@ == #[trigger] claims_text(c) ==> opt_claims(r) == Some(c),
{
    let keys = object_keys(text);
    let sub_twice = met_twice(&keys, "sub");
    proof {
        assert forall|c: (i64, i64, usize, usize)| text@ == #[trigger] claims_text(c) implies !repeats_claim(
            text@,
        ) by {
            law_claims_are_named_once(c);
            assert(texts(keys@) == claim_keys());
            assert(keys@[0]@ == texts(keys@)[0] && keys@[1]@ == texts(keys@)[1] && keys@[2]@ == texts(
                keys@,
            )[2] && keys@[3]@ == texts(keys@)[3]);
            lemma_claim_keys_differ();
        }
    }
    if sub_twice || met_twice(&keys, "version") || met_twice(&keys, "exp") || met_twice(
        &keys,
        "iat",
    ) {
        return None;
    }
    parse_claims(text)
}

/// Claims as a JSON object.
pub fn claims_json(c: &Claims) -> (r: String)
    ensures
        r@ == claims_text(claims_view(*c)),
{
    let mut r: String = "{\"sub\":".to_owned();
    r.append(signed_decimal(c.sub as i128).as_str());
    r.append(",\"version\":");
    r.append(signed_decimal(c.version as i128).as_str());
    r.append(",\"exp\":");
    r.append(signed_decimal(c.exp as i128).as_str());
    r.append(",\"iat\":");
    r.append(signed_decimal(c.iat as i128).as_str());
    r.append("}");
    r
}

// ---------------------------------------------------------------------------
// Tokens
// ---------------------------------------------------------------------------

/// The text that a token signed with a secret carries. Nothing for a text that is no such token.
pub uninterp spec fn jwt_payload(token: Seq<char>, secret: Seq<u8>) -> Option<Seq<char>>;

/// What a token signed with a secret says.
pub open spec fn jwt_claims(token: Seq<char>, secret: Seq<u8>) -> Option<(i64, i64, usize, usize)> {
    match jwt_payload(token, secret) {
        Some(text) => claims_in(text),
        None => None,
    }
}

/// `encode` of `jsonwebtoken`, with the default header, which asks for HS256, of the JSON text of
/// claims. It always gives a token for a shared secret, and the token carries the text.
#[verifier::external_body]
pub(crate) fn jwt_sign(text: String, secret: &[u8]) -> (r: Option<String>)
    requires
        exists|c: (i64, i64, usize, usize)| text@ == #[trigger] claims_text(c),
    ensures
        r is Some,
        r matches Some(t) ==> jwt_payload(t@, secret@) == Some(text@),
{
    let claims = serde_json::value::RawValue::from_string(text).ok()?;
    let key = jsonwebtoken::EncodingKey::from_secret(secret);
    jsonwebtoken::encode(&jsonwebtoken::Header::default(), &claims, &key).ok()
}

/// `decode` of `jsonwebtoken`, with the default checks for HS256. What it gives is the text that the
/// token carries under the secret. It gives nothing for a token that expired more than a minute
/// ago; the clock decides that, so when it gives something is not stated.
#[verifier::external_body]
pub(crate) fn jwt_open(token: &str, secret: &[u8]) -> (r: Option<String>)
    ensures
        r matches Some(text) ==> jwt_payload(token@, secret@) == Some(text@),
{
    let key = jsonwebtoken::DecodingKey::from_secret(secret);
    let checks = jsonwebtoken::Validation::new(jsonwebtoken::Algorithm::HS256);
    let data = jsonwebtoken::decode::<Box<serde_json::value::RawValue>>(token, &key, &checks);
    Some(data.ok()?.claims.get().to_string())
}

/// Claims are made by all four names, each under its own, and each told once: a text that tells one of them
/// twice, or leaves one out, makes none.
pub proof fn law_claims_are_told_once(text: Seq<char>)
    ensures
        claims_in(text) matches Some(c) ==> {
            &&& json_i64(text, "sub"@) == Some(c.0)
            &&& json_i64(text, "version"@) == Some(c.1)
            &&& json_usize(text, "exp"@) == Some(c.2)
            &&& json_usize(text, "iat"@) == Some(c.3)
            &&& times(scanned(text).keys, "sub"@) <= 1
            &&& times(scanned(text).keys, "version"@) <= 1
            &&& times(scanned(text).keys, "exp"@) <= 1
            &&& times(scanned(text).keys, "iat"@) <= 1
        },
        claims_in(text) is None ==> {
            ||| json_i64(text, "sub"@) is None
            ||| json_i64(text, "version"@) is None
            ||| json_usize(text, "exp"@) is None
            ||| json_usize(text, "iat"@) is None
            ||| times(scanned(text).keys, "sub"@) > 1
            ||| times(scanned(text).keys, "version"@) > 1
            ||| times(scanned(text).keys, "exp"@) > 1
            ||| times(scanned(text).keys, "iat"@) > 1
        },
{
}

/// Claims are seen as their subject, their version, their end and their start.
pub proof fn law_claims_are_seen(c: Claims)
    ensures
        claims_view(c).0 == c.sub,
        claims_view(c).1 == c.version,
        claims_view(c).2 == c.exp,
        claims_view(c).3 == c.iat,
        opt_claims(Some(c)) == Some(claims_view(c)),
        opt_claims(None) is None,
{
}

} // verus!
