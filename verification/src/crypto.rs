//! Secrets: random bytes, digests, password hashes and the encryption of stored secrets.

use vstd::prelude::*;
use vstd::utf8::{
    decode_utf8, decode_utf8_encode_utf8, encode_utf8, encode_utf8_decode_utf8,
    encode_utf8_valid_utf8, is_ascii_chars, is_ascii_chars_encode_utf8, valid_utf8,
};

use crate::text::from_utf8;

verus! {

// ---------------------------------------------------------------------------
// Outside functions
// ---------------------------------------------------------------------------

/// The AES-256-GCM ciphertext, with its tag, of a plaintext.
pub uninterp spec fn gcm_sealed(key: Seq<u8>, nonce: Seq<u8>, plain: Seq<u8>) -> Seq<u8>;

/// The plaintext of an AES-256-GCM ciphertext, if its tag is right.
pub uninterp spec fn gcm_opened(key: Seq<u8>, nonce: Seq<u8>, sealed: Seq<u8>) -> Option<Seq<u8>>;

/// The standard base 64 text of some bytes, with padding.
pub uninterp spec fn base64_text(bytes: Seq<u8>) -> Seq<char>;

/// The bytes that a standard base 64 text stands for, if it is one.
pub uninterp spec fn base64_bytes(text: Seq<char>) -> Option<Seq<u8>>;

/// The SHA-256 digest.
pub uninterp spec fn sha256(bytes: Seq<u8>) -> Seq<u8>;

/// Whether a password is the one that a bcrypt hash was made of; nothing for a text that is no
/// bcrypt hash.
pub uninterp spec fn bcrypt_matches(password: Seq<char>, hash: Seq<char>) -> Option<bool>;

/// The longest plaintext, in bytes, that AES-GCM takes.
pub const LONGEST_PLAINTEXT: u64 = 0x10_0000_0000;

/// `RngCore::fill_bytes` of `rand`, on its thread generator: `n` bytes of which nothing is known.
#[verifier::external_body]
pub(crate) fn random_bytes(n: usize) -> (r: Vec<u8>)
    ensures
        r@.len() == n,
{
    let mut b = vec![0u8; n];
    rand::RngCore::fill_bytes(&mut rand::thread_rng(), &mut b);
    b
}

/// Encryption with `Aes256Gcm` of `aes-gcm`. It fails on a plaintext of more than 2^36 bytes and on
/// no other; the ciphertext is a function of its arguments, 16 bytes longer than the plaintext,
/// and opens to the plaintext again.
#[verifier::external_body]
fn gcm_seal(key: &[u8; 32], nonce: &[u8], plain: &[u8]) -> (r: Option<Vec<u8>>)
    requires
        nonce@.len() == 12,
    ensures
        r is Some <==> plain@.len() <= LONGEST_PLAINTEXT,
        r matches Some(c) ==> {
            &&& c@ == gcm_sealed(key@, nonce@, plain@)
            &&& c@.len() == plain@.len() + 16
            &&& gcm_opened(key@, nonce@, c@) == Some(plain@)
        },
{
    let cipher: aes_gcm::Aes256Gcm = aes_gcm::KeyInit::new(key.into());
    aes_gcm::aead::Aead::encrypt(&cipher, aes_gcm::Nonce::from_slice(nonce), plain).ok()
}

/// Decryption with `Aes256Gcm` of `aes-gcm`, a function of its arguments. The plaintext is 16 bytes
/// shorter than the ciphertext.
#[verifier::external_body]
fn gcm_open(key: &[u8; 32], nonce: &[u8], sealed: &[u8]) -> (r: Option<Vec<u8>>)
    requires
        nonce@.len() == 12,
    ensures
        match r {
            Some(p) => gcm_opened(key@, nonce@, sealed@) == Some(p@) && p@.len() + 16 == sealed@.len(),
            None => gcm_opened(key@, nonce@, sealed@) is None,
        },
{
    let cipher: aes_gcm::Aes256Gcm = aes_gcm::KeyInit::new(key.into());
    aes_gcm::aead::Aead::decrypt(&cipher, aes_gcm::Nonce::from_slice(nonce), sealed).ok()
}

/// `Engine::encode` of `base64`, with the standard alphabet and padding: four characters for every
/// three bytes begun, from which the bytes can be read back.
#[verifier::external_body]
fn base64_encode(bytes: &[u8]) -> (r: String)
    requires
        (bytes@.len() + 2) / 3 * 4 <= usize::MAX,
    ensures
        r@ == base64_text(bytes@),
        r@.len() == (bytes@.len() + 2) / 3 * 4,
        base64_bytes(r@) == Some(bytes@),
{
    base64::Engine::encode(&base64::engine::general_purpose::STANDARD, bytes)
}

/// `Engine::decode` of `base64`, with the standard alphabet and padding.
#[verifier::external_body]
pub(crate) fn base64_decode(text: &str) -> (r: Option<Vec<u8>>)
    ensures
        match r {
            Some(b) => base64_bytes(text@) == Some(b@),
            None => base64_bytes(text@) is None,
        },
{
    base64::Engine::decode(&base64::engine::general_purpose::STANDARD, text).ok()
}

/// `Sha256::digest` of `sha2`.
#[verifier::external_body]
fn sha256_digest(bytes: &[u8]) -> (r: [u8; 32])
    ensures
        r@ == sha256(bytes@),
{
    <sha2::Sha256 as sha2::Digest>::digest(bytes).into()
}

/// `hex::encode`: two lower-case hexadecimal digits for each byte, the high one first.
#[verifier::external_body]
pub(crate) fn hex_encode(bytes: &[u8]) -> (r: String)
    requires
        bytes@.len() * 2 <= usize::MAX,
    ensures
        r@ == hex_text(bytes@),
{
    hex::encode(bytes)
}

/// `bcrypt::hash` at the default cost, with a random salt. It can fail, where the system gives no
/// random bytes; a hash that it gives matches the password, and is 60 ASCII characters long.
#[verifier::external_body]
fn bcrypt_hash(password: &str) -> (r: Option<String>)
    ensures
        r matches Some(h) ==> {
            &&& bcrypt_matches(password@, h@) == Some(true)
            &&& h@.len() == 60
            &&& is_ascii_chars(h@)
        },
{
    bcrypt::hash(password, bcrypt::DEFAULT_COST).ok()
}

/// `bcrypt::verify`: whether a password is the one that the hash was made of, and nothing where the
/// text is no hash.
#[verifier::external_body]
fn bcrypt_verify(password: &str, hash: &str) -> (r: Option<bool>)
    ensures
        r == bcrypt_matches(password@, hash@),
{
    bcrypt::verify(password, hash).ok()
}

// ---------------------------------------------------------------------------
// Hexadecimal text
// ---------------------------------------------------------------------------

/// A hexadecimal digit.
pub open spec fn hex_digit(n: int) -> char {
    if n < 10 {
        ('0' as int + n) as char
    } else {
        ('a' as int + n - 10) as char
    }
}

/// Two hexadecimal digits for each byte, the high one first.
pub open spec fn hex_text(bytes: Seq<u8>) -> Seq<char> {
    Seq::new(
        bytes.len() * 2,
        |i: int|
            hex_digit(
                if i % 2 == 0 {
                    bytes[i / 2] / 16
                } else {
                    bytes[i / 2] % 16
                } as int,
            ),
    )
}

/// Hexadecimal text is ASCII.
pub proof fn lemma_hex_ascii(bytes: Seq<u8>)
    ensures
        is_ascii_chars(hex_text(bytes)),
        hex_text(bytes).len() == bytes.len() * 2,
{
    assert forall|i: int| 0 <= i < hex_text(bytes).len() implies '\0' <= #[trigger] hex_text(bytes)[i]
        <= '\u{7f}' by {
        let n = if i % 2 == 0 {
            bytes[i / 2] / 16
        } else {
            bytes[i / 2] % 16
        } as int;
        assert(0 <= n < 16);
        assert(hex_text(bytes)[i] == hex_digit(n));
    }
}

/// A text that names 32 random bytes.
pub fn random_secret() -> (r: String)
    ensures
        exists|b: Seq<u8>| b.len() == 32 && r@ == #[trigger] hex_text(b),
{
    let b = random_bytes(32);
    hex_encode(b.as_slice())
}

/// The key that a master secret stands for.
pub fn master_key(text: &str) -> (r: [u8; 32])
    ensures
        r@ == sha256(encode_utf8(text@)),
{
    sha256_digest(text.as_bytes())
}

// ---------------------------------------------------------------------------
// Passwords
// ---------------------------------------------------------------------------

/// The hash of a password under a fresh salt.
pub fn hash_password(password: &str) -> (r: Option<String>)
    ensures
        r matches Some(h) ==> bcrypt_matches(password@, h@) == Some(true) && h@.len() == 60
            && is_ascii_chars(h@),
{
    bcrypt_hash(password)
}

/// A password is accepted against a stored hash.
pub open spec fn accepted(password: Seq<char>, hash: Seq<char>) -> bool {
    bcrypt_matches(password, hash) == Some(true)
}

/// Whether a password is accepted against a stored hash.
pub fn check_password(password: &str, hash: &str) -> (r: bool)
    ensures
        r == accepted(password@, hash@),
{
    match bcrypt_verify(password, hash) {
        Some(b) => b,
        None => false,
    }
}

// ---------------------------------------------------------------------------
// Stored secrets
// ---------------------------------------------------------------------------

/// What decryption of a stored secret gives: an empty text stands for the empty secret, and any
/// other for the nonce and the ciphertext in base 64.
pub open spec fn decrypted(key: Seq<u8>, enc: Seq<char>) -> Option<Seq<char>> {
    if enc.len() == 0 {
        Some(Seq::<char>::empty())
    } else {
        match base64_bytes(enc) {
            Some(data) => opened(key, data),
            None => None,
        }
    }
}

/// The text in a nonce and ciphertext.
pub open spec fn opened(key: Seq<u8>, data: Seq<u8>) -> Option<Seq<char>> {
    if data.len() < 12 {
        None
    } else {
        match gcm_opened(key, data.take(12), data.skip(12)) {
            Some(plain) => utf8_text(plain),
            None => None,
        }
    }
}

/// The text that some bytes encode.
pub open spec fn utf8_text(bytes: Seq<u8>) -> Option<Seq<char>> {
    if valid_utf8(bytes) {
        Some(decode_utf8(bytes))
    } else {
        None
    }
}

/// A secret is short enough to be encrypted, and its base 64 text to be held in memory.
pub open spec fn fits(plaintext: Seq<char>) -> bool {
    (encode_utf8(plaintext).len() + 30) / 3 * 4 <= usize::MAX
}

/// A stored secret holds the 12 bytes of the nonce, the text and the 16 bytes of the tag.
pub open spec fn stored_length(enc: Seq<char>, plaintext: Seq<char>) -> bool {
    base64_bytes(enc) matches Some(data) && data.len() == 12 + encode_utf8(plaintext).len() + 16
}

/// The bytes `from..to` of `v`.
fn part(v: &Vec<u8>, from: usize, to: usize) -> (r: Vec<u8>)
    requires
        from <= to <= v@.len(),
    ensures
        r@ == v@.subrange(from as int, to as int),
{
    let mut r: Vec<u8> = Vec::new();
    let mut i: usize = from;
    while i < to
        invariant
            from <= i <= to <= v@.len(),
            r@ == v@.subrange(from as int, i as int),
        decreases to - i,
    {
        r.push(v[i]);
        i = i + 1;
        assert(r@ =~= v@.subrange(from as int, i as int));
    }
    r
}

/// A secret was too long for the cipher.
#[derive(Debug, PartialEq, Eq, Structural, Clone, Copy)]
pub struct EncryptFailed {}

impl EncryptFailed {
    /// The failure in words.
    pub fn message(&self) -> (r: String)
        ensures
            r@ == "encrypt failed"@,
    {
        "encrypt failed".to_owned()
    }
}

/// Encrypts a secret under a nonce; fails if it is too long for the cipher.
pub fn encrypt_with(key: &[u8; 32], nonce: Vec<u8>, plaintext: &str) -> (r: Result<String, EncryptFailed>)
    requires
        nonce@.len() == 12,
        fits(plaintext@),
    ensures
        r is Ok <==> encode_utf8(plaintext@).len() <= LONGEST_PLAINTEXT,
        r matches Ok(s) ==> {
            &&& s@ == base64_text(nonce@ + gcm_sealed(key@, nonce@, encode_utf8(plaintext@)))
            &&& decrypted(key@, s@) == Some(plaintext@)
            &&& s@.len() > 0
            &&& stored_length(s@, plaintext@)
        },
{
    match gcm_seal(key, nonce.as_slice(), plaintext.as_bytes()) {
        Some(ct) => {
            let mut out = nonce;
            let ghost n = nonce@;
            let mut ct = ct;
            let ghost c = ct@;
            out.append(&mut ct);
            assert(out@ == n + c);
            let s = base64_encode(out.as_slice());
            proof {
                assert(out@.take(12) =~= n);
                assert(out@.skip(12) =~= c);
                encode_utf8_valid_utf8(plaintext@);
                encode_utf8_decode_utf8(plaintext@);
            }
            Ok(s)
        },
        None => Err(EncryptFailed {  }),
    }
}

/// Encrypts a secret; fails if it is too long for the cipher.
pub fn encrypt(key: &[u8; 32], plaintext: &str) -> (r: Result<String, EncryptFailed>)
    requires
        fits(plaintext@),
    ensures
        r is Ok <==> encode_utf8(plaintext@).len() <= LONGEST_PLAINTEXT,
        r matches Ok(s) ==> {
            &&& decrypted(key@, s@) == Some(plaintext@)
            &&& s@.len() > 0
            &&& stored_length(s@, plaintext@)
            &&& exists|nonce: Seq<u8>|
                #![trigger gcm_sealed(key@, nonce, encode_utf8(plaintext@))]
                nonce.len() == 12 && s@ == base64_text(
                    nonce + gcm_sealed(key@, nonce, encode_utf8(plaintext@)),
                )
        },
{
    let nonce = random_bytes(12);
    encrypt_with(key, nonce, plaintext)
}

/// Decrypts what [`encrypt`] gave; nothing for what it cannot have given.
pub fn decrypt_opt(key: &[u8; 32], enc: &str) -> (r: Option<String>)
    ensures
        match r {
            Some(s) => decrypted(key@, enc@) == Some(s@) && (enc@.len() > 0 ==> stored_length(enc@, s@)),
            None => decrypted(key@, enc@) is None,
        },
{
    if enc.unicode_len() == 0 {
        return Some(String::new());
    }
    match base64_decode(enc) {
        Some(data) => open_data(key, data),
        None => None,
    }
}

/// Decrypts a nonce and ciphertext.
pub fn open_data(key: &[u8; 32], data: Vec<u8>) -> (r: Option<String>)
    ensures
        match r {
            Some(s) => opened(key@, data@) == Some(s@) && data@.len() == 12 + encode_utf8(s@).len() + 16,
            None => opened(key@, data@) is None,
        },
{
    if data.len() < 12 {
        return None;
    }
    let nonce = part(&data, 0, 12);
    let sealed = part(&data, 12, data.len());
    proof {
        assert(nonce@ =~= data@.take(12));
        assert(sealed@ =~= data@.skip(12));
    }
    match gcm_open(key, nonce.as_slice(), sealed.as_slice()) {
        Some(plain) => {
            proof {
                if valid_utf8(plain@) {
                    decode_utf8_encode_utf8(plain@);
                }
            }
            from_utf8(plain)
        },
        None => None,
    }
}

/// A secret that a hexadecimal text or a password hash can be encrypted with.
pub proof fn lemma_ascii_fits(s: Seq<char>)
    requires
        is_ascii_chars(s),
        s.len() <= 64,
    ensures
        fits(s),
        encode_utf8(s).len() <= LONGEST_PLAINTEXT,
{
    is_ascii_chars_encode_utf8(s);
}

proof fn lemma_hex_pair(a: Seq<u8>, i: int)
    requires
        0 <= i < a.len(),
    ensures
        a[i] == hex_value(hex_text(a)[2 * i]) * 16 + hex_value(hex_text(a)[2 * i + 1]),
{
    assert((2 * i) / 2 == i && (2 * i) % 2 == 0);
    assert((2 * i + 1) / 2 == i && (2 * i + 1) % 2 == 1);
    assert(hex_text(a)[2 * i] == hex_digit((a[i] / 16) as int));
    assert(hex_text(a)[2 * i + 1] == hex_digit((a[i] % 16) as int));
}

/// The bytes can be read back from their text, two digits for each, so no two byte strings are written
/// alike.
pub proof fn law_hex_text_is_read_back(a: Seq<u8>, b: Seq<u8>)
    ensures
        hex_text(a).len() == 2 * a.len(),
        forall|i: int|
            0 <= i < a.len() ==> (#[trigger] a[i]) == hex_value(hex_text(a)[2 * i]) * 16 + hex_value(
                hex_text(a)[2 * i + 1],
            ),
        hex_text(a) == hex_text(b) ==> a == b,
{
    let t = hex_text(a);
    let u = hex_text(b);
    assert(t.len() == a.len() * 2 && u.len() == b.len() * 2);
    assert forall|i: int| 0 <= i < a.len() implies (#[trigger] a[i]) == hex_value(t[2 * i]) * 16
        + hex_value(t[2 * i + 1]) by {
        lemma_hex_pair(a, i);
    }
    if t == u {
        assert forall|i: int| 0 <= i < a.len() implies a[i] == b[i] by {
            lemma_hex_pair(a, i);
            lemma_hex_pair(b, i);
        }
        assert(a =~= b);
    }
}

/// The value of a lower-case hexadecimal digit.
pub open spec fn hex_value(c: char) -> int {
    if '0' <= c <= '9' {
        c as int - '0' as int
    } else {
        c as int - 'a' as int + 10
    }
}

/// The empty text stands for the empty secret. Any other is read as base 64, its first twelve bytes as the
/// nonce and the rest as what is opened with it; what is shorter or no base 64 stands for nothing.
pub proof fn law_stored_secret_is_nonce_and_ciphertext(
    key: Seq<u8>,
    enc: Seq<char>,
    nonce: Seq<u8>,
    sealed: Seq<u8>,
)
    ensures
        decrypted(key, Seq::<char>::empty()) == Some(Seq::<char>::empty()),
        enc.len() > 0 && base64_bytes(enc) is None ==> decrypted(key, enc) is None,
        enc.len() > 0 && (base64_bytes(enc) matches Some(d) && d.len() < 12) ==> decrypted(key, enc) is None,
        enc.len() > 0 && nonce.len() == 12 && base64_bytes(enc) == Some(nonce + sealed) ==> decrypted(key, enc)
            == match gcm_opened(key, nonce, sealed) {
            Some(b) => if valid_utf8(b) {
                Some(decode_utf8(b))
            } else {
                None
            },
            None => None,
        },
{
    let d = nonce + sealed;
    if nonce.len() == 12 {
        assert(d.take(12) =~= nonce);
        assert(d.skip(12) =~= sealed);
    }
}

} // verus!
