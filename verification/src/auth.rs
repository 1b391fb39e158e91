//! Access control: a static username/password pair exchanged for a signed,
//! time-limited token, and per-request verification of such tokens.

use vstd::prelude::*;

use crate::store::str_eq;

verus! {

/// How long an issued token stays valid, in seconds.
pub const TOKEN_LIFETIME_SECS: u64 = 6 * 60 * 60;

/// The access-control configuration, fixed at startup: whether checking is
/// on at all, the signing secret, and the one accepted credential pair.
#[derive(Clone)]
pub struct Auth {
    /// Whether requests must carry a valid token at all.
    pub enabled: bool,
    secret: String,
    username: String,
    password: String,
}

impl Auth {
    /// Whether access control is on at all.
    pub closed spec fn spec_enabled(&self) -> bool {
        self.enabled
    }

    /// The signing secret.
    pub closed spec fn spec_secret(&self) -> Seq<char> {
        self.secret@
    }

    /// The one accepted username.
    pub closed spec fn spec_username(&self) -> Seq<char> {
        self.username@
    }

    /// The one accepted password.
    pub closed spec fn spec_password(&self) -> Seq<char> {
        self.password@
    }

    /// A credential pair is accepted exactly when both parts are non-empty
    /// and both match the configuration; an empty field fails like a wrong
    /// one, so a caller cannot tell which was wrong.
    pub open spec fn creds_ok(&self, username: Seq<char>, password: Seq<char>) -> bool {
        username.len() > 0 && password.len() > 0 && username == self.spec_username()
            && password == self.spec_password()
    }
}

/// An access-control configuration built from the given parts.
pub fn new(enabled: bool, secret: &str, username: &str, password: &str) -> (a: Auth)
    ensures
        a.spec_enabled() == enabled,
        a.spec_secret() == secret@,
        a.spec_username() == username@,
        a.spec_password() == password@,
{
    Auth {
        enabled,
        secret: secret.to_owned(),
        username: username.to_owned(),
        password: password.to_owned(),
    }
}

/// Relies on std::time::SystemTime::now: the seconds since the UNIX epoch,
/// or 0 if the clock reads earlier than the epoch.
#[verifier::external_body]
fn now_unix_seconds() -> u64 {
    match std::time::SystemTime::now().duration_since(std::time::SystemTime::UNIX_EPOCH) {
        Ok(d) => d.as_secs(),
        Err(_) => 0,
    }
}

/// The signed token that carries a given subject and expiry under a given
/// secret.
pub uninterp spec fn jwt_of(sub: Seq<char>, exp: u64, secret: Seq<char>) -> Seq<char>;

/// Relies on jsonwebtoken::encode with the default header (HS256) and an
/// HMAC secret: the result is a `header.claims.signature` token, never
/// empty, and a function of the subject, expiry and secret alone (the
/// claims object is key-ordered and the default header is fixed, and
/// HMAC-SHA256 signing is deterministic). Signing a JSON object of a string
/// and an integer claim with an HMAC key of any length does not fail.
#[verifier::external_body]
fn jwt_encode(sub: &str, exp: u64, secret: &str) -> (r: String)
    ensures
        r@ == jwt_of(sub@, exp, secret@),
        r@.len() > 0,
{
    let mut claims = serde_json::Map::new();
    claims.insert("sub".to_string(), serde_json::Value::String(sub.to_string()));
    claims.insert("exp".to_string(), serde_json::Value::from(exp));
    jsonwebtoken::encode(
        &jsonwebtoken::Header::default(),
        &serde_json::Value::Object(claims),
        &jsonwebtoken::EncodingKey::from_secret(secret.as_bytes()),
    ).unwrap()
}

/// Relies on jsonwebtoken::decode with HS256 validation: it checks the
/// token's signature against the secret and its `exp` claim against the
/// clock, and hands back the `sub` claim, string-valued, only when every
/// check passed. The outcome depends on the current time, so nothing more
/// is claimed of it.
#[verifier::external_body]
fn jwt_decode_subject(token: &str, secret: &str) -> Option<String> {
    let data = jsonwebtoken::decode::<serde_json::Value>(
        token,
        &jsonwebtoken::DecodingKey::from_secret(secret.as_bytes()),
        &jsonwebtoken::Validation::new(jsonwebtoken::Algorithm::HS256),
    );
    match data {
        Ok(t) => match t.claims.get("sub") {
            Some(serde_json::Value::String(s)) => Some(s.clone()),
            _ => None,
        },
        Err(_) => None,
    }
}

/// Exchanges a credential pair for a signed token bound to the configured
/// username, expiring after `TOKEN_LIFETIME_SECS`. The result is empty
/// exactly when the credentials are refused; on acceptance it is the signed
/// token for the configured username under the configured secret, with some
/// expiry (the clock cannot be pinned here).
pub fn token(auth: &Auth, username: &str, password: &str) -> (r: String)
    ensures
        r@.len() > 0 <==> auth.creds_ok(username@, password@),
        auth.creds_ok(username@, password@) ==> (exists|e: u64|
            r@ == jwt_of(auth.spec_username(), e, auth.spec_secret())),
{
    if username.is_empty() || password.is_empty() {
        return String::new();
    }
    if !str_eq(username, auth.username.as_str()) || !str_eq(password, auth.password.as_str()) {
        return String::new();
    }
    let now = now_unix_seconds();
    let exp = if now <= u64::MAX - TOKEN_LIFETIME_SECS {
        now + TOKEN_LIFETIME_SECS
    } else {
        u64::MAX
    };
    let t = jwt_encode(auth.username.as_str(), exp, auth.secret.as_str());
    proof {
        assert(t@ == jwt_of(auth.spec_username(), exp, auth.spec_secret()));
    }
    t
}

/// A decoded token grants access exactly when decoding produced a subject
/// and that subject is the configured username.
pub fn subject_grants(subject: &Option<String>, username: &str) -> (r: bool)
    ensures
        r == (subject matches Some(s) && s@ == username@),
{
    match subject {
        Some(s) => str_eq(s.as_str(), username),
        None => false,
    }
}

/// Verifies a token: fails closed. An empty token is refused outright; any
/// token whose signature, expiry or subject is wrong is refused by
/// `jwt_decode_subject` and `subject_grants`.
pub fn verify(auth: &Auth, token: &str) -> (r: bool)
    ensures
        token@.len() == 0 ==> r == false,
{
    if token.is_empty() {
        return false;
    }
    let subject = jwt_decode_subject(token, auth.secret.as_str());
    subject_grants(&subject, auth.username.as_str())
}

/// The per-request admission rule: with access control disabled every
/// request passes, whatever token it carries; enabled, the token must verify.
pub fn check(auth: &Auth, token: &str) -> (r: bool)
    ensures
        !auth.spec_enabled() ==> r == true,
        auth.spec_enabled() && token@.len() == 0 ==> r == false,
{
    !auth.enabled || verify(auth, token)
}

} // verus!
