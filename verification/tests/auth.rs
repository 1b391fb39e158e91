use hyperdb::auth::{self, Auth};

fn guarded() -> Auth {
    auth::new(true, "a-signing-secret", "admin", "letmein")
}

fn unix_now() -> u64 {
    std::time::SystemTime::now()
        .duration_since(std::time::SystemTime::UNIX_EPOCH)
        .unwrap()
        .as_secs()
}

// A token signed by hand, to probe `verify` with.
fn forge_token(sub: &str, exp: u64, secret: &str) -> String {
    let mut claims = serde_json::Map::new();
    claims.insert("sub".to_string(), serde_json::Value::String(sub.to_string()));
    claims.insert("exp".to_string(), serde_json::Value::from(exp));
    jsonwebtoken::encode(
        &jsonwebtoken::Header::default(),
        &serde_json::Value::Object(claims),
        &jsonwebtoken::EncodingKey::from_secret(secret.as_bytes()),
    )
    .unwrap()
}

#[test]
fn empty_credentials_refused() {
    let a = guarded();
    assert_eq!(auth::token(&a, "", ""), "");
}

#[test]
fn half_empty_credentials_refused() {
    let a = guarded();
    assert_eq!(auth::token(&a, "admin", ""), "");
    assert_eq!(auth::token(&a, "", "letmein"), "");
}

#[test]
fn wrong_credentials_refused() {
    let a = guarded();
    assert_eq!(auth::token(&a, "admin", "wrong"), "");
    assert_eq!(auth::token(&a, "intruder", "letmein"), "");
}

#[test]
fn good_credentials_issue_a_token() {
    let a = guarded();
    let t = auth::token(&a, "admin", "letmein");
    assert!(!t.is_empty());
}

#[test]
fn issued_token_verifies() {
    let a = guarded();
    let t = auth::token(&a, "admin", "letmein");
    assert!(auth::verify(&a, &t));
}

#[test]
fn garbage_token_refused() {
    let a = guarded();
    assert!(!auth::verify(&a, "garbage"));
    assert!(!auth::verify(&a, "a.jwt.token"));
}

#[test]
fn empty_token_refused() {
    let a = guarded();
    assert!(!auth::verify(&a, ""));
}

#[test]
fn expired_token_refused() {
    let a = guarded();
    let t = forge_token("admin", unix_now() - 2 * 60 * 60, "a-signing-secret");
    assert!(!auth::verify(&a, &t));
}

#[test]
fn wrong_subject_refused() {
    let a = guarded();
    let t = forge_token("intruder", unix_now() + 60 * 60, "a-signing-secret");
    assert!(!auth::verify(&a, &t));
}

#[test]
fn wrong_secret_refused() {
    let a = guarded();
    let t = forge_token("admin", unix_now() + 60 * 60, "another-secret");
    assert!(!auth::verify(&a, &t));
}

#[test]
fn subject_decides_grant() {
    assert!(auth::subject_grants(&Some("admin".to_string()), "admin"));
    assert!(!auth::subject_grants(&Some("intruder".to_string()), "admin"));
    assert!(!auth::subject_grants(&None, "admin"));
}

#[test]
fn disabled_auth_passes_everything() {
    let a = auth::new(false, "a-signing-secret", "admin", "letmein");
    assert!(auth::check(&a, ""));
    assert!(auth::check(&a, "garbage"));
    assert!(auth::check(&a, "anything at all"));
}

#[test]
fn enabled_auth_needs_a_valid_token() {
    let a = guarded();
    assert!(!auth::check(&a, ""));
    assert!(!auth::check(&a, "garbage"));
    let t = auth::token(&a, "admin", "letmein");
    assert!(auth::check(&a, &t));
}
