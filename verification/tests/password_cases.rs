use homepanel::error::ApiError;
use homepanel::password::{hash_password, password_digest, verify_password};

#[test]
fn digest_is_sha256_of_salt_then_password() {
    assert_eq!(
        password_digest("abc", "secret"),
        "a42178b773273f5c9f24387fbea546af537d08b8c06b23631e44878b9ce47f49"
    );
}

#[test]
fn stored_passwords_verify_only_the_same_password() {
    let stored = hash_password("correct horse").unwrap();
    assert!(stored.starts_with("sha256$"));
    let parts: Vec<&str> = stored.splitn(3, '$').collect();
    assert_eq!(parts.len(), 3);
    assert_eq!(parts[1].len(), 36);
    assert_eq!(parts[2], password_digest(parts[1], "correct horse"));
    assert!(verify_password(&stored, "correct horse"));
    assert!(!verify_password(&stored, "correct horse "));
    assert!(!verify_password(&stored, ""));
}

#[test]
fn fresh_salts_differ() {
    let a = hash_password("pw").unwrap();
    let b = hash_password("pw").unwrap();
    assert_ne!(a, b);
    assert!(verify_password(&a, "pw") && verify_password(&b, "pw"));
}

#[test]
fn malformed_stored_forms_never_verify() {
    let digest = password_digest("abc", "secret");
    assert!(verify_password(&format!("sha256$abc${digest}"), "secret"));
    assert!(!verify_password(&format!("md5$abc${digest}"), "secret"));
    assert!(!verify_password("sha256$abc", "secret"));
    assert!(!verify_password("", "secret"));
}

#[test]
fn empty_passwords_are_refused() {
    match hash_password("") {
        Err(ApiError::BadRequest(m)) => assert_eq!(m, "password must not be empty"),
        other => panic!("unexpected {:?}", other.map(|_| ())),
    }
}
