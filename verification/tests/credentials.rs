use bucket_store::jwt_token::{
    generate_claims, make_claims_at, validate_claims, Claims, JwtError, TOKEN_LIFETIME_SECS,
};
use bucket_store::user_info::{hash_passcode, verify_passcode, UserInfo};
use bucket_store::utility::genarate_salt;
use sha2::{Digest, Sha256};

fn user(id: u128, name: &str) -> UserInfo {
    UserInfo {
        user_id: id,
        user_name: name.to_owned(),
        email: format!("{name}@example.com"),
        created_date: 0,
    }
}

#[test]
fn stored_credential_is_salted_digest_colon_salt() {
    let stored = hash_passcode("hunter2", "SALT");
    let mut sha = Sha256::new();
    sha.update("hunter2SALT");
    let expected: String = sha
        .finalize()
        .iter()
        .map(|b| format!("{b:02x}"))
        .collect::<Vec<_>>()
        .join("");
    assert_eq!(stored, format!("{expected}:SALT"));
}

#[test]
fn verify_accepts_the_passcode_a_credential_was_built_from() {
    let salt = genarate_salt(64);
    let stored = hash_passcode("hunter2", &salt);
    assert!(verify_passcode(&stored, "hunter2"));
}

#[test]
fn verify_rejects_a_wrong_passcode() {
    let stored = hash_passcode("hunter2", "somesalt");
    assert!(!verify_passcode(&stored, "hunter3"));
    assert!(!verify_passcode(&stored, ""));
}

#[test]
fn verify_rejects_a_malformed_credential() {
    assert!(!verify_passcode("no-colon-here", "anything"));
    assert!(!verify_passcode("", "anything"));
}

#[test]
fn salt_has_requested_length_and_alphabet() {
    let salt = genarate_salt(64);
    assert_eq!(salt.chars().count(), 64);
    assert!(salt.chars().all(|c| c.is_ascii_alphanumeric()));
    assert_eq!(genarate_salt(0), "");
}

#[test]
fn claims_expire_one_lifetime_after_issue() {
    let c = make_claims_at(&user(5, "ada"), 1000);
    assert_eq!(c.iat, 1000);
    assert_eq!(c.exp, 1000 + TOKEN_LIFETIME_SECS);
    assert_eq!(c.id, 5);
    assert_eq!(c.user_name, "ada");

    let g = generate_claims(&user(6, "grace"));
    assert_eq!(g.exp, g.iat + TOKEN_LIFETIME_SECS);
    assert_eq!(g.id, 6);
}

#[test]
fn claims_within_their_lifetime_pass() {
    let c = Claims { iat: 1000, exp: 2200, id: 5, user_name: "ada".to_owned() };
    let v = validate_claims(c, 1500).expect("valid");
    assert_eq!(v.iat, 1000);
    assert_eq!(v.id, 5);
}

#[test]
fn claims_issued_in_the_future_are_invalid() {
    let c = Claims { iat: 2000, exp: 3200, id: 5, user_name: "ada".to_owned() };
    assert!(matches!(validate_claims(c, 1500), Err(JwtError::InvalidToken)));
}

#[test]
fn claims_past_their_expiry_are_expired() {
    let c = Claims { iat: 1000, exp: 2200, id: 5, user_name: "ada".to_owned() };
    assert!(matches!(validate_claims(c, 2200), Err(JwtError::ExpiredToken)));
    let c2 = Claims { iat: 1000, exp: 2200, id: 5, user_name: "ada".to_owned() };
    assert!(matches!(validate_claims(c2, 9999), Err(JwtError::ExpiredToken)));
}

#[test]
fn regenerating_a_token_is_not_offered() {
    assert_eq!(
        bucket_store::jwt_token::_regenerate_token("token".to_owned()),
        ""
    );
}
