use airline_api::auth::{create_token, parse_duration, token_window, verify_token};
use airline_api::error::AppError;
use airline_api::user::UserRole;

const SECRET: &[u8] = b"a-test-signing-secret";
const NOW: u64 = 1700000000;
const WINDOW: u64 = 3600;

#[test]
fn issue_then_verify_returns_same_subject_and_role() {
    let token = create_token(42, UserRole::Worker, SECRET, WINDOW, NOW).unwrap();
    let claims = verify_token(&token, SECRET, NOW).unwrap();
    assert_eq!(claims.sub, "42");
    assert_eq!(claims.role, UserRole::Worker);
    assert_eq!(claims.iat, NOW);
    assert_eq!(claims.exp, NOW + WINDOW);
}

#[test]
fn issue_then_verify_negative_subject() {
    let token = create_token(-7, UserRole::Admin, SECRET, WINDOW, NOW).unwrap();
    let claims = verify_token(&token, SECRET, NOW).unwrap();
    assert_eq!(claims.sub, "-7");
    assert_eq!(claims.role, UserRole::Admin);
}

#[test]
fn token_at_exact_expiry_is_valid() {
    let token = create_token(1, UserRole::User, SECRET, WINDOW, NOW).unwrap();
    // Verification exactly at exp succeeds.
    let claims = verify_token(&token, SECRET, NOW + WINDOW).unwrap();
    assert_eq!(claims.sub, "1");
}

#[test]
fn token_one_second_past_expiry_is_expired() {
    let token = create_token(1, UserRole::User, SECRET, WINDOW, NOW).unwrap();
    match verify_token(&token, SECRET, NOW + WINDOW + 1) {
        Err(AppError::AuthError(m)) => assert_eq!(m, "Token expired"),
        other => panic!("expected expiry failure, got {:?}", other),
    }
}

#[test]
fn tampering_any_byte_fails_verification() {
    let token = create_token(99, UserRole::Admin, SECRET, WINDOW, NOW).unwrap();
    let bytes = token.as_bytes();
    for i in 0..bytes.len() {
        let mut altered = bytes.to_vec();
        altered[i] = if altered[i] == b'x' { b'y' } else { b'x' };
        let altered = String::from_utf8(altered).unwrap();
        match verify_token(&altered, SECRET, NOW) {
            Ok(_) => panic!("tampered token at byte {} verified", i),
            Err(AppError::AuthError(_)) => {},
            Err(other) => panic!("unexpected error kind {:?}", other),
        }
    }
}

#[test]
fn wrong_secret_fails_verification() {
    let token = create_token(5, UserRole::User, SECRET, WINDOW, NOW).unwrap();
    match verify_token(&token, b"other-secret", NOW) {
        Err(AppError::AuthError(m)) => assert_eq!(m, "Invalid token"),
        other => panic!("expected invalid-token failure, got {:?}", other),
    }
}

#[test]
fn garbage_tokens_are_invalid() {
    for bad in ["", "abc", "a.b", "a.b.c", "Bearer nonsense", "....."] {
        match verify_token(bad, SECRET, NOW) {
            Err(AppError::AuthError(m)) => assert_eq!(m, "Invalid token"),
            other => panic!("expected invalid-token failure, got {:?}", other),
        }
    }
}

#[test]
fn expiry_window_strings() {
    assert_eq!(parse_duration("30d"), Some(30 * 86400));
    assert_eq!(parse_duration("24h"), Some(24 * 3600));
    assert_eq!(parse_duration("15m"), Some(15 * 60));
    assert_eq!(parse_duration("45s"), Some(45));
    assert_eq!(parse_duration("45"), None);
    assert_eq!(parse_duration("x5d"), None);
    assert_eq!(parse_duration(""), None);
    assert_eq!(parse_duration("d"), None);
}

#[test]
fn window_defaults_to_thirty_days() {
    assert_eq!(token_window(None), 2592000);
    assert_eq!(token_window(Some("not a window")), 2592000);
    assert_eq!(token_window(Some("12h")), 12 * 3600);
}
