use airline_api::auth::create_token;
use airline_api::error::AppError;
use airline_api::middleware::{
    admin_roles, authenticated_roles, require_auth, role_allowed, staff_roles, AuthUser,
};
use airline_api::user::UserRole;

const SECRET: &[u8] = b"a-test-signing-secret";
const NOW: u64 = 1700000000;
const WINDOW: u64 = 3600;

fn bearer(user_id: i32, role: UserRole) -> String {
    let token = create_token(user_id, role, SECRET, WINDOW, NOW).unwrap();
    format!("Bearer {}", token)
}

#[test]
fn admin_set_denies_worker_and_approves_admin() {
    let allowed = admin_roles();
    let worker = bearer(8, UserRole::Worker);
    match require_auth(Some(&worker), &allowed, SECRET, NOW) {
        Err(AppError::AuthzError(m)) => {
            assert_eq!(m, "User role 'Worker' is not authorized to access this route")
        },
        other => panic!("expected authorization failure, got {:?}", other),
    }
    let admin = bearer(9, UserRole::Admin);
    let u = require_auth(Some(&admin), &allowed, SECRET, NOW).unwrap();
    assert_eq!(u, AuthUser { user_id: 9, role: UserRole::Admin });
}

#[test]
fn missing_or_malformed_header_is_an_authentication_failure() {
    let allowed = authenticated_roles();
    for header in [None, Some("Token abc"), Some("bearer abc"), Some("Bearer")] {
        match require_auth(header, &allowed, SECRET, NOW) {
            Err(AppError::AuthError(m)) => {
                assert_eq!(m, "Missing or invalid Authorization header")
            },
            other => panic!("expected auth failure, got {:?}", other),
        }
    }
}

#[test]
fn expired_token_propagates_unchanged_through_the_gate() {
    let allowed = authenticated_roles();
    let h = bearer(1, UserRole::User);
    match require_auth(Some(&h), &allowed, SECRET, NOW + WINDOW + 1) {
        Err(AppError::AuthError(m)) => assert_eq!(m, "Token expired"),
        other => panic!("expected expiry failure, got {:?}", other),
    }
}

#[test]
fn corrupt_token_propagates_unchanged_through_the_gate() {
    let allowed = authenticated_roles();
    match require_auth(Some("Bearer not.a.token"), &allowed, SECRET, NOW) {
        Err(AppError::AuthError(m)) => assert_eq!(m, "Invalid token"),
        other => panic!("expected invalid-token failure, got {:?}", other),
    }
}

#[test]
fn extractor_yields_the_token_identity() {
    let h = bearer(123, UserRole::User);
    let u = AuthUser::from_header(Some(&h), SECRET, NOW).unwrap();
    assert_eq!(u.user_id, 123);
    assert_eq!(u.role, UserRole::User);
}

#[test]
fn role_sets_hold_the_documented_roles() {
    assert_eq!(admin_roles(), vec![UserRole::Admin]);
    assert_eq!(staff_roles(), vec![UserRole::Admin, UserRole::Worker]);
    assert_eq!(
        authenticated_roles(),
        vec![UserRole::Admin, UserRole::Worker, UserRole::User]
    );
    assert!(role_allowed(UserRole::Worker, &staff_roles()));
    assert!(!role_allowed(UserRole::User, &staff_roles()));
}

#[test]
fn staff_set_admits_worker_but_not_user() {
    let allowed = staff_roles();
    let worker = bearer(2, UserRole::Worker);
    assert!(require_auth(Some(&worker), &allowed, SECRET, NOW).is_ok());
    let user = bearer(3, UserRole::User);
    match require_auth(Some(&user), &allowed, SECRET, NOW) {
        Err(AppError::AuthzError(_)) => {},
        other => panic!("expected authorization failure, got {:?}", other),
    }
}
