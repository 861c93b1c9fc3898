use airline_api::auth::{create_token, verify_token};
use airline_api::date_format::DateTimeUtc;
use airline_api::error::AppError;
use airline_api::password::hash_password;
use airline_api::user::{
    default_role, login_with_user, validate_login, validate_phone_login, validate_registration,
    CreateUserDto, LoginDto, PhoneLoginDto, User, UserRole, UserWithPassword,
};

const SECRET: &[u8] = b"a-test-signing-secret";
const NOW: u64 = 1700000000;
const WINDOW: u64 = 86400;

fn some_date() -> DateTimeUtc {
    DateTimeUtc { year: 2020, month: 6, day: 1, hour: 12, minute: 0, second: 0 }
}

fn jo_registration() -> CreateUserDto {
    CreateUserDto {
        email: Some("jo@x.com".to_string()),
        password: Some("pw".to_string()),
        first_name: "Jo".to_string(),
        last_name: "".to_string(),
        role: None,
        passport_number: None,
        nationality: None,
        date_of_birth: None,
        contact_number: None,
        gender: None,
    }
}

fn user_with_hash(user_id: i32, role: UserRole, hash: Option<String>) -> UserWithPassword {
    UserWithPassword {
        user_id,
        email: Some("jo@x.com".to_string()),
        password: hash,
        role,
        first_name: "Jo".to_string(),
        last_name: "".to_string(),
        passport_number: None,
        nationality: None,
        date_of_birth: None,
        contact_number: None,
        gender: None,
        created_at: some_date(),
        updated_at: some_date(),
    }
}

#[test]
fn register_jo_yields_user_role_token_for_new_id() {
    let dto = jo_registration();
    assert!(validate_registration(&dto).is_ok());
    let role = default_role(dto.role);
    assert_eq!(role, UserRole::User);
    // The persistence layer reports the freshly created identifier.
    let new_id = 17;
    let token = create_token(new_id, role, SECRET, WINDOW, NOW).unwrap();
    let claims = verify_token(&token, SECRET, NOW).unwrap();
    assert_eq!(claims.role, UserRole::User);
    assert_eq!(claims.sub, "17");
}

#[test]
fn registration_without_required_fields_is_rejected() {
    let mut dto = jo_registration();
    dto.password = None;
    match validate_registration(&dto) {
        Err(AppError::ValidationError(m)) => {
            assert_eq!(m, "Please provide name, email and password")
        },
        other => panic!("expected validation failure, got {:?}", other),
    }
    let mut dto = jo_registration();
    dto.first_name = "".to_string();
    assert!(validate_registration(&dto).is_err());
    let mut dto = jo_registration();
    dto.email = None;
    assert!(validate_registration(&dto).is_err());
}

#[test]
fn login_with_wrong_password_is_invalid_credentials_and_no_token() {
    let hash = hash_password("right horse").unwrap();
    let user = user_with_hash(3, UserRole::User, Some(hash));
    match login_with_user(&user, "wrong horse", SECRET, WINDOW, NOW) {
        Err(AppError::AuthError(m)) => assert_eq!(m, "Invalid credentials"),
        other => panic!("expected credential failure, got {:?}", other),
    }
}

#[test]
fn login_with_correct_password_yields_token_of_user() {
    let hash = hash_password("right horse").unwrap();
    let user = user_with_hash(3, UserRole::Worker, Some(hash));
    let token = login_with_user(&user, "right horse", SECRET, WINDOW, NOW).unwrap();
    let claims = verify_token(&token, SECRET, NOW).unwrap();
    assert_eq!(claims.sub, "3");
    assert_eq!(claims.role, UserRole::Worker);
}

#[test]
fn login_without_stored_password_fails() {
    let user = user_with_hash(4, UserRole::User, None);
    match login_with_user(&user, "anything", SECRET, WINDOW, NOW) {
        Err(AppError::AuthError(m)) => assert_eq!(m, "No password set for this user"),
        other => panic!("expected failure, got {:?}", other),
    }
}

#[test]
fn empty_login_fields_are_rejected() {
    let dto = LoginDto { email: "".to_string(), password: "pw".to_string() };
    match validate_login(&dto) {
        Err(AppError::ValidationError(m)) => assert_eq!(m, "Please provide email and password"),
        other => panic!("expected validation failure, got {:?}", other),
    }
    let dto = PhoneLoginDto { phone: "123".to_string(), password: "".to_string() };
    match validate_phone_login(&dto) {
        Err(AppError::ValidationError(m)) => assert_eq!(m, "Please provide phone and password"),
        other => panic!("expected validation failure, got {:?}", other),
    }
}

#[test]
fn delete_with_dependent_records_is_a_conflict() {
    match User::ensure_deletable(1) {
        Err(AppError::ConflictError(m)) => {
            assert_eq!(m, "Cannot delete user with existing tickets")
        },
        other => panic!("expected conflict, got {:?}", other),
    }
    assert!(User::ensure_deletable(0).is_ok());
}

#[test]
fn malformed_stored_hash_is_an_internal_error_not_a_credential_answer() {
    let user = user_with_hash(2, UserRole::User, Some("not-a-bcrypt-hash".to_string()));
    match User::verify_password(&user, "pw") {
        Err(AppError::InternalError(m)) => assert_eq!(m, "Password verification failed"),
        other => panic!("expected internal error, got {:?}", other),
    }
    match login_with_user(&user, "pw", SECRET, WINDOW, NOW) {
        Err(AppError::InternalError(_)) => {},
        other => panic!("expected internal error, got {:?}", other),
    }
}

#[test]
fn stored_hash_verifies_and_is_not_plaintext() {
    let hash = hash_password("pw").unwrap();
    assert_eq!(hash.len(), 60);
    assert_ne!(hash, "pw");
    let user = user_with_hash(1, UserRole::User, Some(hash));
    assert!(User::verify_password(&user, "pw").unwrap());
    assert!(!User::verify_password(&user, "pw2").unwrap());
}
