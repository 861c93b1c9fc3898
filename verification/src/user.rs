//! The user model: roles, records as the persistence layer hands them over,
//! request payloads, and the decision rules of the user handlers.

use vstd::prelude::*;
use crate::auth::{create_token, spec_issued_claims, spec_token_bytes};
use crate::date_format::DateTimeUtc;
use crate::error::AppError;
use crate::password::{bcrypt_matches, bcrypt_parses, check_password};

verus! {

/// Closed role enumeration. Authorization is set membership over these
/// values; no implicit ordering.
#[derive(Clone, Copy, Debug, PartialEq, Eq, Structural)]
pub enum UserRole {
    Admin,
    Worker,
    User,
}

impl UserRole {
    /// The canonical lowercase wire name of the role.
    pub fn as_wire_name(&self) -> (r: &'static str)
        ensures
            r@ == match self {
                UserRole::Admin => "admin"@,
                UserRole::Worker => "worker"@,
                UserRole::User => "user"@,
            },
    {
        match self {
            UserRole::Admin => "admin",
            UserRole::Worker => "worker",
            UserRole::User => "user",
        }
    }

    /// The display name of the role, as used in authorization messages.
    pub fn display_name(&self) -> (r: &'static str)
        ensures
            r@ == match self {
                UserRole::Admin => "Admin"@,
                UserRole::Worker => "Worker"@,
                UserRole::User => "User"@,
            },
    {
        match self {
            UserRole::Admin => "Admin",
            UserRole::Worker => "Worker",
            UserRole::User => "User",
        }
    }
}

/// The role a new user gets when the request names none.
pub fn default_role(role: Option<UserRole>) -> (r: UserRole)
    ensures
        r == match role {
            Some(x) => x,
            None => UserRole::User,
        },
{
    match role {
        Some(x) => x,
        None => UserRole::User,
    }
}

/// A user record as the persistence layer returns it, without the stored
/// password.
#[derive(Debug, Clone)]
pub struct User {
    pub user_id: i32,
    pub email: Option<String>,
    pub role: UserRole,
    pub first_name: String,
    pub last_name: String,
    pub passport_number: Option<String>,
    pub nationality: Option<String>,
    pub date_of_birth: Option<DateTimeUtc>,
    pub contact_number: Option<String>,
    pub gender: Option<String>,
    pub created_at: DateTimeUtc,
    pub updated_at: DateTimeUtc,
}

/// A user record including the stored password hash, for credential checks.
/// The hash never leaves the library.
#[derive(Debug, Clone)]
pub struct UserWithPassword {
    pub user_id: i32,
    pub email: Option<String>,
    pub password: Option<String>,
    pub role: UserRole,
    pub first_name: String,
    pub last_name: String,
    pub passport_number: Option<String>,
    pub nationality: Option<String>,
    pub date_of_birth: Option<DateTimeUtc>,
    pub contact_number: Option<String>,
    pub gender: Option<String>,
    pub created_at: DateTimeUtc,
    pub updated_at: DateTimeUtc,
}

/// The payload of a registration or user-creation request.
#[derive(Debug, Clone)]
pub struct CreateUserDto {
    pub email: Option<String>,
    pub password: Option<String>,
    pub first_name: String,
    pub last_name: String,
    pub role: Option<UserRole>,
    pub passport_number: Option<String>,
    pub nationality: Option<String>,
    pub date_of_birth: Option<DateTimeUtc>,
    pub contact_number: Option<String>,
    pub gender: Option<String>,
}

/// The sparse payload of a partial user update: each field independently
/// present or absent.
#[derive(Debug, Clone)]
pub struct UpdateUserDto {
    pub email: Option<String>,
    pub password: Option<String>,
    pub first_name: Option<String>,
    pub last_name: Option<String>,
    pub passport_number: Option<String>,
    pub nationality: Option<String>,
    pub date_of_birth: Option<DateTimeUtc>,
    pub contact_number: Option<String>,
    pub gender: Option<String>,
}

/// An email login request.
#[derive(Debug, Clone)]
pub struct LoginDto {
    pub email: String,
    pub password: String,
}

/// A phone login request.
#[derive(Debug, Clone)]
pub struct PhoneLoginDto {
    pub phone: String,
    pub password: String,
}

/// Whether a registration payload carries the three required fields.
pub open spec fn spec_registration_complete(dto: CreateUserDto) -> bool {
    dto.first_name@.len() > 0 && dto.email is Some && dto.password is Some
}

/// Rejects a registration payload that misses name, email or password.
pub fn validate_registration(dto: &CreateUserDto) -> (r: Result<(), AppError>)
    ensures
        r is Ok <==> spec_registration_complete(*dto),
        r matches Err(e) ==> e matches AppError::ValidationError(m) && m@
            == "Please provide name, email and password"@,
{
    if dto.first_name.as_str().is_empty() || dto.email.is_none() || dto.password.is_none() {
        Err(AppError::ValidationError("Please provide name, email and password".to_owned()))
    } else {
        Ok(())
    }
}

/// Rejects an email login request with an empty email or password.
pub fn validate_login(dto: &LoginDto) -> (r: Result<(), AppError>)
    ensures
        r is Ok <==> (dto.email@.len() > 0 && dto.password@.len() > 0),
        r matches Err(e) ==> e matches AppError::ValidationError(m) && m@
            == "Please provide email and password"@,
{
    if dto.email.as_str().is_empty() || dto.password.as_str().is_empty() {
        Err(AppError::ValidationError("Please provide email and password".to_owned()))
    } else {
        Ok(())
    }
}

/// Rejects a phone login request with an empty phone or password.
pub fn validate_phone_login(dto: &PhoneLoginDto) -> (r: Result<(), AppError>)
    ensures
        r is Ok <==> (dto.phone@.len() > 0 && dto.password@.len() > 0),
        r matches Err(e) ==> e matches AppError::ValidationError(m) && m@
            == "Please provide phone and password"@,
{
    if dto.phone.as_str().is_empty() || dto.password.as_str().is_empty() {
        Err(AppError::ValidationError("Please provide phone and password".to_owned()))
    } else {
        Ok(())
    }
}

/// Turns an email-existence answer into the uniqueness decision.
pub fn ensure_email_available(exists: bool) -> (r: Result<(), AppError>)
    ensures
        r is Ok <==> !exists,
        r matches Err(e) ==> e matches AppError::ConflictError(m) && m@
            == "Email already in use"@,
{
    if exists {
        Err(AppError::ConflictError("Email already in use".to_owned()))
    } else {
        Ok(())
    }
}

/// Turns a passport-existence answer into the uniqueness decision.
pub fn ensure_passport_available(exists: bool) -> (r: Result<(), AppError>)
    ensures
        r is Ok <==> !exists,
        r matches Err(e) ==> e matches AppError::ConflictError(m) && m@
            == "Passport number already in use"@,
{
    if exists {
        Err(AppError::ConflictError("Passport number already in use".to_owned()))
    } else {
        Ok(())
    }
}

impl User {
    /// Blocks deletion while dependent ticket records exist.
    pub fn ensure_deletable(ticket_count: i64) -> (r: Result<(), AppError>)
        ensures
            r is Ok <==> ticket_count <= 0,
            r matches Err(e) ==> e matches AppError::ConflictError(m) && m@
                == "Cannot delete user with existing tickets"@,
    {
        if ticket_count > 0 {
            Err(AppError::ConflictError("Cannot delete user with existing tickets".to_owned()))
        } else {
            Ok(())
        }
    }

    /// Checks a plaintext password against a user's stored credential. A
    /// user without a stored password cannot authenticate; a well-formed
    /// stored hash always gets an answer, which is exactly whether the
    /// pair matches; only a malformed stored hash fails, as an internal
    /// error that never doubles as a credential answer.
    pub fn verify_password(user: &UserWithPassword, password: &str) -> (r: Result<bool, AppError>)
        ensures
            user.password is None ==> (r matches Err(e) && e matches AppError::AuthError(m) && m@
                == "No password set for this user"@),
            user.password matches Some(h) ==> {
                &&& (r is Ok <==> bcrypt_parses(h@))
                &&& match r {
                    Ok(b) => b == bcrypt_matches(password@, h@),
                    Err(e) => e matches AppError::InternalError(m) && m@
                        == "Password verification failed"@,
                }
            },
    {
        match &user.password {
            None => Err(AppError::AuthError("No password set for this user".to_owned())),
            Some(h) => check_password(password, h.as_str()),
        }
    }
}

/// The login decision once the persistence layer has produced a candidate
/// record: checks the password and issues a token for the user's identity.
///
/// Against a well-formed stored hash, a matching password always yields
/// the signed token of the user's id and role stamped at `now`, and a
/// wrong password always fails with exactly the invalid-credentials
/// error; no other outcome exists on that path.
pub fn login_with_user(
    user: &UserWithPassword,
    password: &str,
    secret: &[u8],
    expires_in: u64,
    now: u64,
) -> (r: Result<String, AppError>)
    requires
        now + expires_in <= u64::MAX,
    ensures
        r matches Ok(t) ==> (user.password matches Some(h) && bcrypt_matches(password@, h@)
            && vstd::utf8::encode_utf8(t@) == spec_token_bytes(
            spec_issued_claims(user.user_id as int, user.role, expires_in as int, now as int),
            secret@,
        )),
        (user.password matches Some(h) && bcrypt_parses(h@) && bcrypt_matches(password@, h@))
            ==> r is Ok,
        (user.password matches Some(h) && bcrypt_parses(h@) && !bcrypt_matches(password@, h@))
            ==> (r matches Err(e) && (e matches AppError::AuthError(m) && m@
            == "Invalid credentials"@)),
        (r matches Err(e) && e matches AppError::AuthError(m) && m@ == "Invalid credentials"@)
            ==> (user.password matches Some(h) && !bcrypt_matches(password@, h@)),
        (user.password matches Some(h) && !bcrypt_matches(password@, h@)) ==> r is Err,
        user.password is None ==> (r matches Err(e) && e matches AppError::AuthError(m) && m@
            == "No password set for this user"@),
{
    let ok = match User::verify_password(user, password) {
        Ok(b) => b,
        Err(e) => {
            proof {
                reveal_strlit("No password set for this user");
                reveal_strlit("Invalid credentials");
                assert("No password set for this user"@.len() != "Invalid credentials"@.len());
            }
            return Err(e);
        },
    };
    if !ok {
        return Err(AppError::AuthError("Invalid credentials".to_owned()));
    }
    create_token(user.user_id, user.role, secret, expires_in, now)
}

/// Query parameters of a user listing request.
#[derive(Debug, Clone, Copy)]
pub struct PaginationParams {
    pub page: Option<i64>,
    pub limit: Option<i64>,
}

/// Resolves a user listing request to `(page, limit, offset)`: the given
/// values or page 1 with 10 items, rejected when either is below one.
pub fn user_page_window(params: &PaginationParams) -> (r: Result<(i64, i64, i64), AppError>)
    requires
        ({
            let p: int = match params.page {
                Some(p) => p as int,
                None => 1int,
            };
            let l: int = match params.limit {
                Some(l) => l as int,
                None => 10int,
            };
            p >= 1 && l >= 1 ==> (p - 1) * l <= i64::MAX
        }),
    ensures
        ({
            let p = match params.page {
                Some(p) => p as int,
                None => 1int,
            };
            let l = match params.limit {
                Some(l) => l as int,
                None => 10int,
            };
            match r {
                Ok(w) => p >= 1 && l >= 1 && w.0 == p && w.1 == l && w.2 == (p - 1) * l,
                Err(e) => (p < 1 || l < 1) && (e matches AppError::ValidationError(m) && m@
                    == "Page and limit must be positive"@),
            }
        }),
{
    let page: i64 = match params.page {
        Some(p) => p,
        None => 1,
    };
    let limit: i64 = match params.limit {
        Some(l) => l,
        None => 10,
    };
    if page < 1 || limit < 1 {
        return Err(AppError::ValidationError("Page and limit must be positive".to_owned()));
    }
    let offset: i64 = (page - 1) * limit;
    Ok((page, limit, offset))
}

/// How many pages `total` rows make at `limit` rows per page, rounded up.
pub fn user_total_pages(total: i64, limit: i64) -> (r: i64)
    requires
        limit >= 1,
        0 <= total,
        total + limit <= i64::MAX,
    ensures
        r == (total + limit - 1) / (limit as int),
{
    (total + limit - 1) / limit
}

} // verus!
