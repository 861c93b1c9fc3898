//! The credential verifier: salted one-way password hashing and
//! constant-time verification, delegated to the bcrypt primitive.

use vstd::prelude::*;
use crate::error::AppError;

verus! {

/// Whether bcrypt verification of `password` against the stored text
/// `hash` succeeds. The salt and cost live inside `hash`, so the outcome
/// is a function of the two texts alone.
pub uninterp spec fn bcrypt_matches(password: Seq<char>, hash: Seq<char>) -> bool;

/// Whether `hash` is a stored text bcrypt verification can work against:
/// the 60-character dollar-delimited form with a known prefix, valid salt
/// and hash parts, and a cost in the allowed range. A function of the hash
/// text alone, and the exact condition under which `bcrypt::verify`
/// returns an answer rather than an error.
pub uninterp spec fn bcrypt_parses(hash: Seq<char>) -> bool;

/// Relies on `bcrypt::hash` with the crate's default cost: the salt is
/// drawn from the operating system, the result is a 60-character hash text
/// in the well-formed stored format that verifies against the hashed
/// password, and the call fails only when the system randomness does.
#[verifier::external_body]
fn bcrypt_hash(password: &str) -> (r: Result<String, ()>)
    ensures
        r matches Ok(h) ==> bcrypt_matches(password@, h@) && bcrypt_parses(h@) && h@.len() == 60,
{
    match bcrypt::hash(password, bcrypt::DEFAULT_COST) {
        Ok(h) => Ok(h),
        Err(_) => Err(()),
    }
}

/// Relies on `bcrypt::verify`: recomputes the hash of `password` under the
/// cost and salt carried inside `hash` and compares in constant time. It
/// answers exactly when the stored text is well formed — its only error
/// path is the hash text's parse and cost check, never the password.
#[verifier::external_body]
fn bcrypt_verify(password: &str, hash: &str) -> (r: Result<bool, ()>)
    ensures
        r is Ok <==> bcrypt_parses(hash@),
        r matches Ok(b) ==> b == bcrypt_matches(password@, hash@),
{
    match bcrypt::verify(password, hash) {
        Ok(b) => Ok(b),
        Err(_) => Err(()),
    }
}

/// Hashes a plaintext password for storage. On success the stored text is
/// well formed and verifies against the plaintext; a primitive failure
/// surfaces as an internal error.
pub fn hash_password(password: &str) -> (r: Result<String, AppError>)
    ensures
        r matches Ok(h) ==> bcrypt_matches(password@, h@) && bcrypt_parses(h@) && h@.len() == 60,
        r matches Err(e) ==> e matches AppError::InternalError(m) && m@
            == "Password hashing failed"@,
{
    match bcrypt_hash(password) {
        Ok(h) => Ok(h),
        Err(_) => Err(AppError::InternalError("Password hashing failed".to_owned())),
    }
}

/// Checks a plaintext password against a stored hash. A well-formed stored
/// hash always gets an answer, and the answer is exactly whether the pair
/// matches; only a malformed stored hash fails, as an internal error.
pub fn check_password(password: &str, hash: &str) -> (r: Result<bool, AppError>)
    ensures
        r is Ok <==> bcrypt_parses(hash@),
        r matches Ok(b) ==> b == bcrypt_matches(password@, hash@),
        r matches Err(e) ==> e matches AppError::InternalError(m) && m@
            == "Password verification failed"@,
{
    match bcrypt_verify(password, hash) {
        Ok(b) => Ok(b),
        Err(_) => Err(AppError::InternalError("Password verification failed".to_owned())),
    }
}

} // verus!
