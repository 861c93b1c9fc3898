//! The identity extractor and the role gate: pulling a bearer token out of
//! an `Authorization` header, validating it, and gating route access by an
//! allowed-role set.

use vstd::prelude::*;
use crate::auth::{spec_token_bytes, verify_token_bytes};
use crate::claims::{ClaimsView, claims_view_wf, match_lit};
use crate::error::AppError;
use crate::numerals::{
    lemma_signed_dec_injective, parse_i32_dec, spec_signed_dec_digits,
};
use crate::user::UserRole;
use vstd::slice::slice_subrange;
use vstd::string::StringExecFns;

verus! {

/// An authenticated identity: the subject's id and role, as the verified
/// token stated them.
#[derive(Debug, Clone, Copy, PartialEq, Eq, Structural)]
pub struct AuthUser {
    pub user_id: i32,
    pub role: UserRole,
}

/// The bytes of the literal header prefix `Bearer ` (one trailing space).
pub open spec fn spec_bearer_prefix() -> Seq<u8> {
    seq![66u8, 101, 97, 114, 101, 114, 32]
}

/// Whether a header value carries the bearer prefix.
pub open spec fn spec_has_bearer(hb: Seq<u8>) -> bool {
    hb.len() >= 7 && hb.subrange(0, 7) == spec_bearer_prefix()
}

/// The token part of a header value with the bearer prefix.
pub open spec fn spec_bearer_token(hb: Seq<u8>) -> Seq<u8> {
    hb.skip(7)
}

/// The message of the authorization failure for a denied role.
pub open spec fn spec_authz_message(role: UserRole) -> Seq<char> {
    "User role '"@ + (match role {
        UserRole::Admin => "Admin"@,
        UserRole::Worker => "Worker"@,
        UserRole::User => "User"@,
    }) + "' is not authorized to access this route"@
}

/// The bytes of the literal `Bearer `.
fn bearer_lit() -> (v: Vec<u8>)
    ensures
        v@ == spec_bearer_prefix(),
{
    let mut v: Vec<u8> = Vec::new();
    v.push(66);
    v.push(101);
    v.push(97);
    v.push(114);
    v.push(101);
    v.push(114);
    v.push(32);
    proof {
        assert(v@ =~= spec_bearer_prefix());
    }
    v
}

impl AuthUser {
    /// Extracts an authenticated identity from the raw `Authorization`
    /// header value at time `now`.
    ///
    /// The header must be present and start with the literal `Bearer `
    /// prefix; the rest is verified as a token, and the token's subject
    /// must be canonical decimal text of a 32-bit id. Each failure carries
    /// its own message; a valid, fresh token of subject `v` yields exactly
    /// `AuthUser { user_id: v, role }`.
    #[verifier::rlimit(100)]
    pub fn from_header(header: Option<&str>, secret: &[u8], now: u64) -> (r: Result<
        AuthUser,
        AppError,
    >)
        ensures
            (match header {
                None => true,
                Some(h) => !spec_has_bearer(vstd::utf8::encode_utf8(h@)),
            }) ==> (r matches Err(e) && (e matches AppError::AuthError(m) && m@
                == "Missing or invalid Authorization header"@)),
            header matches Some(h) ==> (spec_has_bearer(vstd::utf8::encode_utf8(h@)) ==> {
                let t = spec_bearer_token(vstd::utf8::encode_utf8(h@));
                &&& (r matches Ok(u) ==> exists|cv: ClaimsView|
                    {
                        &&& claims_view_wf(cv)
                        &&& #[trigger] spec_token_bytes(cv, secret@) == t
                        &&& now as int <= cv.exp
                        &&& cv.sub == spec_signed_dec_digits(u.user_id as int)
                        &&& cv.role == u.role
                    })
                &&& (forall|cv: ClaimsView, v: int|
                    claims_view_wf(cv) && t == #[trigger] spec_token_bytes(cv, secret@)
                        && now as int <= cv.exp && i32::MIN <= v <= i32::MAX && cv.sub
                        == #[trigger] spec_signed_dec_digits(v) ==> (r matches Ok(u) && u.user_id
                        == v && u.role == cv.role))
                &&& (forall|cv: ClaimsView|
                    claims_view_wf(cv) && t == #[trigger] spec_token_bytes(cv, secret@)
                        && now as int <= cv.exp && (forall|v: int|
                        i32::MIN <= v <= i32::MAX ==> cv.sub != #[trigger] spec_signed_dec_digits(
                            v,
                        )) ==> (r matches Err(e) && (e matches AppError::AuthError(m) && m@
                        == "Invalid user ID in token"@)))
                &&& (forall|cv: ClaimsView|
                    claims_view_wf(cv) && t == #[trigger] spec_token_bytes(cv, secret@)
                        && now as int > cv.exp ==> (r matches Err(e) && (e
                        matches AppError::AuthError(m) && m@ == "Token expired"@)))
                &&& ((forall|cv: ClaimsView|
                    claims_view_wf(cv) ==> t != #[trigger] spec_token_bytes(cv, secret@)) ==> (r
                    matches Err(e) && (e matches AppError::AuthError(m) && m@
                    == "Invalid token"@)))
            }),
    {
        let h = match header {
            Some(h) => h,
            None => {
                return Err(
                    AppError::AuthError("Missing or invalid Authorization header".to_owned()),
                );
            },
        };
        let hb = h.as_bytes_vec();
        let bearer = bearer_lit();
        if !match_lit(hb.as_slice(), 0, bearer.as_slice()) {
            return Err(AppError::AuthError("Missing or invalid Authorization header".to_owned()));
        }
        let token = slice_subrange(hb.as_slice(), 7, hb.len());
        proof {
            assert(token@ =~= spec_bearer_token(vstd::utf8::encode_utf8(h@)));
        }
        let claims = match verify_token_bytes(token, secret, now) {
            Ok(c) => c,
            Err(e) => {
                return Err(e);
            },
        };
        let sb = claims.sub.as_str().as_bytes_vec();
        match parse_i32_dec(sb.as_slice()) {
            Some(v) => {
                proof {
                    assert forall|cv: ClaimsView, w: int|
                        claims_view_wf(cv) && token@ == #[trigger] spec_token_bytes(cv, secret@)
                            && now as int <= cv.exp && i32::MIN <= w <= i32::MAX && cv.sub
                            == #[trigger] spec_signed_dec_digits(w) implies w == v as int by {
                        crate::auth::lemma_token_bytes_injective(cv, claims@, secret@);
                        lemma_signed_dec_injective(w, v as int);
                    }
                }
                Ok(AuthUser { user_id: v, role: claims.role })
            },
            None => {
                proof {
                    assert forall|cv: ClaimsView|
                        claims_view_wf(cv) && token@ == #[trigger] spec_token_bytes(cv, secret@)
                            implies cv == claims@ by {
                        crate::auth::lemma_token_bytes_injective(cv, claims@, secret@);
                    }
                }
                Err(AppError::AuthError("Invalid user ID in token".to_owned()))
            },
        }
    }
}

/// Whether `role` is in the allowed set.
pub fn role_allowed(role: UserRole, allowed: &[UserRole]) -> (r: bool)
    ensures
        r == allowed@.contains(role),
{
    let mut i: usize = 0;
    while i < allowed.len()
        invariant
            0 <= i <= allowed@.len(),
            forall|k: int| 0 <= k < i ==> allowed@[k] != role,
        decreases allowed@.len() - i,
    {
        if allowed[i] == role {
            assert(allowed@[i as int] == role);
            return true;
        }
        i = i + 1;
    }
    proof {
        assert(!allowed@.contains(role));
    }
    false
}

/// Runs the identity extractor and then gates by role: an extraction
/// failure propagates unchanged; an authenticated identity whose role is
/// outside the allowed set is denied with an authorization error naming
/// the role — a distinct kind from an authentication failure.
pub fn require_auth(header: Option<&str>, allowed_roles: &[UserRole], secret: &[u8], now: u64)
    -> (r: Result<AuthUser, AppError>)
    ensures
        r matches Ok(u) ==> allowed_roles@.contains(u.role),
        (match header {
            None => true,
            Some(h) => !spec_has_bearer(vstd::utf8::encode_utf8(h@)),
        }) ==> (r matches Err(e) && (e matches AppError::AuthError(m) && m@
            == "Missing or invalid Authorization header"@)),
        header matches Some(h) ==> (spec_has_bearer(vstd::utf8::encode_utf8(h@)) ==> {
            let t = spec_bearer_token(vstd::utf8::encode_utf8(h@));
            &&& (forall|cv: ClaimsView, v: int|
                claims_view_wf(cv) && t == #[trigger] spec_token_bytes(cv, secret@) && now as int
                    <= cv.exp && i32::MIN <= v <= i32::MAX && cv.sub
                    == #[trigger] spec_signed_dec_digits(v) ==> (if allowed_roles@.contains(
                    cv.role,
                ) {
                    r matches Ok(u) && u.user_id == v && u.role == cv.role
                } else {
                    r matches Err(e) && (e matches AppError::AuthzError(m) && m@
                        == spec_authz_message(cv.role))
                }))
            &&& (forall|cv: ClaimsView|
                claims_view_wf(cv) && t == #[trigger] spec_token_bytes(cv, secret@) && now as int
                    > cv.exp ==> (r matches Err(e) && (e matches AppError::AuthError(m) && m@
                    == "Token expired"@)))
            &&& ((forall|cv: ClaimsView|
                claims_view_wf(cv) ==> t != #[trigger] spec_token_bytes(cv, secret@)) ==> (r
                matches Err(e) && (e matches AppError::AuthError(m) && m@ == "Invalid token"@)))
        }),
{
    let user = match AuthUser::from_header(header, secret, now) {
        Ok(u) => u,
        Err(e) => {
            return Err(e);
        },
    };
    if role_allowed(user.role, allowed_roles) {
        Ok(user)
    } else {
        let mut m = String::new();
        m.append("User role '");
        m.append(user.role.display_name());
        m.append("' is not authorized to access this route");
        Err(AppError::AuthzError(m))
    }
}

/// The allowed-role set of admin-only route groups.
pub fn admin_roles() -> (r: Vec<UserRole>)
    ensures
        r@ == seq![UserRole::Admin],
{
    let mut v: Vec<UserRole> = Vec::new();
    v.push(UserRole::Admin);
    proof {
        assert(v@ =~= seq![UserRole::Admin]);
    }
    v
}

/// The allowed-role set of staff route groups.
pub fn staff_roles() -> (r: Vec<UserRole>)
    ensures
        r@ == seq![UserRole::Admin, UserRole::Worker],
{
    let mut v: Vec<UserRole> = Vec::new();
    v.push(UserRole::Admin);
    v.push(UserRole::Worker);
    proof {
        assert(v@ =~= seq![UserRole::Admin, UserRole::Worker]);
    }
    v
}

/// The allowed-role set of any-authenticated route groups.
pub fn authenticated_roles() -> (r: Vec<UserRole>)
    ensures
        r@ == seq![UserRole::Admin, UserRole::Worker, UserRole::User],
{
    let mut v: Vec<UserRole> = Vec::new();
    v.push(UserRole::Admin);
    v.push(UserRole::Worker);
    v.push(UserRole::User);
    proof {
        assert(v@ =~= seq![UserRole::Admin, UserRole::Worker, UserRole::User]);
    }
    v
}

} // verus!
