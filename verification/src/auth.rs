//! Issuing and verifying signed, time-bounded identity tokens.
//!
//! A token is `base64url(header) . base64url(claims) . signature`, signed
//! with HMAC-SHA256 under a process-wide secret. The token text an issuer
//! produces is pinned exactly by [`spec_token_bytes`]; verification accepts
//! exactly the tokens of well-formed claim sets whose signature matches,
//! and a token is valid precisely while `now <= exp`.

use vstd::prelude::*;
use crate::b64url::{b64_encode, b64_decode, lemma_b64_encode_alphabet, lemma_b64_encode_injective,
    spec_b64_encode};
use crate::claims::{Claims, ClaimsView, claims_view_wf, claims_to_json, parse_claims_json,
    spec_claims_json, lemma_claims_json_injective, found_byte, bytes_eq, read_until,
    string_from_ascii};
use crate::error::AppError;
use crate::numerals::{i32_to_dec, spec_signed_dec_digits, spec_dec_val, spec_all_digits,
    parse_u64_dec};
use crate::user::UserRole;
use vstd::slice::slice_subrange;

verus! {

/// The base64url text of the HMAC-SHA256 signature that signing `message`
/// with `key` yields, as bytes. The value is a function of the message and
/// key alone.
pub uninterp spec fn hs256_sig_of(message: Seq<u8>, key: Seq<u8>) -> Seq<u8>;

/// The bytes of the fixed token header, `{"typ":"JWT","alg":"HS256"}`.
pub open spec fn spec_header_json() -> Seq<u8> {
    seq![123u8, 34, 116, 121, 112, 34, 58, 34, 74, 87, 84, 34, 44, 34, 97, 108, 103, 34, 58, 34,
        72, 83, 50, 53, 54, 34, 125]
}

/// The signing input: encoded header, a dot, encoded claims.
pub open spec fn spec_signing_input(cv: ClaimsView) -> Seq<u8> {
    spec_b64_encode(spec_header_json()) + seq![46u8] + spec_b64_encode(spec_claims_json(cv))
}

/// The complete token: the signing input, a dot, the signature text.
pub open spec fn spec_token_bytes(cv: ClaimsView, secret: Seq<u8>) -> Seq<u8> {
    spec_signing_input(cv) + seq![46u8] + hs256_sig_of(spec_signing_input(cv), secret)
}

/// The claim set that issuing a token stamps: the subject's decimal text,
/// the role, and expiry `now + expires_in`.
pub open spec fn spec_issued_claims(user_id: int, role: UserRole, expires_in: int, now: int)
    -> ClaimsView {
    ClaimsView {
        sub: spec_signed_dec_digits(user_id),
        role,
        exp: now + expires_in,
        iat: now,
    }
}


/// The round-trip law's spec-level backbone: the claim set that issuing
/// stamps for any subject and role is well-formed, and carries exactly
/// that subject's decimal text, the role, and expiry `now + expires_in`.
/// With `verify_token`'s contract this gives: verifying an issued token
/// at any `now2 <= now + expires_in` returns exactly the issued subject
/// and role, and one second past expiry fails as expired.
pub proof fn lemma_issued_claims_well_formed(
    user_id: int,
    role: UserRole,
    expires_in: int,
    now: int,
)
    requires
        i32::MIN <= user_id <= i32::MAX,
        0 <= now,
        0 <= expires_in,
        now + expires_in <= u64::MAX,
    ensures
        claims_view_wf(spec_issued_claims(user_id, role, expires_in, now)),
        spec_issued_claims(user_id, role, expires_in, now).sub == spec_signed_dec_digits(user_id),
        spec_issued_claims(user_id, role, expires_in, now).role == role,
        spec_issued_claims(user_id, role, expires_in, now).exp == now + expires_in,
        spec_issued_claims(user_id, role, expires_in, now).iat == now,
{
    if user_id < 0 {
        crate::numerals::lemma_dec_digits_are_digits((-user_id) as nat);
    } else {
        crate::numerals::lemma_dec_digits_are_digits(user_id as nat);
    }
}

/// Relies on `jsonwebtoken::crypto::sign` with `Algorithm::HS256` and a key
/// from `EncodingKey::from_secret`: the result is the HMAC-SHA256 of the
/// message under the secret, encoded as unpadded base64url — a value that
/// depends on message and secret alone, returned as ASCII text without a
/// dot. For this algorithm and key kind the crate's HMAC signer accepts any
/// secret length and cannot fail.
#[verifier::external_body]
fn sign_hs256(message: &[u8], secret: &[u8]) -> (sig: String)
    ensures
        vstd::utf8::encode_utf8(sig@) == hs256_sig_of(message@, secret@),
        forall|i: int|
            0 <= i < vstd::utf8::encode_utf8(sig@).len() ==> #[trigger] vstd::utf8::encode_utf8(
                sig@,
            )[i] < 128 && vstd::utf8::encode_utf8(sig@)[i] != 46,
{
    jsonwebtoken::crypto::sign(
        message,
        &jsonwebtoken::EncodingKey::from_secret(secret),
        jsonwebtoken::Algorithm::HS256,
    ).expect("HS256 signing with a secret key does not fail")
}

/// The bytes of the fixed token header.
fn lit_header() -> (v: Vec<u8>)
    ensures
        v@ == spec_header_json(),
{
    let mut v: Vec<u8> = Vec::new();
    v.push(123);
    v.push(34);
    v.push(116);
    v.push(121);
    v.push(112);
    v.push(34);
    v.push(58);
    v.push(34);
    v.push(74);
    v.push(87);
    v.push(84);
    v.push(34);
    v.push(44);
    v.push(34);
    v.push(97);
    v.push(108);
    v.push(103);
    v.push(34);
    v.push(58);
    v.push(34);
    v.push(72);
    v.push(83);
    v.push(50);
    v.push(53);
    v.push(54);
    v.push(34);
    v.push(125);
    proof {
        assert(v@ =~= spec_header_json());
    }
    v
}

/// Where the two dots and the three segments of a token lie.
proof fn lemma_token_shape(cv: ClaimsView, secret: Seq<u8>)
    ensures
        ({
            let t = spec_token_bytes(cv, secret);
            let h = spec_b64_encode(spec_header_json());
            let p = spec_b64_encode(spec_claims_json(cv));
            &&& t.len() == h.len() + 1 + p.len() + 1 + hs256_sig_of(
                spec_signing_input(cv),
                secret,
            ).len()
            &&& t.subrange(0, h.len() as int) == h
            &&& t[h.len() as int] == 46
            &&& forall|k: int| 0 <= k < h.len() ==> t[k] != 46
            &&& t.subrange(h.len() as int + 1, h.len() + 1 + p.len() as int) == p
            &&& t[h.len() as int + 1 + p.len()] == 46
            &&& forall|k: int| h.len() + 1 <= k < h.len() + 1 + p.len() ==> t[k] != 46
            &&& t.subrange(0, h.len() as int + 1 + p.len()) == spec_signing_input(cv)
            &&& t.subrange(h.len() as int + 1 + p.len() + 1, t.len() as int) == hs256_sig_of(
                spec_signing_input(cv),
                secret,
            )
        }),
{
    let t = spec_token_bytes(cv, secret);
    let h = spec_b64_encode(spec_header_json());
    let p = spec_b64_encode(spec_claims_json(cv));
    lemma_b64_encode_alphabet(spec_header_json());
    lemma_b64_encode_alphabet(spec_claims_json(cv));
    assert(t.subrange(0, h.len() as int) =~= h);
    assert(t.subrange(h.len() as int + 1, h.len() + 1 + p.len() as int) =~= p);
    assert(t.subrange(0, h.len() as int + 1 + p.len()) =~= spec_signing_input(cv));
    assert(t.subrange(h.len() as int + 1 + p.len() + 1, t.len() as int) =~= hs256_sig_of(
        spec_signing_input(cv),
        secret,
    ));
    assert forall|k: int| 0 <= k < h.len() implies t[k] != 46 by {
        assert(t[k] == h[k]) by {
            assert(t.subrange(0, h.len() as int)[k] == t[k]);
        }
    }
    assert forall|k: int| h.len() + 1 <= k < h.len() + 1 + p.len() implies t[k] != 46 by {
        assert(t[k] == p[k - (h.len() + 1)]) by {
            assert(t.subrange(h.len() as int + 1, h.len() + 1 + p.len() as int)[k - (h.len() + 1)] == t[k]);
        }
    }
}

/// The first dot of a token closes the encoded header.
proof fn lemma_tok_d1(cv: ClaimsView, secret: Seq<u8>, t: Seq<u8>, d1: int)
    requires
        t == spec_token_bytes(cv, secret),
        found_byte(t, 0, d1, 46),
    ensures
        d1 == spec_b64_encode(spec_header_json()).len(),
        t.subrange(0, d1) == spec_b64_encode(spec_header_json()),
{
    lemma_token_shape(cv, secret);
    let h = spec_b64_encode(spec_header_json());
    if d1 < h.len() {
        assert(t[d1] != 46) by {
            assert(t.subrange(0, h.len() as int)[d1] == t[d1]);
            lemma_b64_encode_alphabet(spec_header_json());
        }
        assert(false);
    }
    if d1 > h.len() {
        assert(false);
    }
}

/// The second dot of a token closes the encoded claims.
proof fn lemma_tok_d2(cv: ClaimsView, secret: Seq<u8>, t: Seq<u8>, d1: int, d2: int)
    requires
        t == spec_token_bytes(cv, secret),
        found_byte(t, 0, d1, 46),
        found_byte(t, d1 + 1, d2, 46),
    ensures
        d2 == spec_b64_encode(spec_header_json()).len() + 1 + spec_b64_encode(
            spec_claims_json(cv),
        ).len(),
        t.subrange(d1 + 1, d2) == spec_b64_encode(spec_claims_json(cv)),
        t.subrange(0, d2) == spec_signing_input(cv),
        t.subrange(d2 + 1, t.len() as int) == hs256_sig_of(spec_signing_input(cv), secret),
{
    lemma_tok_d1(cv, secret, t, d1);
    lemma_token_shape(cv, secret);
    let h = spec_b64_encode(spec_header_json());
    let p = spec_b64_encode(spec_claims_json(cv));
    if d2 < h.len() + 1 + p.len() {
        assert(t[d2] != 46) by {
            assert(t.subrange(h.len() as int + 1, h.len() + 1 + p.len() as int)[d2 - (h.len() + 1)] == t[d2]);
            lemma_b64_encode_alphabet(spec_claims_json(cv));
        }
        assert(false);
    }
    if d2 > h.len() + 1 + p.len() {
        assert(false);
    }
}

/// Two well-formed claim sets with the same token text are the same.
pub proof fn lemma_token_bytes_injective(cv1: ClaimsView, cv2: ClaimsView, secret: Seq<u8>)
    requires
        claims_view_wf(cv1),
        claims_view_wf(cv2),
        spec_token_bytes(cv1, secret) == spec_token_bytes(cv2, secret),
    ensures
        cv1 == cv2,
{
    let t = spec_token_bytes(cv1, secret);
    lemma_token_shape(cv1, secret);
    lemma_token_shape(cv2, secret);
    let h = spec_b64_encode(spec_header_json());
    let p1 = spec_b64_encode(spec_claims_json(cv1));
    let p2 = spec_b64_encode(spec_claims_json(cv2));
    let d1 = h.len() as int;
    assert(found_byte(t, 0, d1, 46));
    assert(found_byte(t, d1 + 1, d1 + 1 + p1.len(), 46));
    lemma_tok_d2(cv2, secret, t, d1, d1 + 1 + p1.len());
    assert(p1 == p2);
    lemma_b64_encode_injective(spec_claims_json(cv1), spec_claims_json(cv2));
    lemma_claims_json_injective(cv1, cv2);
}

/// No well-formed claim set matches: the token has no dot at all, or none
/// after the first.
proof fn lemma_tok_refuse_dots(t: Seq<u8>, secret: Seq<u8>, d1: int, second: bool)
    requires
        !second ==> (forall|k: int| 0 <= k < t.len() ==> t[k] != 46),
        second ==> found_byte(t, 0, d1, 46),
        second ==> (forall|k: int| d1 + 1 <= k < t.len() ==> t[k] != 46),
    ensures
        forall|cv: ClaimsView| claims_view_wf(cv) ==> t != spec_token_bytes(cv, secret),
{
    assert forall|cv: ClaimsView| claims_view_wf(cv) implies t != spec_token_bytes(
        cv,
        secret,
    ) by {
        if t == spec_token_bytes(cv, secret) {
            lemma_token_shape(cv, secret);
            let h = spec_b64_encode(spec_header_json());
            let p = spec_b64_encode(spec_claims_json(cv));
            if second {
                lemma_tok_d1(cv, secret, t, d1);
                assert(t[h.len() as int + 1 + p.len()] == 46);
            } else {
                assert(t[h.len() as int] == 46);
            }
            assert(false);
        }
    }
}

/// No well-formed claim set matches: the part before the first dot is not
/// the encoded header.
proof fn lemma_tok_refuse_header(t: Seq<u8>, secret: Seq<u8>, d1: int)
    requires
        found_byte(t, 0, d1, 46),
        t.subrange(0, d1) != spec_b64_encode(spec_header_json()),
    ensures
        forall|cv: ClaimsView| claims_view_wf(cv) ==> t != spec_token_bytes(cv, secret),
{
    assert forall|cv: ClaimsView| claims_view_wf(cv) implies t != spec_token_bytes(
        cv,
        secret,
    ) by {
        if t == spec_token_bytes(cv, secret) {
            lemma_tok_d1(cv, secret, t, d1);
            assert(false);
        }
    }
}

/// No well-formed claim set matches: the part after the second dot is not
/// the signature of the part before it.
proof fn lemma_tok_refuse_sig(t: Seq<u8>, secret: Seq<u8>, d1: int, d2: int)
    requires
        found_byte(t, 0, d1, 46),
        found_byte(t, d1 + 1, d2, 46),
        t.subrange(d2 + 1, t.len() as int) != hs256_sig_of(t.subrange(0, d2), secret),
    ensures
        forall|cv: ClaimsView| claims_view_wf(cv) ==> t != spec_token_bytes(cv, secret),
{
    assert forall|cv: ClaimsView| claims_view_wf(cv) implies t != spec_token_bytes(
        cv,
        secret,
    ) by {
        if t == spec_token_bytes(cv, secret) {
            lemma_tok_d2(cv, secret, t, d1, d2);
            assert(false);
        }
    }
}

/// No well-formed claim set matches: the middle segment is no canonical
/// base64url text, or decodes to no canonical claim set.
proof fn lemma_tok_refuse_payload(
    t: Seq<u8>,
    secret: Seq<u8>,
    d1: int,
    d2: int,
    decoded: bool,
    v: Seq<u8>,
)
    requires
        found_byte(t, 0, d1, 46),
        found_byte(t, d1 + 1, d2, 46),
        !decoded ==> (forall|b: Seq<u8>| t.subrange(d1 + 1, d2) != spec_b64_encode(b)),
        decoded ==> t.subrange(d1 + 1, d2) == spec_b64_encode(v),
        decoded ==> (forall|cv: ClaimsView| claims_view_wf(cv) ==> v != spec_claims_json(cv)),
    ensures
        forall|cv: ClaimsView| claims_view_wf(cv) ==> t != spec_token_bytes(cv, secret),
{
    assert forall|cv: ClaimsView| claims_view_wf(cv) implies t != spec_token_bytes(
        cv,
        secret,
    ) by {
        if t == spec_token_bytes(cv, secret) {
            lemma_tok_d2(cv, secret, t, d1, d2);
            if decoded {
                lemma_b64_encode_injective(v, spec_claims_json(cv));
            }
            assert(false);
        }
    }
}

/// Issues a signed token for `user_id` with `role`, stamped `iat = now` and
/// `exp = now + expires_in`, signed with `secret`. The token text is pinned
/// exactly: it is the canonical encoding of the issued claim set.
pub fn create_token(user_id: i32, role: UserRole, secret: &[u8], expires_in: u64, now: u64)
    -> (r: Result<String, AppError>)
    requires
        now + expires_in <= u64::MAX,
    ensures
        r matches Ok(t) && vstd::utf8::encode_utf8(t@) == spec_token_bytes(
            spec_issued_claims(user_id as int, role, expires_in as int, now as int),
            secret@,
        ),
{
    let ghost cv = spec_issued_claims(user_id as int, role, expires_in as int, now as int);
    let subv = i32_to_dec(user_id);
    proof {
        crate::numerals::lemma_dec_digits_are_digits(
            if user_id < 0 {
                (-(user_id as int)) as nat
            } else {
                user_id as nat
            },
        );
        assert(forall|i: int| 0 <= i < subv@.len() ==> subv@[i] < 128);
    }
    let sub = string_from_ascii(subv);
    let claims = Claims { sub, role, exp: now + expires_in, iat: now };
    proof {
        assert(claims@ == cv);
    }
    let payload = claims_to_json(&claims);
    let header = lit_header();
    let hb = b64_encode(header.as_slice());
    let pb = b64_encode(payload.as_slice());
    let mut input: Vec<u8> = Vec::new();
    input.extend_from_slice(hb.as_slice());
    input.push(46);
    input.extend_from_slice(pb.as_slice());
    proof {
        assert(input@ =~= spec_signing_input(cv));
    }
    let sig = sign_hs256(input.as_slice(), secret);
    let sigb = sig.as_str().as_bytes_vec();
    let mut tok: Vec<u8> = Vec::new();
    tok.extend_from_slice(input.as_slice());
    tok.push(46);
    tok.extend_from_slice(sigb.as_slice());
    proof {
        assert(tok@ =~= spec_token_bytes(cv, secret@));
        lemma_b64_encode_alphabet(spec_header_json());
        lemma_b64_encode_alphabet(spec_claims_json(cv));
        assert(forall|i: int| 0 <= i < tok@.len() ==> tok@[i] < 128);
    }
    let t = string_from_ascii(tok);
    Ok(t)
}

/// Verifies a token, given as bytes, against `secret` at time `now`.
///
/// Exactly the token of a well-formed claim set with a matching signature
/// is accepted: while `now <= exp` it verifies to that claim set, one
/// second past expiry it fails as expired, and any other byte string —
/// structural corruption, a foreign signature, a non-canonical payload —
/// fails as invalid.
#[verifier::rlimit(100)]
pub fn verify_token_bytes(token: &[u8], secret: &[u8], now: u64) -> (r: Result<Claims, AppError>)
    ensures
        r matches Ok(c) ==> claims_view_wf(c@) && token@ == spec_token_bytes(c@, secret@)
            && now as int <= c@.exp,
        forall|cv: ClaimsView|
            claims_view_wf(cv) && token@ == spec_token_bytes(cv, secret@) && now as int <= cv.exp
                ==> (r matches Ok(c) && c@ == cv),
        forall|cv: ClaimsView|
            claims_view_wf(cv) && token@ == spec_token_bytes(cv, secret@) && now as int > cv.exp
                ==> (r matches Err(e) && (e matches AppError::AuthError(m) && m@
                == "Token expired"@)),
        (forall|cv: ClaimsView| claims_view_wf(cv) ==> token@ != spec_token_bytes(cv, secret@))
            ==> (r matches Err(e) && (e matches AppError::AuthError(m) && m@
            == "Invalid token"@)),
{
    let n = token.len();
    let (_h, d1) = match read_until(token, 0, 46) {
        Some(p) => p,
        None => {
            proof {
                lemma_tok_refuse_dots(token@, secret@, 0, false);
            }
            return Err(AppError::AuthError("Invalid token".to_owned()));
        },
    };
    let (_p, d2) = match read_until(token, d1 + 1, 46) {
        Some(p) => p,
        None => {
            proof {
                lemma_tok_refuse_dots(token@, secret@, d1 as int, true);
            }
            return Err(AppError::AuthError("Invalid token".to_owned()));
        },
    };
    let header = lit_header();
    let header_b64 = b64_encode(header.as_slice());
    let tok_header = slice_subrange(token, 0, d1);
    if !bytes_eq(tok_header, header_b64.as_slice()) {
        proof {
            lemma_tok_refuse_header(token@, secret@, d1 as int);
        }
        return Err(AppError::AuthError("Invalid token".to_owned()));
    }
    let input = slice_subrange(token, 0, d2);
    let sig = sign_hs256(input, secret);
    let sigb = sig.as_str().as_bytes_vec();
    let tok_sig = slice_subrange(token, d2 + 1, n);
    if !bytes_eq(tok_sig, sigb.as_slice()) {
        proof {
            lemma_tok_refuse_sig(token@, secret@, d1 as int, d2 as int);
        }
        return Err(AppError::AuthError("Invalid token".to_owned()));
    }
    let tok_payload = slice_subrange(token, d1 + 1, d2);
    let payload = match b64_decode(tok_payload) {
        Some(p) => p,
        None => {
            proof {
                lemma_tok_refuse_payload(
                    token@,
                    secret@,
                    d1 as int,
                    d2 as int,
                    false,
                    Seq::<u8>::empty(),
                );
            }
            return Err(AppError::AuthError("Invalid token".to_owned()));
        },
    };
    let claims = match parse_claims_json(payload.as_slice()) {
        Some(c) => c,
        None => {
            proof {
                lemma_tok_refuse_payload(
                    token@,
                    secret@,
                    d1 as int,
                    d2 as int,
                    true,
                    payload@,
                );
            }
            return Err(AppError::AuthError("Invalid token".to_owned()));
        },
    };
    proof {
        assert(token@.subrange(0, d2 as int) =~= token@.subrange(0, d1 as int) + seq![46u8]
            + token@.subrange(d1 + 1, d2 as int));
        assert(token@ =~= token@.subrange(0, d2 as int) + seq![46u8] + token@.subrange(
            d2 + 1,
            n as int,
        ));
        assert(token@.subrange(0, d1 as int) == spec_b64_encode(spec_header_json()));
        assert(token@.subrange(d1 + 1, d2 as int) == spec_b64_encode(spec_claims_json(claims@)));
        assert(token@.subrange(0, d2 as int) == spec_signing_input(claims@));
        assert(token@.subrange(d2 + 1, n as int) == hs256_sig_of(
            spec_signing_input(claims@),
            secret@,
        ));
        assert(token@ == spec_token_bytes(claims@, secret@));
        assert forall|cv: ClaimsView|
            claims_view_wf(cv) && token@ == spec_token_bytes(cv, secret@) implies cv
            == claims@ by {
            lemma_token_bytes_injective(cv, claims@, secret@);
        }
    }
    if now > claims.exp {
        return Err(AppError::AuthError("Token expired".to_owned()));
    }
    Ok(claims)
}

/// Verifies a token given as text: the text's bytes are checked exactly as
/// in [`verify_token_bytes`].
pub fn verify_token(token: &str, secret: &[u8], now: u64) -> (r: Result<Claims, AppError>)
    ensures
        r matches Ok(c) ==> claims_view_wf(c@) && vstd::utf8::encode_utf8(token@)
            == spec_token_bytes(c@, secret@) && now as int <= c@.exp,
        forall|cv: ClaimsView|
            claims_view_wf(cv) && vstd::utf8::encode_utf8(token@) == spec_token_bytes(cv, secret@)
                && now as int <= cv.exp ==> (r matches Ok(c) && c@ == cv),
        forall|cv: ClaimsView|
            claims_view_wf(cv) && vstd::utf8::encode_utf8(token@) == spec_token_bytes(cv, secret@)
                && now as int > cv.exp ==> (r matches Err(e) && (e
                matches AppError::AuthError(m) && m@ == "Token expired"@)),
        (forall|cv: ClaimsView|
            claims_view_wf(cv) ==> vstd::utf8::encode_utf8(token@) != spec_token_bytes(
                cv,
                secret@,
            )) ==> (r matches Err(e) && (e matches AppError::AuthError(m) && m@
            == "Invalid token"@)),
{
    let b = token.as_bytes_vec();
    verify_token_bytes(b.as_slice(), secret, now)
}

/// The seconds a window string denotes: an integer amount with unit
/// suffix `s`, `m`, `h` or `d`; nothing otherwise.
pub open spec fn spec_duration_secs(b: Seq<u8>) -> Option<int> {
    if b.len() >= 2 && spec_all_digits(b.take(b.len() - 1)) {
        let amount = spec_dec_val(b.take(b.len() - 1));
        if b.last() == 115 {
            Some(amount)
        } else if b.last() == 109 {
            Some(amount * 60)
        } else if b.last() == 104 {
            Some(amount * 3600)
        } else if b.last() == 100 {
            Some(amount * 86400)
        } else {
            None
        }
    } else {
        None
    }
}

/// Parses an expiry-window string such as `30d` or `12h` into seconds.
/// Succeeds exactly when the string denotes a window that fits in a `u64`.
pub fn parse_duration(s: &str) -> (r: Option<u64>)
    ensures
        match spec_duration_secs(vstd::utf8::encode_utf8(s@)) {
            Some(v) => if v <= u64::MAX {
                r == Some(v as u64)
            } else {
                r is None
            },
            None => r is None,
        },
{
    let b = s.as_bytes_vec();
    let n = b.len();
    if n < 2 {
        return None;
    }
    let unit_byte = b[n - 1];
    let unit: u64 = if unit_byte == 115 {
        1
    } else if unit_byte == 109 {
        60
    } else if unit_byte == 104 {
        3600
    } else if unit_byte == 100 {
        86400
    } else {
        return None;
    };
    let amount_bytes = slice_subrange(b.as_slice(), 0, n - 1);
    proof {
        assert(amount_bytes@ =~= b@.take(b@.len() - 1));
    }
    let amount = match parse_u64_dec(amount_bytes) {
        Some(a) => a,
        None => {
            proof {
                if spec_all_digits(amount_bytes@) {
                    crate::numerals::lemma_dec_val_nonneg(amount_bytes@);
                }
            }
            return None;
        },
    };
    proof {
        crate::numerals::lemma_dec_val_nonneg(amount_bytes@);
    }
    match amount.checked_mul(unit) {
        Some(v) => Some(v),
        None => None,
    }
}

/// The number of seconds in the default expiry window of thirty days.
pub open spec fn spec_default_expiry() -> int {
    2592000
}

/// The expiry window in seconds: the parsed window string where one is
/// given and parseable, the thirty-day default otherwise.
pub fn token_window(expires_in: Option<&str>) -> (r: u64)
    ensures
        match expires_in {
            Some(s) => match spec_duration_secs(vstd::utf8::encode_utf8(s@)) {
                Some(v) => if v <= u64::MAX {
                    r == v
                } else {
                    r == spec_default_expiry()
                },
                None => r == spec_default_expiry(),
            },
            None => r == spec_default_expiry(),
        },
{
    match expires_in {
        Some(s) => {
            let r = parse_duration(s);
            proof {
                let b = vstd::utf8::encode_utf8(s@);
                if b.len() >= 2 && spec_all_digits(b.take(b.len() - 1)) {
                    crate::numerals::lemma_dec_val_nonneg(b.take(b.len() - 1));
                }
            }
            match r {
                Some(v) => v,
                None => 2592000,
            }
        },
        None => 2592000,
    }
}

} // verus!
