use airline_api::auth::create_token;
use airline_api::b64url::{b64_decode, b64_encode};
use airline_api::claims::{claims_to_json, parse_claims_json, Claims};
use airline_api::user::UserRole;

#[test]
fn base64url_known_vectors() {
    let cases: [(&[u8], &str); 7] = [
        (b"", ""),
        (b"f", "Zg"),
        (b"fo", "Zm8"),
        (b"foo", "Zm9v"),
        (b"foob", "Zm9vYg"),
        (b"fooba", "Zm9vYmE"),
        (b"foobar", "Zm9vYmFy"),
    ];
    for (input, expected) in cases {
        let enc = b64_encode(input);
        assert_eq!(enc, expected.as_bytes().to_vec());
        let dec = b64_decode(&enc).unwrap();
        assert_eq!(dec, input.to_vec());
    }
}

#[test]
fn base64url_decode_rejects_non_canonical() {
    assert!(b64_decode(b"A").is_none());
    assert!(b64_decode(b"AB").is_none());
    assert!(b64_decode(b"Zh").is_none());
    assert!(b64_decode(b"Zg=").is_none());
    assert!(b64_decode(b"Zg==").is_none());
    assert!(b64_decode(b"Z.g").is_none());
}

#[test]
fn claims_json_round_trip() {
    let c = Claims {
        sub: "123".to_string(),
        role: UserRole::Worker,
        exp: 1700003600,
        iat: 1700000000,
    };
    let json = claims_to_json(&c);
    assert_eq!(
        String::from_utf8(json.clone()).unwrap(),
        "{\"sub\":\"123\",\"role\":\"worker\",\"exp\":1700003600,\"iat\":1700000000}"
    );
    let back = parse_claims_json(&json).unwrap();
    assert_eq!(back.sub, "123");
    assert_eq!(back.role, UserRole::Worker);
    assert_eq!(back.exp, 1700003600);
    assert_eq!(back.iat, 1700000000);
}

#[test]
fn claims_json_rejects_non_canonical_forms() {
    assert!(parse_claims_json(b"{}").is_none());
    assert!(parse_claims_json(b"{\"sub\":\"1\",\"role\":\"pilot\",\"exp\":2,\"iat\":1}").is_none());
    assert!(parse_claims_json(b"{\"sub\":\"1\",\"role\":\"user\",\"exp\":02,\"iat\":1}").is_none());
    assert!(parse_claims_json(b"{\"sub\":\"1\",\"role\":\"user\",\"exp\":2,\"iat\":1} ").is_none());
}

#[test]
fn issued_tokens_pass_the_upstream_verifier() {
    let secret = b"a-test-signing-secret";
    let token = create_token(7, UserRole::User, secret, 3600, 1700000000).unwrap();
    let parts: Vec<&str> = token.split('.').collect();
    assert_eq!(parts.len(), 3);
    let message = format!("{}.{}", parts[0], parts[1]);
    let key = jsonwebtoken::DecodingKey::from_secret(secret);
    let ok = jsonwebtoken::crypto::verify(
        parts[2],
        message.as_bytes(),
        &key,
        jsonwebtoken::Algorithm::HS256,
    )
    .unwrap();
    assert!(ok);
    let mut altered = message.clone().into_bytes();
    altered[0] = if altered[0] == b'x' { b'y' } else { b'x' };
    let bad = jsonwebtoken::crypto::verify(
        parts[2],
        &altered,
        &key,
        jsonwebtoken::Algorithm::HS256,
    )
    .unwrap();
    assert!(!bad);
}
