//! Request signing: canonicalization, digests, and the middleware
//! decision.

use rank_engine::crypto::{base64_encode, md5_hash, md5_verify};
use rank_engine::errors::RequestError;
use rank_engine::signature::{check_signed_request, compute_signature, verify_signature};
use rank_engine::text::strip_whitespace;

const BODY: &str = "{\"appid\":\"A\",\"rank_key\":\"daily\",\"openid\":\"u1\",\"nick_name\":\"x\",\"score\":1}";
const BODY_SPACED: &str = "{ \"appid\": \"A\", \"rank_key\": \"daily\", \"openid\": \"u1\", \"nick_name\": \"x\", \"score\": 1 }";
const SECRET: &str = "s";
const EXPECTED_SIG: &str = "349eac09d40c95659d3dc0a907561252";

#[test]
fn strip_whitespace_removes_every_whitespace_character() {
    assert_eq!(strip_whitespace("a b\tc\nd\re"), "abcde");
    assert_eq!(strip_whitespace("   "), "");
    assert_eq!(strip_whitespace("plain"), "plain");
    assert_eq!(strip_whitespace("\u{00A0}x\u{3000}"), "x");
}

#[test]
fn md5_matches_known_digests() {
    assert_eq!(md5_hash(""), "d41d8cd98f00b204e9800998ecf8427e");
    assert_eq!(md5_hash("YWJj"), "f4c0128178a6a21b7a3dd76729725d91");
    assert!(md5_verify("", "d41d8cd98f00b204e9800998ecf8427e"));
    assert!(!md5_verify("x", "d41d8cd98f00b204e9800998ecf8427e"));
}

#[test]
fn base64_matches_known_encodings() {
    assert_eq!(base64_encode(&String::from("abc")), "YWJj");
    assert_eq!(base64_encode(&String::new()), "");
}

#[test]
fn signature_of_canonical_body_matches_reference() {
    assert_eq!(compute_signature(BODY, SECRET), EXPECTED_SIG);
    assert!(verify_signature(BODY, SECRET, EXPECTED_SIG));
}

#[test]
fn whitespace_in_the_body_does_not_change_the_signature() {
    assert_eq!(compute_signature(BODY_SPACED, SECRET), EXPECTED_SIG);
    assert!(verify_signature(BODY_SPACED, SECRET, EXPECTED_SIG));
}

#[test]
fn wrong_signature_or_secret_is_rejected() {
    assert!(!verify_signature(BODY, SECRET, "0000000000000000000000000000000000000000"));
    assert!(!verify_signature(BODY, "other-secret", EXPECTED_SIG));
    assert!(!verify_signature("tampered body", SECRET, EXPECTED_SIG));
}

#[test]
fn middleware_accepts_exactly_the_matching_signature() {
    let sig = String::from(EXPECTED_SIG);
    let secret = String::from(SECRET);
    assert!(check_signed_request(Some(&sig), Some(&secret), BODY).is_ok());

    let wrong = String::from("deadbeefdeadbeefdeadbeefdeadbeef");
    let r = check_signed_request(Some(&wrong), Some(&secret), BODY);
    assert!(matches!(r, Err(RequestError::SignatureError)));
}

#[test]
fn middleware_rejects_missing_or_empty_pieces() {
    let sig = String::from(EXPECTED_SIG);
    let secret = String::from(SECRET);
    let empty = String::new();
    assert!(matches!(
        check_signed_request(None, Some(&secret), BODY),
        Err(RequestError::SignatureError)
    ));
    assert!(matches!(
        check_signed_request(Some(&empty), Some(&secret), BODY),
        Err(RequestError::SignatureError)
    ));
    assert!(matches!(
        check_signed_request(Some(&sig), None, BODY),
        Err(RequestError::SignatureError)
    ));
}
