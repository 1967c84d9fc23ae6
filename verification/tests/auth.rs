use repo_analyzer_core::auth::{
    authorize_claims, decode_base64_url, expected_signature, require_admin, signed_token,
    token_payload, validate_claims, validate_claims_at, verify_signature, PrincipalClaims, DEFAULT_AUDIENCE,
    DEFAULT_ISSUER, JWT_ALG_HEADER,
};
use repo_analyzer_core::errors::AnalyzerError;
use repo_analyzer_core::types::Principal;

const HEADER_B64: &str = "eyJhbGciOiJIUzI1NiIsInR5cCI6IkpXVCJ9";
const PAYLOAD_B64: &str = "eyJzdWIiOiJ4In0";
const SIGNATURE_B64: &str = "TKECX_pF_bzlcgrzGibhwL3tklDD4LdEEzXVQCw00qY";

fn claims(user: &str, exp: i64) -> PrincipalClaims {
    PrincipalClaims {
        user: user.to_string(),
        roles: vec!["admin".to_string()],
        iss: DEFAULT_ISSUER.to_string(),
        aud: DEFAULT_AUDIENCE.to_string(),
        exp,
    }
}

#[test]
fn issued_token_is_header_payload_and_signature() {
    let token = signed_token(b"secret", b"{\"sub\":\"x\"}");
    assert_eq!(token, format!("{HEADER_B64}.{PAYLOAD_B64}.{SIGNATURE_B64}"));
    assert_eq!(decode_base64_url(HEADER_B64).unwrap(), JWT_ALG_HEADER.as_bytes().to_vec());
    assert_eq!(decode_base64_url(PAYLOAD_B64).unwrap(), b"{\"sub\":\"x\"}".to_vec());
}

#[test]
fn issued_token_is_accepted_while_claims_are_valid() {
    let token = signed_token(b"k", b"{}");
    assert!(authorize_claims(&token, claims("carol", 50), b"k", 49).is_ok());
    assert_eq!(authorize_claims(&token, claims("carol", 50), b"k", 50).unwrap_err(), AnalyzerError::InvalidToken);
}

#[test]
fn decoding_garbage_is_an_invalid_token() {
    assert_eq!(decode_base64_url("a+b/"), Err(AnalyzerError::InvalidToken));
}

#[test]
fn signature_matches_hmac_sha256_reference() {
    let sig = expected_signature(b"secret", HEADER_B64, PAYLOAD_B64).unwrap();
    assert_eq!(sig, SIGNATURE_B64);
    assert!(verify_signature(b"secret", HEADER_B64, PAYLOAD_B64, SIGNATURE_B64));
    assert!(!verify_signature(b"other", HEADER_B64, PAYLOAD_B64, SIGNATURE_B64));
}

#[test]
fn token_payload_checks_shape_and_header() {
    let token = format!("{HEADER_B64}.{PAYLOAD_B64}.{SIGNATURE_B64}");
    assert_eq!(token_payload(&token).unwrap(), b"{\"sub\":\"x\"}".to_vec());
    assert_eq!(token_payload("a.b"), Err(AnalyzerError::InvalidToken));
    let wrong_header = format!("{PAYLOAD_B64}.{PAYLOAD_B64}.{SIGNATURE_B64}");
    assert_eq!(token_payload(&wrong_header), Err(AnalyzerError::InvalidToken));
}

#[test]
fn signed_token_is_accepted_with_valid_claims() {
    let token = format!("{HEADER_B64}.{PAYLOAD_B64}.{SIGNATURE_B64}");
    let principal = authorize_claims(&token, claims("alice", 2_000), b"secret", 1_000).unwrap();
    assert_eq!(principal.user, "alice");
    assert_eq!(principal.roles, vec!["admin".to_string()]);
}

#[test]
fn expired_or_forged_tokens_are_refused() {
    let token = format!("{HEADER_B64}.{PAYLOAD_B64}.{SIGNATURE_B64}");
    assert_eq!(
        authorize_claims(&token, claims("alice", 1_000), b"secret", 1_000).unwrap_err(),
        AnalyzerError::InvalidToken
    );
    assert_eq!(
        authorize_claims(&token, claims("alice", 2_000), b"wrong", 1_000).unwrap_err(),
        AnalyzerError::InvalidToken
    );
}

#[test]
fn claims_need_issuer_audience_user_and_future_expiry() {
    assert!(validate_claims_at(&claims("alice", 10), 9));
    assert!(!validate_claims_at(&claims("alice", 10), 10));
    assert!(!validate_claims_at(&claims("   ", 10), 9));
    let mut c = claims("alice", 10);
    c.iss = "someone-else".to_string();
    assert!(!validate_claims_at(&c, 9));
    let mut c = claims("alice", 10);
    c.aud = "other".to_string();
    assert!(!validate_claims_at(&c, 9));
}

#[test]
fn only_admins_pass_require_admin() {
    let admin = Principal { user: "root".to_string(), roles: vec!["viewer".to_string(), "admin".to_string()] };
    assert!(require_admin(&admin).is_ok());
    let viewer = Principal { user: "bob".to_string(), roles: vec!["viewer".to_string()] };
    assert_eq!(require_admin(&viewer), Err(AnalyzerError::PermissionDenied("bob".to_string())));
}

#[test]
fn validate_claims_reads_the_clock() {
    assert!(validate_claims(&claims("alice", i64::MAX)));
    assert!(!validate_claims(&claims("alice", 0)));
}

#[test]
fn issued_token_carries_its_payload() {
    let token = signed_token(b"k", b"{\"user\":\"dana\"}");
    assert_eq!(token_payload(&token).unwrap(), b"{\"user\":\"dana\"}".to_vec());
}
