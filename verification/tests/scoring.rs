use repo_analyzer_core::errors::AnalyzerError;
use repo_analyzer_core::scoring::{
    envelope_for, hex_encode, sha256_hex, sign_hash, verify_envelope, ScoringAuditEntry,
    ALGO_VERSION, DEFAULT_CONFIG_SECRET,
};

#[test]
fn sha256_hex_matches_reference_digests() {
    assert_eq!(sha256_hex(""), "e3b0c44298fc1c149afbf4c8996fb92427ae41e4649b934ca495991b7852b855");
    assert_eq!(sha256_hex("abc"), "ba7816bf8f01cfea414140de5dae2223b00361a396177a9cb410ff61f20015ad");
}

#[test]
fn hex_encoding_is_lowercase_two_digits_per_byte() {
    assert_eq!(hex_encode(&vec![0x00, 0x0f, 0xab, 0xff]), "000fabff");
}

#[test]
fn sign_hash_matches_hmac_reference() {
    assert_eq!(
        sign_hash("what do ya want for nothing?", "Jefe").unwrap(),
        "W9zBRr9gdU5qBCQmCJV1x1oAPwidJzmDnexYuWTsOEM"
    );
}

#[test]
fn signed_config_round_trips() {
    let (hash, signature) = envelope_for("{}", DEFAULT_CONFIG_SECRET).unwrap();
    assert_eq!(hash, "44136fa355b3678a1146ad16f7e8649e94fb4fc21fe77e8310c060f61caaff8a");
    assert_eq!(signature, "yLBMR6zgEf8gbE6mh7S0wzq__cO4sOzhb-4S5_6tIiU");
    assert!(verify_envelope("{}", &hash, &signature, DEFAULT_CONFIG_SECRET).is_ok());
}

#[test]
fn tampered_config_is_refused() {
    let (hash, signature) = envelope_for("{\"version\":\"v1\"}", "k").unwrap();
    assert_eq!(
        verify_envelope("{\"version\":\"v2\"}", &hash, &signature, "k"),
        Err(AnalyzerError::Db("scoring config hash mismatch".to_string()))
    );
    assert_eq!(
        verify_envelope("{\"version\":\"v1\"}", &hash, &signature, "other-key"),
        Err(AnalyzerError::Db("scoring config signature mismatch".to_string()))
    );
}

#[test]
fn audit_entries_record_versions() {
    let e = ScoringAuditEntry {
        ts: 1,
        actor: "root".to_string(),
        old_version: "v1".to_string(),
        new_version: ALGO_VERSION.to_string(),
    };
    assert_eq!(e.new_version, "score-script-1.0.0");
}
