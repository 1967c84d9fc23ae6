use repo_analyzer_core::plugins::sanitizer::{
    scrub_metric, scrub_record_strings, scrub_text, scrub_text_with_pack, MandatorySanitizerPlugin,
    SanitizerPolicyPack,
};
use repo_analyzer_core::types::{AnalysisInput, AnalysisMetric, RepoTarget};

#[test]
fn redacts_token_and_email() {
    let raw = "token=abc123 owner=alice@example.com";
    let scrubbed = scrub_text(raw);
    assert!(scrubbed.contains("token=[REDACTED]"));
    assert!(!scrubbed.contains("alice@example.com"));
}

#[test]
fn handles_unicode_key_and_value_boundaries() {
    let raw = "x-api-key=abc🙂 secret=top-secret payload=abc";
    let scrubbed = scrub_text(raw);
    assert!(scrubbed.contains("x-api-key=[REDACTED]"));
    assert!(scrubbed.contains("secret=[REDACTED]"));
    assert!(!scrubbed.contains("top-secret"));
}

#[test]
fn applies_security_policy_pack_to_additional_credentials() {
    let raw = "client_secret=sk_live bearer=eyJhbGciOiJIUzI1NiJ9 private_key=-----BEGIN";
    let scrubbed = scrub_text_with_pack(raw, SanitizerPolicyPack::Security);
    assert!(scrubbed.contains("client_secret=[REDACTED]"));
    assert!(scrubbed.contains("bearer=[REDACTED]"));
    assert!(scrubbed.contains("private_key=[REDACTED]"));
}

#[test]
fn applies_privacy_and_payments_packs_without_affecting_general_scrub() {
    let privacy = scrub_text_with_pack("ssn=123-45-6789 dob=1990-01-01", SanitizerPolicyPack::Privacy);
    let payments = scrub_text_with_pack(
        "card_number=4111111111111111 cvv=123",
        SanitizerPolicyPack::Payments,
    );
    let general = scrub_text_with_pack("token=abc123", SanitizerPolicyPack::General);

    assert!(privacy.contains("ssn=[REDACTED]"));
    assert!(privacy.contains("dob=[REDACTED]"));
    assert!(payments.contains("card_number=[REDACTED]"));
    assert!(payments.contains("cvv=[REDACTED]"));
    assert!(general.contains("token=[REDACTED]"));
}

#[test]
fn scrub_masks_emails_and_phone_numbers_as_whole_tokens() {
    let scrubbed = scrub_text("call +1-555-123-4567 or mail bob@example.org now");
    assert_eq!(scrubbed, "call [REDACTED] or mail [REDACTED] now");
}

#[test]
fn scrub_collapses_whitespace_between_tokens() {
    assert_eq!(scrub_text("  plain\ttext \n here "), "plain text here");
}

#[test]
fn pack_scrub_keeps_contact_details_and_spacing() {
    let raw = "mail  bob@example.org ssn=1";
    assert_eq!(scrub_text_with_pack(raw, SanitizerPolicyPack::General), raw);
    assert_eq!(
        scrub_text_with_pack(raw, SanitizerPolicyPack::Privacy),
        "mail  bob@example.org ssn=[REDACTED]"
    );
}

#[test]
fn key_inside_a_longer_word_is_left_alone() {
    assert_eq!(scrub_text_with_pack("mytoken=abc", SanitizerPolicyPack::General), "mytoken=abc");
    assert_eq!(scrub_text_with_pack("token_id=7", SanitizerPolicyPack::General), "token_id=7");
}

#[test]
fn value_ends_at_delimiter_and_keeps_blanks_after_separator() {
    assert_eq!(
        scrub_text_with_pack("password: hunter2;next", SanitizerPolicyPack::General),
        "password: [REDACTED];next"
    );
    assert_eq!(
        scrub_text_with_pack("Token=abc,rest", SanitizerPolicyPack::General),
        "Token=[REDACTED],rest"
    );
}

#[test]
fn key_without_separator_is_not_redacted() {
    assert_eq!(scrub_text_with_pack("token abc", SanitizerPolicyPack::General), "token abc");
}

#[test]
fn every_pack_redacts_the_general_keys() {
    for pack in [
        SanitizerPolicyPack::General,
        SanitizerPolicyPack::Security,
        SanitizerPolicyPack::Privacy,
        SanitizerPolicyPack::Payments,
    ] {
        assert_eq!(scrub_text_with_pack("auth=xyz", pack), "auth=[REDACTED]");
    }
}

#[test]
fn record_strings_are_scrubbed_each() {
    let (name, release) = scrub_record_strings("repo owner=a@b.io", "v1 token=zz");
    assert_eq!(name, "repo [REDACTED]");
    assert_eq!(release, "v1 token=[REDACTED]");
}

#[test]
fn mandatory_sanitizer_counts_fields_with_secrets() {
    let plugin = MandatorySanitizerPlugin;
    assert_eq!(plugin.name(), "mandatory_sanitizer");
    let clean = AnalysisInput {
        repo: RepoTarget { name: "core".to_string(), path: "/src/core".to_string() },
        changed_files: vec![],
    };
    assert_eq!(plugin.redaction_findings(&clean), 0);
    let dirty = AnalysisInput {
        repo: RepoTarget { name: "core token=abc".to_string(), path: "/src/core".to_string() },
        changed_files: vec![],
    };
    assert_eq!(plugin.redaction_findings(&dirty), 1);
}

#[test]
fn credentials_before_a_width_changing_character_are_redacted() {
    assert_eq!(
        scrub_text_with_pack("password=hunter2 user=İlker", SanitizerPolicyPack::General),
        "password=[REDACTED] user=İlker"
    );
    assert_eq!(scrub_text("password=hunter2 user=İlker"), "password=[REDACTED] user=İlker");
}

#[test]
fn keys_are_matched_on_each_character_lowercase() {
    assert_eq!(
        scrub_text_with_pack("PASSWORD=x TO\u{212A}EN=y", SanitizerPolicyPack::General),
        "PASSWORD=[REDACTED] TO\u{212A}EN=[REDACTED]"
    );
    assert_eq!(scrub_text_with_pack("tokenİ=x", SanitizerPolicyPack::General), "tokenİ=x");
    assert_eq!(
        scrub_text_with_pack("İ token=x", SanitizerPolicyPack::General),
        "İ token=[REDACTED]"
    );
}

#[test]
fn pack_scrub_returns_keyless_text_unchanged() {
    assert_eq!(scrub_text_with_pack("ssn=1  a@b.c", SanitizerPolicyPack::General), "ssn=1  a@b.c");
    let plain = "Build  ok\tcall 555-123-4567 mail a@b.c";
    for pack in [
        SanitizerPolicyPack::General,
        SanitizerPolicyPack::Security,
        SanitizerPolicyPack::Privacy,
        SanitizerPolicyPack::Payments,
    ] {
        assert_eq!(scrub_text_with_pack(plain, pack), plain);
    }
}

#[test]
fn scrubbing_a_scrubbed_text_changes_nothing() {
    for raw in [
        "token=abc  mail bob@example.org call 5551234567",
        "password: hunter2; api_key=xyz,next",
        "auth=\n  value  trailing ",
        "plain words only",
    ] {
        let once = scrub_text(raw);
        assert_eq!(scrub_text(&once), once);
    }
}

#[test]
fn scrub_metric_scrubs_text_fields_and_keeps_value() {
    let mut m = AnalysisMetric {
        plugin: "p token=abc".to_string(),
        key: "mail bob@example.org".to_string(),
        value: 2.5f64,
        details: "call 5551234567  now".to_string(),
    };
    scrub_metric(&mut m);
    assert_eq!(m.plugin, "p token=[REDACTED]");
    assert_eq!(m.key, "mail [REDACTED]");
    assert_eq!(m.details, "call [REDACTED] now");
    assert_eq!(m.value, 2.5f64);
}
