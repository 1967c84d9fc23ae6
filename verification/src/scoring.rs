use vstd::prelude::*;
use vstd::string::StringExecFns;
use vstd::utf8::encode_utf8;
use crate::auth::{b64_url_encoding, encode_base64_url, hmac_sha256, hmac_sha256_tag};
use crate::errors::AnalyzerError;
use crate::storage::{hex_char, hex_digit};
use crate::text::{same_text, string_from_chars};
use sha2::{Digest, Sha256};

verus! {

/// The version of the scoring script.
pub const ALGO_VERSION: &'static str = "score-script-1.0.0";

/// The key that signs scoring configurations when none is configured.
pub const DEFAULT_CONFIG_SECRET: &'static str = "dev-scoring-config-key";

/// One change of the scoring weights, as the audit log records it.
#[derive(Debug, Clone, PartialEq, Eq)]
pub struct ScoringAuditEntry {
    pub ts: i64,
    pub actor: String,
    pub old_version: String,
    pub new_version: String,
}

/// The SHA-256 digest of `data`, as the sha2 crate computes it.
pub uninterp spec fn sha256_digest(data: Seq<u8>) -> Seq<u8>;

/// Calls `Sha256::digest` of the sha2 crate. The contract claims the result is the named
/// digest of `data`, 32 bytes long (SHA-256's output size).
#[verifier::external_body]
pub(crate) fn sha256(data: &[u8]) -> (r: Vec<u8>)
    ensures
        r@ == sha256_digest(data@),
        r@.len() == 32,
{
    Sha256::digest(data).to_vec()
}

/// Two lowercase hexadecimal digits of a byte, as `{:02x}` formats it.
pub open spec fn hex_byte(b: u8) -> Seq<char> {
    seq![hex_char((b / 16) as nat), hex_char((b % 16) as nat)]
}

/// Lowercase hexadecimal form of a byte string.
pub open spec fn hex_of(bytes: Seq<u8>) -> Seq<char>
    decreases bytes.len(),
{
    if bytes.len() == 0 {
        seq![]
    } else {
        hex_of(bytes.drop_last()) + hex_byte(bytes.last())
    }
}

/// The lowercase hexadecimal form of `bytes`.
pub fn hex_encode(bytes: &Vec<u8>) -> (r: String)
    ensures
        r@ == hex_of(bytes@),
{
    let mut out: Vec<char> = Vec::new();
    let mut i: usize = 0;
    while i < bytes.len()
        invariant
            i <= bytes@.len(),
            out@ == hex_of(bytes@.take(i as int)),
        decreases bytes.len() - i,
    {
        let b = bytes[i];
        assert(bytes@.take(i + 1).drop_last() =~= bytes@.take(i as int));
        out.push(hex_digit((b / 16) as u16));
        out.push(hex_digit((b % 16) as u16));
        i = i + 1;
        assert(out@ =~= hex_of(bytes@.take(i as int)));
    }
    assert(bytes@.take(i as int) =~= bytes@);
    string_from_chars(&out)
}

/// The hash that a scoring configuration's text is recorded with.
pub open spec fn hex_digest(raw: Seq<char>) -> Seq<char> {
    hex_of(sha256_digest(encode_utf8(raw)))
}

/// The signature of a configuration hash under `secret`.
pub open spec fn config_signature(secret: Seq<char>, hash: Seq<char>) -> Seq<char> {
    b64_url_encoding(hmac_sha256_tag(encode_utf8(secret), encode_utf8(hash)))
}

/// The SHA-256 digest of the text's UTF-8 bytes, in lowercase hexadecimal.
pub fn sha256_hex(raw: &str) -> (r: String)
    ensures
        r@ == hex_digest(raw@),
{
    let digest = sha256(raw.as_bytes());
    hex_encode(&digest)
}

/// Signs a configuration hash with HMAC-SHA256 under `secret`, URL-safe base64 encoded
/// without padding.
pub fn sign_hash(hash: &str, secret: &str) -> (r: Result<String, AnalyzerError>)
    ensures
        r matches Ok(sig) && sig@ == config_signature(secret@, hash@),
{
    let tag = hmac_sha256(secret.as_bytes(), hash.as_bytes());
    Ok(encode_base64_url(tag.as_slice()))
}

/// The hash and signature a configuration with text `raw` is stored with.
pub fn envelope_for(raw: &str, secret: &str) -> (r: Result<(String, String), AnalyzerError>)
    ensures
        r matches Ok((h, sig)) && h@ == hex_digest(raw@) && sig@ == config_signature(secret@, h@),
{
    let hash = sha256_hex(raw);
    let signature = match sign_hash(hash.as_str(), secret) {
        Ok(s) => s,
        Err(e) => {
            return Err(e);
        },
    };
    Ok((hash, signature))
}

/// Why a stored configuration is refused, if it is: its hash must be that of its text, and its
/// signature that of the hash.
pub open spec fn envelope_error(raw: Seq<char>, hash: Seq<char>, signature: Seq<char>, secret: Seq<char>) -> Option<Seq<char>> {
    if hash != hex_digest(raw) {
        Some("scoring config hash mismatch"@)
    } else if signature != config_signature(secret, hash) {
        Some("scoring config signature mismatch"@)
    } else {
        None
    }
}

/// Checks a stored configuration: its text `raw`, the recorded `hash` and `signature`.
pub fn verify_envelope(raw: &str, hash: &str, signature: &str, secret: &str) -> (r: Result<
    (),
    AnalyzerError,
>)
    ensures
        r is Ok ==> hash@ == hex_digest(raw@) && signature@ == config_signature(secret@, hash@),
        match envelope_error(raw@, hash@, signature@, secret@) {
            None => r is Ok,
            Some(msg) => r matches Err(AnalyzerError::Db(m)) && m@ == msg,
        },
{
    let expected_hash = sha256_hex(raw);
    if !same_text(hash, expected_hash.as_str()) {
        return Err(AnalyzerError::Db(String::from_str("scoring config hash mismatch")));
    }
    let expected = match sign_hash(hash, secret) {
        Ok(s) => s,
        Err(e) => {
            return Err(e);
        },
    };
    if !same_text(expected.as_str(), signature) {
        return Err(AnalyzerError::Db(String::from_str("scoring config signature mismatch")));
    }
    Ok(())
}

/// A configuration stored with the hash and signature `envelope_for` gives is accepted by
/// `verify_envelope` under the same secret.
pub proof fn law_signed_config_verifies(raw: Seq<char>, secret: Seq<char>)
    ensures
        envelope_error(raw, hex_digest(raw), config_signature(secret, hex_digest(raw)), secret)
            is None,
{
}

/// A configuration whose recorded hash is not that of its text is refused, whatever its
/// signature.
pub proof fn law_tampered_config_refused(raw: Seq<char>, hash: Seq<char>, signature: Seq<char>, secret: Seq<char>)
    requires
        hash != hex_digest(raw),
    ensures
        envelope_error(raw, hash, signature, secret) == Some("scoring config hash mismatch"@),
{
}

/// A configuration whose recorded hash is right but whose signature is not the signature of
/// that hash under the secret (an empty signature included) is refused with the signature
/// error.
pub proof fn law_forged_signature_refused(raw: Seq<char>, hash: Seq<char>, signature: Seq<char>, secret: Seq<char>)
    requires
        hash == hex_digest(raw),
        signature != config_signature(secret, hash),
    ensures
        envelope_error(raw, hash, signature, secret) == Some("scoring config signature mismatch"@),
{
}

/// Only the signature of the recorded hash under the secret is accepted: a configuration that
/// passes the check carries exactly that signature, and the hash of its own text.
pub proof fn law_accepted_config_is_signed(raw: Seq<char>, hash: Seq<char>, signature: Seq<char>, secret: Seq<char>)
    ensures
        envelope_error(raw, hash, signature, secret) is None ==> hash == hex_digest(raw)
            && signature == config_signature(secret, hash),
{
}

} // verus!
