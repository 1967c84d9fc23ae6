use vstd::prelude::*;
use vstd::string::StringExecFns;
use vstd::utf8::encode_utf8;
use crate::errors::AnalyzerError;
use crate::text::{
    append_str, chars_of, lemma_split_on_piece, split_chars, split_on, string_from_chars,
    token_views, trim, trim_chars,
};
use crate::types::Principal;
use base64::engine::general_purpose::URL_SAFE_NO_PAD;
use base64::Engine;
use hmac::{Hmac, Mac};
use sha2::Sha256;

verus! {

pub const JWT_ALG_HEADER: &'static str = "{\"alg\":\"HS256\",\"typ\":\"JWT\"}";

pub const DEFAULT_ISSUER: &'static str = "rocinante-console";

pub const DEFAULT_AUDIENCE: &'static str = "repo-analyzer";

pub const CLAIM_TOKEN_TTL_SECONDS: i64 = 900;

/// The claims carried by a token's payload.
#[derive(Debug, Clone)]
pub struct PrincipalClaims {
    pub user: String,
    pub roles: Vec<String>,
    pub iss: String,
    pub aud: String,
    pub exp: i64,
}

/// The characters of the URL-safe base64 alphabet.
pub open spec fn is_url_safe_b64_char(c: char) -> bool {
    ('A' <= c <= 'Z') || ('a' <= c <= 'z') || ('0' <= c <= '9') || c == '-' || c == '_'
}

/// What base64's `URL_SAFE_NO_PAD` engine encodes `bytes` to.
pub uninterp spec fn b64_url_encoding(bytes: Seq<u8>) -> Seq<char>;

/// What base64's `URL_SAFE_NO_PAD` engine decodes `text` to (`None` where it reports an error).
pub uninterp spec fn b64_url_decoding(text: Seq<char>) -> Option<Seq<u8>>;

/// The HMAC-SHA256 tag of `msg` under `key`, as the hmac and sha2 crates compute it.
pub uninterp spec fn hmac_sha256_tag(key: Seq<u8>, msg: Seq<u8>) -> Seq<u8>;

/// Calls `Engine::encode` of base64's `URL_SAFE_NO_PAD` engine. The contract claims the result
/// is the named encoding of `bytes`, written in the URL-safe alphabet (the engine's alphabet,
/// `A-Z a-z 0-9 - _`, without padding), and that the same engine's `decode` gives `bytes` back
/// (the encoder writes no padding and zero trailing bits, which that engine's decoder accepts).
#[verifier::external_body]
pub(crate) fn encode_base64_url(bytes: &[u8]) -> (r: String)
    ensures
        r@ == b64_url_encoding(bytes@),
        forall|i: int| 0 <= i < r@.len() ==> is_url_safe_b64_char(#[trigger] r@[i]),
        b64_url_decoding(r@) == Some(bytes@),
{
    URL_SAFE_NO_PAD.encode(bytes)
}

/// Calls `Engine::decode` of base64's `URL_SAFE_NO_PAD` engine; the contract claims the result
/// is the named decoding of `payload`, `None` standing for the engine's `DecodeError`.
#[verifier::external_body]
fn decode_base64_url_raw(payload: &str) -> (r: Option<Vec<u8>>)
    ensures
        r matches Some(v) ==> b64_url_decoding(payload@) == Some(v@),
        r is None ==> b64_url_decoding(payload@) is None,
{
    match URL_SAFE_NO_PAD.decode(payload) {
        Ok(v) => Some(v),
        Err(_) => None,
    }
}

/// Computes HMAC-SHA256 with the hmac and sha2 crates (`Hmac::<Sha256>::new_from_slice`,
/// `update`, `finalize`). `new_from_slice` accepts keys of any length in hmac 0.12, so the
/// error arm is never taken; the contract claims the result is the named tag.
#[verifier::external_body]
pub(crate) fn hmac_sha256(key: &[u8], msg: &[u8]) -> (r: Vec<u8>)
    ensures
        r@ == hmac_sha256_tag(key@, msg@),
{
    match <Hmac<Sha256> as Mac>::new_from_slice(key) {
        Ok(mut mac) => {
            mac.update(msg);
            mac.finalize().into_bytes().to_vec()
        },
        Err(_) => Vec::new(),
    }
}

/// Reads the clock: seconds since the Unix epoch, or 0 when the clock is before it
/// (`SystemTime::now().duration_since(UNIX_EPOCH)`). Nothing is claimed of the value.
#[verifier::external_body]
pub(crate) fn now_ts() -> (r: i64) {
    std::time::SystemTime::now().duration_since(std::time::UNIX_EPOCH).map(|d| d.as_secs() as i64).unwrap_or(0)
}

/// Decodes a URL-safe base64 segment of a token.
pub fn decode_base64_url(payload: &str) -> (r: Result<Vec<u8>, AnalyzerError>)
    ensures
        r matches Ok(v) ==> b64_url_decoding(payload@) == Some(v@),
        r is Err ==> b64_url_decoding(payload@) is None && r == Err::<Vec<u8>, AnalyzerError>(
            AnalyzerError::InvalidToken,
        ),
{
    match decode_base64_url_raw(payload) {
        Some(v) => Ok(v),
        None => Err(AnalyzerError::InvalidToken),
    }
}

/// The bytes a token's header and payload segments are signed as: `header.payload` in UTF-8.
pub open spec fn signing_input(header: Seq<char>, payload: Seq<char>) -> Seq<u8> {
    encode_utf8(header + seq!['.'] + payload)
}

/// The signature a token with these header and payload segments must carry under `secret`.
pub open spec fn signature_for(secret: Seq<u8>, header: Seq<char>, payload: Seq<char>) -> Seq<
    char,
> {
    b64_url_encoding(hmac_sha256_tag(secret, signing_input(header, payload)))
}

/// The signature of `header.payload` under `secret`, URL-safe base64 encoded.
pub fn expected_signature(secret: &[u8], header: &str, payload: &str) -> (r: Result<
    String,
    AnalyzerError,
>)
    ensures
        r matches Ok(sig) && sig@ == signature_for(secret@, header@, payload@),
        r matches Ok(sig) ==> forall|i: int| 0 <= i < sig@.len() ==> is_url_safe_b64_char(#[trigger] sig@[i]),
{
    let mut joined: Vec<char> = Vec::new();
    append_str(&mut joined, header);
    joined.push('.');
    append_str(&mut joined, payload);
    let message = string_from_chars(&joined);
    let msg_str = message.as_str();
    let bytes = msg_str.as_bytes();
    assert(msg_str@ == header@ + seq!['.'] + payload@);
    assert(bytes@ == signing_input(header@, payload@));
    let tag = hmac_sha256(secret, bytes);
    let tag_bytes = tag.as_slice();
    let sig = encode_base64_url(tag_bytes);
    Ok(sig)
}

/// Whether `signature` is the signature of `header.payload` under `secret`.
pub fn verify_signature(secret: &[u8], header: &str, payload: &str, signature: &str) -> (r: bool)
    ensures
        r == (signature@ == signature_for(secret@, header@, payload@)),
{
    match expected_signature(secret, header, payload) {
        Ok(expected) => {
            let sig = String::from_str(signature);
            expected == sig
        },
        Err(_) => false,
    }
}

/// The claims are issued for this console and audience, name a user, and have not expired
/// at time `now`.
pub open spec fn claims_valid_at(claims: PrincipalClaims, now: i64) -> bool {
    &&& claims.iss@ == DEFAULT_ISSUER@
    &&& claims.aud@ == DEFAULT_AUDIENCE@
    &&& claims.exp > now
    &&& trim(claims.user@).len() > 0
}

/// Claims are valid only before they expire: claims whose `exp` is at or before `now` are
/// refused, whatever else they hold.
pub proof fn law_expired_claims_refused(claims: PrincipalClaims, now: i64)
    ensures
        claims_valid_at(claims, now) ==> claims.exp > now,
        claims.exp <= now ==> !claims_valid_at(claims, now),
{
}

/// Valid claims are exactly those issued by `rocinante-console` for `repo-analyzer`, not yet
/// expired at `now`, and naming a user that is not blank.
pub proof fn law_valid_claims_are_exactly(claims: PrincipalClaims, now: i64)
    ensures
        claims_valid_at(claims, now) <==> claims.iss@ == "rocinante-console"@ && claims.aud@
            == "repo-analyzer"@ && claims.exp > now && trim(claims.user@).len() > 0,
{
}

/// Checks the claims against the time `now`.
pub fn validate_claims_at(claims: &PrincipalClaims, now: i64) -> (r: bool)
    ensures
        r == claims_valid_at(*claims, now),
        r ==> claims.exp > now,
{
    if claims.iss != String::from_str(DEFAULT_ISSUER) {
        return false;
    }
    if claims.aud != String::from_str(DEFAULT_AUDIENCE) {
        return false;
    }
    if claims.exp <= now {
        return false;
    }
    let user = chars_of(claims.user.as_str());
    let trimmed = trim_chars(&user);
    if trimmed.len() == 0 {
        return false;
    }
    true
}

/// Checks the claims against the clock. Whatever time is read, a `true` answer means the
/// issuer, audience and user checks passed, and any of them failing gives `false`.
pub fn validate_claims(claims: &PrincipalClaims) -> (r: bool)
    ensures
        r ==> claims.iss@ == DEFAULT_ISSUER@ && claims.aud@ == DEFAULT_AUDIENCE@ && trim(
            claims.user@,
        ).len() > 0,
        r ==> exists|now: i64| claims_valid_at(*claims, now),
{
    let now = now_ts();
    validate_claims_at(claims, now)
}

/// The principal holds the `admin` role.
pub open spec fn is_admin(principal: Principal) -> bool {
    exists|i: int| 0 <= i < principal.roles@.len() && principal.roles@[i]@ == "admin"@
}

/// Admits an admin; anyone else is denied, the error naming the user.
pub fn require_admin(principal: &Principal) -> (r: Result<(), AnalyzerError>)
    ensures
        r is Ok <==> is_admin(*principal),
        r matches Err(e) ==> e matches AnalyzerError::PermissionDenied(u) && u@ == principal.user@,
{
    let admin = String::from_str("admin");
    let mut i: usize = 0;
    while i < principal.roles.len()
        invariant
            i <= principal.roles@.len(),
            admin@ == "admin"@,
            forall|m: int| 0 <= m < i ==> principal.roles@[m]@ != "admin"@,
        decreases principal.roles.len() - i,
    {
        if principal.roles[i] == admin {
            return Ok(());
        }
        i = i + 1;
    }
    Err(AnalyzerError::PermissionDenied(principal.user.clone()))
}


/// The token has a header segment that decodes to the HS256 header, and a payload segment
/// that decodes to `payload`.
pub open spec fn token_carries_payload(token: Seq<char>, payload: Seq<u8>) -> bool {
    let parts = split_on(token, '.');
    &&& parts.len() == 3
    &&& b64_url_decoding(parts[0]) == Some(encode_utf8(JWT_ALG_HEADER@))
    &&& b64_url_decoding(parts[1]) == Some(payload)
}

fn bytes_equal(a: &Vec<u8>, b: &[u8]) -> (r: bool)
    ensures
        r == (a@ == b@),
{
    if a.len() != b.len() {
        return false;
    }
    let mut i: usize = 0;
    while i < a.len()
        invariant
            a@.len() == b@.len(),
            i <= a@.len(),
            forall|m: int| 0 <= m < i ==> a@[m] == b@[m],
        decreases a.len() - i,
    {
        if a[i] != b[i] {
            return false;
        }
        i = i + 1;
    }
    assert(a@ =~= b@);
    true
}

/// The decoded payload of a token, after its shape and header are checked. Parsing the
/// payload's JSON claims is left to the caller.
pub fn token_payload(token: &str) -> (r: Result<Vec<u8>, AnalyzerError>)
    ensures
        r matches Ok(v) ==> token_carries_payload(token@, v@),
        r is Err ==> (forall|v: Seq<u8>| !token_carries_payload(token@, v)) && r
            == Err::<Vec<u8>, AnalyzerError>(AnalyzerError::InvalidToken),
{
    let chars = chars_of(token);
    let parts = split_chars(&chars, '.');
    assert(token_views(parts@).len() == parts@.len());
    if parts.len() != 3 {
        return Err(AnalyzerError::InvalidToken);
    }
    assert(parts@[0]@ == split_on(token@, '.')[0]);
    assert(parts@[1]@ == split_on(token@, '.')[1]);
    let header_text = string_from_chars(&parts[0]);
    let header = decode_base64_url(header_text.as_str())?;
    if !bytes_equal(&header, JWT_ALG_HEADER.as_bytes()) {
        return Err(AnalyzerError::InvalidToken);
    }
    let payload_text = string_from_chars(&parts[1]);
    decode_base64_url(payload_text.as_str())
}

/// The token is accepted with these claims at time `now`: it has three segments, the claims
/// are valid, and the third segment signs the first two under `secret`.
pub open spec fn token_accepted(token: Seq<char>, claims: PrincipalClaims, secret: Seq<u8>, now: i64)
    -> bool {
    let parts = split_on(token, '.');
    &&& parts.len() == 3
    &&& claims_valid_at(claims, now)
    &&& parts[2] == signature_for(secret, parts[0], parts[1])
}

/// Authorizes a token whose payload parsed to `claims`: checks the claims at time `now` and
/// the signature under `secret`, and gives the principal the claims name.
pub fn authorize_claims(token: &str, claims: PrincipalClaims, secret: &[u8], now: i64) -> (r:
    Result<Principal, AnalyzerError>)
    ensures
        r is Ok <==> token_accepted(token@, claims, secret@, now),
        claims.exp <= now ==> r is Err,
        r is Ok ==> split_on(token@, '.').len() == 3 && split_on(token@, '.')[2] == signature_for(
            secret@,
            split_on(token@, '.')[0],
            split_on(token@, '.')[1],
        ) && claims.exp > now && claims.iss@ == "rocinante-console"@ && claims.aud@
            == "repo-analyzer"@,
        r matches Ok(p) ==> p.user == claims.user && p.roles == claims.roles,
        r is Err ==> r == Err::<Principal, AnalyzerError>(AnalyzerError::InvalidToken),
{
    let chars = chars_of(token);
    let parts = split_chars(&chars, '.');
    assert(token_views(parts@).len() == parts@.len());
    if parts.len() != 3 {
        return Err(AnalyzerError::InvalidToken);
    }
    if !validate_claims_at(&claims, now) {
        return Err(AnalyzerError::InvalidToken);
    }
    assert(parts@[0]@ == split_on(token@, '.')[0]);
    assert(parts@[1]@ == split_on(token@, '.')[1]);
    assert(parts@[2]@ == split_on(token@, '.')[2]);
    let header = string_from_chars(&parts[0]);
    let payload = string_from_chars(&parts[1]);
    let signature = string_from_chars(&parts[2]);
    if !verify_signature(secret, header.as_str(), payload.as_str(), signature.as_str()) {
        return Err(AnalyzerError::InvalidToken);
    }
    Ok(Principal { user: claims.user, roles: claims.roles })
}

/// A token made of three segments in the URL-safe alphabet splits into them.
pub proof fn lemma_token_segments(header: Seq<char>, payload: Seq<char>, signature: Seq<char>)
    requires
        forall|i: int| 0 <= i < header.len() ==> is_url_safe_b64_char(#[trigger] header[i]),
        forall|i: int| 0 <= i < payload.len() ==> is_url_safe_b64_char(#[trigger] payload[i]),
        forall|i: int| 0 <= i < signature.len() ==> is_url_safe_b64_char(#[trigger] signature[i]),
    ensures
        split_on(header + seq!['.'] + payload + seq!['.'] + signature, '.') == seq![
            header,
            payload,
            signature,
        ],
{
    assert forall|i: int| 0 <= i < header.len() implies header[i] != '.' by {
        assert(is_url_safe_b64_char(header[i]));
    }
    assert forall|i: int| 0 <= i < payload.len() implies payload[i] != '.' by {
        assert(is_url_safe_b64_char(payload[i]));
    }
    assert forall|i: int| 0 <= i < signature.len() implies signature[i] != '.' by {
        assert(is_url_safe_b64_char(signature[i]));
    }
    let rest = payload + seq!['.'] + signature;
    lemma_split_on_piece(payload, signature, '.');
    lemma_split_on_piece(signature, seq![], '.');
    lemma_split_on_piece(header, rest, '.');
    assert(header + seq!['.'] + payload + seq!['.'] + signature =~= header + seq!['.'] + rest);
    let parts = split_on(header + seq!['.'] + payload + seq!['.'] + signature, '.');
    assert(parts =~= seq![header, payload, signature]);
}

/// A token made of URL-safe base64 header and payload segments and the signature of the two
/// under `secret` is accepted exactly when its claims are valid.
pub proof fn law_signed_token_accepted(
    secret: Seq<u8>,
    header: Seq<char>,
    payload: Seq<char>,
    signature: Seq<char>,
    claims: PrincipalClaims,
    now: i64,
)
    requires
        forall|i: int| 0 <= i < header.len() ==> is_url_safe_b64_char(#[trigger] header[i]),
        forall|i: int| 0 <= i < payload.len() ==> is_url_safe_b64_char(#[trigger] payload[i]),
        forall|i: int| 0 <= i < signature.len() ==> is_url_safe_b64_char(#[trigger] signature[i]),
        signature == signature_for(secret, header, payload),
    ensures
        token_accepted(header + seq!['.'] + payload + seq!['.'] + signature, claims, secret, now)
            == claims_valid_at(claims, now),
{
    lemma_token_segments(header, payload, signature);
}

/// The token carrying `payload` signed under `secret`: the URL-safe base64 HS256 header, the
/// URL-safe base64 payload and the signature of the two, joined by dots.
pub open spec fn token_for(secret: Seq<u8>, payload: Seq<u8>) -> Seq<char> {
    let h = b64_url_encoding(encode_utf8(JWT_ALG_HEADER@));
    let p = b64_url_encoding(payload);
    h + seq!['.'] + p + seq!['.'] + signature_for(secret, h, p)
}

/// Issues a token for the JSON claims `payload`, signed under `secret`. Whatever the claims,
/// the token is accepted exactly when they are valid.
pub fn signed_token(secret: &[u8], payload: &[u8]) -> (r: String)
    ensures
        r@ == token_for(secret@, payload@),
        forall|claims: PrincipalClaims, now: i64| #[trigger] token_accepted(r@, claims, secret@, now)
            == claims_valid_at(claims, now),
        token_carries_payload(r@, payload@),
{
    let header_bytes = JWT_ALG_HEADER.as_bytes();
    let header = encode_base64_url(header_bytes);
    let body = encode_base64_url(payload);
    let signature = match expected_signature(secret, header.as_str(), body.as_str()) {
        Ok(sig) => sig,
        Err(_) => String::new(),
    };
    let mut out = chars_of(header.as_str());
    out.push('.');
    append_str(&mut out, body.as_str());
    out.push('.');
    append_str(&mut out, signature.as_str());
    proof {
        assert(out@ =~= header@ + seq!['.'] + body@ + seq!['.'] + signature@);
        assert forall|claims: PrincipalClaims, now: i64| #[trigger] token_accepted(out@, claims, secret@, now)
            == claims_valid_at(claims, now) by {
            law_signed_token_accepted(secret@, header@, body@, signature@, claims, now);
        }
        lemma_token_segments(header@, body@, signature@);

    }
    string_from_chars(&out)
}

} // verus!
