//! Issuer gateway: checks on credential deliveries and on claims.
//!
//! Credentials arrive already encrypted to the recipient; the gateway sees
//! only ciphertext, an issuer id, an opaque recipient-derived mailbox tag
//! and, optionally, the SHA-256 of a claim token that travels inside the
//! encrypted payload. A claim is authorized only by presenting that token.

use vstd::prelude::*;
use vstd::utf8::encode_utf8;
use crate::api_error::ApiError;
use crate::codec::{base64_decode, base64_standard_decoding, sha256, sha256_of};

verus! {

/// Largest accepted credential ciphertext, in bytes.
pub const MAX_CIPHERTEXT_BYTES: usize = 64 * 1024;

/// Longest accepted recipient hint, in bytes.
pub const MAX_HINT_BYTES: usize = 128;

/// Longest accepted claim token, in bytes.
pub const MAX_CLAIM_TOKEN_BYTES: usize = 128;

/// Length of a SHA-256 claim token hash.
pub const CLAIM_HASH_BYTES: usize = 32;

/// Body of `POST /v1/issuer/credentials`.
pub struct DeliverCredentialRequest {
    pub issuer_id: String,
    /// Opaque mailbox tag derived by the recipient. Not an identity.
    pub recipient_hint: String,
    /// Base64 credential ciphertext, encrypted to the recipient off-chain.
    pub ciphertext: String,
    /// Base64 issuer signature over the ciphertext.
    pub issuer_signature: String,
    /// Base64 SHA-256 of a claim token carried inside the encrypted payload.
    pub claim_token_hash: Option<String>,
}

/// Body of `POST /v1/credentials/{delivery_id}/claim`.
pub struct ClaimRequest {
    /// Base64 claim token recovered from inside the decrypted payload.
    pub claim_token: String,
}

/// Query of `GET /v1/credentials`.
pub struct ListDeliveriesQuery {
    pub recipient_hint: String,
    /// Resume cursor from a previous page (exclusive).
    pub since_cursor: Option<i64>,
}

/// A delivery that passed the request checks, decoded.
pub struct CheckedDelivery {
    pub ciphertext: Vec<u8>,
    pub signature: Vec<u8>,
    pub claim_token_hash: Option<Vec<u8>>,
}

/// Length in bytes (UTF-8) of a text (which always fits a `usize`).
pub open spec fn utf8_len(s: Seq<char>) -> nat {
    (encode_utf8(s).len() as usize) as nat
}

/// The message of the first check a delivery fails, given its decoded
/// parts, or `None` when it passes: ciphertext must decode and hold
/// 1..=64 KiB, the signature must decode, the hint must hold 1..=128 bytes,
/// and a claim token hash, when given, must decode to 32 bytes.
pub open spec fn delivery_error(
    ciphertext: Option<Seq<u8>>,
    signature: Option<Seq<u8>>,
    hint_len: nat,
    claim_hash: Option<Option<Seq<u8>>>,
) -> Option<Seq<char>> {
    match ciphertext {
        None => Some("ciphertext must be base64"@),
        Some(ct) => if ct.len() == 0 || ct.len() > MAX_CIPHERTEXT_BYTES {
            Some("ciphertext size out of bounds"@)
        } else {
            match signature {
                None => Some("issuer_signature must be base64"@),
                Some(_) => if hint_len == 0 || hint_len > MAX_HINT_BYTES {
                    Some("recipient_hint size out of bounds"@)
                } else {
                    match claim_hash {
                        Some(None) => Some("claim_token_hash must be base64"@),
                        Some(Some(h)) => if h.len() != CLAIM_HASH_BYTES {
                            Some("claim_token_hash must be 32 bytes"@)
                        } else {
                            None
                        },
                        None => None,
                    }
                },
            }
        },
    }
}

pub open spec fn opt_bytes(v: Option<Vec<u8>>) -> Option<Seq<u8>> {
    match v {
        Some(b) => Some(b@),
        None => None,
    }
}

/// Check a delivery from its decoded parts: `ciphertext` and `signature`
/// are the base64 decodings (`None` where the text was not base64),
/// `hint_len` the hint's length in bytes, and `claim_hash` the decoding of
/// the optional claim token hash.
pub fn check_delivery(
    ciphertext: Option<Vec<u8>>,
    signature: Option<Vec<u8>>,
    hint_len: usize,
    claim_hash: Option<Option<Vec<u8>>>,
) -> (r: Result<CheckedDelivery, ApiError>)
    ensures
        ({
            let hash_view = match claim_hash {
                Some(h) => Some(opt_bytes(h)),
                None => None,
            };
            match delivery_error(opt_bytes(ciphertext), opt_bytes(signature), hint_len as nat, hash_view) {
                Some(msg) => r matches Err(e) && e.status == 400 && e.message@ == msg,
                None => r matches Ok(d) && Some(d.ciphertext@) == opt_bytes(ciphertext) && Some(
                    d.signature@,
                ) == opt_bytes(signature) && opt_bytes(d.claim_token_hash) == match claim_hash {
                    Some(Some(h)) => Some(h@),
                    _ => None,
                },
            }
        }),
{
    let ciphertext = match ciphertext {
        Some(c) => c,
        None => return Err(ApiError::bad_request("ciphertext must be base64")),
    };
    if ciphertext.len() == 0 || ciphertext.len() > MAX_CIPHERTEXT_BYTES {
        return Err(ApiError::bad_request("ciphertext size out of bounds"));
    }
    let signature = match signature {
        Some(s) => s,
        None => return Err(ApiError::bad_request("issuer_signature must be base64")),
    };
    if hint_len == 0 || hint_len > MAX_HINT_BYTES {
        return Err(ApiError::bad_request("recipient_hint size out of bounds"));
    }
    let claim_token_hash = match claim_hash {
        Some(None) => return Err(ApiError::bad_request("claim_token_hash must be base64")),
        Some(Some(h)) => {
            if h.len() != CLAIM_HASH_BYTES {
                return Err(ApiError::bad_request("claim_token_hash must be 32 bytes"));
            }
            Some(h)
        },
        None => None,
    };
    Ok(CheckedDelivery { ciphertext, signature, claim_token_hash })
}

/// Check a delivery request: decode its base64 fields and apply the
/// checks of [`check_delivery`].
pub fn validate_delivery(req: &DeliverCredentialRequest) -> (r: Result<CheckedDelivery, ApiError>)
    ensures
        ({
            let hash_view = match req.claim_token_hash {
                Some(t) => Some(base64_standard_decoding(t@)),
                None => None,
            };
            match delivery_error(
                base64_standard_decoding(req.ciphertext@),
                base64_standard_decoding(req.issuer_signature@),
                utf8_len(req.recipient_hint@),
                hash_view,
            ) {
                Some(msg) => r matches Err(e) && e.status == 400 && e.message@ == msg,
                None => r matches Ok(d) && Some(d.ciphertext@) == base64_standard_decoding(
                    req.ciphertext@,
                ) && Some(d.signature@) == base64_standard_decoding(req.issuer_signature@)
                    && opt_bytes(d.claim_token_hash) == match req.claim_token_hash {
                    Some(t) => base64_standard_decoding(t@),
                    None => None,
                },
            }
        }),
{
    let ciphertext = base64_decode(req.ciphertext.as_str());
    let signature = base64_decode(req.issuer_signature.as_str());
    let hint_len = req.recipient_hint.as_str().len();
    let claim_hash = match &req.claim_token_hash {
        Some(t) => Some(base64_decode(t.as_str())),
        None => None,
    };
    check_delivery(ciphertext, signature, hint_len, claim_hash)
}

/// An issuer must be registered and active to deliver.
pub fn require_active_issuer(found_active: bool) -> (r: Result<(), ApiError>)
    ensures
        found_active <==> r is Ok,
        r matches Err(e) ==> e.status == 400 && e.message@ == "unknown or inactive issuer"@,
{
    if found_active {
        Ok(())
    } else {
        Err(ApiError::bad_request("unknown or inactive issuer"))
    }
}

/// Per-issuer hourly quota (0 = unlimited): refuse once `delivered` rows
/// from the past hour reach it.
pub fn check_issuer_quota(delivered: i64, quota: u32) -> (r: Result<(), ApiError>)
    ensures
        r is Err <==> (quota > 0 && delivered >= quota),
        r matches Err(e) ==> e.status == 429 && e.message@ == "issuer hourly delivery quota exceeded"@,
{
    if quota > 0 && delivered >= quota as i64 {
        Err(ApiError::too_many_requests("issuer hourly delivery quota exceeded"))
    } else {
        Ok(())
    }
}

/// The message of the check a claim token fails, given its decoding.
pub open spec fn claim_token_error(token: Option<Seq<u8>>) -> Option<Seq<char>> {
    match token {
        None => Some("claim_token must be base64"@),
        Some(t) => if t.len() == 0 || t.len() > MAX_CLAIM_TOKEN_BYTES {
            Some("claim_token size out of bounds"@)
        } else {
            None
        },
    }
}

/// Decode a presented claim token and hash it.
pub fn presented_claim_hash(req: &ClaimRequest) -> (r: Result<[u8; 32], ApiError>)
    ensures
        match claim_token_error(base64_standard_decoding(req.claim_token@)) {
            Some(msg) => r matches Err(e) && e.status == 400 && e.message@ == msg,
            None => r matches Ok(h) && h@ == sha256_of(
                base64_standard_decoding(req.claim_token@).unwrap(),
            ),
        },
{
    let token = match base64_decode(req.claim_token.as_str()) {
        Some(t) => t,
        None => return Err(ApiError::bad_request("claim_token must be base64")),
    };
    if token.len() == 0 || token.len() > MAX_CLAIM_TOKEN_BYTES {
        return Err(ApiError::bad_request("claim_token size out of bounds"));
    }
    Ok(sha256(token.as_slice()))
}

/// The claim state of a stored delivery: its claim token hash, if the
/// issuer gave one, and whether it was already claimed.
pub struct ClaimState {
    pub claim_token_hash: Option<Vec<u8>>,
    pub claimed: bool,
}

/// Decide a claim: unknown delivery 404, already claimed 409, no stored
/// hash or a different one 403, else authorized.
pub fn decide_claim(row: Option<ClaimState>, presented: &[u8; 32]) -> (r: Result<(), ApiError>)
    ensures
        match row {
            None => r matches Err(e) && e.status == 404 && e.message@ == "unknown delivery"@,
            Some(st) => if st.claimed {
                r matches Err(e) && e.status == 409 && e.message@ == "delivery already claimed"@
            } else if st.claim_token_hash matches Some(h) && h@ == presented@ {
                r is Ok
            } else {
                r matches Err(e) && e.status == 403 && e.message@ == "claim token does not match"@
            },
        },
{
    let st = match row {
        Some(s) => s,
        None => return Err(ApiError::not_found("unknown delivery")),
    };
    if st.claimed {
        return Err(ApiError::conflict("delivery already claimed"));
    }
    let authorized = match &st.claim_token_hash {
        Some(h) => bytes_equal(h.as_slice(), vstd::array::array_as_slice(presented)),
        None => false,
    };
    if !authorized {
        return Err(ApiError::forbidden("claim token does not match"));
    }
    Ok(())
}

/// The guarded `UPDATE ... WHERE claimed_at IS NULL` resolves a claim race:
/// when it changed no row, another claim won.
pub fn claim_update_outcome(rows_affected: u64) -> (r: Result<(), ApiError>)
    ensures
        r is Ok <==> rows_affected > 0,
        r matches Err(e) ==> e.status == 409 && e.message@ == "delivery already claimed"@,
{
    if rows_affected == 0 {
        Err(ApiError::conflict("delivery already claimed"))
    } else {
        Ok(())
    }
}

/// Byte-wise equality.
pub fn bytes_equal(a: &[u8], b: &[u8]) -> (eq: bool)
    ensures
        eq == (a@ == b@),
{
    if a.len() != b.len() {
        return false;
    }
    for i in 0..a.len()
        invariant
            a@.len() == b@.len(),
            forall|k: int| 0 <= k < i ==> a@[k] == b@[k],
    {
        if a[i] != b[i] {
            return false;
        }
    }
    assert(a@ =~= b@);
    true
}

} // verus!
