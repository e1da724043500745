//! Smaller decisions of the API service: artifact path checks, the stats
//! cache, the mailbox retention plan, request-id acceptance, the CORS
//! policy, and the database connection retry policy.

use vstd::prelude::*;
use crate::api_error::ApiError;
use crate::codec::{hex_encode, hex_encoding, sha256, sha256_of};
use crate::credentials::utf8_len;
use crate::text::{append_decimal, decimal_text, str_equals};

verus! {

// ---------------------------------------------------------------------------
// Prover artifacts
// ---------------------------------------------------------------------------

/// Longest accepted artifact path segment, in bytes.
pub const MAX_SEGMENT_BYTES: usize = 128;

pub open spec fn is_segment_char(c: char) -> bool {
    let v = c as u32;
    (48 <= v <= 57) || (65 <= v <= 90) || (97 <= v <= 122) || c == '-' || c == '_' || c == '.'
}

pub open spec fn has_double_dot(s: Seq<char>) -> bool {
    exists|i: int| 0 <= i < s.len() - 1 && s[i] == '.' && #[trigger] s[i + 1] == '.'
}

/// A plain name: non-empty, at most 128 bytes, only ASCII letters, digits,
/// `-`, `_` and `.`, and no `..` (so no separators and no traversal).
pub open spec fn is_valid_segment(s: Seq<char>) -> bool {
    &&& s.len() > 0
    &&& utf8_len(s) <= MAX_SEGMENT_BYTES
    &&& forall|i: int| 0 <= i < s.len() ==> #[trigger] is_segment_char(s[i])
    &&& !has_double_dot(s)
}

/// Whether `segment` may name a circuit, version or file.
pub fn valid_segment(segment: &str) -> (ok: bool)
    ensures
        ok == is_valid_segment(segment@),
{
    let n = segment.unicode_len();
    if n == 0 || segment.len() > MAX_SEGMENT_BYTES {
        return false;
    }
    let mut prev_dot = false;
    for i in 0..n
        invariant
            n == segment@.len(),
            forall|k: int| 0 <= k < i ==> #[trigger] is_segment_char(segment@[k]),
            forall|k: int| 0 <= k < i - 1 ==> !(segment@[k] == '.' && #[trigger] segment@[k + 1] == '.'),
            i > 0 ==> prev_dot == (segment@[i - 1] == '.'),
            i == 0 ==> !prev_dot,
    {
        let c = segment.get_char(i);
        let ok_char = ('0' <= c && c <= '9') || ('A' <= c && c <= 'Z') || ('a' <= c && c <= 'z')
            || c == '-' || c == '_' || c == '.';
        if !ok_char {
            assert(!is_segment_char(segment@[i as int]));
            return false;
        }
        if prev_dot && c == '.' {
            assert(segment@[i - 1] == '.' && segment@[(i - 1) + 1] == '.');
            return false;
        }
        prev_dot = c == '.';
    }
    true
}

/// All three segments of an artifact request must be plain names.
pub fn check_artifact_segments(circuit: &str, version: &str, file: &str) -> (r: Result<(), ApiError>)
    ensures
        r is Ok <==> (is_valid_segment(circuit@) && is_valid_segment(version@) && is_valid_segment(
            file@,
        )),
        r matches Err(e) ==> e.status == 400 && e.message@ == "invalid artifact path segment"@,
{
    if valid_segment(circuit) && valid_segment(version) && valid_segment(file) {
        Ok(())
    } else {
        Err(ApiError::bad_request("invalid artifact path segment"))
    }
}

/// The `x-artifact-sha256` value of an artifact: lower-case hex SHA-256.
pub fn artifact_digest_hex(bytes: &[u8]) -> (text: String)
    ensures
        text@ == hex_encoding(sha256_of(bytes@)),
{
    let digest = sha256(bytes);
    hex_encode(vstd::array::array_as_slice(&digest))
}

// ---------------------------------------------------------------------------
// Stats cache
// ---------------------------------------------------------------------------

/// A cached stats answer computed `age_secs` ago may be served while
/// caching is on (ttl > 0) and it is younger than the ttl.
pub fn stats_cache_fresh(ttl_secs: u32, age_secs: u64) -> (fresh: bool)
    ensures
        fresh == (ttl_secs > 0 && age_secs < ttl_secs),
{
    ttl_secs > 0 && age_secs < ttl_secs as u64
}

/// The `Cache-Control` value of a stats answer: `public, max-age=<ttl>`
/// while caching is on, none when it is off.
pub fn stats_cache_control(ttl_secs: u32) -> (value: Option<String>)
    ensures
        ttl_secs == 0 ==> value is None,
        ttl_secs > 0 ==> (value matches Some(v) && v@ == "public, max-age="@ + decimal_text(
            ttl_secs as nat,
        )),
{
    if ttl_secs == 0 {
        return None;
    }
    let mut value = String::from_str("public, max-age=");
    append_decimal(&mut value, ttl_secs as u64);
    Some(value)
}

// ---------------------------------------------------------------------------
// Mailbox retention
// ---------------------------------------------------------------------------

/// Rows deleted per statement.
pub const SWEEP_BATCH: u64 = 10_000;

/// Which deliveries a sweep deletes.
#[derive(Debug, Clone, Copy, PartialEq, Eq, Structural)]
pub enum SweepKind {
    /// Claimed rows, `days` after `claimed_at`.
    Claimed,
    /// Unclaimed rows, `days` after `created_at`.
    Unclaimed,
}

/// The sweeps of one retention cycle: a window of 0 disables its sweep;
/// with both 0 retention is off altogether.
pub open spec fn spec_retention_plan(claimed_days: u32, unclaimed_days: u32) -> Seq<(SweepKind, u32)> {
    (if claimed_days > 0 {
        seq![(SweepKind::Claimed, claimed_days)]
    } else {
        Seq::empty()
    }) + (if unclaimed_days > 0 {
        seq![(SweepKind::Unclaimed, unclaimed_days)]
    } else {
        Seq::empty()
    })
}

pub fn retention_plan(claimed_days: u32, unclaimed_days: u32) -> (plan: Vec<(SweepKind, u32)>)
    ensures
        plan@ == spec_retention_plan(claimed_days, unclaimed_days),
{
    let mut plan: Vec<(SweepKind, u32)> = Vec::new();
    if claimed_days > 0 {
        plan.push((SweepKind::Claimed, claimed_days));
    }
    if unclaimed_days > 0 {
        plan.push((SweepKind::Unclaimed, unclaimed_days));
    }
    assert(plan@ =~= spec_retention_plan(claimed_days, unclaimed_days));
    plan
}

/// A sweep keeps deleting while a batch comes back full.
pub fn sweep_again(rows_deleted: u64) -> (again: bool)
    ensures
        again == (rows_deleted >= SWEEP_BATCH),
{
    rows_deleted >= SWEEP_BATCH
}

// ---------------------------------------------------------------------------
// Request ids
// ---------------------------------------------------------------------------

/// Longest client-supplied request id echoed, in bytes.
pub const MAX_REQUEST_ID_BYTES: usize = 128;

pub open spec fn is_ascii_graphic(c: char) -> bool {
    33 <= c as u32 <= 126
}

/// A client-supplied `x-request-id` is echoed when it is non-empty, at most
/// 128 bytes, and only visible ASCII (so nothing can be smuggled into logs).
pub open spec fn is_acceptable_request_id(s: Seq<char>) -> bool {
    &&& s.len() > 0
    &&& utf8_len(s) <= MAX_REQUEST_ID_BYTES
    &&& forall|i: int| 0 <= i < s.len() ==> #[trigger] is_ascii_graphic(s[i])
}

pub fn acceptable_request_id(id: &str) -> (ok: bool)
    ensures
        ok == is_acceptable_request_id(id@),
{
    let n = id.unicode_len();
    if n == 0 || id.len() > MAX_REQUEST_ID_BYTES {
        return false;
    }
    for i in 0..n
        invariant
            n == id@.len(),
            forall|k: int| 0 <= k < i ==> #[trigger] is_ascii_graphic(id@[k]),
    {
        let c = id.get_char(i);
        if !('!' <= c && c <= '~') {
            assert(!is_ascii_graphic(id@[i as int]));
            return false;
        }
    }
    true
}

// ---------------------------------------------------------------------------
// CORS
// ---------------------------------------------------------------------------

/// Browser access policy.
pub enum CorsPolicy {
    /// No CORS layer.
    Disabled,
    /// Any origin.
    AnyOrigin,
    /// The listed origins.
    Origins(Vec<String>),
}

/// Empty list: no CORS; a `*` among the origins: any origin; otherwise the
/// allowlist.
pub fn cors_policy(origins: &Vec<String>) -> (p: CorsPolicy)
    ensures
        origins@.len() == 0 ==> p is Disabled,
        origins@.len() > 0 && (exists|i: int| 0 <= i < origins@.len() && #[trigger] origins@[i]@ == "*"@)
            ==> p is AnyOrigin,
        origins@.len() > 0 && !(exists|i: int| 0 <= i < origins@.len() && #[trigger] origins@[i]@ == "*"@)
            ==> (p matches CorsPolicy::Origins(list) && list.deep_view() == origins.deep_view()),
{
    if origins.len() == 0 {
        return CorsPolicy::Disabled;
    }
    for i in 0..origins.len()
        invariant
            forall|k: int| 0 <= k < i ==> (#[trigger] origins@[k])@ != "*"@,
    {
        if str_equals(origins[i].as_str(), "*") {
            return CorsPolicy::AnyOrigin;
        }
    }
    let mut list: Vec<String> = Vec::new();
    for i in 0..origins.len()
        invariant
            list@.len() == i,
            forall|k: int| 0 <= k < i ==> (#[trigger] list@[k])@ == origins@[k]@,
    {
        list.push(origins[i].clone());
    }
    assert(list.deep_view() =~= origins.deep_view());
    CorsPolicy::Origins(list)
}

// ---------------------------------------------------------------------------
// Database connection retries
// ---------------------------------------------------------------------------

/// Attempts before giving up on the initial connection.
pub const CONNECT_MAX_ATTEMPTS: u32 = 10;
/// Wait after the first failed attempt, in milliseconds.
pub const CONNECT_INITIAL_BACKOFF_MS: u64 = 500;
/// Longest wait between attempts, in milliseconds.
pub const CONNECT_MAX_BACKOFF_MS: u64 = 10_000;

/// Authentication and authorization failures (wrong password, wrong user,
/// no such database) are terminal; every other failure is worth retrying.
pub open spec fn is_terminal_code(code: Seq<char>) -> bool {
    code == "28P01"@ || code == "28000"@ || code == "3D000"@
}

/// Whether a database error with this SQLSTATE code (if any) is retried.
pub fn is_retryable_code(code: Option<&str>) -> (retry: bool)
    ensures
        retry == match code {
            Some(c) => !is_terminal_code(c@),
            None => true,
        },
{
    match code {
        Some(c) => !(str_equals(c, "28P01") || str_equals(c, "28000") || str_equals(c, "3D000")),
        None => true,
    }
}

/// What to do after a failed connection attempt.
pub enum ConnectStep {
    /// Report the failure.
    GiveUp,
    /// Wait `wait_ms`, then try again, doubling the wait up to the cap.
    Retry { wait_ms: u64, next_backoff_ms: u64 },
}

/// After attempt number `attempt` (from 1) failed while the current wait
/// is `backoff_ms`: give up on the last attempt or a terminal error, else
/// retry after the wait.
pub fn after_connect_failure(attempt: u32, backoff_ms: u64, retryable: bool) -> (step: ConnectStep)
    requires
        backoff_ms <= CONNECT_MAX_BACKOFF_MS,
    ensures
        (attempt >= CONNECT_MAX_ATTEMPTS || !retryable) ==> step is GiveUp,
        !(attempt >= CONNECT_MAX_ATTEMPTS || !retryable) ==> step == (ConnectStep::Retry {
            wait_ms: backoff_ms,
            next_backoff_ms: if 2 * backoff_ms < CONNECT_MAX_BACKOFF_MS {
                (2 * backoff_ms) as u64
            } else {
                CONNECT_MAX_BACKOFF_MS
            },
        }),
{
    if attempt >= CONNECT_MAX_ATTEMPTS || !retryable {
        return ConnectStep::GiveUp;
    }
    let doubled = backoff_ms * 2;
    ConnectStep::Retry {
        wait_ms: backoff_ms,
        next_backoff_ms: if doubled < CONNECT_MAX_BACKOFF_MS {
            doubled
        } else {
            CONNECT_MAX_BACKOFF_MS
        },
    }
}

/// The wait before attempt `k + 1` (k from 1): 500 ms doubling to a 10 s
/// cap.
pub open spec fn backoff_schedule(k: nat) -> nat
    decreases k,
{
    if k <= 1 {
        CONNECT_INITIAL_BACKOFF_MS as nat
    } else {
        let prev = backoff_schedule((k - 1) as nat);
        if 2 * prev < CONNECT_MAX_BACKOFF_MS {
            2 * prev
        } else {
            CONNECT_MAX_BACKOFF_MS as nat
        }
    }
}

pub open spec fn total_wait(k: nat) -> nat
    decreases k,
{
    if k == 0 {
        0
    } else {
        total_wait((k - 1) as nat) + backoff_schedule(k)
    }
}

/// The retry budget is bounded: the nine waits between ten attempts add up
/// to 55.5 s, so with 5 s per attempt a connection gives up in under two
/// minutes.
pub proof fn law_connect_budget()
    ensures
        total_wait((CONNECT_MAX_ATTEMPTS - 1) as nat) == 55_500,
        total_wait((CONNECT_MAX_ATTEMPTS - 1) as nat) + 5_000 * CONNECT_MAX_ATTEMPTS < 120_000,
{
    reveal_with_fuel(backoff_schedule, 10);
    reveal_with_fuel(total_wait, 10);
    assert(backoff_schedule(5) == 8000);
    assert(backoff_schedule(9) == 10000);
}

} // verus!
