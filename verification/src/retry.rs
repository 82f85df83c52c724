//! Retry policy for transient failures.
//!
//! The policy itself — how many attempts are allowed, how long to
//! wait, which errors are worth retrying — lives here; the caller
//! runs the attempts and sleeps between them.

use vstd::prelude::*;

verus! {

/// Retry configuration: number of retry attempts (0 means no
/// retries) and the wait between them in seconds.
#[derive(Debug, Clone)]
pub struct RetryConfig {
    pub max_retries: u32,
    pub wait_seconds: u32,
}

/// What to do after a failed attempt.
#[derive(Debug, Clone, Copy, PartialEq, Eq, Structural)]
pub enum RetryDecision {
    Retry { wait_seconds: u32 },
    GiveUp,
}

impl RetryConfig {
    pub fn new(max_retries: u32, wait_seconds: u32) -> (r: Self)
        ensures
            r.max_retries == max_retries,
            r.wait_seconds == wait_seconds,
    {
        RetryConfig { max_retries, wait_seconds }
    }

    /// Whether any retries are configured at all.
    pub fn should_retry(&self) -> (r: bool)
        ensures
            r == (self.max_retries > 0),
    {
        self.max_retries > 0
    }

    /// The decision after `failed_attempts` attempts have all
    /// failed: retry (after the configured wait) while attempts
    /// remain — the operation runs at most `max_retries + 1` times —
    /// and give up once they are exhausted.
    pub fn next_decision(&self, failed_attempts: u32) -> (r: RetryDecision)
        ensures
            r == if failed_attempts <= self.max_retries {
                RetryDecision::Retry { wait_seconds: self.wait_seconds }
            } else {
                RetryDecision::GiveUp
            },
    {
        if failed_attempts <= self.max_retries {
            RetryDecision::Retry { wait_seconds: self.wait_seconds }
        } else {
            RetryDecision::GiveUp
        }
    }
}

/// The character's code with ASCII uppercase folded to lowercase.
pub open spec fn lower_code(c: char) -> int {
    if 65 <= c as u32 && c as u32 <= 90 {
        (c as u32) + 32
    } else {
        (c as u32) as int
    }
}

/// The needle occurs in the haystack at position `k`, comparing
/// characters case-insensitively.
pub open spec fn ci_match_at(h: Seq<char>, n: Seq<char>, k: int) -> bool {
    &&& 0 <= k
    &&& k + n.len() <= h.len()
    &&& forall|j: int| k <= j < k + n.len() ==> lower_code(#[trigger] h[j]) == lower_code(n[j - k])
}

/// The needle occurs somewhere in the haystack, case-insensitively.
pub open spec fn contains_ci(h: Seq<char>, n: Seq<char>) -> bool {
    exists|k: int| ci_match_at(h, n, k)
}

/// ASCII-lowercased character code.
fn lower_char_code(c: char) -> (r: u32)
    ensures
        r == lower_code(c),
{
    let code = c as u32;
    if 65 <= code && code <= 90 {
        code + 32
    } else {
        code
    }
}

/// Case-insensitive substring search.
fn str_contains_ci(h: &str, n: &str) -> (r: bool)
    ensures
        r == contains_ci(h@, n@),
{
    let hlen = h.unicode_len();
    let nlen = n.unicode_len();
    if nlen > hlen {
        proof {
            assert(forall|k: int| !ci_match_at(h@, n@, k));
        }
        return false;
    }
    let mut k: usize = 0;
    while k <= hlen - nlen
        invariant
            hlen == h@.len(),
            nlen == n@.len(),
            nlen <= hlen,
            k <= hlen - nlen + 1,
            forall|t: int| 0 <= t < k ==> !#[trigger] ci_match_at(h@, n@, t),
        decreases hlen - nlen + 1 - k,
    {
        let mut j: usize = 0;
        let mut ok = true;
        while j < nlen && ok
            invariant
                hlen == h@.len(),
                nlen == n@.len(),
                k + nlen <= hlen,
                j <= nlen,
                ok ==> forall|t: int|
                    k <= t < k + j ==> lower_code(#[trigger] h@[t]) == lower_code(n@[t - k]),
                !ok ==> !ci_match_at(h@, n@, k as int),
            decreases nlen - j,
        {
            if lower_char_code(h.get_char(k + j)) != lower_char_code(n.get_char(j)) {
                proof {
                    assert(!ci_match_at(h@, n@, k as int));
                }
                ok = false;
            }
            j += 1;
        }
        if ok {
            proof {
                assert(ci_match_at(h@, n@, k as int));
            }
            return true;
        }
        k += 1;
    }
    proof {
        assert(forall|t: int| !#[trigger] ci_match_at(h@, n@, t));
    }
    false
}

/// The error messages that name a transient condition worth retrying.
pub open spec fn spec_retryable(e: Seq<char>) -> bool {
    ||| contains_ci(e, "permission denied"@)
    ||| contains_ci(e, "access is denied"@)
    ||| contains_ci(e, "sharing violation"@)
    ||| contains_ci(e, "resource temporarily unavailable"@)
    ||| contains_ci(e, "too many open files"@)
    ||| contains_ci(e, "device or resource busy"@)
    ||| contains_ci(e, "connection refused"@)
    ||| contains_ci(e, "connection reset"@)
    ||| contains_ci(e, "timeout"@)
    ||| contains_ci(e, "network unreachable"@)
}

/// Check if an error message names a condition that is typically
/// transient: such failures are retried, others surface at once.
pub fn is_retryable_error(error: &str) -> (r: bool)
    ensures
        r == spec_retryable(error@),
{
    str_contains_ci(error, "permission denied") || str_contains_ci(error, "access is denied")
        || str_contains_ci(error, "sharing violation") || str_contains_ci(
        error,
        "resource temporarily unavailable",
    ) || str_contains_ci(error, "too many open files") || str_contains_ci(
        error,
        "device or resource busy",
    ) || str_contains_ci(error, "connection refused") || str_contains_ci(
        error,
        "connection reset",
    ) || str_contains_ci(error, "timeout") || str_contains_ci(error, "network unreachable")
}

} // verus!
