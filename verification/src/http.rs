//! The request policy of the HTTP layer: request URLs, authorization, which
//! responses count as success, and when and how long to wait before a retry.

use vstd::prelude::*;

use crate::actions::pow2;
use crate::error::Error;
use crate::text::chars_of;
use crate::time::{nanos_per_sec, Duration};

verus! {

/// `s` without its trailing `'/'` characters.
pub open spec fn trim_trailing_slashes(s: Seq<char>) -> Seq<char>
    decreases s.len(),
{
    if s.len() > 0 && s.last() == '/' {
        trim_trailing_slashes(s.drop_last())
    } else {
        s
    }
}

/// The base URL with every trailing `/` removed, so that paths can be appended.
pub fn normalize_base_url(base_url: &str) -> (r: String)
    ensures
        r@ == trim_trailing_slashes(base_url@),
{
    let chars = chars_of(base_url);
    let mut end = chars.len();
    assert(chars@.subrange(0, end as int) == chars@);
    while end > 0 && chars[end - 1] == '/'
        invariant
            end <= chars.len(),
            trim_trailing_slashes(chars@) == trim_trailing_slashes(chars@.subrange(0, end as int)),
        decreases end,
    {
        proof {
            assert(chars@.subrange(0, end as int).drop_last() == chars@.subrange(0, end - 1));
        }
        end = end - 1;
    }
    let mut r = String::new();
    let mut i: usize = 0;
    while i < end
        invariant
            i <= end <= chars.len(),
            r@ == chars@.subrange(0, i as int),
        decreases end - i,
    {
        r.push(chars[i]);
        i = i + 1;
        proof {
            assert(r@ == chars@.subrange(0, i as int));
        }
    }
    r
}

/// The full URL of `path` under the (normalized) base URL.
pub fn request_url(base_url: &str, path: &str) -> (url: String)
    ensures
        url@ == base_url@ + path@,
{
    let mut url = String::new();
    url.push_str(base_url);
    url.push_str(path);
    url
}

/// The `Authorization` header value for an API key.
pub fn bearer_token(api_key: &str) -> (value: String)
    ensures
        value@ == "Bearer "@ + api_key@,
{
    let mut value = String::new();
    value.push_str("Bearer ");
    value.push_str(api_key);
    value
}

/// A 2xx status: the response carries the result.
pub fn is_success(status: u16) -> (ok: bool)
    ensures
        ok == (200 <= status < 300),
{
    200 <= status && status < 300
}

/// `2^attempt` seconds, saturating at `u64::MAX` seconds.
pub open spec fn exponential_secs(attempt: nat) -> nat {
    if pow2(attempt) <= u64::MAX {
        pow2(attempt)
    } else {
        u64::MAX as nat
    }
}

/// The exponential delay starts at one second and doubles with each
/// attempt, saturating only at `u64::MAX` seconds.
pub proof fn lemma_exponential_secs_doubles(attempt: nat)
    ensures
        exponential_secs(0) == 1,
        exponential_secs(attempt + 1) == if 2 * exponential_secs(attempt) <= u64::MAX {
            2 * exponential_secs(attempt)
        } else {
            u64::MAX as nat
        },
{
    assert(pow2(0) == 1);
    assert(pow2(attempt + 1) == 2 * pow2(attempt));
}

/// `2u64.saturating_pow(attempt)`.
fn saturating_pow2(attempt: u32) -> (p: u64)
    ensures
        p as nat == exponential_secs(attempt as nat),
{
    let mut p: u64 = 1;
    let mut i: u32 = 0;
    while i < attempt
        invariant
            i <= attempt,
            p as nat == exponential_secs(i as nat),
        decreases attempt - i,
    {
        proof {
            assert(pow2((i + 1) as nat) == 2 * pow2(i as nat));
            lemma_pow2_positive(i as nat);
        }
        if p > u64::MAX / 2 {
            p = u64::MAX;
        } else {
            p = p * 2;
        }
        i = i + 1;
    }
    p
}

proof fn lemma_pow2_positive(k: nat)
    ensures
        pow2(k) >= 1,
    decreases k,
{
    if k > 0 {
        lemma_pow2_positive((k - 1) as nat);
    }
}

/// When and how long the client waits before retrying a failed request.
#[derive(Debug, Clone, Copy)]
pub struct RetryPolicy {
    /// Retries allowed beyond the first attempt, for 429 and 5xx responses.
    pub max_retries: u32,
    /// Cap on the delay before a retry.
    pub max_retry_delay: Duration,
}

/// The shorter of `a` and `b` nanoseconds.
pub open spec fn min_nanos(a: nat, b: nat) -> nat {
    if a <= b { a } else { b }
}

impl RetryPolicy {
    /// Whether the request that failed with `err` on attempt `attempt`
    /// (0 for the first) is tried again: only rate-limit and server errors,
    /// and only while fewer than `max_retries` retries have been made.
    pub fn should_retry(&self, attempt: u32, err: &Error) -> (r: bool)
        ensures
            r == (attempt < self.max_retries && (err is RateLimit || err is Server)),
    {
        if attempt >= self.max_retries {
            return false;
        }
        match err {
            Error::RateLimit { .. } | Error::Server { .. } => true,
            _ => false,
        }
    }

    /// The delay before retrying after attempt `attempt` failed with `err`:
    /// the server's `Retry-After` seconds when a rate-limit error carries
    /// one, else `2^attempt` seconds; never more than `max_retry_delay`.
    pub fn retry_delay(&self, attempt: u32, err: &Error) -> (d: Duration)
        ensures
            d@ == min_nanos(
                match err {
                    Error::RateLimit { retry_after: Some(ra), .. } => ra as nat * nanos_per_sec(),
                    _ => exponential_secs(attempt as nat) * nanos_per_sec(),
                },
                self.max_retry_delay@,
            ),
            d@ <= self.max_retry_delay@,
    {
        match err {
            Error::RateLimit { retry_after: Some(ra), .. } => Duration::from_secs(*ra).min(
                self.max_retry_delay,
            ),
            _ => Duration::from_secs(saturating_pow2(attempt)).min(self.max_retry_delay),
        }
    }

    /// The wait before the next attempt after attempt `attempt` failed with
    /// `err`, or `None` when the error is final.
    pub fn next_retry(&self, attempt: u32, err: &Error) -> (r: Option<Duration>)
        ensures
            r is Some <==> (attempt < self.max_retries && (err is RateLimit || err is Server)),
            r is Some <==> retry_granted(*self, attempt as nat, *err),
            r matches Some(d) ==> d@ == min_nanos(
                match err {
                    Error::RateLimit { retry_after: Some(ra), .. } => ra as nat * nanos_per_sec(),
                    _ => exponential_secs(attempt as nat) * nanos_per_sec(),
                },
                self.max_retry_delay@,
            ),
            r matches Some(d) ==> d@ <= self.max_retry_delay@,
    {
        if self.should_retry(attempt, err) {
            Some(self.retry_delay(attempt, err))
        } else {
            None
        }
    }
}


/// The retry policy grants a retry after attempt `attempt` failed with `err`.
pub open spec fn retry_granted(policy: RetryPolicy, attempt: nat, err: Error) -> bool {
    attempt < policy.max_retries && (err is RateLimit || err is Server)
}

/// The retries granted in a row from attempt `from` on, when attempt `i`
/// fails with `errors[i]`: each retry is granted by `next_retry`, and the
/// first refusal (or the end of the errors) ends the request.
pub open spec fn retries_in_a_row(policy: RetryPolicy, errors: Seq<Error>, from: nat) -> nat
    decreases errors.len() - from,
{
    if from < errors.len() && retry_granted(policy, from, errors[from as int]) {
        1 + retries_in_a_row(policy, errors, from + 1)
    } else {
        0
    }
}

proof fn lemma_retries_from(policy: RetryPolicy, errors: Seq<Error>, from: nat)
    ensures
        from + retries_in_a_row(policy, errors, from) <= if from <= policy.max_retries {
            policy.max_retries as nat
        } else {
            from
        },
    decreases errors.len() - from,
{
    if from < errors.len() && retry_granted(policy, from, errors[from as int]) {
        lemma_retries_from(policy, errors, from + 1);
    }
}

/// However the server answers, one request is sent at most
/// `max_retries + 1` times: attempts are numbered from 0 and a retry is
/// granted only after an attempt below `max_retries` that failed with a
/// rate-limit or server error.
pub proof fn lemma_request_attempts_bounded(policy: RetryPolicy, errors: Seq<Error>)
    ensures
        1 + retries_in_a_row(policy, errors, 0) <= policy.max_retries + 1,
{
    lemma_retries_from(policy, errors, 0);
}

} // verus!
