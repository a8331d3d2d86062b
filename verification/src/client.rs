//! Client configuration: defaults and the checks made when a client is built.

use vstd::prelude::*;

use crate::error::Error;
use crate::http::RetryPolicy;
use crate::time::{nanos_per_sec, Duration};

verus! {

/// The default API base URL.
pub const DEFAULT_BASE_URL: &'static str = "https://confi.sh";

/// The default `User-Agent` header.
pub const DEFAULT_USER_AGENT: &'static str = "confish-rust";

/// The default retry policy: up to 2 retries, waiting at most 30 seconds.
pub fn default_retry_policy() -> (p: RetryPolicy)
    ensures
        p.max_retries == 2,
        p.max_retry_delay@ == 30 * nanos_per_sec(),
{
    RetryPolicy { max_retries: 2, max_retry_delay: Duration::from_secs(30) }
}

/// The check made when a client is built: both the environment ID and the
/// API key must be non-empty. Fails with a client-side `Api` error (status 0)
/// that names the first missing one.
pub fn check_credentials(env_id: &str, api_key: &str) -> (r: Result<(), Error>)
    ensures
        env_id@.len() == 0 ==> (r matches Err(Error::Api { status, message, body }) && status == 0
            && message@ == "env_id is required"@ && body is None),
        env_id@.len() > 0 && api_key@.len() == 0 ==> (r matches Err(
            Error::Api { status, message, body },
        ) && status == 0 && message@ == "api_key is required"@ && body is None),
        env_id@.len() > 0 && api_key@.len() > 0 ==> r is Ok,
{
    if env_id.is_empty() {
        return Err(Error::Api { status: 0, message: "env_id is required".to_owned(), body: None });
    }
    if api_key.is_empty() {
        return Err(Error::Api { status: 0, message: "api_key is required".to_owned(), body: None });
    }
    Ok(())
}

} // verus!
