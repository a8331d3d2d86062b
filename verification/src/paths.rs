//! The request paths of the confish API endpoints.

use vstd::prelude::*;
use vstd::utf8::encode_utf8;

use crate::feeds::{encode_external_id, percent_encoded};

verus! {

/// `/c/{env_id}`: the environment's configuration.
pub fn config_path(env_id: &str) -> (p: String)
    ensures
        p@ == "/c/"@ + env_id@,
{
    let mut p = String::new();
    p.push_str("/c/");
    p.push_str(env_id);
    p
}

/// `/c/{env_id}/log`: a single log entry.
pub fn log_path(env_id: &str) -> (p: String)
    ensures
        p@ == "/c/"@ + env_id@ + "/log"@,
{
    let mut p = config_path(env_id);
    p.push_str("/log");
    p
}

/// `/c/{env_id}/logs`: a batch of log entries.
pub fn logs_path(env_id: &str) -> (p: String)
    ensures
        p@ == "/c/"@ + env_id@ + "/logs"@,
{
    let mut p = config_path(env_id);
    p.push_str("/logs");
    p
}

/// `/c/{env_id}/actions`: the pending actions.
pub fn actions_path(env_id: &str) -> (p: String)
    ensures
        p@ == "/c/"@ + env_id@ + "/actions"@,
{
    let mut p = config_path(env_id);
    p.push_str("/actions");
    p
}

/// `/c/{env_id}/actions/{action_id}/{verb}`, where `verb` is `ack`,
/// `update`, `complete` or `fail`.
pub fn action_path(env_id: &str, action_id: &str, verb: &str) -> (p: String)
    ensures
        p@ == "/c/"@ + env_id@ + "/actions"@ + "/"@ + action_id@ + "/"@ + verb@,
{
    let mut p = actions_path(env_id);
    p.push_str("/");
    p.push_str(action_id);
    p.push_str("/");
    p.push_str(verb);
    p
}

/// `/c/{env_id}/feeds/{slug}/items`: all items of a feed.
pub fn feed_items_path(env_id: &str, slug: &str) -> (p: String)
    ensures
        p@ == "/c/"@ + env_id@ + "/feeds/"@ + slug@ + "/items"@,
{
    let mut p = config_path(env_id);
    p.push_str("/feeds/");
    p.push_str(slug);
    p.push_str("/items");
    p
}

/// `/c/{env_id}/feeds/{slug}/items/{external_id}`, with the external ID
/// percent-encoded so that it always stays one path segment.
pub fn feed_item_path(env_id: &str, slug: &str, external_id: &str) -> (p: String)
    ensures
        p@ == "/c/"@ + env_id@ + "/feeds/"@ + slug@ + "/items"@ + "/"@ + percent_encoded(
            encode_utf8(external_id@),
        ),
{
    let mut p = feed_items_path(env_id, slug);
    p.push_str("/");
    let encoded = encode_external_id(external_id);
    p.push_str(encoded.as_str());
    p
}

} // verus!
