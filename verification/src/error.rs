//! Errors of the confish API, and how an HTTP error response maps onto them.

use std::collections::HashMap;

use vstd::prelude::*;

use crate::text::{decimal, opt_str, parse_u64, push_decimal, u64_from_str};

verus! {

/// A parsed JSON document.
#[verifier::external_type_specification]
#[verifier::external_body]
pub struct ExJsonValue(serde_json::Value);

/// An error response of the confish API, classified by its HTTP status.
#[derive(Debug)]
pub enum Error {
    /// HTTP 401: missing or invalid API key.
    Auth { message: String, body: Option<serde_json::Value> },
    /// HTTP 403: the API key does not match the environment, or the application is disabled.
    Forbidden { message: String, body: Option<serde_json::Value> },
    /// HTTP 404: e.g. an unknown feed slug.
    NotFound { message: String, body: Option<serde_json::Value> },
    /// HTTP 409: typically the action is no longer actionable.
    Conflict { message: String, body: Option<serde_json::Value> },
    /// HTTP 422: the request body failed validation; `errors` maps fields to messages.
    Validation {
        message: String,
        errors: HashMap<String, Vec<String>>,
        body: Option<serde_json::Value>,
    },
    /// HTTP 429: rate limit exceeded, with the rate-limit headers when present.
    RateLimit {
        message: String,
        retry_after: Option<u64>,
        limit: Option<u64>,
        remaining: Option<u64>,
        body: Option<serde_json::Value>,
    },
    /// HTTP 5xx: server-side error.
    Server { status: u16, message: String, body: Option<serde_json::Value> },
    /// Any other failure that fits none of the above (status 0 for client-side errors).
    Api { status: u16, message: String, body: Option<serde_json::Value> },
}

impl Error {
    /// True if this error is an HTTP 409 conflict (useful for action consumers).
    pub fn is_conflict(&self) -> (b: bool)
        ensures
            b == (self is Conflict),
    {
        match self {
            Error::Conflict { .. } => true,
            _ => false,
        }
    }

    /// The response body the error carries, when it was JSON.
    pub open spec fn body_value(self) -> Option<serde_json::Value> {
        match self {
            Error::Auth { body, .. } => body,
            Error::Forbidden { body, .. } => body,
            Error::NotFound { body, .. } => body,
            Error::Conflict { body, .. } => body,
            Error::Validation { body, .. } => body,
            Error::RateLimit { body, .. } => body,
            Error::Server { body, .. } => body,
            Error::Api { body, .. } => body,
        }
    }

    /// The message the error carries.
    pub open spec fn message_text(self) -> Seq<char> {
        match self {
            Error::Auth { message, .. } => message@,
            Error::Forbidden { message, .. } => message@,
            Error::NotFound { message, .. } => message@,
            Error::Conflict { message, .. } => message@,
            Error::Validation { message, .. } => message@,
            Error::RateLimit { message, .. } => message@,
            Error::Server { message, .. } => message@,
            Error::Api { message, .. } => message@,
        }
    }
}

/// The fields an error response body may carry.
#[derive(Debug)]
pub struct ErrorBody {
    pub error: Option<String>,
    pub message: Option<String>,
    pub errors: Option<HashMap<String, Vec<String>>>,
}

/// The text of an optional string.
pub open spec fn opt_text(s: Option<String>) -> Option<Seq<char>> {
    match s {
        Some(t) => Some(t@),
        None => None,
    }
}

/// The message of an error response: the body's `error` field, else its
/// `message` field, else `Request failed (<status>)`.
pub open spec fn response_message(status: u16, parsed: Option<(Option<Seq<char>>, Option<Seq<char>>)>) -> Seq<
    char,
> {
    match parsed {
        Some((Some(e), _)) => e,
        Some((None, Some(m))) => m,
        _ => "Request failed ("@ + decimal(status as nat) + ")"@,
    }
}

/// The `error` and `message` fields of a parsed body.
pub open spec fn body_fields(parsed: Option<ErrorBody>) -> Option<(Option<Seq<char>>, Option<Seq<char>>)> {
    match parsed {
        Some(b) => Some((opt_text(b.error), opt_text(b.message))),
        None => None,
    }
}

/// The integer value of a response header, when it is present and parses as a `u64`.
pub open spec fn header_value(text: Option<Seq<char>>) -> Option<u64> {
    match text {
        Some(t) => u64_from_str(t),
        None => None,
    }
}

/// Parses an integer header value as `str::parse::<u64>` does.
pub fn parse_int_header(value: Option<&str>) -> (r: Option<u64>)
    ensures
        r == header_value(opt_str(value)),
{
    match value {
        Some(text) => parse_u64(text),
        None => None,
    }
}

/// `text` is a JSON document that `serde_json::from_str` accepts.
pub uninterp spec fn json_parses(text: Seq<char>) -> bool;

/// Parses `text` as a JSON document with `serde_json::from_str`; `None`
/// when it is not JSON. What the document holds is not stated.
#[verifier::external_body]
fn parse_json(text: &str) -> (r: Option<serde_json::Value>)
    ensures
        r is Some <==> json_parses(text@),
{
    match serde_json::from_str::<serde_json::Value>(text) {
        Ok(v) => Some(v),
        Err(_) => None,
    }
}

/// The message of an error response with `status` and parsed body `parsed`.
fn message_of(status: u16, parsed: &Option<ErrorBody>) -> (m: String)
    ensures
        m@ == response_message(status, body_fields(*parsed)),
{
    match parsed {
        Some(ErrorBody { error: Some(e), .. }) => e.clone(),
        Some(ErrorBody { error: None, message: Some(m), .. }) => m.clone(),
        _ => {
            let mut m = String::new();
            m.push_str("Request failed (");
            push_decimal(&mut m, status as u64);
            m.push_str(")");
            m
        },
    }
}

/// Maps an HTTP error response to an [`Error`]: 401 `Auth`, 403 `Forbidden`,
/// 404 `NotFound`, 409 `Conflict`, 422 `Validation` (with the body's field
/// errors), 429 `RateLimit` (with the integer `retry-after`,
/// `x-ratelimit-limit` and `x-ratelimit-remaining` headers), 5xx `Server`,
/// anything else `Api`. `parsed` is the body read as an error body, when it
/// is one; `body_text` is the raw body, kept as JSON when it is JSON.
pub fn from_response(
    status: u16,
    body_text: &str,
    parsed: Option<ErrorBody>,
    retry_after: Option<&str>,
    limit: Option<&str>,
    remaining: Option<&str>,
) -> (e: Error)
    ensures
        e.message_text() == response_message(status, body_fields(parsed)),
        e.body_value() is Some <==> json_parses(body_text@),
        status == 401 <==> e is Auth,
        status == 403 <==> e is Forbidden,
        status == 404 <==> e is NotFound,
        status == 409 <==> e is Conflict,
        status == 422 <==> e is Validation,
        status == 429 <==> e is RateLimit,
        e matches Error::Validation { errors, .. } ==> match parsed {
            Some(ErrorBody { errors: Some(fields), .. }) => errors == fields,
            _ => errors@ == Map::<String, Vec<String>>::empty(),
        },
        e matches Error::RateLimit { retry_after: r, limit: l, remaining: n, .. } ==> {
            &&& r == header_value(opt_str(retry_after))
            &&& l == header_value(opt_str(limit))
            &&& n == header_value(opt_str(remaining))
        },
        e matches Error::Server { status: s, .. } ==> s == status && status >= 500,
        e matches Error::Api { status: s, .. } ==> s == status,
        (e is Server) <==> (status >= 500 && status != 401 && status != 403 && status != 404
            && status != 409 && status != 422 && status != 429),
{
    let body = parse_json(body_text);
    let message = message_of(status, &parsed);
    if status == 401 {
        Error::Auth { message, body }
    } else if status == 403 {
        Error::Forbidden { message, body }
    } else if status == 404 {
        Error::NotFound { message, body }
    } else if status == 409 {
        Error::Conflict { message, body }
    } else if status == 422 {
        let errors = match parsed {
            Some(ErrorBody { errors: Some(fields), .. }) => fields,
            _ => HashMap::new(),
        };
        Error::Validation { message, errors, body }
    } else if status == 429 {
        Error::RateLimit {
            message,
            retry_after: parse_int_header(retry_after),
            limit: parse_int_header(limit),
            remaining: parse_int_header(remaining),
            body,
        }
    } else if status >= 500 {
        Error::Server { status, message, body }
    } else {
        Error::Api { status, message, body }
    }
}

} // verus!
