use confish::client::{check_credentials, default_retry_policy, DEFAULT_BASE_URL};
use confish::error::{from_response, parse_int_header, Error, ErrorBody};
use confish::feeds::encode_external_id;
use confish::http::{bearer_token, is_success, normalize_base_url, request_url, RetryPolicy};
use confish::paths::{
    action_path, actions_path, config_path, feed_item_path, feed_items_path, log_path, logs_path,
};
use confish::time::Duration;
use std::collections::HashMap;

#[test]
fn builder_validates_required_fields() {
    let result = check_credentials("", "k");
    assert!(matches!(result, Err(Error::Api { ref message, .. }) if message.contains("env_id")));
    let result = check_credentials("e", "");
    assert!(matches!(result, Err(Error::Api { ref message, .. }) if message.contains("api_key")));
    assert!(check_credentials("e", "k").is_ok());
}

#[test]
fn endpoint_paths() {
    assert_eq!(config_path("env_test"), "/c/env_test");
    assert_eq!(log_path("env_test"), "/c/env_test/log");
    assert_eq!(logs_path("env_test"), "/c/env_test/logs");
    assert_eq!(actions_path("env_test"), "/c/env_test/actions");
    assert_eq!(
        action_path("env_test", "a1", "complete"),
        "/c/env_test/actions/a1/complete"
    );
    assert_eq!(feed_items_path("env_test", "jobs"), "/c/env_test/feeds/jobs/items");
    assert_eq!(
        feed_item_path("env_test", "jobs", "sitemap-crawl"),
        "/c/env_test/feeds/jobs/items/sitemap-crawl"
    );
}

#[test]
fn set_percent_encodes_external_id_in_path() {
    assert_eq!(
        feed_item_path("env_test", "jobs", "crawl #1/2"),
        "/c/env_test/feeds/jobs/items/crawl%20%231%2F2"
    );
}

#[test]
fn external_id_encoding_matches_percent_encoding_crate() {
    const SET: &percent_encoding::AsciiSet = &percent_encoding::NON_ALPHANUMERIC
        .remove(b'-')
        .remove(b'_')
        .remove(b'.')
        .remove(b'~');
    for id in ["plain", "a b", "ünïcödé/ÿ", "~._-", "%41", "?#[]@!$&'()*+,;=", ""] {
        assert_eq!(
            encode_external_id(id),
            percent_encoding::utf8_percent_encode(id, SET).to_string(),
            "for {id:?}"
        );
    }
}

#[test]
fn base_url_and_request_url() {
    assert_eq!(DEFAULT_BASE_URL, "https://confi.sh");
    assert_eq!(normalize_base_url("https://confi.sh///"), "https://confi.sh");
    assert_eq!(normalize_base_url("http://localhost:8080"), "http://localhost:8080");
    assert_eq!(normalize_base_url("///"), "");
    assert_eq!(
        request_url(&normalize_base_url("https://confi.sh/"), "/c/env"),
        "https://confi.sh/c/env"
    );
    assert_eq!(bearer_token("confish_sk_test"), "Bearer confish_sk_test");
    assert!(is_success(200) && is_success(204) && is_success(299));
    assert!(!is_success(199) && !is_success(300) && !is_success(404));
}

fn body(error: Option<&str>, message: Option<&str>) -> Option<ErrorBody> {
    Some(ErrorBody {
        error: error.map(str::to_owned),
        message: message.map(str::to_owned),
        errors: None,
    })
}

#[test]
fn auth_error_on_401() {
    let err = from_response(401, r#"{"error":"Missing API key"}"#, body(Some("Missing API key"), None), None, None, None);
    match err {
        Error::Auth { message, body } => {
            assert_eq!(message, "Missing API key");
            assert_eq!(body.unwrap()["error"], "Missing API key");
        }
        other => panic!("expected Auth, got {other:?}"),
    }
}

#[test]
fn unknown_feed_slug_returns_not_found() {
    let err = from_response(404, r#"{"error":"Feed not found"}"#, body(Some("Feed not found"), None), None, None, None);
    match err {
        Error::NotFound { message, .. } => assert_eq!(message, "Feed not found"),
        other => panic!("expected NotFound, got {other:?}"),
    }
}

#[test]
fn validation_error_exposes_field_errors() {
    let mut errors = HashMap::new();
    errors.insert(
        "values.max_upload_mb".to_string(),
        vec!["Must be at most 100.".to_string()],
    );
    let parsed = Some(ErrorBody {
        error: None,
        message: Some("invalid".to_string()),
        errors: Some(errors),
    });
    match from_response(422, "{}", parsed, None, None, None) {
        Error::Validation { message, errors, .. } => {
            assert_eq!(message, "invalid");
            assert_eq!(
                errors.get("values.max_upload_mb"),
                Some(&vec!["Must be at most 100.".to_string()])
            );
        }
        other => panic!("expected Validation, got {other:?}"),
    }
}

#[test]
fn rate_limit_reads_headers() {
    match from_response(429, "{}", body(Some("limited"), None), Some("0"), Some("60"), Some("x")) {
        Error::RateLimit {
            message,
            retry_after,
            limit,
            remaining,
            ..
        } => {
            assert_eq!(message, "limited");
            assert_eq!(retry_after, Some(0));
            assert_eq!(limit, Some(60));
            assert_eq!(remaining, None);
        }
        other => panic!("expected RateLimit, got {other:?}"),
    }
}

#[test]
fn other_statuses_and_default_message() {
    match from_response(503, "upstream down", None, None, None, None) {
        Error::Server { status, message, body } => {
            assert_eq!(status, 503);
            assert_eq!(message, "Request failed (503)");
            assert!(body.is_none());
        }
        other => panic!("expected Server, got {other:?}"),
    }
    match from_response(418, "{}", body(None, None), None, None, None) {
        Error::Api { status, message, .. } => {
            assert_eq!(status, 418);
            assert_eq!(message, "Request failed (418)");
        }
        other => panic!("expected Api, got {other:?}"),
    }
    assert!(matches!(from_response(403, "", None, None, None, None), Error::Forbidden { .. }));
    let conflict = from_response(409, "", body(Some(""), Some("ignored")), None, None, None);
    assert!(conflict.is_conflict());
    match conflict {
        Error::Conflict { message, .. } => assert_eq!(message, ""),
        other => panic!("expected Conflict, got {other:?}"),
    }
    assert!(!from_response(401, "", None, None, None, None).is_conflict());
}

#[test]
fn integer_headers_parse_like_u64_from_str() {
    assert_eq!(parse_int_header(Some("42")), Some(42));
    assert_eq!(parse_int_header(Some("+7")), Some(7));
    assert_eq!(parse_int_header(Some("18446744073709551615")), Some(u64::MAX));
    assert_eq!(parse_int_header(Some("18446744073709551616")), None);
    assert_eq!(parse_int_header(Some("-1")), None);
    assert_eq!(parse_int_header(Some("+")), None);
    assert_eq!(parse_int_header(Some("")), None);
    assert_eq!(parse_int_header(Some(" 1")), None);
    assert_eq!(parse_int_header(None), None);
}

fn rate_limited(retry_after: Option<u64>) -> Error {
    Error::RateLimit {
        message: String::new(),
        retry_after,
        limit: None,
        remaining: None,
        body: None,
    }
}

#[test]
fn retry_policy_retries_429_and_5xx_only() {
    let policy = default_retry_policy();
    assert_eq!(policy.max_retries, 2);
    assert_eq!(policy.max_retry_delay, Duration::from_secs(30));
    let server = Error::Server {
        status: 500,
        message: String::new(),
        body: None,
    };
    let auth = Error::Auth {
        message: String::new(),
        body: None,
    };
    assert!(policy.should_retry(0, &server));
    assert!(policy.should_retry(1, &rate_limited(None)));
    assert!(!policy.should_retry(2, &server));
    assert!(!policy.should_retry(0, &auth));
    assert_eq!(policy.next_retry(2, &server), None);
}

#[test]
fn retry_delays_honor_retry_after_and_cap() {
    let policy = RetryPolicy {
        max_retries: 5,
        max_retry_delay: Duration::from_secs(30),
    };
    let server = Error::Server {
        status: 502,
        message: String::new(),
        body: None,
    };
    assert_eq!(policy.retry_delay(0, &server), Duration::from_secs(1));
    assert_eq!(policy.retry_delay(3, &server), Duration::from_secs(8));
    assert_eq!(policy.retry_delay(5, &server), Duration::from_secs(30));
    assert_eq!(policy.retry_delay(200, &server), Duration::from_secs(30));
    assert_eq!(policy.retry_delay(0, &rate_limited(Some(7))), Duration::from_secs(7));
    assert_eq!(policy.retry_delay(0, &rate_limited(Some(600))), Duration::from_secs(30));
    assert_eq!(policy.retry_delay(4, &rate_limited(None)), Duration::from_secs(16));
    let tiny = RetryPolicy {
        max_retries: 1,
        max_retry_delay: Duration::from_millis(1),
    };
    assert_eq!(tiny.next_retry(0, &rate_limited(Some(0))), Some(Duration::from_secs(0)));
    assert_eq!(tiny.next_retry(0, &server), Some(Duration::from_millis(1)));
}

#[test]
fn next_retry_waits_the_retry_delay() {
    let policy = RetryPolicy {
        max_retries: 3,
        max_retry_delay: Duration::from_secs(30),
    };
    let server = Error::Server {
        status: 500,
        message: String::new(),
        body: None,
    };
    assert_eq!(policy.next_retry(0, &server), Some(Duration::from_secs(1)));
    assert_eq!(policy.next_retry(2, &server), Some(Duration::from_secs(4)));
    assert_eq!(policy.next_retry(1, &rate_limited(Some(12))), Some(Duration::from_secs(12)));
    assert_eq!(policy.next_retry(3, &rate_limited(Some(12))), None);
}

#[test]
fn error_bodies_are_kept_when_json() {
    let with_body = from_response(500, r#"{"error":"boom"}"#, body(Some("boom"), None), None, None, None);
    assert!(matches!(with_body, Error::Server { body: Some(_), .. }));
    let without = from_response(500, "<html>", None, None, None, None);
    assert!(matches!(without, Error::Server { body: None, .. }));
}

#[test]
fn request_is_sent_at_most_max_retries_plus_one_times() {
    let policy = RetryPolicy {
        max_retries: 3,
        max_retry_delay: Duration::from_secs(30),
    };
    let server = Error::Server {
        status: 503,
        message: String::new(),
        body: None,
    };
    let mut attempts: u32 = 0;
    let mut attempt: u32 = 0;
    loop {
        attempts += 1;
        match policy.next_retry(attempt, &server) {
            Some(_) => attempt += 1,
            None => break,
        }
    }
    assert_eq!(attempts, 4);
    let auth = Error::Auth {
        message: String::new(),
        body: None,
    };
    assert_eq!(policy.next_retry(0, &auth), None);
}
