use confish::time::Duration;
use confish::webhook::{default_tolerance, parse_signature, verify, VerifyOptions, WebhookError};
use hmac::{Hmac, Mac};
use sha2::Sha256;

fn sign(secret: &str, ts: u64, body: &[u8]) -> String {
    let mut mac = Hmac::<Sha256>::new_from_slice(secret.as_bytes()).unwrap();
    mac.update(format!("{ts}:").as_bytes());
    mac.update(body);
    hex::encode(mac.finalize().into_bytes())
}

#[test]
fn returns_parsed_payload_for_valid_signature() {
    let body = br#"{
        "event": "environment.updated",
        "timestamp": "2026-07-09T12:00:00+00:00",
        "application": {"name": "My App"},
        "environment": {"name": "production", "env_id": "env_test", "url": "https://confi.sh/c/env_test"},
        "changes": ["maintenance_mode"],
        "values": {"maintenance_mode": true}
    }"#;
    let ts = 1_700_000_000;
    let sig = sign("whsec_test", ts, body);
    let header = format!("ts={ts};sig={sig}");
    let opts = VerifyOptions {
        tolerance: default_tolerance(),
        now: Some(ts),
    };

    verify(body, Some(&header), "whsec_test", &opts).expect("verify");
    let payload: serde_json::Value = serde_json::from_slice(body).expect("payload");
    assert_eq!(payload["event"], "environment.updated");
    assert_eq!(payload["timestamp"], "2026-07-09T12:00:00+00:00");
    assert_eq!(payload["application"]["name"], "My App");
    assert_eq!(payload["environment"]["name"], "production");
    assert_eq!(payload["environment"]["env_id"], "env_test");
    assert_eq!(payload["changes"][0], "maintenance_mode");
    assert_eq!(payload["changes"].as_array().map(|a| a.len()), Some(1));
    assert_eq!(payload["values"]["maintenance_mode"], true);
    assert_eq!(payload["values"].as_object().map(|o| o.len()), Some(1));
}

#[test]
fn rejects_wrong_secret_as_invalid_signature() {
    let body = br#"{"event":"environment.updated"}"#;
    let ts = 1_700_000_000;
    let sig = sign("other", ts, body);
    let header = format!("ts={ts};sig={sig}");
    let opts = VerifyOptions {
        tolerance: default_tolerance(),
        now: Some(ts),
    };
    let err = verify(body, Some(&header), "whsec_test", &opts).unwrap_err();
    assert!(matches!(err, WebhookError::InvalidSignature));
}

#[test]
fn rejects_tampered_body_as_invalid_signature() {
    let secret = "whsec_test";
    let ts = 1_700_000_000;
    let sig = sign(secret, ts, br#"{"event":"a"}"#);
    let header = format!("ts={ts};sig={sig}");
    let opts = VerifyOptions {
        tolerance: default_tolerance(),
        now: Some(ts),
    };
    let err = verify(br#"{"event":"b"}"#, Some(&header), secret, &opts).unwrap_err();
    assert!(matches!(err, WebhookError::InvalidSignature));
}

#[test]
fn rejects_stale_timestamp_with_drift_details() {
    let secret = "whsec_test";
    let ts = 1_700_000_000;
    let sig = sign(secret, ts, br#"{"event":"environment.updated"}"#);
    let header = format!("ts={ts};sig={sig}");
    let opts = VerifyOptions {
        tolerance: Duration::from_secs(300),
        now: Some(ts + 600),
    };
    let err = verify(
        br#"{"event":"environment.updated"}"#,
        Some(&header),
        secret,
        &opts,
    )
    .unwrap_err();
    match err {
        WebhookError::TimestampOutsideTolerance {
            drift_secs,
            tolerance_secs,
        } => {
            assert_eq!(drift_secs, 600);
            assert_eq!(tolerance_secs, 300);
        }
        other => panic!("expected TimestampOutsideTolerance, got {other:?}"),
    }
}

#[test]
fn accepts_stale_when_tolerance_disabled() {
    let secret = "whsec_test";
    let ts = 1_700_000_000;
    let body = br#"{"event":"environment.deleted"}"#;
    let sig = sign(secret, ts, body);
    let header = format!("ts={ts};sig={sig}");
    let opts = VerifyOptions {
        tolerance: Duration::from_secs(0),
        now: Some(ts + 99_999),
    };
    verify(body, Some(&header), secret, &opts).expect("verify");
    let payload: serde_json::Value = serde_json::from_slice(body).expect("payload");
    assert_eq!(payload["event"], "environment.deleted");
}

#[test]
fn rejects_malformed_headers() {
    for header in ["garbage", "ts=abc;sig=def", "ts=1;sig="] {
        let err = verify(
            br#"{"event":"a"}"#,
            Some(header),
            "whsec_test",
            &VerifyOptions::default(),
        )
        .unwrap_err();
        assert!(
            matches!(err, WebhookError::MalformedSignature),
            "expected MalformedSignature for header {header:?}, got {err:?}"
        );
    }
}

#[test]
fn rejects_missing_or_empty_signature() {
    for signature in [None, Some("")] {
        let err = verify(
            br#"{"event":"a"}"#,
            signature,
            "whsec_test",
            &VerifyOptions::default(),
        )
        .unwrap_err();
        assert!(
            matches!(err, WebhookError::MissingSignature),
            "expected MissingSignature for {signature:?}, got {err:?}"
        );
    }
}

#[test]
fn rejects_unparseable_payload_after_valid_signature() {
    let secret = "whsec_test";
    let ts = 1_700_000_000;
    let body = b"not json";
    let sig = sign(secret, ts, body);
    let header = format!("ts={ts};sig={sig}");
    let opts = VerifyOptions {
        tolerance: default_tolerance(),
        now: Some(ts),
    };
    // The signature checks out; it is the payload that is not a webhook payload.
    verify(body, Some(&header), secret, &opts).expect("authentic");
    assert!(serde_json::from_slice::<serde_json::Value>(body).is_err());
}

#[test]
fn stale_is_reported_only_for_authentic_signatures() {
    let secret = "whsec_test";
    let ts = 1_700_000_000;
    let body = br#"{"event":"a"}"#;
    let forged = sign("attacker", ts, body);
    let header = format!("ts={ts};sig={forged}");
    let opts = VerifyOptions {
        tolerance: Duration::from_secs(300),
        now: Some(ts + 10_000),
    };
    assert_eq!(
        verify(body, Some(&header), secret, &opts),
        Err(WebhookError::InvalidSignature)
    );
}

#[test]
fn tolerance_window_edges() {
    let secret = "whsec_test";
    let ts = 1_700_000_000;
    let body = br#"{"event":"a"}"#;
    let header = format!("ts={ts};sig={}", sign(secret, ts, body));
    let at = |now: u64| VerifyOptions {
        tolerance: Duration::from_secs(300),
        now: Some(now),
    };
    assert_eq!(verify(body, Some(&header), secret, &at(ts + 300)), Ok(()));
    assert_eq!(verify(body, Some(&header), secret, &at(ts - 300)), Ok(()));
    assert_eq!(
        verify(body, Some(&header), secret, &at(ts - 301)),
        Err(WebhookError::TimestampOutsideTolerance {
            drift_secs: 301,
            tolerance_secs: 300
        })
    );
    // A sub-second tolerance still enables the check, with a window of 0 whole seconds.
    let tight = VerifyOptions {
        tolerance: Duration::from_millis(500),
        now: Some(ts + 1),
    };
    assert_eq!(
        verify(body, Some(&header), secret, &tight),
        Err(WebhookError::TimestampOutsideTolerance {
            drift_secs: 1,
            tolerance_secs: 0
        })
    );
}

#[test]
fn header_whitespace_order_and_leading_zeros() {
    let secret = "whsec_test";
    let body = br#"{"event":"a"}"#;
    let sig = sign(secret, 42, body);
    let opts = VerifyOptions {
        tolerance: Duration::from_secs(0),
        now: None,
    };
    let reordered = format!("  sig={sig};ts=42 \n");
    assert_eq!(verify(body, Some(&reordered), secret, &opts), Ok(()));
    // The timestamp is signed as a number: leading zeros do not change it.
    let padded = format!("ts=0042;sig={}", sig.to_uppercase());
    assert_eq!(verify(body, Some(&padded), secret, &opts), Ok(()));
    // Odd-length hex and an overflowing timestamp are malformed.
    let odd = format!("ts=42;sig={}", &sig[1..]);
    assert_eq!(
        verify(body, Some(&odd), secret, &opts),
        Err(WebhookError::MalformedSignature)
    );
    let huge = format!("ts=18446744073709551616;sig={sig}");
    assert_eq!(
        verify(body, Some(&huge), secret, &opts),
        Err(WebhookError::MalformedSignature)
    );
    // An empty secret never verifies.
    assert_eq!(
        verify(body, Some(&padded), "", &opts),
        Err(WebhookError::InvalidSignature)
    );
    // Whitespace alone is present but malformed.
    assert_eq!(
        verify(body, Some("   "), secret, &opts),
        Err(WebhookError::MalformedSignature)
    );
}

#[test]
fn parse_signature_reads_fields() {
    let (ts, sig) = parse_signature("ts=123;sig=abCD").unwrap();
    assert_eq!(ts, "123");
    assert_eq!(sig, "abCD");
    let (ts, sig) = parse_signature("ts=1;sig=aa;ts=2").unwrap();
    assert_eq!(ts, "2");
    assert_eq!(sig, "aa");
    assert!(parse_signature("ts=1").is_none());
    assert!(parse_signature("ts=1;sig=aa;").is_none());
    assert!(parse_signature("ts=1;sig=xyz").is_none());
    assert!(parse_signature("ts=+1;sig=aa").is_none());
    assert!(parse_signature("").is_none());
}

#[test]
fn one_byte_tag_on_stale_webhook_is_invalid_signature() {
    let opts = VerifyOptions {
        tolerance: Duration::from_secs(300),
        now: Some(1_000_000),
    };
    assert_eq!(
        verify(br#"{"event":"a"}"#, Some("ts=1;sig=00"), "whsec_test", &opts),
        Err(WebhookError::InvalidSignature)
    );
}
