use confish::actions::{
    backoff_delay, consumer_step, effective_concurrency, handler_failure, pending_indices,
    process_step, ConsumerAction, PollOutcome, ProcessAction, ProcessEvent, ProcessStage,
};
use confish::error::Error;
use confish::feeds::{wire_ttl, FeedItemInput, FeedReplaceResult};
use confish::logs::{batch_ranges, check_batch, lost_entries, LogEntryInput, MAX_BATCH_ENTRIES};
use confish::time::Duration;
use confish::types::{ActionStatus, LogLevel};

#[test]
fn backoff_holds_then_doubles_to_cap() {
    let base = Duration::from_secs(15);
    let max = Duration::from_secs(60);
    for polls in 0..=3 {
        assert_eq!(backoff_delay(polls, base, max), base);
    }
    assert_eq!(backoff_delay(4, base, max), Duration::from_secs(30));
    assert_eq!(backoff_delay(5, base, max), Duration::from_secs(60));
    assert_eq!(backoff_delay(6, base, max), Duration::from_secs(60));
    assert_eq!(backoff_delay(u32::MAX, base, max), Duration::from_secs(60));
    // The shift is capped at 20 doublings.
    let unbounded = Duration::from_secs(u64::MAX);
    assert_eq!(
        backoff_delay(23, Duration::from_secs(1), unbounded),
        Duration::from_secs(1 << 20)
    );
    assert_eq!(
        backoff_delay(40, Duration::from_secs(1), unbounded),
        Duration::from_secs(1 << 20)
    );
    // A base above the cap is kept for the first three polls.
    assert_eq!(backoff_delay(3, max, base), max);
    assert_eq!(backoff_delay(4, max, base), base);
}

#[test]
fn consumer_steps() {
    let base = Duration::from_secs(15);
    let max = Duration::from_secs(60);
    assert_eq!(
        consumer_step(3, PollOutcome::NothingPending, base, max),
        (4, ConsumerAction::Sleep(Duration::from_secs(30)))
    );
    assert_eq!(
        consumer_step(4, PollOutcome::ListFailed, base, max),
        (4, ConsumerAction::Sleep(Duration::from_secs(30)))
    );
    assert_eq!(
        consumer_step(9, PollOutcome::FoundPending, base, max),
        (0, ConsumerAction::Process)
    );
    assert_eq!(
        consumer_step(u32::MAX, PollOutcome::NothingPending, base, max).0,
        u32::MAX
    );
    assert_eq!(effective_concurrency(0), 1);
    assert_eq!(effective_concurrency(4), 4);
}

#[test]
fn picks_pending_actions_in_order() {
    let statuses = vec![
        ActionStatus::Pending,
        ActionStatus::Acknowledged,
        ActionStatus::Pending,
        ActionStatus::Expired,
        ActionStatus::Completed,
        ActionStatus::Failed,
        ActionStatus::Pending,
    ];
    assert_eq!(pending_indices(&statuses), vec![0, 2, 6]);
    assert!(pending_indices(&Vec::new()).is_empty());
}

#[test]
fn write_batch_limits() {
    assert_eq!(MAX_BATCH_ENTRIES, 100);
    assert!(matches!(check_batch(0), Ok(false)));
    assert!(matches!(check_batch(1), Ok(true)));
    assert!(matches!(check_batch(100), Ok(true)));
    match check_batch(101) {
        Err(Error::Api { status, message, body }) => {
            assert_eq!(status, 0);
            assert_eq!(
                message,
                "write_batch accepts at most 100 entries per request, got 101"
            );
            assert!(body.is_none());
        }
        other => panic!("expected Api, got {other:?}"),
    }
}

#[test]
fn chunks_flushes_to_at_most_100_entries_per_request() {
    assert_eq!(batch_ranges(250), vec![(0, 100), (100, 200), (200, 250)]);
    assert_eq!(batch_ranges(100), vec![(0, 100)]);
    assert_eq!(batch_ranges(1), vec![(0, 1)]);
    assert!(batch_ranges(0).is_empty());
}

#[test]
fn log_entries() {
    let entry = LogEntryInput::new(LogLevel::Warning, "Two pages timed out", None)
        .timestamp("2026-07-10T08:30:00Z");
    assert_eq!(entry.level, LogLevel::Warning);
    assert_eq!(entry.message, "Two pages timed out");
    assert!(entry.context.is_none());
    assert_eq!(entry.timestamp.as_deref(), Some("2026-07-10T08:30:00Z"));
    let names: Vec<&str> = [
        LogLevel::Debug,
        LogLevel::Info,
        LogLevel::Notice,
        LogLevel::Warning,
        LogLevel::Error,
        LogLevel::Critical,
        LogLevel::Alert,
        LogLevel::Emergency,
    ]
    .iter()
    .map(|l| l.as_str())
    .collect();
    assert_eq!(
        names,
        ["debug", "info", "notice", "warning", "error", "critical", "alert", "emergency"]
    );
}

#[test]
fn feed_items_send_ttl_in_whole_seconds() {
    let item = FeedItemInput::new("db-backup", 7u32, Some(Duration::from_secs(3600)));
    assert_eq!(item.external_id, "db-backup");
    assert_eq!(item.data, 7);
    assert_eq!(item.ttl_secs(), Some(3600));
    let permanent = FeedItemInput::new("sitemap-crawl", (), None);
    assert_eq!(permanent.ttl_secs(), None);
    assert_eq!(wire_ttl(Some(Duration::from_millis(86_400_999))), Some(86_400));
    let counts = FeedReplaceResult {
        created: 1,
        updated: 2,
        deleted: 3,
    };
    assert_eq!(counts.created + counts.updated + counts.deleted, 6);
}

#[test]
fn process_steps_follow_the_consumer_rules() {
    assert_eq!(process_step(ProcessStage::Acknowledging, ProcessEvent::AckOk), (ProcessStage::Handling, ProcessAction::RunHandler, false));
    assert_eq!(
        process_step(ProcessStage::Acknowledging, ProcessEvent::AckFailed { conflict: true }),
        (ProcessStage::Done, ProcessAction::Stop, false)
    );
    assert_eq!(
        process_step(ProcessStage::Acknowledging, ProcessEvent::AckFailed { conflict: false }),
        (ProcessStage::Done, ProcessAction::Stop, true)
    );
    assert_eq!(process_step(ProcessStage::Handling, ProcessEvent::HandlerOk), (ProcessStage::Finalizing, ProcessAction::Complete, false));
    assert_eq!(process_step(ProcessStage::Handling, ProcessEvent::HandlerFailed), (ProcessStage::Finalizing, ProcessAction::Fail, true));
    assert_eq!(process_step(ProcessStage::Finalizing, ProcessEvent::FinalizeOk), (ProcessStage::Done, ProcessAction::Stop, false));
    assert_eq!(process_step(ProcessStage::Finalizing, ProcessEvent::FinalizeFailed), (ProcessStage::Done, ProcessAction::Stop, true));
    assert_eq!(process_step(ProcessStage::Done, ProcessEvent::AckOk), (ProcessStage::Done, ProcessAction::Stop, false));
    match handler_failure("boom".to_string()) {
        Error::Api { status, message, body } => {
            assert_eq!(status, 0);
            assert_eq!(message, "boom");
            assert!(body.is_none());
        }
        other => panic!("expected Api, got {other:?}"),
    }
}

#[test]
fn failed_chunks_count_their_entries_as_dropped() {
    assert_eq!(lost_entries(250, &vec![true, false, true]), 150);
    assert_eq!(lost_entries(250, &vec![true, true, true]), 250);
    assert_eq!(lost_entries(250, &vec![false, false, false]), 0);
    assert_eq!(lost_entries(100, &vec![true]), 100);
    assert_eq!(lost_entries(0, &vec![]), 0);
}
