//! The decision logic of the log shipper that forwards `tracing` events:
//! event timestamps, level mapping, and when buffered entries are flushed.

use vstd::prelude::*;

use crate::calendar::{civil_date, civil_from_days, lemma_civil_date, lemma_civil_date_year_below_10000};
use crate::text::{lemma_zero_padded_len, pow10, push_zero_padded, zero_padded};
use crate::time::{nanos_per_sec, Duration};
use crate::types::LogLevel;

verus! {

/// RFC 3339 / ISO 8601 UTC text of the instant `secs` seconds and `millis`
/// milliseconds after the Unix epoch, e.g. `2026-07-12T10:15:30.123Z`.
pub open spec fn rfc3339_text(secs: nat, millis: nat) -> Seq<char> {
    let date = civil_date((secs / 86400) as int);
    zero_padded(date.0 as nat, 4) + seq!['-'] + zero_padded(date.1 as nat, 2) + seq!['-']
        + zero_padded(date.2 as nat, 2) + seq!['T'] + zero_padded(secs / 3600 % 24, 2) + seq![':']
        + zero_padded(secs / 60 % 60, 2) + seq![':'] + zero_padded(secs % 60, 2) + seq!['.']
        + zero_padded(millis, 3) + seq!['Z']
}

/// Up to the end of year 9999 the text is 24 characters long:
/// `YYYY-MM-DDTHH:MM:SS.mmmZ`.
pub proof fn lemma_rfc3339_length(secs: nat, millis: nat)
    requires
        secs < 253_402_300_800,
        millis < 1000,
    ensures
        rfc3339_text(secs, millis).len() == 24,
{
    let days = (secs / 86400) as int;
    lemma_civil_date(days);
    lemma_civil_date_year_below_10000(days);
    let date = civil_date(days);
    reveal_with_fuel(pow10, 5);
    lemma_zero_padded_len(date.0 as nat, 4);
    lemma_zero_padded_len(date.1 as nat, 2);
    lemma_zero_padded_len(date.2 as nat, 2);
    lemma_zero_padded_len(secs / 3600 % 24, 2);
    lemma_zero_padded_len(secs / 60 % 60, 2);
    lemma_zero_padded_len(secs % 60, 2);
    lemma_zero_padded_len(millis, 3);
}

/// Formats the instant `since_epoch` after the Unix epoch as RFC 3339 UTC
/// text with millisecond precision, e.g. `2026-07-12T10:15:30.123Z`.
pub fn format_rfc3339(since_epoch: Duration) -> (text: String)
    ensures
        text@ == rfc3339_text(
            since_epoch@ / nanos_per_sec(),
            (since_epoch@ % nanos_per_sec()) / 1_000_000,
        ),
{
    let secs = since_epoch.as_secs();
    let millis = since_epoch.subsec_millis();
    let (year, month, day) = civil_from_days(secs / 86_400);
    let mut text = String::new();
    push_zero_padded(&mut text, year, 4);
    text.push('-');
    push_zero_padded(&mut text, month, 2);
    text.push('-');
    push_zero_padded(&mut text, day, 2);
    text.push('T');
    push_zero_padded(&mut text, secs / 3600 % 24, 2);
    text.push(':');
    push_zero_padded(&mut text, secs / 60 % 60, 2);
    text.push(':');
    push_zero_padded(&mut text, secs % 60, 2);
    text.push('.');
    push_zero_padded(&mut text, millis as u64, 3);
    text.push('Z');
    proof {
        assert(text@ == rfc3339_text(secs as nat, millis as nat));
    }
    text
}


/// The five levels of a `tracing` event.
#[derive(Debug, Clone, Copy, PartialEq, Eq, Structural)]
pub enum TraceLevel {
    Trace,
    Debug,
    Info,
    Warn,
    Error,
}

/// Maps a `tracing` level onto the RFC 5424 levels of confish:
/// `TRACE` and `DEBUG` to `debug`, `INFO` to `info`, `WARN` to `warning`,
/// `ERROR` to `error`.
pub fn map_level(level: TraceLevel) -> (l: LogLevel)
    ensures
        l == match level {
            TraceLevel::Trace => LogLevel::Debug,
            TraceLevel::Debug => LogLevel::Debug,
            TraceLevel::Info => LogLevel::Info,
            TraceLevel::Warn => LogLevel::Warning,
            TraceLevel::Error => LogLevel::Error,
        },
{
    match level {
        TraceLevel::Error => LogLevel::Error,
        TraceLevel::Warn => LogLevel::Warning,
        TraceLevel::Info => LogLevel::Info,
        _ => LogLevel::Debug,
    }
}

/// The tunable settings of the log shipper.
#[derive(Debug, Clone, Copy)]
pub struct ShipperSettings {
    /// Capacity of the bounded queue between events and the background sender.
    pub capacity: usize,
    /// Number of buffered entries that triggers a flush.
    pub flush_after: usize,
    /// How often buffered entries are flushed even below `flush_after`.
    pub flush_interval: Duration,
    /// How long dropping the guard waits for the final flush.
    pub shutdown_timeout: Duration,
}

impl ShipperSettings {
    /// The defaults: a queue of 1000, a flush at 50 entries or every 5 seconds,
    /// and a 5 second shutdown wait.
    pub fn new() -> (s: Self)
        ensures
            s.capacity == 1000,
            s.flush_after == 50,
            s.flush_interval@ == 5 * nanos_per_sec(),
            s.shutdown_timeout@ == 5 * nanos_per_sec(),
    {
        ShipperSettings {
            capacity: 1000,
            flush_after: 50,
            flush_interval: Duration::from_secs(5),
            shutdown_timeout: Duration::from_secs(5),
        }
    }

    /// The settings the shipper runs with: capacity and flush threshold at
    /// least 1, flush interval at least 1 millisecond.
    pub fn effective(self) -> (s: Self)
        ensures
            s.capacity == if self.capacity == 0 { 1 } else { self.capacity },
            s.flush_after == if self.flush_after == 0 { 1 } else { self.flush_after },
            s.flush_interval@ == if self.flush_interval@ >= 1_000_000 {
                self.flush_interval@
            } else {
                1_000_000
            },
            s.shutdown_timeout == self.shutdown_timeout,
    {
        ShipperSettings {
            capacity: if self.capacity == 0 { 1 } else { self.capacity },
            flush_after: if self.flush_after == 0 { 1 } else { self.flush_after },
            flush_interval: self.flush_interval.max(Duration::from_millis(1)),
            shutdown_timeout: self.shutdown_timeout,
        }
    }
}

/// Whether the buffer is flushed right after an entry arrives: once it
/// holds `flush_after` entries or more.
pub fn flush_on_arrival(buffered: usize, flush_after: usize) -> (f: bool)
    ensures
        f == (buffered >= flush_after),
{
    buffered >= flush_after
}

/// Whether the buffer is flushed when the flush interval elapses: when it holds anything.
pub fn flush_on_tick(buffered: usize) -> (f: bool)
    ensures
        f == (buffered > 0),
{
    buffered > 0
}

/// The count of undelivered entries after `lost` more were lost, as the
/// shipper's atomic counter keeps it (wrapping at 2^64).
pub fn add_dropped(dropped: u64, lost: u64) -> (n: u64)
    ensures
        n as int == (dropped as int + lost as int) % 0x1_0000_0000_0000_0000,
{
    dropped.wrapping_add(lost)
}

} // verus!
