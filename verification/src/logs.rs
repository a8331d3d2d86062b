//! Log entries and the rules of batch writing.

use vstd::prelude::*;

use crate::error::Error;
use crate::text::{decimal, push_decimal};
use crate::types::LogLevel;

verus! {

/// Server-side cap on entries per batch request.
pub const MAX_BATCH_ENTRIES: usize = 100;

impl LogLevel {
    /// The level's name on the wire (lower case).
    pub open spec fn wire_name(self) -> Seq<char> {
        match self {
            LogLevel::Debug => "debug"@,
            LogLevel::Info => "info"@,
            LogLevel::Notice => "notice"@,
            LogLevel::Warning => "warning"@,
            LogLevel::Error => "error"@,
            LogLevel::Critical => "critical"@,
            LogLevel::Alert => "alert"@,
            LogLevel::Emergency => "emergency"@,
        }
    }

    /// The level's name on the wire (lower case).
    pub fn as_str(&self) -> (s: &'static str)
        ensures
            s@ == self.wire_name(),
    {
        match self {
            LogLevel::Debug => "debug",
            LogLevel::Info => "info",
            LogLevel::Notice => "notice",
            LogLevel::Warning => "warning",
            LogLevel::Error => "error",
            LogLevel::Critical => "critical",
            LogLevel::Alert => "alert",
            LogLevel::Emergency => "emergency",
        }
    }
}

/// A single entry of a batch write.
#[derive(Debug)]
pub struct LogEntryInput {
    /// Severity level.
    pub level: LogLevel,
    /// The log message.
    pub message: String,
    /// Optional structured context, shown beside the entry in the dashboard.
    pub context: Option<serde_json::Value>,
    /// Optional ISO 8601 timestamp; when omitted the server stamps the entry on receipt.
    pub timestamp: Option<String>,
}

impl LogEntryInput {
    /// Builds an entry without a timestamp; parameter order matches a single write.
    pub fn new(level: LogLevel, message: &str, context: Option<serde_json::Value>) -> (e: Self)
        ensures
            e.level == level,
            e.message@ == message@,
            e.context == context,
            e.timestamp is None,
    {
        LogEntryInput { level, message: message.to_owned(), context, timestamp: None }
    }

    /// Attaches an explicit ISO 8601 timestamp in place of the server's receipt time.
    pub fn timestamp(self, timestamp: &str) -> (e: Self)
        ensures
            e.level == self.level,
            e.message == self.message,
            e.context == self.context,
            e.timestamp matches Some(t) && t@ == timestamp@,
    {
        LogEntryInput { timestamp: Some(timestamp.to_owned()), ..self }
    }
}

/// The message of the error for a batch of `len` entries, too many to send.
pub open spec fn too_many_entries_message(len: nat) -> Seq<char> {
    "write_batch accepts at most "@ + decimal(MAX_BATCH_ENTRIES as nat) + " entries per request, got "@
        + decimal(len)
}

/// Whether a batch of `len` entries is sent: an empty batch sends nothing
/// (`Ok(false)`), up to 100 entries are sent in one request (`Ok(true)`),
/// more fail before any request with a client-side `Api` error of status 0.
pub fn check_batch(len: usize) -> (r: Result<bool, Error>)
    ensures
        len == 0 ==> r == Ok::<bool, Error>(false),
        0 < len <= MAX_BATCH_ENTRIES ==> r == Ok::<bool, Error>(true),
        len > MAX_BATCH_ENTRIES ==> (r matches Err(Error::Api { status, message, body }) && status
            == 0 && message@ == too_many_entries_message(len as nat) && body is None),
{
    if len == 0 {
        return Ok(false);
    }
    if len > MAX_BATCH_ENTRIES {
        let mut message = String::new();
        message.push_str("write_batch accepts at most ");
        push_decimal(&mut message, MAX_BATCH_ENTRIES as u64);
        message.push_str(" entries per request, got ");
        push_decimal(&mut message, len as u64);
        return Err(Error::Api { status: 0, message, body: None });
    }
    Ok(true)
}

/// The end of the chunk that starts at `start` in `len` entries.
pub open spec fn chunk_end(start: int, len: int) -> int {
    if start + MAX_BATCH_ENTRIES <= len {
        start + MAX_BATCH_ENTRIES
    } else {
        len
    }
}

/// Splits `len` buffered entries into consecutive ranges of at most 100
/// entries each, in order, covering every entry once (as `slice::chunks`).
pub fn batch_ranges(len: usize) -> (r: Vec<(usize, usize)>)
    ensures
        r@.len() == (len + MAX_BATCH_ENTRIES - 1) / MAX_BATCH_ENTRIES as int,
        forall|k: int|
            0 <= k < r@.len() ==> (#[trigger] r@[k]).0 == k * MAX_BATCH_ENTRIES && r@[k].1
                == chunk_end(k * MAX_BATCH_ENTRIES, len as int),
        forall|k: int| 0 <= k < r@.len() ==> (#[trigger] r@[k]).0 < r@[k].1,
        forall|k: int| 0 <= k < r@.len() ==> (#[trigger] r@[k]).1 - r@[k].0 <= MAX_BATCH_ENTRIES,
{
    let mut r: Vec<(usize, usize)> = Vec::new();
    let mut start: usize = 0;
    while start < len
        invariant
            start <= len,
            start == len || start == r@.len() * MAX_BATCH_ENTRIES,
            start <= r@.len() * MAX_BATCH_ENTRIES,
            forall|k: int|
                0 <= k < r@.len() ==> (#[trigger] r@[k]).0 == k * MAX_BATCH_ENTRIES && r@[k].1
                    == chunk_end(k * MAX_BATCH_ENTRIES, len as int),
            r@.len() * MAX_BATCH_ENTRIES < len + MAX_BATCH_ENTRIES,
        decreases len - start,
    {
        let end = if len - start >= MAX_BATCH_ENTRIES { start + MAX_BATCH_ENTRIES } else { len };
        r.push((start, end));
        start = end;
    }
    r
}


/// Number of entries in chunk `k` of `len` buffered entries.
pub open spec fn chunk_len(k: int, len: int) -> int {
    chunk_end(k * MAX_BATCH_ENTRIES, len) - k * MAX_BATCH_ENTRIES
}

/// Entries lost when the chunks `k` with `failed[k]` could not be delivered.
pub open spec fn failed_entries(len: int, failed: Seq<bool>) -> int
    decreases failed.len(),
{
    if failed.len() == 0 {
        0
    } else {
        failed_entries(len, failed.drop_last()) + if failed.last() {
            chunk_len(failed.len() - 1, len)
        } else {
            0
        }
    }
}

proof fn lemma_failed_entries_bounds(len: int, failed: Seq<bool>)
    requires
        0 <= len,
        failed.len() * MAX_BATCH_ENTRIES < len + MAX_BATCH_ENTRIES,
    ensures
        0 <= failed_entries(len, failed) <= if failed.len() * MAX_BATCH_ENTRIES <= len {
            failed.len() * MAX_BATCH_ENTRIES
        } else {
            len
        },
        (forall|k: int| 0 <= k < failed.len() ==> #[trigger] failed[k]) ==> failed_entries(len, failed)
            == if failed.len() * MAX_BATCH_ENTRIES <= len {
            failed.len() * MAX_BATCH_ENTRIES
        } else {
            len
        },
        (forall|k: int| 0 <= k < failed.len() ==> !#[trigger] failed[k]) ==> failed_entries(len, failed)
            == 0,
    decreases failed.len(),
{
    if failed.len() > 0 {
        let prev = failed.drop_last();
        let m = failed.len() as int;
        assert(MAX_BATCH_ENTRIES == 100);
        assert((m - 1) * 100 + 100 == m * 100);
        assert(prev.len() * MAX_BATCH_ENTRIES == (m - 1) * 100);
        assert(failed.len() * MAX_BATCH_ENTRIES == m * 100);
        lemma_failed_entries_bounds(len, prev);
        assert forall|k: int| 0 <= k < prev.len() implies #[trigger] prev[k] == failed[k] by {}
        assert(failed.last() == failed[failed.len() - 1]);
    }
}

/// The failure of chunk `k` costs exactly the entries of that chunk, the
/// `k`-th range of `batch_ranges`, `[100 k, min(100 k + 100, len))`: the
/// loss with chunk `k` failed is the loss with it delivered plus its length.
pub proof fn lemma_failed_chunk_counts(len: nat, failed: Seq<bool>, k: int)
    requires
        0 <= k < failed.len(),
    ensures
        failed_entries(len as int, failed) == failed_entries(len as int, failed.update(k, false)) + if failed[k] {
            if 100 * k + 100 <= len {
                100
            } else {
                len - 100 * k
            }
        } else {
            0
        },
    decreases failed.len(),
{
    let upd = failed.update(k, false);
    let m = failed.len() - 1;
    assert(upd.len() == failed.len());
    if k == m {
        assert(upd.drop_last() == failed.drop_last());
        assert(upd.last() == false);
    } else {
        assert(upd.drop_last() == failed.drop_last().update(k, false));
        assert(upd.last() == failed.last());
        lemma_failed_chunk_counts(len, failed.drop_last(), k);
    }
}

/// Nothing is lost when every chunk is delivered.
pub proof fn lemma_no_failed_chunk_loses_nothing(len: nat, failed: Seq<bool>)
    requires
        forall|k: int| 0 <= k < failed.len() ==> !#[trigger] failed[k],
    ensures
        failed_entries(len as int, failed) == 0,
    decreases failed.len(),
{
    if failed.len() > 0 {
        let prev = failed.drop_last();
        assert forall|k: int| 0 <= k < prev.len() implies !#[trigger] prev[k] by {
            assert(prev[k] == failed[k]);
        }
        assert(!failed[failed.len() - 1]);
        lemma_no_failed_chunk_loses_nothing(len, prev);
    }
}

/// The entries lost by a flush of `len` entries whose chunks (as
/// `batch_ranges` gives them) failed where `failed` says: the total length
/// of the failed chunks. All of them when every chunk failed, none when none did.
pub fn lost_entries(len: usize, failed: &Vec<bool>) -> (n: u64)
    requires
        failed@.len() == (len + MAX_BATCH_ENTRIES - 1) / MAX_BATCH_ENTRIES as int,
    ensures
        n as int == failed_entries(len as int, failed@),
        n <= len,
        (forall|k: int| 0 <= k < failed@.len() ==> #[trigger] failed@[k]) ==> n == len,
        (forall|k: int| 0 <= k < failed@.len() ==> !#[trigger] failed@[k]) ==> n == 0,
{
    let mut n: usize = 0;
    let mut k: usize = 0;
    proof {
        lemma_failed_entries_bounds(len as int, failed@);
    }
    while k < failed.len()
        invariant
            k <= failed@.len(),
            failed@.len() == (len + MAX_BATCH_ENTRIES - 1) / MAX_BATCH_ENTRIES as int,
            n as int == failed_entries(len as int, failed@.take(k as int)),
            n <= len,
        decreases failed.len() - k,
    {
        proof {
            let next = failed@.take(k + 1);
            assert(next.drop_last() == failed@.take(k as int));
            assert(next.last() == failed@[k as int]);
            assert(next.len() * MAX_BATCH_ENTRIES < len + MAX_BATCH_ENTRIES);
            lemma_failed_entries_bounds(len as int, next);
        }
        if failed[k] {
            let start = k * MAX_BATCH_ENTRIES;
            let end = if len - start >= MAX_BATCH_ENTRIES { start + MAX_BATCH_ENTRIES } else { len };
            n = n + (end - start);
        }
        k = k + 1;
    }
    proof {
        assert(failed@.take(k as int) == failed@);
    }
    n as u64
}

} // verus!
