//! Decisions of the long-running action consumer: which listed actions to
//! pick up, and how long to sleep between polls.

use vstd::prelude::*;

use crate::error::Error;
use crate::time::{max_duration_nanos, Duration};
use crate::types::ActionStatus;

verus! {

/// `2^k`.
pub open spec fn pow2(k: nat) -> nat
    decreases k,
{
    if k == 0 {
        1
    } else {
        2 * pow2((k - 1) as nat)
    }
}

/// `d` scaled by `factor`, saturating at the longest representable duration.
pub open spec fn saturating_scale(d: nat, factor: nat) -> nat {
    if d * factor <= max_duration_nanos() {
        d * factor
    } else {
        max_duration_nanos()
    }
}

/// The delay before the next poll after `empty_polls` consecutive empty
/// polls: `base` for the first three, then doubling with each further empty
/// poll (at most `2^20` times `base`), capped at `max`.
pub open spec fn backoff_delay_spec(empty_polls: nat, base: nat, max: nat) -> nat {
    if empty_polls <= 3 {
        base
    } else {
        let shift = if empty_polls - 3 <= 20 { (empty_polls - 3) as nat } else { 20 };
        let candidate = saturating_scale(base, pow2(shift));
        if candidate <= max {
            candidate
        } else {
            max
        }
    }
}

/// Holds at `base` for the first 3 empty polls, then doubles each subsequent
/// empty poll, up to `max`.
pub fn backoff_delay(empty_polls: u32, base: Duration, max: Duration) -> (d: Duration)
    ensures
        d@ == backoff_delay_spec(empty_polls as nat, base@, max@),
{
    if empty_polls <= 3 {
        return base;
    }
    let shift = if empty_polls - 3 < 20 { empty_polls - 3 } else { 20 };
    let mut factor: u32 = 1;
    let mut i: u32 = 0;
    while i < shift
        invariant
            i <= shift <= 20,
            factor as nat == pow2(i as nat),
            factor <= 0x10_0000,
        decreases shift - i,
    {
        proof {
            assert(pow2((i + 1) as nat) == 2 * pow2(i as nat));
            lemma_pow2_bound((i + 1) as nat);
        }
        factor = factor * 2;
        i = i + 1;
    }
    let candidate = base.saturating_mul(factor);
    candidate.min(max)
}

proof fn lemma_pow2_bound(k: nat)
    requires
        k <= 20,
    ensures
        pow2(k) <= 0x10_0000,
        pow2(k) >= 1,
    decreases k,
{
    reveal_with_fuel(pow2, 21);
    if k > 0 {
        lemma_pow2_bound((k - 1) as nat);
    }
}

proof fn lemma_pow2_monotone(a: nat, b: nat)
    requires
        a <= b,
    ensures
        pow2(a) <= pow2(b),
    decreases b,
{
    if a < b {
        lemma_pow2_monotone(a, (b - 1) as nat);
    }
}

/// Once past the first three empty polls, the delay never shrinks while the
/// polls stay empty, and it never exceeds the cap.
pub proof fn lemma_backoff_grows_to_cap(a: nat, b: nat, base: nat, max: nat)
    requires
        3 < a <= b,
    ensures
        backoff_delay_spec(a, base, max) <= backoff_delay_spec(b, base, max),
        backoff_delay_spec(b, base, max) <= max,
{
    let sa = if a - 3 <= 20 { (a - 3) as nat } else { 20 };
    let sb = if b - 3 <= 20 { (b - 3) as nat } else { 20 };
    lemma_pow2_monotone(sa, sb);
    assert(base * pow2(sa) <= base * pow2(sb)) by (nonlinear_arith)
        requires
            pow2(sa) <= pow2(sb),
    ;
}

/// Each further empty poll past the third doubles the delay, up to the cap:
/// the delay after `n + 1` empty polls is twice the delay after `n`, or
/// `max` when that is less, for `3 <= n < 23`; from then on (the doubling
/// stops at `2^20` times `base`) it stays the same.
pub proof fn lemma_backoff_doubles(n: nat, base: Duration, max: Duration)
    requires
        n >= 3,
    ensures
        n < 23 ==> backoff_delay_spec(n + 1, base@, max@) == if 2 * backoff_delay_spec(n, base@, max@)
            <= max@ {
            2 * backoff_delay_spec(n, base@, max@)
        } else {
            max@
        },
        n >= 23 ==> backoff_delay_spec(n + 1, base@, max@) == backoff_delay_spec(n, base@, max@),
{
    Duration::lemma_bounded(base);
    Duration::lemma_bounded(max);
    let b = base@;
    let m = max@;
    let top = max_duration_nanos();
    if n < 23 {
        let k = (n - 3) as nat;
        assert(pow2(k + 1) == 2 * pow2(k));
        assert(b * pow2(k + 1) == 2 * (b * pow2(k))) by (nonlinear_arith)
            requires
                pow2(k + 1) == 2 * pow2(k),
        ;
        if n == 3 {
            assert(pow2(0) == 1);
            assert(pow2(1) == 2) by {
                reveal_with_fuel(pow2, 2);
            }
            assert(b * 2 == 2 * b);
        }
    }
}

/// The default base delay between polls: 15 seconds.
pub fn default_poll_interval() -> (d: Duration)
    ensures
        d@ == 15 * crate::time::nanos_per_sec(),
{
    Duration::from_secs(15)
}

/// The default cap on the backoff delay: 60 seconds.
pub fn default_max_poll_interval() -> (d: Duration)
    ensures
        d@ == 60 * crate::time::nanos_per_sec(),
{
    Duration::from_secs(60)
}

/// Processing work resets the backoff: a poll that finds pending actions
/// resets the count of empty polls, so the next three empty polls wait the
/// base delay again, whatever the count was before.
pub proof fn lemma_backoff_resets_after_work(empty_polls: nat, base: nat, max: nat)
    ensures
        forall|k: nat| k <= 3 ==> #[trigger] backoff_delay_spec(k, base, max) == base,
        backoff_delay_spec(empty_polls, base, max) <= if empty_polls <= 3 { base } else { max },
{
    if empty_polls > 3 {
        lemma_backoff_grows_to_cap(empty_polls, empty_polls, base, max);
    }
}

/// Indices of the actions whose status is pending, in order.
pub fn pending_indices(statuses: &Vec<ActionStatus>) -> (idx: Vec<usize>)
    ensures
        forall|k: int| 0 <= k < idx@.len() ==> (#[trigger] idx@[k]) < statuses@.len()
            && statuses@[idx@[k] as int] == ActionStatus::Pending,
        forall|k: int, l: int| 0 <= k < l < idx@.len() ==> idx@[k] < idx@[l],
        forall|j: int|
            0 <= j < statuses@.len() && statuses@[j] == ActionStatus::Pending ==> idx@.contains(
                j as usize,
            ),
{
    let mut idx: Vec<usize> = Vec::new();
    let mut i: usize = 0;
    while i < statuses.len()
        invariant
            i <= statuses.len(),
            forall|k: int| 0 <= k < idx@.len() ==> (#[trigger] idx@[k]) < i
                && statuses@[idx@[k] as int] == ActionStatus::Pending,
            forall|k: int, l: int| 0 <= k < l < idx@.len() ==> idx@[k] < idx@[l],
            forall|j: int|
                0 <= j < i && statuses@[j] == ActionStatus::Pending ==> idx@.contains(j as usize),
        decreases statuses.len() - i,
    {
        let ghost before = idx@;
        if statuses[i] == ActionStatus::Pending {
            idx.push(i);
            proof {
                assert(idx@[idx@.len() - 1] == i);
                assert forall|j: int|
                    0 <= j < i && statuses@[j] == ActionStatus::Pending implies idx@.contains(
                    j as usize,
                ) by {
                    let k = choose|k: int| 0 <= k < before.len() && before[k] == j as usize;
                    assert(idx@[k] == j as usize);
                }
            }
        }
        i = i + 1;
    }
    idx
}

/// What the consumer learned from one poll of the action list.
#[derive(Debug, Clone, Copy, PartialEq, Eq, Structural)]
pub enum PollOutcome {
    /// Listing the actions failed.
    ListFailed,
    /// The list held no pending action.
    NothingPending,
    /// The list held at least one pending action.
    FoundPending,
}

/// What the consumer does after a poll.
#[derive(Debug, Clone, Copy, PartialEq, Eq)]
pub enum ConsumerAction {
    /// Sleep this long (or until cancelled), then poll again.
    Sleep(Duration),
    /// Hand the pending actions to handlers.
    Process,
}

/// The consumer's next count of consecutive empty polls and its next action
/// after a poll with `outcome`: a failed listing keeps the count and backs
/// off; an empty list counts one more empty poll (saturating) and backs off;
/// pending actions reset the count and are processed.
pub fn consumer_step(empty_polls: u32, outcome: PollOutcome, base: Duration, max: Duration) -> (r: (
    u32,
    ConsumerAction,
))
    ensures
        match outcome {
            PollOutcome::ListFailed => {
                &&& r.0 == empty_polls
                &&& r.1 matches ConsumerAction::Sleep(d)
                &&& d@ == backoff_delay_spec(empty_polls as nat, base@, max@)
            },
            PollOutcome::NothingPending => {
                &&& r.0 == if empty_polls == u32::MAX { empty_polls as int } else { empty_polls + 1 }
                &&& r.1 matches ConsumerAction::Sleep(d)
                &&& d@ == backoff_delay_spec(r.0 as nat, base@, max@)
            },
            PollOutcome::FoundPending => r.0 == 0 && r.1 is Process,
        },
{
    match outcome {
        PollOutcome::ListFailed => (empty_polls, ConsumerAction::Sleep(backoff_delay(empty_polls, base, max))),
        PollOutcome::NothingPending => {
            let next = empty_polls.saturating_add(1);
            (next, ConsumerAction::Sleep(backoff_delay(next, base, max)))
        },
        PollOutcome::FoundPending => (0, ConsumerAction::Process),
    }
}

/// The number of actions handled at once: the configured concurrency, at least 1.
pub fn effective_concurrency(concurrency: usize) -> (n: usize)
    ensures
        n == if concurrency == 0 { 1 } else { concurrency },
{
    if concurrency == 0 {
        1
    } else {
        concurrency
    }
}


/// Where the processing of one picked-up action stands.
#[derive(Debug, Clone, Copy, PartialEq, Eq, Structural)]
pub enum ProcessStage {
    /// The action is being acknowledged.
    Acknowledging,
    /// The handler is running.
    Handling,
    /// The action is being completed or failed.
    Finalizing,
    /// Nothing more is done with the action.
    Done,
}

/// What happened at the current stage.
#[derive(Debug, Clone, Copy, PartialEq, Eq, Structural)]
pub enum ProcessEvent {
    /// The acknowledgement succeeded.
    AckOk,
    /// The acknowledgement failed; `conflict` when with HTTP 409.
    AckFailed { conflict: bool },
    /// The handler returned a result.
    HandlerOk,
    /// The handler returned an error.
    HandlerFailed,
    /// Completing or failing the action succeeded.
    FinalizeOk,
    /// Completing or failing the action failed.
    FinalizeFailed,
}

/// What the consumer does next with the action.
#[derive(Debug, Clone, Copy, PartialEq, Eq, Structural)]
pub enum ProcessAction {
    /// Run the handler on the acknowledged action.
    RunHandler,
    /// Complete the action with the handler's result.
    Complete,
    /// Fail the action with `{"error": <handler message>}`.
    Fail,
    /// Stop: nothing more to send.
    Stop,
}

/// The processing rules of one action: an acknowledged action runs the
/// handler; a failed acknowledgement stops, reported unless it was a 409
/// conflict (another consumer claimed the action); a handler result
/// completes the action, a handler error fails it and is reported; once
/// acknowledged the action is always completed or failed, and a failure to
/// do so is reported. The third component says whether the error callback
/// is called. Events that do not belong to the stage stop silently.
pub open spec fn process_step_spec(stage: ProcessStage, event: ProcessEvent) -> (
    ProcessStage,
    ProcessAction,
    bool,
) {
    match (stage, event) {
        (ProcessStage::Acknowledging, ProcessEvent::AckOk) => (
            ProcessStage::Handling,
            ProcessAction::RunHandler,
            false,
        ),
        (ProcessStage::Acknowledging, ProcessEvent::AckFailed { conflict }) => (
            ProcessStage::Done,
            ProcessAction::Stop,
            !conflict,
        ),
        (ProcessStage::Handling, ProcessEvent::HandlerOk) => (
            ProcessStage::Finalizing,
            ProcessAction::Complete,
            false,
        ),
        (ProcessStage::Handling, ProcessEvent::HandlerFailed) => (
            ProcessStage::Finalizing,
            ProcessAction::Fail,
            true,
        ),
        (ProcessStage::Finalizing, ProcessEvent::FinalizeOk) => (
            ProcessStage::Done,
            ProcessAction::Stop,
            false,
        ),
        (ProcessStage::Finalizing, ProcessEvent::FinalizeFailed) => (
            ProcessStage::Done,
            ProcessAction::Stop,
            true,
        ),
        _ => (ProcessStage::Done, ProcessAction::Stop, false),
    }
}

/// One step of processing an action: the next stage, what to do, and
/// whether the error callback is called.
pub fn process_step(stage: ProcessStage, event: ProcessEvent) -> (r: (ProcessStage, ProcessAction, bool))
    ensures
        r == process_step_spec(stage, event),
        stage is Acknowledging && event is AckOk ==> r == (
            ProcessStage::Handling,
            ProcessAction::RunHandler,
            false,
        ),
        stage is Acknowledging ==> (event matches ProcessEvent::AckFailed { conflict } ==> r.0
            is Done && r.1 is Stop && r.2 == !conflict),
        stage is Handling && event is HandlerOk ==> r == (
            ProcessStage::Finalizing,
            ProcessAction::Complete,
            false,
        ),
        stage is Handling && event is HandlerFailed ==> r.0 is Finalizing && r.1 is Fail && r.2,
        stage is Finalizing ==> r.0 is Done && r.1 is Stop && r.2 == (event is FinalizeFailed),
{
    match (stage, event) {
        (ProcessStage::Acknowledging, ProcessEvent::AckOk) => (
            ProcessStage::Handling,
            ProcessAction::RunHandler,
            false,
        ),
        (ProcessStage::Acknowledging, ProcessEvent::AckFailed { conflict }) => (
            ProcessStage::Done,
            ProcessAction::Stop,
            !conflict,
        ),
        (ProcessStage::Handling, ProcessEvent::HandlerOk) => (
            ProcessStage::Finalizing,
            ProcessAction::Complete,
            false,
        ),
        (ProcessStage::Handling, ProcessEvent::HandlerFailed) => (
            ProcessStage::Finalizing,
            ProcessAction::Fail,
            true,
        ),
        (ProcessStage::Finalizing, ProcessEvent::FinalizeOk) => (
            ProcessStage::Done,
            ProcessAction::Stop,
            false,
        ),
        (ProcessStage::Finalizing, ProcessEvent::FinalizeFailed) => (
            ProcessStage::Done,
            ProcessAction::Stop,
            true,
        ),
        _ => (ProcessStage::Done, ProcessAction::Stop, false),
    }
}

/// The error reported to the callback when a handler fails: a client-side
/// `Api` error (status 0) carrying the handler's message.
pub fn handler_failure(message: String) -> (e: Error)
    ensures
        e matches Error::Api { status, message: m, body } && status == 0 && m == message
            && body is None,
{
    Error::Api { status: 0, message, body: None }
}

/// The actions taken while processing an action from `stage` through `events`.
pub open spec fn process_actions(stage: ProcessStage, events: Seq<ProcessEvent>) -> Seq<ProcessAction>
    decreases events.len(),
{
    if events.len() == 0 {
        Seq::empty()
    } else {
        let (next, action, _) = process_step_spec(stage, events[0]);
        seq![action] + process_actions(next, events.drop_first())
    }
}

/// Completing or failing.
pub open spec fn is_finalization(a: ProcessAction) -> bool {
    a is Complete || a is Fail
}

proof fn lemma_actions_len(stage: ProcessStage, events: Seq<ProcessEvent>)
    ensures
        process_actions(stage, events).len() == events.len(),
    decreases events.len(),
{
    if events.len() > 0 {
        let (next, _, _) = process_step_spec(stage, events[0]);
        lemma_actions_len(next, events.drop_first());
    }
}

proof fn lemma_settled_stops(stage: ProcessStage, events: Seq<ProcessEvent>)
    requires
        stage is Finalizing || stage is Done,
    ensures
        forall|i: int| 0 <= i < events.len() ==> (#[trigger] process_actions(stage, events)[i]) is Stop,
    decreases events.len(),
{
    lemma_actions_len(stage, events);
    if events.len() > 0 {
        let (next, _, _) = process_step_spec(stage, events[0]);
        lemma_settled_stops(next, events.drop_first());
        let acts = process_actions(stage, events);
        assert forall|i: int| 0 <= i < events.len() implies (#[trigger] acts[i]) is Stop by {
            if i > 0 {
                assert(acts[i] == process_actions(next, events.drop_first())[i - 1]);
            }
        }
    }
}

proof fn lemma_handling_actions(events: Seq<ProcessEvent>)
    ensures
        ({
            let acts = process_actions(ProcessStage::Handling, events);
            forall|i: int|
                0 <= i < events.len() ==> !((#[trigger] acts[i]) is RunHandler) && (is_finalization(
                    acts[i],
                ) ==> i == 0)
        }),
{
    lemma_actions_len(ProcessStage::Handling, events);
    if events.len() > 0 {
        let (next, _, _) = process_step_spec(ProcessStage::Handling, events[0]);
        lemma_settled_stops(next, events.drop_first());
        let acts = process_actions(ProcessStage::Handling, events);
        assert forall|i: int| 0 <= i < events.len() implies !((#[trigger] acts[i]) is RunHandler)
            && (is_finalization(acts[i]) ==> i == 0) by {
            if i > 0 {
                assert(acts[i] == process_actions(next, events.drop_first())[i - 1]);
            }
        }
    }
}

/// Processing an action, whatever happens: the handler runs only as the
/// first step and only when the acknowledgement succeeded, and the action is
/// completed or failed at most once, right after the handler ran.
pub proof fn lemma_process_order(events: Seq<ProcessEvent>)
    ensures
        ({
            let acts = process_actions(ProcessStage::Acknowledging, events);
            &&& acts.len() == events.len()
            &&& forall|i: int|
                0 <= i < acts.len() && (#[trigger] acts[i]) is RunHandler ==> i == 0 && events[0]
                    is AckOk
            &&& forall|i: int|
                0 <= i < acts.len() && is_finalization(#[trigger] acts[i]) ==> i == 1 && acts[0]
                    is RunHandler
        }),
{
    lemma_actions_len(ProcessStage::Acknowledging, events);
    if events.len() > 0 {
        let (next, _, _) = process_step_spec(ProcessStage::Acknowledging, events[0]);
        let rest = events.drop_first();
        let acts = process_actions(ProcessStage::Acknowledging, events);
        if next is Handling {
            lemma_handling_actions(rest);
        } else {
            lemma_settled_stops(next, rest);
        }
        assert forall|i: int| 0 < i < acts.len() implies acts[i] == process_actions(next, rest)[i
            - 1] by {}
    }
}

/// Once acknowledged and handled, an action is always completed or failed.
pub proof fn lemma_acknowledged_action_finalized(handler_event: ProcessEvent)
    requires
        handler_event is HandlerOk || handler_event is HandlerFailed,
    ensures
        is_finalization(process_step_spec(ProcessStage::Handling, handler_event).1),
        process_step_spec(ProcessStage::Handling, handler_event).0 is Finalizing,
{
}

} // verus!
