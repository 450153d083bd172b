//! Draining the transport: what one drain counts, when it waits, and what ends it.

use crate::client::summary::{ClassifiedSyncFailure, SyncSummary};
use crate::collections::KeySet;
use crate::error::{AppError, SyncFailureStage};
use crate::ids::GroupId;
use crate::text::join;
use vstd::prelude::*;

verus! {

/// How far the relays have served an account's subscriptions.
#[derive(Clone, Copy, Debug, PartialEq, Eq, Structural)]
pub struct AccountSubscriptionEose {
    pub subscriptions: usize,
    pub with_eose: usize,
    pub relay_subscription_attempts: usize,
    pub relay_subscription_attempts_with_eose: usize,
}

impl AccountSubscriptionEose {
    /// Some subscription reached the end of its stored events.
    pub open spec fn spec_any(self) -> bool {
        self.with_eose > 0
    }

    /// Every subscription did, at every relay it was sent to.
    pub open spec fn spec_complete(self) -> bool {
        self.with_eose == self.subscriptions && self.relay_subscription_attempts_with_eose
            == self.relay_subscription_attempts
    }

    pub fn any(&self) -> (any: bool)
        ensures
            any == self.spec_any(),
    {
        self.with_eose > 0
    }

    pub fn complete(&self) -> (complete: bool)
        ensures
            complete == self.spec_complete(),
    {
        self.with_eose == self.subscriptions && self.relay_subscription_attempts_with_eose
            == self.relay_subscription_attempts
    }
}

/// What ends a drain.
#[derive(Clone, Copy, Debug, PartialEq, Eq, Structural)]
pub enum DrainCompletion {
    /// A quiet relay is a finished drain.
    Quiescence,
    /// Only the end of stored events is. Silence spends a budget.
    EndOfStoredEvents { silence_budget_ms: u64, execution_quantum_ms: u64 },
}

impl DrainCompletion {
    pub open spec fn quantum(self) -> Option<u64> {
        match self {
            DrainCompletion::Quiescence => None,
            DrainCompletion::EndOfStoredEvents { execution_quantum_ms, .. } => Some(
                execution_quantum_ms,
            ),
        }
    }

    /// How long the drain may own the account worker.
    pub fn execution_quantum(self) -> (quantum: Option<u64>)
        ensures
            quantum == self.quantum(),
    {
        match self {
            DrainCompletion::Quiescence => None,
            DrainCompletion::EndOfStoredEvents { execution_quantum_ms, .. } => Some(
                execution_quantum_ms,
            ),
        }
    }
}

/// What a completed replay proves.
#[derive(Clone, Copy, Debug, PartialEq, Eq, Structural)]
pub enum EpochBackfillCompletionKind {
    EndOfStoredEvents,
}

/// How a drain ended.
#[derive(Clone, Copy, Debug, PartialEq, Eq, Structural)]
pub enum DrainVerdict {
    /// The stored history was served in full, or a quiescent drain went quiet.
    Complete,
    /// The silence budget ran out with history unconfirmed, though some relay finished.
    EoseTimeout,
    /// The silence budget ran out and no relay finished.
    NoRelayEose,
    /// The quantum ended after something new was kept.
    NovelProgressQuantumYield,
    /// The quantum ended and nothing new was kept.
    NoProgressQuantumYield,
    /// The account queue dropped a delivery: only a fresh replay closes the gap.
    Overflow,
}

/// The audit word of a drain that did not complete.
pub open spec fn verdict_word(verdict: DrainVerdict) -> Option<Seq<char>> {
    match verdict {
        DrainVerdict::Complete => None,
        DrainVerdict::EoseTimeout => Some("backfill_drain_eose_timeout"@),
        DrainVerdict::NoRelayEose => Some("backfill_drain_no_relay_eose"@),
        DrainVerdict::NovelProgressQuantumYield => Some(
            "backfill_drain_novel_progress_quantum_yield"@,
        ),
        DrainVerdict::NoProgressQuantumYield => Some("backfill_drain_no_progress_quantum_yield"@),
        DrainVerdict::Overflow => Some("account_delivery_queue_overflow"@),
    }
}

/// The verdict at the end of the quantum, by whether something new was kept.
pub open spec fn yield_verdict(durable_deliveries: int) -> DrainVerdict {
    if durable_deliveries > 0 {
        DrainVerdict::NovelProgressQuantumYield
    } else {
        DrainVerdict::NoProgressQuantumYield
    }
}

impl DrainVerdict {
    /// The audit word of a drain that did not complete.
    pub fn error_kind(self) -> (word: Option<&'static str>)
        ensures
            match word {
                Some(text) => verdict_word(self) == Some(text@),
                None => verdict_word(self) is None,
            },
    {
        match self {
            DrainVerdict::Complete => None,
            DrainVerdict::EoseTimeout => Some("backfill_drain_eose_timeout"),
            DrainVerdict::NoRelayEose => Some("backfill_drain_no_relay_eose"),
            DrainVerdict::NovelProgressQuantumYield => Some(
                "backfill_drain_novel_progress_quantum_yield",
            ),
            DrainVerdict::NoProgressQuantumYield => Some(
                "backfill_drain_no_progress_quantum_yield",
            ),
            DrainVerdict::Overflow => Some("account_delivery_queue_overflow"),
        }
    }

    /// What an audit row may claim of the drain.
    pub fn completion_kind(self) -> (kind: Option<EpochBackfillCompletionKind>)
        ensures
            kind == (if self is Complete {
                Some(EpochBackfillCompletionKind::EndOfStoredEvents)
            } else {
                None
            }),
    {
        match self {
            DrainVerdict::Complete => Some(EpochBackfillCompletionKind::EndOfStoredEvents),
            _ => None,
        }
    }

    /// The verdict of a drain whose quantum ended.
    pub fn quantum_yield(counts: &DrainCounts) -> (verdict: DrainVerdict)
        ensures
            verdict == yield_verdict(counts.durable()),
    {
        if counts.durable_deliveries() > 0 {
            DrainVerdict::NovelProgressQuantumYield
        } else {
            DrainVerdict::NoProgressQuantumYield
        }
    }

    /// Whether the verdict spends one of the attempts to see history confirmed.
    pub fn spends_eose_attempt(self) -> (spends: bool)
        ensures
            spends == (self is EoseTimeout || self is NoRelayEose),
    {
        match self {
            DrainVerdict::EoseTimeout => true,
            DrainVerdict::NoRelayEose => true,
            _ => false,
        }
    }

    pub fn made_novel_progress(self) -> (made: bool)
        ensures
            made == (self is NovelProgressQuantumYield),
    {
        match self {
            DrainVerdict::NovelProgressQuantumYield => true,
            _ => false,
        }
    }

    pub fn made_no_progress(self) -> (none: bool)
        ensures
            none == (self is NoProgressQuantumYield),
    {
        match self {
            DrainVerdict::NoProgressQuantumYield => true,
            _ => false,
        }
    }
}

/// The reading of the end-of-stored-events gate.
pub open spec fn gate_verdict(eose: AccountSubscriptionEose) -> DrainVerdict {
    if eose.subscriptions == 0 || !eose.spec_any() {
        DrainVerdict::NoRelayEose
    } else if eose.spec_complete() {
        DrainVerdict::Complete
    } else {
        DrainVerdict::EoseTimeout
    }
}

/// How a replay that stops now is read. An account without subscriptions was
/// served nothing, so it is not complete.
pub fn backfill_drain_verdict(eose: AccountSubscriptionEose) -> (verdict: DrainVerdict)
    ensures
        verdict == gate_verdict(eose),
{
    if eose.subscriptions == 0 || !eose.any() {
        DrainVerdict::NoRelayEose
    } else if eose.complete() {
        DrainVerdict::Complete
    } else {
        DrainVerdict::EoseTimeout
    }
}

/// The failure of an explicit repair whose drain did not complete. What was
/// ingested stays in the partial summary.
pub fn incomplete_full_history_repair(
    summary: SyncSummary,
    verdict: DrainVerdict,
) -> (failure: ClassifiedSyncFailure)
    requires
        !(verdict is Complete),
    ensures
        failure.partial_summary == summary,
        failure.stage is RelayReceive,
        failure.source matches AppError::BlockingTask(text) && text@
            == "full-history repair incomplete: "@ + verdict_word(verdict)->Some_0,
{
    let word = match verdict.error_kind() {
        Some(word) => word,
        None => "full_history_repair_unconfirmed",
    };
    ClassifiedSyncFailure::at_stage(
        summary,
        AppError::BlockingTask(join("full-history repair incomplete: ", word)),
        SyncFailureStage::RelayReceive,
    )
}

/// What the ingest of one delivery settled.
#[derive(Debug, PartialEq, Eq)]
pub struct DeliveryIngest {
    /// The membership changed, so routes must be saved and rebuilt.
    pub routes_dirty: bool,
    /// The engine kept no trace: only a relay can bring the object back.
    pub must_stay_fetchable: bool,
    /// The group for which a local bound refused the object.
    pub refused_group: Option<GroupId>,
}

impl DeliveryIngest {
    /// A refused object was not kept.
    pub open spec fn wf(&self) -> bool {
        self.refused_group is Some ==> self.must_stay_fetchable
    }
}

/// What one drain saw.
#[derive(Debug)]
pub struct DrainCounts {
    /// Receives that were ingested.
    pub deliveries: u64,
    /// Receives dropped as an own echo or as already seen.
    pub skipped: u64,
    /// Deliveries of which the engine kept no trace.
    pub unpersisted: u64,
    /// Deliveries that a local bound refused.
    pub refused: u64,
    /// The groups of those refusals.
    pub refused_groups: KeySet<GroupId>,
}

pub open spec fn saturated(value: int) -> u64 {
    if value > u64::MAX {
        u64::MAX
    } else {
        value as u64
    }
}

impl DrainCounts {
    /// Refusals are among the deliveries that were not kept, and those among the deliveries.
    pub open spec fn wf(&self) -> bool {
        &&& self.refused <= self.unpersisted <= self.deliveries
        &&& self.refused_groups.sequence().len() <= self.refused
    }

    /// Deliveries that were ingested and kept.
    pub open spec fn durable(&self) -> int {
        if self.deliveries >= self.unpersisted {
            self.deliveries - self.unpersisted
        } else {
            0
        }
    }

    pub fn new() -> (counts: Self)
        ensures
            counts.wf(),
            counts.deliveries == 0,
            counts.skipped == 0,
            counts.unpersisted == 0,
            counts.refused == 0,
            counts.refused_groups.sequence() == Seq::<Seq<u8>>::empty(),
    {
        DrainCounts {
            deliveries: 0,
            skipped: 0,
            unpersisted: 0,
            refused: 0,
            refused_groups: KeySet::new(),
        }
    }

    /// Deliveries that were ingested and kept: what the drain recovered.
    pub fn durable_deliveries(&self) -> (count: u64)
        ensures
            count == self.durable(),
    {
        self.deliveries.saturating_sub(self.unpersisted)
    }

    /// Counts one ingested delivery.
    pub fn record_ingest(&mut self, ingest: &DeliveryIngest)
        ensures
            counts_ingest(*old(self), *final(self), *ingest),
            old(self).wf() && ingest.wf() && old(self).deliveries < u64::MAX ==> final(self).wf(),
    {
        if ingest.must_stay_fetchable {
            self.unpersisted = self.unpersisted.saturating_add(1);
        }
        match &ingest.refused_group {
            Some(group) => {
                self.refused = self.refused.saturating_add(1);
                let _ = self.refused_groups.insert(group.clone());
            },
            None => {},
        }
        self.deliveries = self.deliveries.saturating_add(1);
    }
}

/// How long a drain waits for its first and for each further receive.
#[derive(Clone, Copy, Debug, PartialEq, Eq, Structural)]
pub struct DrainTimings {
    pub first_wait_ms: u64,
    pub drain_wait_ms: u64,
}

/// The time since an earlier reading of a monotonic clock.
pub open spec fn elapsed_since(since_ms: u64, now_ms: u64) -> int {
    if now_ms >= since_ms {
        now_ms - since_ms
    } else {
        0
    }
}

/// What the drain does next.
#[derive(Clone, Copy, Debug, PartialEq, Eq, Structural)]
pub enum DrainTurn {
    /// The quantum is over: read the subscriptions once and stop.
    QuantumElapsed,
    /// Wait at most this long for a delivery.
    Receive { wait_ms: u64 },
}

/// The verdict at the end of the quantum.
pub open spec fn quantum_stop(eose: AccountSubscriptionEose, durable: int) -> DrainVerdict {
    if gate_verdict(eose) is Complete {
        DrainVerdict::Complete
    } else {
        yield_verdict(durable)
    }
}

/// The verdict when the transport closes its queue.
pub open spec fn closed_stop(completion: DrainCompletion, eose: AccountSubscriptionEose) -> DrainVerdict {
    match completion {
        DrainCompletion::Quiescence => DrainVerdict::Complete,
        DrainCompletion::EndOfStoredEvents { .. } => gate_verdict(eose),
    }
}

/// The verdict, if any, when a wait passes without a delivery.
pub open spec fn silence_stop(
    completion: DrainCompletion,
    eose: AccountSubscriptionEose,
    durable: int,
    drain_elapsed: int,
    silence_elapsed: int,
) -> Option<DrainVerdict> {
    match completion {
        DrainCompletion::Quiescence => Some(DrainVerdict::Complete),
        DrainCompletion::EndOfStoredEvents { silence_budget_ms, execution_quantum_ms } => {
            if gate_verdict(eose) is Complete {
                Some(DrainVerdict::Complete)
            } else if drain_elapsed >= execution_quantum_ms {
                Some(yield_verdict(durable))
            } else if silence_elapsed >= silence_budget_ms {
                Some(gate_verdict(eose))
            } else {
                None
            }
        },
    }
}

/// The state of one drain loop. Times are readings of a monotonic clock in
/// milliseconds.
#[derive(Debug)]
pub struct DrainLoop {
    pub completion: DrainCompletion,
    pub timings: DrainTimings,
    pub counts: DrainCounts,
    pub routes_dirty: bool,
    pub first_wait: bool,
    pub started_ms: u64,
    pub silence_started_ms: u64,
    pub gate_polled_at_ms: u64,
    pub cursor_before_secs: Option<u64>,
}

/// How the next turn of a drain follows from the time.
pub open spec fn turns(before: DrainLoop, after: DrainLoop, turn: DrainTurn, now_ms: u64) -> bool {
    let elapsed = elapsed_since(before.started_ms, now_ms);
    let base = if before.first_wait {
        before.timings.first_wait_ms
    } else {
        before.timings.drain_wait_ms
    };
    match before.completion.quantum() {
        Some(quantum) => if elapsed >= quantum {
            turn is QuantumElapsed && after == before
        } else {
            &&& turn == (DrainTurn::Receive {
                wait_ms: if base as int <= quantum - elapsed {
                    base
                } else {
                    (quantum - elapsed) as u64
                },
            })
            &&& after == (DrainLoop { first_wait: false, ..before })
        },
        None => {
            &&& turn == (DrainTurn::Receive { wait_ms: base })
            &&& after == (DrainLoop { first_wait: false, ..before })
        },
    }
}

/// Whether a skipped delivery makes the subscriptions due to be read.
pub open spec fn poll_due(drain: DrainLoop, now_ms: u64) -> bool {
    drain.completion is EndOfStoredEvents && elapsed_since(drain.gate_polled_at_ms, now_ms)
        >= drain.timings.drain_wait_ms
}

/// A drain after a delivery was skipped.
pub open spec fn after_skip(drain: DrainLoop, now_ms: u64) -> DrainLoop {
    DrainLoop {
        silence_started_ms: now_ms,
        gate_polled_at_ms: if poll_due(drain, now_ms) {
            now_ms
        } else {
            drain.gate_polled_at_ms
        },
        counts: DrainCounts { skipped: saturated(drain.counts.skipped + 1), ..drain.counts },
        ..drain
    }
}

/// How the counts grow with an ingested delivery.
pub open spec fn counts_ingest(
    before: DrainCounts,
    after: DrainCounts,
    ingest: DeliveryIngest,
) -> bool {
    &&& after.skipped == before.skipped
    &&& after.deliveries == saturated(before.deliveries + 1)
    &&& after.unpersisted == (if ingest.must_stay_fetchable {
        saturated(before.unpersisted + 1)
    } else {
        before.unpersisted
    })
    &&& after.refused == (if ingest.refused_group is Some {
        saturated(before.refused + 1)
    } else {
        before.refused
    })
    &&& after.refused_groups.sequence() == (match ingest.refused_group {
        Some(group) => crate::order::push_unique(
            before.refused_groups.sequence(),
            group.deep_view(),
        ),
        None => before.refused_groups.sequence(),
    })
}

/// A drain after a delivery came that is not skipped.
pub open spec fn after_receipt(drain: DrainLoop, now_ms: u64) -> DrainLoop {
    DrainLoop { silence_started_ms: now_ms, ..drain }
}

/// How a drain goes on after an ingested delivery.
pub open spec fn after_ingest(before: DrainLoop, after: DrainLoop, ingest: DeliveryIngest)
    -> bool {
    &&& counts_ingest(before.counts, after.counts, ingest)
    &&& after == (DrainLoop {
        routes_dirty: before.routes_dirty || ingest.routes_dirty,
        counts: after.counts,
        ..before
    })
}

impl DrainLoop {
    /// Starts a drain.
    pub fn begin(
        completion: DrainCompletion,
        timings: DrainTimings,
        now_ms: u64,
        cursor_before_secs: Option<u64>,
    ) -> (drain: Self)
        ensures
            drain.completion == completion,
            drain.timings == timings,
            drain.counts.wf(),
            drain.counts.deliveries == 0,
            drain.counts.skipped == 0,
            drain.counts.unpersisted == 0,
            drain.counts.refused == 0,
            drain.counts.refused_groups.sequence() == Seq::<Seq<u8>>::empty(),
            !drain.routes_dirty,
            drain.first_wait,
            drain.started_ms == now_ms,
            drain.silence_started_ms == now_ms,
            drain.gate_polled_at_ms == now_ms,
            drain.cursor_before_secs == cursor_before_secs,
    {
        DrainLoop {
            completion,
            timings,
            counts: DrainCounts::new(),
            routes_dirty: false,
            first_wait: true,
            started_ms: now_ms,
            silence_started_ms: now_ms,
            gate_polled_at_ms: now_ms,
            cursor_before_secs,
        }
    }

    /// Decides the next turn: stop at the end of the quantum, or wait for a
    /// delivery, never past the quantum.
    pub fn next_turn(&mut self, now_ms: u64) -> (turn: DrainTurn)
        ensures
            turns(*old(self), *final(self), turn, now_ms),
    {
        let elapsed: u64 = now_ms.saturating_sub(self.started_ms);
        let mut wait_ms: u64 = if self.first_wait {
            self.timings.first_wait_ms
        } else {
            self.timings.drain_wait_ms
        };
        if let Some(quantum) = self.completion.execution_quantum() {
            if elapsed >= quantum {
                return DrainTurn::QuantumElapsed;
            }
            let rest: u64 = quantum - elapsed;
            if rest < wait_ms {
                wait_ms = rest;
            }
        }
        self.first_wait = false;
        DrainTurn::Receive { wait_ms }
    }

    /// The verdict at the end of the quantum.
    pub fn stop_at_quantum(&self, eose: AccountSubscriptionEose) -> (verdict: DrainVerdict)
        ensures
            verdict == quantum_stop(eose, self.counts.durable()),
    {
        match backfill_drain_verdict(eose) {
            DrainVerdict::Complete => DrainVerdict::Complete,
            _ => DrainVerdict::quantum_yield(&self.counts),
        }
    }

    /// The verdict when the transport closed its queue.
    pub fn stop_at_close(&self, eose: AccountSubscriptionEose) -> (verdict: DrainVerdict)
        ensures
            verdict == closed_stop(self.completion, eose),
    {
        match self.completion {
            DrainCompletion::Quiescence => DrainVerdict::Complete,
            DrainCompletion::EndOfStoredEvents { .. } => backfill_drain_verdict(eose),
        }
    }

    /// The verdict, if the drain ends, when a wait passed without a delivery.
    pub fn stop_at_silence(&self, eose: AccountSubscriptionEose, now_ms: u64) -> (stop: Option<
        DrainVerdict,
    >)
        ensures
            stop == silence_stop(
                self.completion,
                eose,
                self.counts.durable(),
                elapsed_since(self.started_ms, now_ms),
                elapsed_since(self.silence_started_ms, now_ms),
            ),
    {
        match self.completion {
            DrainCompletion::Quiescence => Some(DrainVerdict::Complete),
            DrainCompletion::EndOfStoredEvents { silence_budget_ms, execution_quantum_ms } => {
                let verdict = backfill_drain_verdict(eose);
                match verdict {
                    DrainVerdict::Complete => Some(DrainVerdict::Complete),
                    _ => {
                        if now_ms.saturating_sub(self.started_ms) >= execution_quantum_ms {
                            Some(DrainVerdict::quantum_yield(&self.counts))
                        } else if now_ms.saturating_sub(self.silence_started_ms)
                            >= silence_budget_ms {
                            Some(verdict)
                        } else {
                            None
                        }
                    },
                }
            },
        }
    }

    /// Notes a delivery that was dropped as an echo or as already seen. It proves
    /// the stream alive. Returns whether the subscriptions are due to be read: at
    /// most once per wait, and only where their end can end the drain.
    pub fn note_skipped(&mut self, now_ms: u64) -> (poll: bool)
        ensures
            poll == poll_due(*old(self), now_ms),
            *final(self) == after_skip(*old(self), now_ms),
    {
        self.silence_started_ms = now_ms;
        self.counts.skipped = self.counts.skipped.saturating_add(1);
        match self.completion {
            DrainCompletion::Quiescence => false,
            DrainCompletion::EndOfStoredEvents { .. } => {
                if now_ms.saturating_sub(self.gate_polled_at_ms) < self.timings.drain_wait_ms {
                    false
                } else {
                    self.gate_polled_at_ms = now_ms;
                    true
                }
            },
        }
    }

    /// Notes that a delivery came: silence is counted from here.
    pub fn note_received(&mut self, now_ms: u64)
        ensures
            *final(self) == after_receipt(*old(self), now_ms),
    {
        self.silence_started_ms = now_ms;
    }

    /// Notes a delivery that was ingested.
    pub fn note_ingested(&mut self, ingest: &DeliveryIngest)
        ensures
            after_ingest(*old(self), *final(self), *ingest),
            old(self).counts.wf() && ingest.wf() && old(self).counts.deliveries < u64::MAX
                ==> final(self).counts.wf(),
    {
        self.counts.record_ingest(ingest);
        self.routes_dirty = self.routes_dirty || ingest.routes_dirty;
    }
}

/// A replay is complete only when the relays confirmed the stored history:
/// neither silence, nor the quantum, nor a closed queue makes it so.
pub proof fn law_replay_completes_only_through_the_gate(
    silence_budget_ms: u64,
    execution_quantum_ms: u64,
    eose: AccountSubscriptionEose,
    durable: int,
    drain_elapsed: int,
    silence_elapsed: int,
)
    requires
        !(gate_verdict(eose) is Complete),
    ensures
        ({
            let completion = DrainCompletion::EndOfStoredEvents {
                silence_budget_ms,
                execution_quantum_ms,
            };
            &&& !(quantum_stop(eose, durable) is Complete)
            &&& !(closed_stop(completion, eose) is Complete)
            &&& silence_stop(completion, eose, durable, drain_elapsed, silence_elapsed)
                != Some(DrainVerdict::Complete)
        }),
{
}

/// A replay that the relays confirmed is complete however it is stopped.
pub proof fn law_confirmed_replay_is_complete(
    silence_budget_ms: u64,
    execution_quantum_ms: u64,
    eose: AccountSubscriptionEose,
    durable: int,
    drain_elapsed: int,
    silence_elapsed: int,
)
    requires
        gate_verdict(eose) is Complete,
    ensures
        ({
            let completion = DrainCompletion::EndOfStoredEvents {
                silence_budget_ms,
                execution_quantum_ms,
            };
            &&& quantum_stop(eose, durable) is Complete
            &&& closed_stop(completion, eose) is Complete
            &&& silence_stop(completion, eose, durable, drain_elapsed, silence_elapsed)
                == Some(DrainVerdict::Complete)
        }),
{
}

/// An ordinary drain ends at the first silence, and is then complete.
pub proof fn law_quiescent_drain_ends_at_silence(
    eose: AccountSubscriptionEose,
    durable: int,
    drain_elapsed: int,
    silence_elapsed: int,
)
    ensures
        silence_stop(
            DrainCompletion::Quiescence,
            eose,
            durable,
            drain_elapsed,
            silence_elapsed,
        ) == Some(DrainVerdict::Complete),
        DrainCompletion::Quiescence.quantum() is None,
{
}

/// A verdict has an audit word exactly when the drain did not complete.
pub proof fn law_only_complete_has_no_error_kind(verdict: DrainVerdict)
    ensures
        verdict_word(verdict) is None <==> verdict is Complete,
{
}

/// The quantum ends with progress exactly when something ingested was kept.
pub proof fn law_progress_means_something_was_kept(counts: DrainCounts)
    requires
        counts.wf(),
    ensures
        yield_verdict(counts.durable()) is NovelProgressQuantumYield <==> counts.unpersisted
            < counts.deliveries,
{
}

} // verus!
