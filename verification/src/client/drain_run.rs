//! One drain of an account's queue, step by step: what happens is taken in, and
//! what to do next is given out.

use crate::client::app_client::{own_echo, AppClient};
use crate::client::drain::{
    after_ingest, after_receipt, after_skip, closed_stop, elapsed_since, gate_verdict, poll_due,
    quantum_stop, silence_stop, turns, AccountSubscriptionEose, DeliveryIngest, DrainLoop,
    DrainTurn, DrainVerdict,
};
use crate::client::summary::{SlotsContent, SyncSummary};
use crate::error::{AppError, SyncFailureStage};
use crate::order::push_unique;
use vstd::prelude::*;

verus! {

/// What happens to a drain.
pub enum DrainEvent {
    /// The drain begins, or goes on after a skipped delivery was recorded.
    Resumed,
    /// The quantum is over, and this is how the subscriptions stand.
    QuantumRead { eose: AccountSubscriptionEose },
    /// A delivery came.
    Received { event_id_hex: String, author: Option<String> },
    /// A delivery was skipped, and this is how the subscriptions stand.
    SkipRead { eose: AccountSubscriptionEose },
    /// The queue dropped a delivery. Its marker was stored, or could not be.
    Overflowed { marker: Result<u64, AppError> },
    /// The queue was closed, and this is how the subscriptions stand.
    Closed { eose: AccountSubscriptionEose },
    /// Receiving failed.
    ReceiveFailed { error: AppError },
    /// A wait passed without a delivery, and this is how the subscriptions stand.
    Silent { eose: AccountSubscriptionEose },
    /// The delivery that was given out to be ingested was.
    Ingested { ingest: DeliveryIngest, summary: SyncSummary },
    /// It could not be.
    IngestFailed { error: AppError },
}

/// What a drain asks for.
pub enum DrainAction {
    /// Wait at most this long for a delivery.
    Receive { wait_ms: u64 },
    /// Read the subscriptions: the quantum is over.
    ReadAtQuantum,
    /// Record the skipped delivery for reconciliation, and read the subscriptions
    /// where they are due.
    RecordSkipped { read: bool },
    /// Ingest the delivery.
    Ingest,
    /// The drain is over.
    Conclude { verdict: DrainVerdict },
    /// The drain failed.
    Fail { error: AppError, stage: SyncFailureStage },
}

/// One drain. `current` is the delivery that was given out to be ingested.
pub struct DrainRun {
    pub drain: DrainLoop,
    pub current: String,
}

/// How the drain goes on by itself: it waits, or its quantum is over.
pub open spec fn goes_on(before: DrainLoop, after: DrainLoop, action: DrainAction, now_ms: u64)
    -> bool {
    match action {
        DrainAction::Receive { wait_ms } => turns(
            before,
            after,
            DrainTurn::Receive { wait_ms },
            now_ms,
        ),
        DrainAction::ReadAtQuantum => turns(before, after, DrainTurn::QuantumElapsed, now_ms),
        _ => false,
    }
}

/// The client after a delivery was ingested: its report is owed, and it is seen
/// unless only a relay can bring it back.
pub open spec fn took_delivery(
    before: AppClient,
    after: AppClient,
    event_id_hex: Seq<char>,
    ingest: DeliveryIngest,
    summary: SyncSummary,
) -> bool {
    &&& after.slots@ == (SlotsContent {
        uncheckpointed_refresh: before.slots@.uncheckpointed_refresh || ingest.routes_dirty,
        ..before.slots@.retain_uncheckpointed(summary@)
    })
    &&& after.seen_events.sequence() == (if ingest.must_stay_fetchable {
        before.seen_events.sequence()
    } else {
        push_unique(before.seen_events.sequence(), event_id_hex)
    })
    &&& after.pending_seen_event_count == before.pending_seen_event_count + (if
    ingest.must_stay_fetchable || before.seen_events.spec_contains(event_id_hex) {
        0int
    } else {
        1int
    })
    &&& after == (AppClient {
        slots: after.slots,
        seen_events: after.seen_events,
        pending_seen_event_count: after.pending_seen_event_count,
        ..before
    })
}

/// The client after a drop of the queue was observed.
pub open spec fn saw_overflow(client: AppClient, marker: u64) -> AppClient {
    AppClient {
        delivery_overflow_recovery_pending: true,
        delivery_overflow_recovery_marker_token: Some(marker),
        ..client
    }
}

/// The client with its cursor back where a drain began.
pub open spec fn cursor_held(client: AppClient, cursor: Option<u64>) -> AppClient {
    AppClient { last_transport_timestamp: cursor, ..client }
}

/// What a drain does when something happens to it.
pub open spec fn drain_steps(
    before: DrainRun,
    after: DrainRun,
    client_before: AppClient,
    client_after: AppClient,
    event: DrainEvent,
    now_ms: u64,
    action: DrainAction,
) -> bool {
    match event {
        DrainEvent::Resumed => {
            &&& goes_on(before.drain, after.drain, action, now_ms)
            &&& after.current == before.current
            &&& client_after == client_before
        },
        DrainEvent::QuantumRead { eose } => {
            &&& action == (DrainAction::Conclude {
                verdict: quantum_stop(eose, before.drain.counts.durable()),
            })
            &&& after == before && client_after == client_before
        },
        DrainEvent::Received { event_id_hex, .. } => {
            &&& client_after == client_before
            &&& if client_before.seen_events.spec_contains(event_id_hex@) {
                &&& action == (DrainAction::RecordSkipped { read: poll_due(before.drain, now_ms) })
                &&& after.drain == after_skip(before.drain, now_ms)
                &&& after.current == before.current
            } else {
                &&& action == DrainAction::Ingest
                &&& after.drain == after_receipt(before.drain, now_ms)
                &&& after.current@ == event_id_hex@
            }
        },
        DrainEvent::SkipRead { eose } => {
            &&& client_after == client_before
            &&& if gate_verdict(eose) is Complete {
                action == (DrainAction::Conclude { verdict: DrainVerdict::Complete }) && after
                    == before
            } else {
                goes_on(before.drain, after.drain, action, now_ms) && after.current
                    == before.current
            }
        },
        DrainEvent::Overflowed { marker } => {
            &&& after == before
            &&& match marker {
                Ok(token) => {
                    &&& action == (DrainAction::Conclude { verdict: DrainVerdict::Overflow })
                    &&& client_after == saw_overflow(client_before, token)
                },
                Err(error) => {
                    &&& action == (DrainAction::Fail {
                        error,
                        stage: SyncFailureStage::StatePersist,
                    })
                    &&& client_after == cursor_held(
                        client_before,
                        before.drain.cursor_before_secs,
                    )
                },
            }
        },
        DrainEvent::Closed { eose } => {
            &&& action == (DrainAction::Conclude {
                verdict: closed_stop(before.drain.completion, eose),
            })
            &&& after == before && client_after == client_before
        },
        DrainEvent::ReceiveFailed { error } => {
            &&& action == (DrainAction::Fail { error, stage: SyncFailureStage::RelayReceive })
            &&& after == before && client_after == client_before
        },
        DrainEvent::Silent { eose } => {
            &&& client_after == client_before
            &&& match silence_stop(
                before.drain.completion,
                eose,
                before.drain.counts.durable(),
                elapsed_since(before.drain.started_ms, now_ms),
                elapsed_since(before.drain.silence_started_ms, now_ms),
            ) {
                Some(verdict) => action == (DrainAction::Conclude { verdict }) && after == before,
                None => goes_on(before.drain, after.drain, action, now_ms) && after.current
                    == before.current,
            }
        },
        DrainEvent::Ingested { ingest, summary } => {
            &&& took_delivery(client_before, client_after, before.current@, ingest, summary)
            &&& after.current == before.current
            &&& exists|between: DrainLoop|
                #[trigger] after_ingest(before.drain, between, ingest) && goes_on(
                    between,
                    after.drain,
                    action,
                    now_ms,
                )
        },
        DrainEvent::IngestFailed { error } => {
            &&& action == (DrainAction::Fail { error, stage: SyncFailureStage::CgkaIngest })
            &&& after == before && client_after == client_before
        },
    }
}

impl DrainRun {
    pub fn begin(drain: DrainLoop) -> (run: Self)
        ensures
            run.drain == drain,
            run.current@ == Seq::<char>::empty(),
    {
        DrainRun { drain, current: String::new() }
    }

    fn go_on(&mut self, now_ms: u64) -> (action: DrainAction)
        ensures
            goes_on(old(self).drain, final(self).drain, action, now_ms),
            final(self).current == old(self).current,
    {
        match self.drain.next_turn(now_ms) {
            DrainTurn::QuantumElapsed => DrainAction::ReadAtQuantum,
            DrainTurn::Receive { wait_ms } => DrainAction::Receive { wait_ms },
        }
    }

    /// Takes in what happened and says what to do next.
    pub fn step(
        &mut self,
        client: &mut AppClient,
        local_account_id_hex: &str,
        event: DrainEvent,
        now_ms: u64,
    ) -> (action: DrainAction)
        requires
            old(client).wf(),
        ensures
            final(client).wf(),
            drain_steps(
                *old(self),
                *final(self),
                *old(client),
                *final(client),
                event,
                now_ms,
                action,
            ),
    {
        match event {
            DrainEvent::Resumed => self.go_on(now_ms),
            DrainEvent::QuantumRead { eose } => DrainAction::Conclude {
                verdict: self.drain.stop_at_quantum(eose),
            },
            DrainEvent::Received { event_id_hex, author } => {
                if client.is_own_relay_echo(&event_id_hex, &author, local_account_id_hex)
                    || client.skips_delivery(&event_id_hex) {
                    let read = self.drain.note_skipped(now_ms);
                    DrainAction::RecordSkipped { read }
                } else {
                    self.drain.note_received(now_ms);
                    self.current = event_id_hex;
                    DrainAction::Ingest
                }
            },
            DrainEvent::SkipRead { eose } => {
                match crate::client::drain::backfill_drain_verdict(eose) {
                    DrainVerdict::Complete => DrainAction::Conclude {
                        verdict: DrainVerdict::Complete,
                    },
                    _ => self.go_on(now_ms),
                }
            },
            DrainEvent::Overflowed { marker } => match marker {
                Ok(token) => {
                    client.observe_delivery_overflow(token);
                    DrainAction::Conclude { verdict: DrainVerdict::Overflow }
                },
                Err(error) => {
                    client.hold_cursor(self.drain.cursor_before_secs);
                    DrainAction::Fail { error, stage: SyncFailureStage::StatePersist }
                },
            },
            DrainEvent::Closed { eose } => DrainAction::Conclude {
                verdict: self.drain.stop_at_close(eose),
            },
            DrainEvent::ReceiveFailed { error } => DrainAction::Fail {
                error,
                stage: SyncFailureStage::RelayReceive,
            },
            DrainEvent::Silent { eose } => match self.drain.stop_at_silence(eose, now_ms) {
                Some(verdict) => DrainAction::Conclude { verdict },
                None => self.go_on(now_ms),
            },
            DrainEvent::Ingested { ingest, summary } => {
                let id = self.current.clone();
                let _ = client.settle_received_delivery(&ingest, id, summary, None, false);
                self.drain.note_ingested(&ingest);
                let ghost between = self.drain;
                let action = self.go_on(now_ms);
                assert(after_ingest(old(self).drain, between, ingest));
                action
            },
            DrainEvent::IngestFailed { error } => DrainAction::Fail {
                error,
                stage: SyncFailureStage::CgkaIngest,
            },
        }
    }

    /// Ends a drain: a drop that the queue recorded but did not yet tell overrides
    /// the verdict, and the cursor stays where the drain began.
    pub fn conclude(
        &self,
        client: &mut AppClient,
        verdict: DrainVerdict,
        pending_overflow: Option<Result<u64, AppError>>,
    ) -> (settled: Result<DrainVerdict, AppError>)
        requires
            old(client).wf(),
        ensures
            final(client).wf(),
            match pending_overflow {
                Some(marker) => if verdict is Overflow {
                    settled == Ok::<DrainVerdict, AppError>(verdict) && *final(client) == *old(
                        client,
                    )
                } else {
                    let held = cursor_held(*old(client), self.drain.cursor_before_secs);
                    match marker {
                        Ok(token) => settled == Ok::<DrainVerdict, AppError>(
                            DrainVerdict::Overflow,
                        ) && *final(client) == saw_overflow(held, token),
                        Err(error) => settled == Err::<DrainVerdict, AppError>(error)
                            && *final(client) == held,
                    }
                },
                None => settled == Ok::<DrainVerdict, AppError>(verdict) && *final(client) == *old(
                    client,
                ),
            },
    {
        if let DrainVerdict::Overflow = verdict {
            return Ok(verdict);
        }
        match pending_overflow {
            None => Ok(verdict),
            Some(marker) => {
                client.hold_cursor(self.drain.cursor_before_secs);
                match marker {
                    Ok(token) => {
                        client.observe_delivery_overflow(token);
                        Ok(DrainVerdict::Overflow)
                    },
                    Err(error) => Err(error),
                }
            },
        }
    }
}

/// A delivery is ingested at most once in a drain: one that was seen is skipped, and
/// one that was ingested and kept is seen from then on.
pub proof fn law_kept_delivery_is_skipped_next(
    before: DrainRun,
    after: DrainRun,
    client_before: AppClient,
    client_after: AppClient,
    ingest: DeliveryIngest,
    summary: SyncSummary,
    action: DrainAction,
    now_ms: u64,
)
    requires
        !ingest.must_stay_fetchable,
        drain_steps(
            before,
            after,
            client_before,
            client_after,
            DrainEvent::Ingested { ingest, summary },
            now_ms,
            action,
        ),
    ensures
        client_after.seen_events.spec_contains(before.current@),
{
    crate::order::lemma_push_contains(
        client_before.seen_events.sequence(),
        before.current@,
        before.current@,
    );
}

/// A drain that waits for the end of stored events concludes as complete only where
/// the subscriptions were read and say so.
pub proof fn law_replay_concludes_on_evidence(
    before: DrainRun,
    after: DrainRun,
    client_before: AppClient,
    client_after: AppClient,
    event: DrainEvent,
    action: DrainAction,
    now_ms: u64,
)
    requires
        before.drain.completion is EndOfStoredEvents,
        drain_steps(before, after, client_before, client_after, event, now_ms, action),
        action == (DrainAction::Conclude { verdict: DrainVerdict::Complete }),
    ensures
        match event {
            DrainEvent::QuantumRead { eose } => gate_verdict(eose) is Complete,
            DrainEvent::SkipRead { eose } => gate_verdict(eose) is Complete,
            DrainEvent::Closed { eose } => gate_verdict(eose) is Complete,
            DrainEvent::Silent { eose } => gate_verdict(eose) is Complete,
            _ => false,
        },
{
}

/// The relay's echo of what this account published is never ingested: it is recorded
/// for reconciliation, and the client stays as it is.
pub proof fn law_own_echo_is_not_ingested(
    before: DrainRun,
    after: DrainRun,
    client_before: AppClient,
    client_after: AppClient,
    event_id_hex: String,
    author: Option<String>,
    local_account_id_hex: Seq<char>,
    now_ms: u64,
    action: DrainAction,
)
    requires
        own_echo(
            client_before.seen_events.sequence(),
            event_id_hex@,
            author.deep_view(),
            local_account_id_hex,
        ),
        drain_steps(
            before,
            after,
            client_before,
            client_after,
            DrainEvent::Received { event_id_hex, author },
            now_ms,
            action,
        ),
    ensures
        action is RecordSkipped,
        client_after == client_before,
        after.current == before.current,
{
}

} // verus!
