//! The ends of a synchronization: what is handed out, what is kept for later,
//! and what a failure carries.

use crate::client::app_client::AppClient;
use crate::client::drain::{
    incomplete_full_history_repair, verdict_word, DrainVerdict,
};
use crate::client::summary::{
    ClassifiedSyncFailure, SlotsContent, SummaryContent, SyncFailure, SyncSummary,
};
use crate::error::{AppError, SyncFailureStage};
use vstd::prelude::*;

verus! {

/// The slots after a due rebuild of the subscriptions succeeded.
pub open spec fn refreshed(slots: SlotsContent) -> SlotsContent {
    SlotsContent { refresh: false, ..slots }
}

/// Whether a rebuild was due and failed.
pub open spec fn refresh_fails(slots: SlotsContent, refresh: Result<(), AppError>) -> bool {
    slots.refresh && refresh is Err
}

impl AppClient {
    /// Notes the outcome of a rebuild of the subscriptions, if one was due. A
    /// failed one stays due.
    pub fn note_subscription_refresh(&mut self, refresh: Result<(), AppError>) -> (noted: Result<
        (),
        AppError,
    >)
        ensures
            *final(self) == (AppClient { slots: final(self).slots, ..*old(self) }),
            refresh_fails(old(self).slots@, refresh) ==> noted == refresh && final(self).slots@
                == old(self).slots@,
            !refresh_fails(old(self).slots@, refresh) ==> noted is Ok && final(self).slots@
                == refreshed(old(self).slots@),
    {
        if !self.slots.refresh {
            return Ok(());
        }
        match refresh {
            Ok(()) => {
                self.slots.refresh = false;
                Ok(())
            },
            Err(error) => Err(error),
        }
    }

    /// Hands the report of a direct synchronization out once the subscriptions
    /// are ready. A failed rebuild keeps the report.
    pub fn finalize_direct_sync_summary(&mut self, refresh: Result<(), AppError>) -> (summary:
        Result<SyncSummary, AppError>)
        ensures
            *final(self) == (AppClient { slots: final(self).slots, ..*old(self) }),
            match summary {
                Ok(report) => !refresh_fails(old(self).slots@, refresh) && report@
                    == old(self).slots@.report() && final(self).slots@ == refreshed(
                    old(self).slots@,
                ).handed_out(),
                Err(error) => refresh_fails(old(self).slots@, refresh) && refresh == Err::<
                    (),
                    AppError,
                >(error) && final(self).slots@ == old(self).slots@,
            },
    {
        match self.note_subscription_refresh(refresh) {
            Ok(()) => Ok(self.slots.take_checkpointed_sync_summary_or_default()),
            Err(error) => Err(error),
        }
    }

    /// Ends a synchronization for callers that see no partial summary: a failure
    /// keeps its committed part for the next success.
    pub fn sync(
        &mut self,
        inner: Result<(), ClassifiedSyncFailure>,
        refresh: Result<(), AppError>,
    ) -> (outcome: Result<SyncSummary, AppError>)
        ensures
            *final(self) == (AppClient { slots: final(self).slots, ..*old(self) }),
            match inner {
                Ok(()) => match outcome {
                    Ok(report) => !refresh_fails(old(self).slots@, refresh) && report@
                        == old(self).slots@.report() && final(self).slots@ == refreshed(
                        old(self).slots@,
                    ).handed_out(),
                    Err(error) => refresh_fails(old(self).slots@, refresh) && refresh == Err::<
                        (),
                        AppError,
                    >(error) && final(self).slots@ == old(self).slots@,
                },
                Err(failure) => outcome == Err::<SyncSummary, AppError>(failure.source)
                    && final(self).slots@ == (if failure.partial_summary@
                    == SummaryContent::nothing() {
                    old(self).slots@
                } else {
                    old(self).slots@.retain_checkpointed(failure.partial_summary@)
                }),
            },
    {
        match inner {
            Ok(()) => self.finalize_direct_sync_summary(refresh),
            Err(failure) => {
                if !failure.partial_summary.is_default() {
                    self.slots.retain_checkpointed_sync_summary(failure.partial_summary);
                }
                Err(failure.source)
            },
        }
    }

    /// Ends a synchronization for callers that see how far a failed one came.
    pub fn sync_with_partial_progress(
        &mut self,
        inner: Result<(), ClassifiedSyncFailure>,
        refresh: Result<(), AppError>,
    ) -> (outcome: Result<SyncSummary, SyncFailure>)
        ensures
            *final(self) == (AppClient { slots: final(self).slots, ..*old(self) }),
            match inner {
                Ok(()) => match outcome {
                    Ok(report) => !refresh_fails(old(self).slots@, refresh) && report@
                        == old(self).slots@.report() && final(self).slots@ == refreshed(
                        old(self).slots@,
                    ).handed_out(),
                    Err(failure) => {
                        &&& refresh_fails(old(self).slots@, refresh)
                        &&& refresh == Err::<(), AppError>(failure.source)
                        &&& failure.partial_summary@ == failure_report(old(self).slots@)
                        &&& final(self).slots@ == after_failure(old(self).slots@)
                    },
                },
                Err(failed) => {
                    &&& outcome matches Err(failure) && failure.source == failed.source
                        && failure.partial_summary@ == failure_report(old(self).slots@).followed_by(
                        failed.partial_summary@,
                    )
                    &&& final(self).slots@ == after_failure(old(self).slots@)
                },
            },
    {
        match inner {
            Ok(()) => match self.finalize_direct_sync_summary(refresh) {
                Ok(summary) => Ok(summary),
                Err(source) => {
                    let partial_summary =
                        self.slots.take_reportable_checkpointed_sync_summary_for_failure();
                    Err(SyncFailure { partial_summary, source })
                },
            },
            Err(failed) => {
                let merged = self.slots.merge_checkpointed_visibility_into_failure(failed);
                Err(
                    SyncFailure {
                        partial_summary: merged.partial_summary,
                        source: merged.source,
                    },
                )
            },
        }
    }

    /// Ends a synchronization for the account worker, which rebuilds the
    /// subscriptions itself.
    pub fn sync_with_classified_partial_progress(
        &mut self,
        inner: Result<(), ClassifiedSyncFailure>,
    ) -> (outcome: Result<SyncSummary, ClassifiedSyncFailure>)
        ensures
            *final(self) == (AppClient { slots: final(self).slots, ..*old(self) }),
            match inner {
                Ok(()) => (outcome matches Ok(report) && report@ == old(self).slots@.report())
                    && final(self).slots@ == old(self).slots@.handed_out(),
                Err(failed) => {
                    &&& outcome matches Err(failure) && failure.source == failed.source
                        && failure.stage == failed.stage && failure.partial_summary@
                        == failure_report(old(self).slots@).followed_by(failed.partial_summary@)
                    &&& final(self).slots@ == after_failure(old(self).slots@)
                },
            },
    {
        match inner {
            Ok(()) => Ok(self.slots.take_checkpointed_sync_summary_or_default()),
            Err(failed) => Err(self.slots.merge_checkpointed_visibility_into_failure(failed)),
        }
    }

    /// Keeps a received batch that a caller of `next_event` would see: one that
    /// reports something, or that wakes convergence or a replay.
    pub fn retain_direct_next_event_summary(&mut self, summary: SyncSummary)
        ensures
            *final(self) == (AppClient { slots: final(self).slots, ..*old(self) }),
            final(self).slots@ == (if summary@ != SummaryContent::nothing()
                || old(self).pending_convergence_groups.sequence().len() > 0
                || old(self).backfill.deep_view().has_pending() {
                old(self).slots@.retain_checkpointed(summary@)
            } else {
                old(self).slots@
            }),
    {
        let should_return = !summary.is_default() || !self.pending_convergence_groups.is_empty()
            || self.backfill.has_pending_epoch_backfill();
        if should_return {
            self.slots.retain_checkpointed_sync_summary(summary);
        }
    }

    /// After a failed rebuild: a report of something is worth more than the
    /// error; a mere wake-up waits for the rebuild.
    pub fn direct_next_event_summary_after_refresh_error(&mut self, error: AppError) -> (outcome:
        Result<SyncSummary, AppError>)
        ensures
            *final(self) == (AppClient { slots: final(self).slots, ..*old(self) }),
            old(self).slots@.reportable() ==> (outcome matches Ok(report) && report@
                == old(self).slots@.report()) && final(self).slots@
                == old(self).slots@.handed_out(),
            !old(self).slots@.reportable() ==> outcome == Err::<SyncSummary, AppError>(error)
                && final(self).slots@ == old(self).slots@,
    {
        let reportable = match &self.slots.checkpointed {
            Some(summary) => !summary.is_default(),
            None => false,
        };
        if reportable {
            Ok(self.slots.take_checkpointed_sync_summary_or_default())
        } else {
            Err(error)
        }
    }

    /// One turn of `next_event` before a receive: an older rebuild first, then
    /// what is already committed, then a receive.
    pub fn next_event(&mut self, refresh: Result<(), AppError>) -> (turn: Result<
        Option<SyncSummary>,
        AppError,
    >)
        ensures
            *final(self) == (AppClient { slots: final(self).slots, ..*old(self) }),
            ({
                let slots = old(self).slots@;
                if refresh_fails(slots, refresh) {
                    if slots.reportable() {
                        (turn matches Ok(Some(report)) && report@ == slots.report())
                            && final(self).slots@ == slots.handed_out()
                    } else {
                        turn == Err::<Option<SyncSummary>, AppError>(refresh->Err_0)
                            && final(self).slots@ == slots
                    }
                } else if slots.checkpointed is None && slots.escalations.len() == 0 {
                    turn == Ok::<Option<SyncSummary>, AppError>(None) && final(self).slots@
                        == refreshed(slots)
                } else {
                    (turn matches Ok(Some(report)) && report@ == slots.report())
                        && final(self).slots@ == refreshed(slots).handed_out()
                }
            }),
    {
        match self.note_subscription_refresh(refresh) {
            Ok(()) => Ok(self.slots.take_pending_checkpointed_sync_summary()),
            Err(error) => match self.direct_next_event_summary_after_refresh_error(error) {
                Ok(summary) => Ok(Some(summary)),
                Err(error) => Err(error),
            },
        }
    }
}

/// What a failure reports of the committed slot.
pub open spec fn failure_report(slots: SlotsContent) -> SummaryContent {
    if slots.reportable() {
        slots.report()
    } else {
        SummaryContent::nothing().escalated(slots.escalations)
    }
}

/// The slots after a failure reported what it could.
pub open spec fn after_failure(slots: SlotsContent) -> SlotsContent {
    if slots.reportable() {
        slots.handed_out()
    } else {
        SlotsContent { escalations: Seq::empty(), ..slots }
    }
}

/// A wake-up survives a failed rebuild and comes out exactly once when the
/// rebuild succeeds.
pub proof fn law_wake_up_survives_a_failed_refresh(slots: SlotsContent)
    requires
        slots.checkpointed == Some(SummaryContent::nothing()),
        slots.escalations.len() == 0,
    ensures
        !slots.reportable(),
        refreshed(slots).report() == SummaryContent::nothing(),
        refreshed(slots).handed_out().checkpointed is None,
{
    assert(refreshed(slots).report() =~= SummaryContent::nothing());
}

/// How a replay for a dropped delivery begins.
#[derive(Debug)]
pub enum OverflowRecoveryBegin {
    NotNeeded,
    /// The drop is known but its marker is not.
    MarkerUnavailable(ClassifiedSyncFailure),
    Attempt { marker_token: u64 },
}

/// How a replay for a dropped delivery ended.
#[derive(Debug)]
pub enum DeliveryOverflowRecoveryOutcome {
    Completed(SyncSummary),
    Incomplete(SyncSummary),
}

/// What storage did with the marker of a completed replay.
#[derive(Debug)]
pub enum MarkerClear {
    Cleared,
    /// A newer drop won; its marker, if storage still has one.
    Superseded { current: Option<u64> },
    Failed(AppError),
}

impl AppClient {
    /// Decides whether a dropped delivery needs a replay.
    pub fn begin_delivery_overflow_recovery(&self) -> (begin: OverflowRecoveryBegin)
        ensures
            match begin {
                OverflowRecoveryBegin::NotNeeded => !self.delivery_overflow_recovery_pending,
                OverflowRecoveryBegin::MarkerUnavailable(failure) => {
                    &&& self.delivery_overflow_recovery_pending
                    &&& self.delivery_overflow_recovery_marker_token is None
                    &&& failure.partial_summary@ == SummaryContent::nothing()
                    &&& failure.stage is StatePersist
                    &&& failure.source matches AppError::Transport(text) && text@
                        == "account delivery overflow marker unavailable"@
                },
                OverflowRecoveryBegin::Attempt { marker_token } => {
                    &&& self.delivery_overflow_recovery_pending
                    &&& self.delivery_overflow_recovery_marker_token == Some(marker_token)
                },
            },
    {
        if !self.delivery_overflow_recovery_pending {
            return OverflowRecoveryBegin::NotNeeded;
        }
        match self.delivery_overflow_recovery_marker_token {
            Some(marker_token) => OverflowRecoveryBegin::Attempt { marker_token },
            None => OverflowRecoveryBegin::MarkerUnavailable(
                ClassifiedSyncFailure::at_stage(
                    SyncSummary::default(),
                    AppError::Transport("account delivery overflow marker unavailable".to_owned()),
                    SyncFailureStage::StatePersist,
                ),
            ),
        }
    }

    /// Ends a replay for a dropped delivery. `confirmed` holds what storage did
    /// with the marker where the drain completed and no newer drop was known;
    /// without it the replay is incomplete and the marker stays.
    pub fn finish_delivery_overflow_recovery(&mut self, confirmed: Option<MarkerClear>) -> (outcome:
        Result<DeliveryOverflowRecoveryOutcome, ClassifiedSyncFailure>)
        ensures
            *final(self) == (AppClient {
                slots: final(self).slots,
                delivery_overflow_recovery_pending: final(self).delivery_overflow_recovery_pending,
                delivery_overflow_recovery_marker_token: final(self).delivery_overflow_recovery_marker_token,
                ..*old(self)
            }),
            final(self).slots@ == old(self).slots@.handed_out(),
            match confirmed {
                None => {
                    &&& outcome matches Ok(DeliveryOverflowRecoveryOutcome::Incomplete(report))
                        && report@ == old(self).slots@.report()
                    &&& final(self).delivery_overflow_recovery_pending
                        == old(self).delivery_overflow_recovery_pending
                    &&& final(self).delivery_overflow_recovery_marker_token
                        == old(self).delivery_overflow_recovery_marker_token
                },
                Some(MarkerClear::Cleared) => {
                    &&& outcome matches Ok(DeliveryOverflowRecoveryOutcome::Completed(report))
                        && report@ == old(self).slots@.report()
                    &&& !final(self).delivery_overflow_recovery_pending
                    &&& final(self).delivery_overflow_recovery_marker_token is None
                },
                Some(MarkerClear::Superseded { current }) => {
                    &&& outcome matches Err(failure) && failure.partial_summary@
                        == old(self).slots@.report() && failure.stage is RelayReceive && (
                    failure.source matches AppError::Transport(text) && text@
                        == "account delivery overflow generation advanced"@)
                    &&& final(self).delivery_overflow_recovery_pending == (current is Some)
                    &&& final(self).delivery_overflow_recovery_marker_token == current
                },
                Some(MarkerClear::Failed(error)) => {
                    &&& outcome matches Err(failure) && failure.partial_summary@
                        == old(self).slots@.report() && failure.stage is StatePersist
                        && failure.source == error
                    &&& final(self).delivery_overflow_recovery_pending
                        == old(self).delivery_overflow_recovery_pending
                    &&& final(self).delivery_overflow_recovery_marker_token
                        == old(self).delivery_overflow_recovery_marker_token
                },
            },
    {
        let summary = self.slots.take_checkpointed_sync_summary_or_default();
        match confirmed {
            None => Ok(DeliveryOverflowRecoveryOutcome::Incomplete(summary)),
            Some(MarkerClear::Cleared) => {
                self.clear_delivery_overflow_recovery(true, None);
                Ok(DeliveryOverflowRecoveryOutcome::Completed(summary))
            },
            Some(MarkerClear::Superseded { current }) => {
                self.clear_delivery_overflow_recovery(false, current);
                Err(
                    ClassifiedSyncFailure::at_stage(
                        summary,
                        AppError::Transport(
                            "account delivery overflow generation advanced".to_owned(),
                        ),
                        SyncFailureStage::RelayReceive,
                    ),
                )
            },
            Some(MarkerClear::Failed(error)) => Err(
                ClassifiedSyncFailure::at_stage(summary, error, SyncFailureStage::StatePersist),
            ),
        }
    }
}

/// Joins a replay for a dropped delivery with the summary that a caller builds:
/// success appends to it, a failure carries it at its end.
pub fn merge_delivery_overflow_recovery(
    summary: &mut SyncSummary,
    outcome: Result<DeliveryOverflowRecoveryOutcome, ClassifiedSyncFailure>,
) -> (merged: Result<(), ClassifiedSyncFailure>)
    ensures
        match outcome {
            Ok(DeliveryOverflowRecoveryOutcome::Completed(recovered)) => merged is Ok
                && final(summary)@ == old(summary)@.followed_by(recovered@),
            Ok(DeliveryOverflowRecoveryOutcome::Incomplete(recovered)) => merged is Ok
                && final(summary)@ == old(summary)@.followed_by(recovered@),
            Err(failed) => {
                &&& merged matches Err(failure) && failure.source == failed.source && failure.stage
                    == failed.stage && failure.partial_summary@
                    == failed.partial_summary@.followed_by(old(summary)@)
                &&& final(summary)@ == SummaryContent::nothing()
            },
        },
{
    match outcome {
        Ok(DeliveryOverflowRecoveryOutcome::Completed(recovered)) => {
            summary.merge(recovered);
            Ok(())
        },
        Ok(DeliveryOverflowRecoveryOutcome::Incomplete(recovered)) => {
            summary.merge(recovered);
            Ok(())
        },
        Err(failed) => {
            let mut failed = failed;
            failed.partial_summary.merge(summary.take());
            Err(failed)
        },
    }
}

/// What an explicit repair does after trying one pending replay.
#[derive(Debug, PartialEq, Eq)]
pub enum RepairStep {
    /// The replay confirmed the history: the repair is done once no drop waits.
    Confirmed,
    /// The replay did not confirm it: hand its part out, then repair without a floor.
    HandOff(SyncSummary),
    /// The intent was put off: try the next.
    TryNext,
    /// No intent is left: repair without a floor.
    Repair,
}

/// How one pending replay ended.
#[derive(Debug)]
pub enum EpochBackfillRunOutcome {
    NotPending,
    Deferred,
    Completed(SyncSummary),
    Incomplete(SyncSummary),
}

impl AppClient {
    /// How many pending replays an explicit repair tries, each once.
    pub fn repair_attempts(&self) -> (count: usize)
        ensures
            count == (if self.backfill.deep_view().pending is Some {
                crate::client::reconcile::saturated_sum(
                    1,
                    self.backfill.deep_view().queued.len() as usize,
                )
            } else {
                self.backfill.deep_view().queued.len() as usize
            }),
    {
        let queued: usize = self.backfill.queued.len();
        assert(self.backfill.queued@.len() == self.backfill.deep_view().queued.len());
        if self.backfill.pending.is_some() {
            queued.saturating_add(1)
        } else {
            queued
        }
    }

    /// Decides what an explicit repair does after one pending replay.
    pub fn repair_step(&mut self, outcome: EpochBackfillRunOutcome) -> (step: RepairStep)
        ensures
            *final(self) == (AppClient { slots: final(self).slots, ..*old(self) }),
            match outcome {
                EpochBackfillRunOutcome::Completed(summary) => step is Confirmed
                    && final(self).slots@ == old(self).slots@.retain_checkpointed(summary@),
                EpochBackfillRunOutcome::Incomplete(summary) => step == RepairStep::HandOff(summary)
                    && final(self).slots@ == old(self).slots@,
                EpochBackfillRunOutcome::Deferred => step is TryNext && final(self).slots@
                    == old(self).slots@,
                EpochBackfillRunOutcome::NotPending => step is Repair && final(self).slots@
                    == old(self).slots@,
            },
    {
        match outcome {
            EpochBackfillRunOutcome::Completed(summary) => {
                self.slots.retain_checkpointed_sync_summary(summary);
                RepairStep::Confirmed
            },
            EpochBackfillRunOutcome::Incomplete(summary) => RepairStep::HandOff(summary),
            EpochBackfillRunOutcome::Deferred => RepairStep::TryNext,
            EpochBackfillRunOutcome::NotPending => RepairStep::Repair,
        }
    }

    /// The verdict of a repair's drain after a drop of the queue was replayed:
    /// only whether the drop still waits matters then.
    pub fn repair_verdict_after_recovery(&self) -> (verdict: DrainVerdict)
        ensures
            verdict == (if self.delivery_overflow_recovery_pending {
                DrainVerdict::Overflow
            } else {
                DrainVerdict::Complete
            }),
    {
        if self.delivery_overflow_recovery_pending {
            DrainVerdict::Overflow
        } else {
            DrainVerdict::Complete
        }
    }

    /// Ends an explicit repair. Anything but a complete drain fails it, with what
    /// was ingested.
    pub fn finish_full_history_repair(&mut self, verdict: DrainVerdict) -> (outcome: Result<
        (),
        ClassifiedSyncFailure,
    >)
        ensures
            *final(self) == (AppClient { slots: final(self).slots, ..*old(self) }),
            verdict is Complete ==> outcome is Ok && final(self).slots@ == old(self).slots@,
            !(verdict is Complete) ==> {
                &&& outcome matches Err(failure) && failure.partial_summary@
                    == old(self).slots@.report() && failure.stage is RelayReceive && (
                failure.source matches AppError::BlockingTask(text) && text@
                    == "full-history repair incomplete: "@ + verdict_word(verdict)->Some_0)
                &&& final(self).slots@ == old(self).slots@.handed_out()
            },
    {
        match verdict {
            DrainVerdict::Complete => Ok(()),
            _ => {
                let summary = self.slots.take_checkpointed_sync_summary_or_default();
                Err(incomplete_full_history_repair(summary, verdict))
            },
        }
    }

    /// The failure of a drain after its prefix was checkpointed: the error that
    /// ended the drain, or, if the checkpoint failed too, that of the checkpoint.
    /// The second part is the cursor that the audit records.
    pub fn finish_failed_sync_drain(
        &self,
        checkpoint: Result<(), AppError>,
        original: AppError,
        stage: SyncFailureStage,
        cursor_before_secs: Option<u64>,
    ) -> (failure: (ClassifiedSyncFailure, Option<u64>))
        ensures
            failure.0.partial_summary@ == SummaryContent::nothing(),
            match checkpoint {
                Ok(()) => failure.0.source == original && failure.0.stage == stage && failure.1
                    == self.last_transport_timestamp,
                Err(error) => failure.0.source == error && failure.0.stage is StatePersist
                    && failure.1 == cursor_before_secs,
            },
    {
        match checkpoint {
            Ok(()) => (
                ClassifiedSyncFailure::at_stage(SyncSummary::default(), original, stage),
                self.last_transport_timestamp,
            ),
            Err(error) => (
                ClassifiedSyncFailure::at_stage(
                    SyncSummary::default(),
                    error,
                    SyncFailureStage::StatePersist,
                ),
                cursor_before_secs,
            ),
        }
    }

    /// Puts the cursor back to where a drain began, so that the omitted delivery
    /// stays above the floor.
    pub fn hold_cursor(&mut self, cursor_before_secs: Option<u64>)
        ensures
            *final(self) == (AppClient {
                last_transport_timestamp: cursor_before_secs,
                ..*old(self)
            }),
    {
        self.last_transport_timestamp = cursor_before_secs;
    }

    /// Whether the drain of a synchronization must be followed by a replay for a
    /// dropped delivery.
    pub fn needs_overflow_recovery(&self, verdict: DrainVerdict) -> (needs: bool)
        ensures
            needs == (verdict is Overflow || self.delivery_overflow_recovery_pending),
    {
        match verdict {
            DrainVerdict::Overflow => true,
            _ => self.delivery_overflow_recovery_pending,
        }
    }
}

/// A repair succeeds only where the relays confirmed the history: every other
/// verdict fails it and keeps what was ingested in the failure.
pub proof fn law_repair_needs_confirmation(verdict: DrainVerdict)
    ensures
        verdict_word(verdict) is Some <==> !(verdict is Complete),
{
}

} // verus!
