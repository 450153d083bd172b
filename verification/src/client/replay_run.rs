//! Running one pending replay, step by step: what each step brought is taken in, and
//! the next one is given out.

use crate::client::app_client::AppClient;
use crate::client::backfill_run::{
    counted, finished_queue, mismatch, paced_until, runs_active, settled_queue, tells_end,
    unsettled_queue, EpochBackfillFinish, EpochBackfillFinished,
};
use crate::client::drain::{verdict_word, DrainCounts, DrainVerdict};
use crate::client::epoch_backfill::{EpochBackfillExecution, EpochBackfillQueue, QueueContent};
use crate::client::summary::{SlotsContent, SummaryContent, SyncSummary};
use crate::client::sync::EpochBackfillRunOutcome;
use crate::collections::KeyMap;
use crate::error::AppError;
use crate::ids::GroupId;
use vstd::prelude::*;

verus! {

/// Where a replay can fail.
#[derive(Clone, Copy, Debug, PartialEq, Eq, Structural)]
pub enum ReplayPoint {
    PersistIntent,
    Activate,
    SyncGroups,
    DrainSession,
    DrainRelay,
    ClearIntent,
}

/// Whether a replay's transport was activated.
#[derive(Clone, Copy, Debug, PartialEq, Eq, Structural)]
pub enum EpochBackfillActivationOutcome {
    Succeeded,
    Failed,
}

/// Whether the transport was active where a replay failed.
pub open spec fn activation_at(point: ReplayPoint) -> EpochBackfillActivationOutcome {
    if point is PersistIntent || point is Activate {
        EpochBackfillActivationOutcome::Failed
    } else {
        EpochBackfillActivationOutcome::Succeeded
    }
}

/// What a step of a replay brought.
pub enum ReplayEvent {
    IntentPersisted,
    Activated,
    GroupsSynced,
    SessionDrained,
    RelayDrained { verdict: DrainVerdict, counts: DrainCounts },
    IntentCleared { counts: DrainCounts },
    /// The step failed. `kind` is the word under which the audit records it, and
    /// `partial` what the step still brought.
    Failed {
        point: ReplayPoint,
        error: AppError,
        kind: String,
        partial: SyncSummary,
        counts: DrainCounts,
    },
}

/// How a replay ended.
pub enum ReplayConclusion {
    Completed,
    Incomplete,
    Failed { error: AppError },
}

/// A replay that ended, until its queue is written.
pub struct ReplayEnding {
    /// The queue to fall back to where it cannot be written.
    pub previous: EpochBackfillQueue,
    pub conclusion: ReplayConclusion,
    /// What is recorded of the replay.
    pub audit: EpochBackfillFinished,
    pub activation: EpochBackfillActivationOutcome,
}

/// The next step of a replay, or its end.
pub enum ReplayStep {
    Activate { execution: EpochBackfillExecution },
    SyncGroups { execution: EpochBackfillExecution },
    DrainSession { execution: EpochBackfillExecution },
    DrainRelay { execution: EpochBackfillExecution },
    ClearIntent { execution: EpochBackfillExecution, counts: DrainCounts },
    /// The replay ended; its queue is to be written.
    PersistJournal { ending: ReplayEnding },
    /// Another replay runs in its place.
    Lost { error: AppError },
}

/// The reports of a client after a failed step brought something.
pub open spec fn with_partial(slots: SlotsContent, partial: SummaryContent) -> SlotsContent {
    if partial == SummaryContent::nothing() {
        slots
    } else {
        slots.retain_checkpointed(partial)
    }
}

/// The queue after a replay failed at a step.
pub open spec fn failed_queue(
    queue: QueueContent,
    execution: EpochBackfillExecution,
    now_ms: u64,
    base_backoff_ms: u64,
) -> QueueContent {
    finished_queue(
        queue,
        execution.pending.deep_view(),
        false,
        false,
        false,
        paced_until(now_ms, base_backoff_ms, execution.retry_ordinal),
    )
}

/// How a client changes where a replay touches its reports and its queue alone.
pub open spec fn touches(before: AppClient, after: AppClient) -> bool {
    after == (AppClient { slots: after.slots, backfill: after.backfill, ..before })
}

/// How a replay that ran to its end by a verdict is told.
pub open spec fn told_end(
    step: ReplayStep,
    execution: EpochBackfillExecution,
    verdict: DrainVerdict,
    observed: KeyMap<GroupId, u64>,
    counts: DrainCounts,
    previous: QueueContent,
) -> bool {
    step matches ReplayStep::PersistJournal { ending } && {
        &&& ending.previous.deep_view() == previous
        &&& tells_end(
            ending.audit,
            execution,
            observed,
            counts,
            verdict is Complete,
            verdict_word(verdict),
            verdict is Complete,
        )
        &&& ending.activation is Succeeded
        &&& if verdict is Complete {
            ending.conclusion is Completed
        } else {
            ending.conclusion is Incomplete
        }
    }
}

/// How a replay whose drain ended is settled.
pub open spec fn settles(
    execution: EpochBackfillExecution,
    verdict: DrainVerdict,
    before: AppClient,
    after: AppClient,
    observed: KeyMap<GroupId, u64>,
    counts: DrainCounts,
    now_ms: u64,
    base_backoff_ms: u64,
    step: ReplayStep,
) -> bool {
    let previous = unsettled_queue(
        before.backfill.deep_view(),
        execution,
        verdict,
        now_ms,
        base_backoff_ms,
    );
    &&& touches(before, after)
    &&& after.slots@ == before.slots@
    &&& if runs_active(before.backfill.deep_view(), execution.pending.deep_view().attempt_id) {
        &&& after.backfill.deep_view() == settled_queue(
            before.backfill.deep_view(),
            execution,
            verdict,
            observed,
            counts,
            now_ms,
            base_backoff_ms,
        )
        &&& told_end(step, execution, verdict, observed, counts, previous)
    } else {
        &&& after.backfill.deep_view() == previous
        &&& lost(step)
    }
}

/// How a step of a replay leads to the next.
pub open spec fn replay_steps(
    execution: EpochBackfillExecution,
    before: AppClient,
    after: AppClient,
    event: ReplayEvent,
    observed: KeyMap<GroupId, u64>,
    now_ms: u64,
    base_backoff_ms: u64,
    step: ReplayStep,
) -> bool {
    let runs = runs_active(before.backfill.deep_view(), execution.pending.deep_view().attempt_id);
    match event {
        ReplayEvent::IntentPersisted => step == (ReplayStep::Activate { execution }) && after
            == before,
        ReplayEvent::Activated => step == (ReplayStep::SyncGroups { execution }) && after == before,
        ReplayEvent::GroupsSynced => {
            &&& step == (ReplayStep::DrainSession { execution })
            &&& touches(before, after)
            &&& after.backfill == before.backfill
            &&& after.slots@ == (SlotsContent {
                refresh: false,
                uncheckpointed_refresh: false,
                ..before.slots@
            })
        },
        ReplayEvent::SessionDrained => step == (ReplayStep::DrainRelay { execution }) && after
            == before,
        ReplayEvent::RelayDrained { verdict, counts } => if verdict is Complete {
            &&& after == before
            &&& step matches ReplayStep::ClearIntent { execution: kept, counts: seen }
                && kept == (EpochBackfillExecution { pending: kept.pending, ..execution })
                && kept.pending.deep_view() == counted(execution.pending.deep_view(), verdict)
                && seen == counts
        } else {
            settles(
                execution,
                verdict,
                before,
                after,
                observed,
                counts,
                now_ms,
                base_backoff_ms,
                step,
            )
        },
        ReplayEvent::IntentCleared { counts } => settles(
            execution,
            DrainVerdict::Complete,
            before,
            after,
            observed,
            counts,
            now_ms,
            base_backoff_ms,
            step,
        ),
        ReplayEvent::Failed { point, error, kind, partial, counts } => {
            &&& touches(before, after)
            &&& after.slots@ == with_partial(before.slots@, partial@)
            &&& if runs {
                &&& after.backfill.deep_view() == failed_queue(
                    before.backfill.deep_view(),
                    execution,
                    now_ms,
                    base_backoff_ms,
                )
                &&& step matches ReplayStep::PersistJournal { ending } && {
                    &&& ending.previous.deep_view() == before.backfill.deep_view()
                    &&& ending.conclusion == (ReplayConclusion::Failed { error })
                    &&& tells_end(
                        ending.audit,
                        execution,
                        observed,
                        counts,
                        false,
                        Some(kind@),
                        false,
                    )
                    &&& ending.activation == activation_at(point)
                }
            } else {
                &&& after.backfill.deep_view() == before.backfill.deep_view()
                &&& lost(step)
            }
        },
    }
}

/// How a replay ends that is not the one that the queue runs.
pub open spec fn lost(step: ReplayStep) -> bool {
    step matches ReplayStep::Lost { error } && error.deep_view() == mismatch()
}

/// How a client comes out of a replay once its queue was written, or could not be:
/// only a written end is told, with everything that was checkpointed.
pub open spec fn replay_ends(
    before: AppClient,
    after: AppClient,
    ending: ReplayEnding,
    persisted: Result<(), AppError>,
    outcome: Result<EpochBackfillRunOutcome, AppError>,
) -> bool {
    &&& touches(before, after)
    &&& match persisted {
        Err(error) => {
            &&& after.backfill.deep_view() == (QueueContent {
                journal_dirty: true,
                ..ending.previous.deep_view()
            })
            &&& after.slots == before.slots
            &&& outcome == Err::<EpochBackfillRunOutcome, AppError>(error)
        },
        Ok(_) => {
            &&& after.backfill.deep_view() == (QueueContent {
                journal_dirty: false,
                ..before.backfill.deep_view()
            })
            &&& match ending.conclusion {
                ReplayConclusion::Completed => {
                    &&& after.slots@ == before.slots@.handed_out()
                    &&& outcome matches Ok(EpochBackfillRunOutcome::Completed(summary)) && summary@
                        == before.slots@.report()
                },
                ReplayConclusion::Incomplete => {
                    &&& after.slots@ == before.slots@.handed_out()
                    &&& outcome matches Ok(EpochBackfillRunOutcome::Incomplete(summary))
                        && summary@ == before.slots@.report()
                },
                ReplayConclusion::Failed { error } => {
                    &&& after.slots == before.slots
                    &&& outcome == Err::<EpochBackfillRunOutcome, AppError>(error)
                },
            }
        },
    }
}

impl ReplayPoint {
    fn activation(self) -> (outcome: EpochBackfillActivationOutcome)
        ensures
            outcome == activation_at(self),
    {
        match self {
            ReplayPoint::PersistIntent => EpochBackfillActivationOutcome::Failed,
            ReplayPoint::Activate => EpochBackfillActivationOutcome::Failed,
            _ => EpochBackfillActivationOutcome::Succeeded,
        }
    }
}

impl AppClient {
    fn end_by_verdict(
        &mut self,
        execution: EpochBackfillExecution,
        verdict: DrainVerdict,
        counts: &DrainCounts,
        observed: &KeyMap<GroupId, u64>,
        now_ms: u64,
        base_backoff_ms: u64,
    ) -> (step: ReplayStep)
        ensures
            settles(
                execution,
                verdict,
                *old(self),
                *final(self),
                *observed,
                *counts,
                now_ms,
                base_backoff_ms,
                step,
            ),
    {
        let mut previous = self.backfill.duplicate();
        match self.backfill.settle_replay(
            execution,
            verdict,
            observed,
            counts,
            now_ms,
            base_backoff_ms,
        ) {
            Err(error) => ReplayStep::Lost { error },
            Ok(audit) => {
                let conclusion = match verdict {
                    DrainVerdict::Complete => ReplayConclusion::Completed,
                    _ => {
                        previous.retry_not_before_ms = self.backfill.retry_not_before_ms;
                        ReplayConclusion::Incomplete
                    },
                };
                ReplayStep::PersistJournal {
                    ending: ReplayEnding {
                        previous,
                        conclusion,
                        audit,
                        activation: EpochBackfillActivationOutcome::Succeeded,
                    },
                }
            },
        }
    }

    /// Takes in what a step of a replay brought and says what comes next. A complete
    /// drain is followed by clearing the stored intent; any other verdict, and any
    /// failure, puts the intent back.
    pub fn step_replay(
        &mut self,
        execution: EpochBackfillExecution,
        event: ReplayEvent,
        observed: &KeyMap<GroupId, u64>,
        now_ms: u64,
        base_backoff_ms: u64,
    ) -> (step: ReplayStep)
        ensures
            replay_steps(
                execution,
                *old(self),
                *final(self),
                event,
                *observed,
                now_ms,
                base_backoff_ms,
                step,
            ),
    {
        match event {
            ReplayEvent::IntentPersisted => ReplayStep::Activate { execution },
            ReplayEvent::Activated => ReplayStep::SyncGroups { execution },
            ReplayEvent::GroupsSynced => {
                self.slots.clear_subscription_refresh();
                ReplayStep::DrainSession { execution }
            },
            ReplayEvent::SessionDrained => ReplayStep::DrainRelay { execution },
            ReplayEvent::RelayDrained { verdict, counts } => match verdict {
                DrainVerdict::Complete => {
                    let mut execution = execution;
                    let mut pending = execution.pending;
                    let ghost before = pending.deep_view();
                    pending.no_progress_attempts = 0;
                    assert(pending.deep_view() =~= counted(before, DrainVerdict::Complete));
                    execution.pending = pending;
                    ReplayStep::ClearIntent { execution, counts }
                },
                _ => self.end_by_verdict(
                    execution,
                    verdict,
                    &counts,
                    observed,
                    now_ms,
                    base_backoff_ms,
                ),
            },
            ReplayEvent::IntentCleared { counts } => self.end_by_verdict(
                execution,
                DrainVerdict::Complete,
                &counts,
                observed,
                now_ms,
                base_backoff_ms,
            ),
            ReplayEvent::Failed { point, error, kind, partial, counts } => {
                let previous = self.backfill.duplicate();
                if !partial.is_default() {
                    self.slots.retain_checkpointed_sync_summary(partial);
                }
                let finished = self.backfill.finish_epoch_backfill_execution(
                    execution,
                    observed,
                    Some(kind),
                    None,
                    &counts,
                    EpochBackfillFinish::Failed { preserve_pacing: false },
                    now_ms,
                    base_backoff_ms,
                );
                match finished {
                    Err(error) => ReplayStep::Lost { error },
                    Ok(audit) => ReplayStep::PersistJournal {
                        ending: ReplayEnding {
                            previous,
                            conclusion: ReplayConclusion::Failed { error },
                            audit,
                            activation: point.activation(),
                        },
                    },
                }
            },
        }
    }

    /// Ends a replay once its queue was written, or could not be. What it brought is
    /// handed out only where it was.
    pub fn finish_replay(&mut self, ending: ReplayEnding, persisted: Result<(), AppError>)
        -> (outcome: Result<EpochBackfillRunOutcome, AppError>)
        ensures
            replay_ends(*old(self), *final(self), ending, persisted, outcome),
    {
        match persisted {
            Err(error) => {
                self.backfill = ending.previous;
                self.backfill.journal_dirty = true;
                Err(error)
            },
            Ok(()) => {
                self.backfill.journal_dirty = false;
                match ending.conclusion {
                    ReplayConclusion::Completed => {
                        let summary = self.slots.take_checkpointed_sync_summary_or_default();
                        Ok(EpochBackfillRunOutcome::Completed(summary))
                    },
                    ReplayConclusion::Incomplete => {
                        let summary = self.slots.take_checkpointed_sync_summary_or_default();
                        Ok(EpochBackfillRunOutcome::Incomplete(summary))
                    },
                    ReplayConclusion::Failed { error } => Err(error),
                }
            },
        }
    }
}

/// A replay that failed at any step leaves its intent in the queue, and keeps what
/// the failed step still brought.
pub proof fn law_failed_step_keeps_its_intent(
    execution: EpochBackfillExecution,
    before: AppClient,
    after: AppClient,
    point: ReplayPoint,
    error: AppError,
    kind: String,
    partial: SyncSummary,
    counts: DrainCounts,
    observed: KeyMap<GroupId, u64>,
    now_ms: u64,
    base_backoff_ms: u64,
    step: ReplayStep,
)
    requires
        runs_active(before.backfill.deep_view(), execution.pending.deep_view().attempt_id),
        replay_steps(
            execution,
            before,
            after,
            ReplayEvent::Failed { point, error, kind, partial, counts },
            observed,
            now_ms,
            base_backoff_ms,
            step,
        ),
    ensures
        after.backfill.deep_view().intents().contains(execution.pending.deep_view()),
        after.slots@ == with_partial(before.slots@, partial@),
        after.backfill.deep_view().retry_not_before_ms == paced_until(
            now_ms,
            base_backoff_ms,
            execution.retry_ordinal,
        ),
{
    crate::client::backfill_run::law_unconfirmed_replay_keeps_its_intent(
        before.backfill.deep_view(),
        execution.pending.deep_view(),
        paced_until(now_ms, base_backoff_ms, execution.retry_ordinal),
    );
}

/// Where the end of a replay cannot be written, every report is still owed, the
/// replay counts as running again, and the write is retried before anything else.
pub proof fn law_unwritten_end_tells_nothing(
    execution: EpochBackfillExecution,
    verdict: DrainVerdict,
    before: AppClient,
    settled: AppClient,
    after: AppClient,
    observed: KeyMap<GroupId, u64>,
    counts: DrainCounts,
    now_ms: u64,
    base_backoff_ms: u64,
    ending: ReplayEnding,
    error: AppError,
    outcome: Result<EpochBackfillRunOutcome, AppError>,
)
    requires
        settles(
            execution,
            verdict,
            before,
            settled,
            observed,
            counts,
            now_ms,
            base_backoff_ms,
            ReplayStep::PersistJournal { ending },
        ),
        replay_ends(settled, after, ending, Err(error), outcome),
    ensures
        outcome == Err::<EpochBackfillRunOutcome, AppError>(error),
        after.slots@ == before.slots@,
        after.backfill.deep_view().active == before.backfill.deep_view().active,
        after.backfill.deep_view().pending == before.backfill.deep_view().pending,
        after.backfill.deep_view().queued == before.backfill.deep_view().queued,
        after.backfill.deep_view().journal_dirty,
{
}

} // verus!
