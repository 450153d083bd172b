//! Starting a pending replay: the queue is written whenever it changes, before
//! anything of the replay runs.

use crate::client::app_client::AppClient;
use crate::client::backfill_run::EpochBackfillGate;
use crate::client::epoch_backfill::{
    begins_next, EpochBackfillBegin, EpochBackfillExecution, EpochBackfillExecutionSeam,
    QueueContent,
};
use crate::client::sync::EpochBackfillRunOutcome;
use crate::collections::KeyMap;
use crate::error::AppError;
use crate::ids::GroupId;
use vstd::prelude::*;

verus! {

/// What a start waits for.
#[derive(Clone, Copy, Debug, PartialEq, Eq, Structural)]
pub enum StartPoint {
    /// A write that failed before is retried.
    Flush,
    /// The queue with an interrupted replay put back.
    Recovery,
    /// The epochs of the groups.
    Epochs,
    /// The queue with a start that was put off.
    Deferral,
    /// The queue with the replay that starts.
    Start,
    Ended,
}

/// One start.
pub struct ReplayStart {
    pub seam: EpochBackfillExecutionSeam,
    pub point: StartPoint,
    /// The replay that starts, until the queue is written.
    pub execution: Option<EpochBackfillExecution>,
}

/// What the step that a start waits for brought.
pub enum StartEvent {
    JournalPersisted { now_ms: u64 },
    EpochsRead { observed: KeyMap<GroupId, u64>, now_ms: u64 },
    Failed { error: AppError },
}

/// What a start asks for.
pub enum StartAction {
    PersistJournal,
    ReadEpochs,
    /// Record that a start was put off, unless the same was recorded last, and
    /// write the queue.
    PersistDeferral { audit: bool, attempt_id: String, retry_ordinal: u64 },
    Started { execution: EpochBackfillExecution },
    Ended { outcome: Result<EpochBackfillRunOutcome, AppError> },
}

/// Whether an event answers what a start waits for.
pub open spec fn answers_start(point: StartPoint, event: StartEvent) -> bool {
    match event {
        StartEvent::JournalPersisted { .. } => point is Flush || point is Recovery
            || point is Deferral || point is Start,
        StartEvent::EpochsRead { .. } => point is Epochs,
        StartEvent::Failed { .. } => !(point is Ended),
    }
}

/// What a seam may do with a queue: pacing holds back all but an explicit catch-up.
pub open spec fn gate_of(
    queue: QueueContent,
    seam: EpochBackfillExecutionSeam,
    now_ms: u64,
) -> EpochBackfillGate {
    if !queue.has_pending() {
        EpochBackfillGate::NotPending
    } else if !(seam is ExplicitCatchUp) && (queue.retry_not_before_ms matches Some(not_before)
        && now_ms < not_before) {
        EpochBackfillGate::Deferred
    } else {
        EpochBackfillGate::Ready
    }
}

/// How a start goes on at its gate.
pub open spec fn passes_gate(
    after: ReplayStart,
    gate: EpochBackfillGate,
    action: StartAction,
) -> bool {
    match gate {
        EpochBackfillGate::NotPending => after.point is Ended && action == (StartAction::Ended {
            outcome: Ok::<EpochBackfillRunOutcome, AppError>(EpochBackfillRunOutcome::NotPending),
        }),
        EpochBackfillGate::Deferred => after.point is Ended && action == (StartAction::Ended {
            outcome: Ok::<EpochBackfillRunOutcome, AppError>(EpochBackfillRunOutcome::Deferred),
        }),
        EpochBackfillGate::Ready => after.point is Epochs && action is ReadEpochs,
    }
}

/// How a client changes where a start touches its queue alone.
pub open spec fn requeues(before: AppClient, after: AppClient, queue: QueueContent) -> bool {
    &&& after == (AppClient { backfill: after.backfill, ..before })
    &&& after.backfill.deep_view() == queue
}

/// How a start goes on once nothing is left to be retried: an interrupted replay is
/// put back and written first.
pub open spec fn goes_on(
    queue: QueueContent,
    before: AppClient,
    stepped: AppClient,
    after: ReplayStart,
    now_ms: u64,
    action: StartAction,
) -> bool {
    &&& requeues(before, stepped, queue.recovered())
    &&& if queue.active is Some {
        after.point is Recovery && action is PersistJournal
    } else {
        passes_gate(after, gate_of(queue, after.seam, now_ms), action)
    }
}

/// How a start takes in the epochs of the groups.
pub open spec fn takes_epochs(
    before: ReplayStart,
    after: ReplayStart,
    client: AppClient,
    stepped: AppClient,
    observed: KeyMap<GroupId, u64>,
    now_ms: u64,
    action: StartAction,
) -> bool {
    exists|begin: EpochBackfillBegin|
        {
            &&& #[trigger] begins_next(
                client.backfill.deep_view(),
                stepped.backfill.deep_view(),
                observed,
                now_ms,
                begin,
            )
            &&& stepped == (AppClient { backfill: stepped.backfill, ..client })
            &&& match begin {
                EpochBackfillBegin::NothingPending => {
                    &&& after.point is Ended
                    &&& action == (StartAction::Ended {
                        outcome: Ok::<EpochBackfillRunOutcome, AppError>(
                            EpochBackfillRunOutcome::Deferred,
                        ),
                    })
                },
                EpochBackfillBegin::Deferred { audit, retry_ordinal, attempt_id } => {
                    &&& after.point is Deferral
                    &&& after.execution == before.execution
                    &&& action == (StartAction::PersistDeferral {
                        audit,
                        attempt_id,
                        retry_ordinal,
                    })
                },
                EpochBackfillBegin::Started(execution) => {
                    &&& after.point is Start
                    &&& after.execution == Some(execution)
                    &&& action is PersistJournal
                },
            }
        }
}

/// The queue after a start that could not be written was taken back: its intent is
/// first again.
pub open spec fn taken_back(queue: QueueContent, start: ReplayStart) -> QueueContent {
    match (start.point, start.execution) {
        (StartPoint::Start, Some(execution)) => match queue.pending {
            None => QueueContent {
                active: None,
                pending: Some(execution.pending.deep_view()),
                ..queue
            },
            Some(_) => QueueContent {
                active: None,
                queued: seq![execution.pending.deep_view()] + queue.queued,
                ..queue
            },
        },
        _ => queue,
    }
}

/// How a start and its client step.
pub open spec fn start_steps(
    before: ReplayStart,
    after: ReplayStart,
    client: AppClient,
    stepped: AppClient,
    event: StartEvent,
    action: StartAction,
) -> bool {
    let queue = client.backfill.deep_view();
    &&& after.seam == before.seam
    &&& match event {
        StartEvent::Failed { error } => {
            &&& requeues(
                client,
                stepped,
                QueueContent {
                    journal_dirty: queue.journal_dirty || !(before.point is Epochs),
                    ..taken_back(queue, before)
                },
            )
            &&& after.point is Ended
            &&& action == (StartAction::Ended {
                outcome: Err::<EpochBackfillRunOutcome, AppError>(error),
            })
        },
        StartEvent::EpochsRead { observed, now_ms } => takes_epochs(
            before,
            after,
            client,
            stepped,
            observed,
            now_ms,
            action,
        ),
        StartEvent::JournalPersisted { now_ms } => {
            let written = QueueContent { journal_dirty: false, ..queue };
            match before.point {
                StartPoint::Deferral => {
                    &&& requeues(client, stepped, written)
                    &&& passes_gate(after, EpochBackfillGate::Deferred, action)
                },
                StartPoint::Start => {
                    &&& requeues(client, stepped, written)
                    &&& after.point is Ended
                    &&& match before.execution {
                        Some(execution) => action == (StartAction::Started { execution }),
                        None => passes_gate(after, EpochBackfillGate::Deferred, action),
                    }
                },
                _ => goes_on(written, client, stepped, after, now_ms, action),
            }
        },
    }
}

impl ReplayStart {
    /// A start holds a replay exactly while it waits for the queue to be written with
    /// it.
    pub open spec fn wf(&self) -> bool {
        self.point is Start ==> self.execution is Some
    }

    fn enter(&mut self, gate: EpochBackfillGate) -> (action: StartAction)
        ensures
            passes_gate(*final(self), gate, action),
            final(self).seam == old(self).seam,
            final(self).wf(),
    {
        match gate {
            EpochBackfillGate::NotPending => {
                self.point = StartPoint::Ended;
                StartAction::Ended { outcome: Ok(EpochBackfillRunOutcome::NotPending) }
            },
            EpochBackfillGate::Deferred => {
                self.point = StartPoint::Ended;
                StartAction::Ended { outcome: Ok(EpochBackfillRunOutcome::Deferred) }
            },
            EpochBackfillGate::Ready => {
                self.point = StartPoint::Epochs;
                StartAction::ReadEpochs
            },
        }
    }

    fn go_on(&mut self, client: &mut AppClient, now_ms: u64) -> (action: StartAction)
        ensures
            goes_on(
                old(client).backfill.deep_view(),
                *old(client),
                *final(client),
                *final(self),
                now_ms,
                action,
            ),
            final(self).seam == old(self).seam,
            final(self).wf(),
    {
        if client.backfill.active.is_some() {
            let _ = client.backfill.recover_active_epoch_backfill_after_cancellation();
            self.point = StartPoint::Recovery;
            return StartAction::PersistJournal;
        }
        let gate = client.backfill.check_pending(self.seam, now_ms);
        self.enter(gate)
    }

    /// Begins a start at a seam.
    pub fn begin(client: &mut AppClient, seam: EpochBackfillExecutionSeam, now_ms: u64) -> (begun: (
        Self,
        StartAction,
    ))
        ensures
            begun.0.seam == seam,
            begun.0.wf(),
            if old(client).backfill.journal_dirty {
                &&& *final(client) == *old(client)
                &&& begun.0.point is Flush
                &&& begun.1 is PersistJournal
            } else {
                goes_on(
                    old(client).backfill.deep_view(),
                    *old(client),
                    *final(client),
                    begun.0,
                    now_ms,
                    begun.1,
                )
            },
    {
        let mut start = ReplayStart { seam, point: StartPoint::Flush, execution: None };
        if client.backfill.journal_dirty {
            return (start, StartAction::PersistJournal);
        }
        let action = start.go_on(client, now_ms);
        (start, action)
    }

    fn take_epochs(
        &mut self,
        client: &mut AppClient,
        observed: KeyMap<GroupId, u64>,
        now_ms: u64,
    ) -> (action: StartAction)
        ensures
            takes_epochs(
                *old(self),
                *final(self),
                *old(client),
                *final(client),
                observed,
                now_ms,
                action,
            ),
            final(self).seam == old(self).seam,
            final(self).wf(),
    {
        let ghost before = client.backfill.deep_view();
        let begin = client.backfill.begin_epoch_backfill_execution(&observed, now_ms);
        assert(begins_next(before, client.backfill.deep_view(), observed, now_ms, begin));
        match begin {
            EpochBackfillBegin::NothingPending => {
                self.point = StartPoint::Ended;
                StartAction::Ended { outcome: Ok(EpochBackfillRunOutcome::Deferred) }
            },
            EpochBackfillBegin::Deferred { audit, retry_ordinal, attempt_id } => {
                self.point = StartPoint::Deferral;
                StartAction::PersistDeferral { audit, attempt_id, retry_ordinal }
            },
            EpochBackfillBegin::Started(execution) => {
                self.point = StartPoint::Start;
                self.execution = Some(execution);
                StartAction::PersistJournal
            },
        }
    }

    /// Makes a step.
    pub fn step(&mut self, client: &mut AppClient, event: StartEvent) -> (action: StartAction)
        requires
            old(self).wf(),
            answers_start(old(self).point, event),
        ensures
            start_steps(*old(self), *final(self), *old(client), *final(client), event, action),
            final(self).wf(),
    {
        match event {
            StartEvent::Failed { error } => {
                match self.point {
                    StartPoint::Epochs => {},
                    _ => {
                        client.backfill.journal_dirty = true;
                    },
                }
                match self.point {
                    StartPoint::Start => match self.execution.take() {
                        Some(execution) => client.backfill.abandon_begin(execution.pending),
                        None => {},
                    },
                    _ => {},
                }
                self.point = StartPoint::Ended;
                StartAction::Ended { outcome: Err(error) }
            },
            StartEvent::EpochsRead { observed, now_ms } => self.take_epochs(
                client,
                observed,
                now_ms,
            ),
            StartEvent::JournalPersisted { now_ms } => {
                client.backfill.journal_dirty = false;
                match self.point {
                    StartPoint::Deferral => self.enter(EpochBackfillGate::Deferred),
                    StartPoint::Start => {
                        self.point = StartPoint::Ended;
                        match self.execution.take() {
                            Some(execution) => StartAction::Started { execution },
                            None => self.enter(EpochBackfillGate::Deferred),
                        }
                    },
                    _ => self.go_on(client, now_ms),
                }
            },
        }
    }
}

/// No replay runs before the queue that holds it is written.
pub proof fn law_replay_starts_written(
    before: ReplayStart,
    after: ReplayStart,
    client: AppClient,
    stepped: AppClient,
    event: StartEvent,
    action: StartAction,
    execution: EpochBackfillExecution,
)
    requires
        answers_start(before.point, event),
        start_steps(before, after, client, stepped, event, action),
        action == (StartAction::Started { execution }),
    ensures
        event is JournalPersisted,
        before.point is Start,
        before.execution == Some(execution),
        !stepped.backfill.deep_view().journal_dirty,
{
}

/// A start that cannot be written loses nothing: its intent is first in the queue
/// again, and the write is retried before the next start.
pub proof fn law_unwritten_start_is_taken_back(
    before: ReplayStart,
    after: ReplayStart,
    client: AppClient,
    stepped: AppClient,
    error: AppError,
    action: StartAction,
)
    requires
        before.wf(),
        before.point is Start,
        start_steps(before, after, client, stepped, StartEvent::Failed { error }, action),
    ensures
        stepped.backfill.deep_view().active is None,
        stepped.backfill.deep_view().intents().contains(
            before.execution->Some_0.pending.deep_view(),
        ),
        stepped.backfill.deep_view().journal_dirty,
{
    let queue = stepped.backfill.deep_view();
    let intent = before.execution->Some_0.pending.deep_view();
    if client.backfill.deep_view().pending is None {
        assert(queue.intents()[0] == intent);
    } else {
        assert(queue.intents()[1] == intent);
    }
}

} // verus!
