//! One pass over the transport, step by step: a catch-up, an explicit repair, or the
//! replay after the queue dropped a delivery.

use crate::client::app_client::AppClient;
use crate::client::drain::{verdict_word, DrainVerdict};
use crate::client::summary::{
    ClassifiedSyncFailure, SlotsContent, SummaryContent, SyncSummary,
};
use crate::client::sync::{EpochBackfillRunOutcome, RepairStep};
use crate::error::{AppError, SyncFailureStage};
use vstd::prelude::*;

verus! {

/// What a pass is for.
#[derive(Clone, Copy, Debug, PartialEq, Eq, Structural)]
pub enum PassKind {
    /// An ordinary catch-up from the stored floor.
    CatchUp,
    /// A repair that the caller asked for, without a floor.
    Repair,
    /// The replay after the queue dropped a delivery, without a floor.
    OverflowReplay,
}

/// The step that a pass is at.
#[derive(Clone, Copy, Debug, PartialEq, Eq, Structural)]
pub enum PassPoint {
    Visibility,
    Routes,
    Save,
    Replay,
    HandOff,
    Activate,
    Groups,
    Prepare,
    Reconcile,
    Session,
    Relay,
    /// `confirmed` where a pending replay had already confirmed the history.
    Overflow { confirmed: bool },
    Ended,
}

/// What the step that a pass is at brought.
pub enum PassEvent {
    Done,
    RoutesRefreshed { state_pruned: bool },
    Replayed { outcome: EpochBackfillRunOutcome },
    Drained { verdict: DrainVerdict },
    Recovered { summary: SyncSummary },
    Failed { error: AppError },
    /// A failure that says itself at which stage it arose.
    FailedAt { failure: ClassifiedSyncFailure },
}

/// What a pass asks for.
pub enum PassAction {
    ReplayVisibility,
    RefreshRoutes,
    SaveState,
    RunPendingReplay,
    HandOff { summary: SyncSummary },
    Activate,
    SyncGroups,
    PrepareTransport,
    Reconcile { until: u64 },
    DrainSession,
    DrainRelay,
    /// Replay what was dropped, and merge what that brings into the summary.
    RecoverOverflow { summary: SyncSummary },
    Finish { verdict: DrainVerdict },
    Fail { failure: ClassifiedSyncFailure },
}

/// One pass.
#[derive(Clone, Copy, Debug, PartialEq, Eq, Structural)]
pub struct TransportPass {
    pub kind: PassKind,
    pub point: PassPoint,
    /// The floor of a catch-up, up to which stored history is reconciled.
    pub since: Option<u64>,
    /// How many pending replays a repair may still try.
    pub attempts_left: usize,
}

/// The stage at which a step fails, where the failure does not say it.
pub open spec fn stage_of(point: PassPoint) -> SyncFailureStage {
    match point {
        PassPoint::Visibility => SyncFailureStage::StatePersist,
        PassPoint::Routes => SyncFailureStage::StatePersist,
        PassPoint::Save => SyncFailureStage::StatePersist,
        PassPoint::Activate => SyncFailureStage::TransportActivation,
        PassPoint::Reconcile => SyncFailureStage::TransportActivation,
        PassPoint::Groups => SyncFailureStage::GroupSubscriptionSync,
        _ => SyncFailureStage::Unknown,
    }
}

/// Whether something that happened answers the step that a pass is at.
pub open spec fn answers(point: PassPoint, event: PassEvent) -> bool {
    match event {
        PassEvent::RoutesRefreshed { .. } => point is Routes,
        PassEvent::Replayed { .. } => point is Replay,
        PassEvent::Drained { .. } => point is Relay,
        PassEvent::Recovered { .. } => point is Overflow,
        PassEvent::Failed { .. } => !(point is Ended),
        PassEvent::FailedAt { .. } => !(point is Ended),
        PassEvent::Done => !(point is Routes) && !(point is Replay) && !(point is Relay) && !(
        point is Overflow) && !(point is Ended),
    }
}

/// Where a pass begins.
pub open spec fn first_point(kind: PassKind) -> PassPoint {
    match kind {
        PassKind::CatchUp => PassPoint::Visibility,
        PassKind::Repair => PassPoint::Routes,
        PassKind::OverflowReplay => PassPoint::Activate,
    }
}

/// Where a pass goes once its routes are in order.
pub open spec fn after_routes(pass: TransportPass, client: AppClient) -> TransportPass {
    match pass.kind {
        PassKind::CatchUp => TransportPass { point: PassPoint::Prepare, ..pass },
        _ => if client.backfill.deep_view().has_pending() && attempts_of(client) > 0 {
            TransportPass {
                point: PassPoint::Replay,
                attempts_left: attempts_of(client),
                ..pass
            }
        } else {
            TransportPass { point: PassPoint::Activate, ..pass }
        },
    }
}

/// How many pending replays a repair tries.
pub open spec fn attempts_of(client: AppClient) -> usize {
    if client.backfill.deep_view().pending is Some {
        crate::client::reconcile::saturated_sum(
            1,
            client.backfill.deep_view().queued.len() as usize,
        )
    } else {
        client.backfill.deep_view().queued.len() as usize
    }
}

/// The step that follows one that was done.
pub open spec fn after_done(pass: TransportPass, client: AppClient) -> TransportPass {
    match pass.point {
        PassPoint::Visibility => TransportPass { point: PassPoint::Routes, ..pass },
        PassPoint::Save => after_routes(pass, client),
        PassPoint::HandOff => TransportPass { point: PassPoint::Activate, ..pass },
        PassPoint::Activate => TransportPass { point: PassPoint::Groups, ..pass },
        PassPoint::Groups => TransportPass {
            point: if pass.kind is OverflowReplay {
                PassPoint::Relay
            } else {
                PassPoint::Session
            },
            ..pass
        },
        PassPoint::Prepare => TransportPass {
            point: if pass.since is Some {
                PassPoint::Reconcile
            } else {
                PassPoint::Session
            },
            ..pass
        },
        PassPoint::Reconcile => TransportPass { point: PassPoint::Session, ..pass },
        _ => TransportPass { point: PassPoint::Relay, ..pass },
    }
}

/// Whether the subscriptions are complete once a step was done, so that no older
/// request to rebuild them is left.
pub open spec fn rebuilt(before: TransportPass, after: TransportPass) -> bool {
    (before.point is Groups || before.point is Prepare || before.point is Reconcile) && !(
    after.point is Reconcile)
}

/// What a pass asks for at a step that needs nothing more to be said.
pub open spec fn asks(pass: TransportPass, action: PassAction) -> bool {
    match pass.point {
        PassPoint::Visibility => action is ReplayVisibility,
        PassPoint::Routes => action is RefreshRoutes,
        PassPoint::Save => action is SaveState,
        PassPoint::Replay => action is RunPendingReplay,
        PassPoint::Activate => action is Activate,
        PassPoint::Groups => action is SyncGroups,
        PassPoint::Prepare => action is PrepareTransport,
        PassPoint::Reconcile => action matches PassAction::Reconcile { until } && pass.since
            == Some(until),
        PassPoint::Session => action is DrainSession,
        PassPoint::Relay => action is DrainRelay,
        _ => false,
    }
}

/// How a client changes where a pass touches its reports alone.
pub open spec fn reports_only(before: AppClient, after: AppClient) -> bool {
    after == (AppClient { slots: after.slots, ..before })
}

/// How a repair ends: anything but a complete drain fails it, and what
/// was checkpointed goes with the failure.
pub open spec fn repair_ends(
    verdict: DrainVerdict,
    slots_before: SlotsContent,
    slots_after: SlotsContent,
    action: PassAction,
) -> bool {
    if verdict is Complete {
        action == (PassAction::Finish { verdict }) && slots_after == slots_before
    } else {
        &&& slots_after == slots_before.handed_out()
        &&& action matches PassAction::Fail { failure } && failure.partial_summary@
            == slots_before.report() && failure.stage is RelayReceive && (
        failure.source matches AppError::BlockingTask(text) && text@
            == "full-history repair incomplete: "@ + verdict_word(verdict)->Some_0)
    }
}

/// What is handed to the replay of a drop: a repair's checkpointed report, or
/// nothing.
pub open spec fn begins_recovery(
    kind: PassKind,
    slots_before: SlotsContent,
    slots_after: SlotsContent,
    action: PassAction,
) -> bool {
    if kind is Repair {
        &&& slots_after == slots_before.handed_out()
        &&& action matches PassAction::RecoverOverflow { summary } && summary@
            == slots_before.report()
    } else {
        &&& slots_after == slots_before
        &&& action matches PassAction::RecoverOverflow { summary } && summary@
            == SummaryContent::nothing()
    }
}

/// Whether a drain must be followed by the replay of a drop.
pub open spec fn drop_waits(client: AppClient, verdict: DrainVerdict) -> bool {
    verdict is Overflow || client.delivery_overflow_recovery_pending
}

/// The verdict of a repair once a drop was replayed.
pub open spec fn verdict_after_recovery(client: AppClient) -> DrainVerdict {
    if client.delivery_overflow_recovery_pending {
        DrainVerdict::Overflow
    } else {
        DrainVerdict::Complete
    }
}

/// How a step of a pass leads to the next.
pub open spec fn pass_steps(
    before: TransportPass,
    after: TransportPass,
    client_before: AppClient,
    client_after: AppClient,
    event: PassEvent,
    action: PassAction,
) -> bool {
    let ended = TransportPass { point: PassPoint::Ended, ..before };
    &&& reports_only(client_before, client_after)
    &&& match event {
        PassEvent::Done => {
            &&& after == after_done(before, client_before)
            &&& asks(after, action)
            &&& client_after.slots@ == (if rebuilt(before, after) {
                SlotsContent { refresh: false, uncheckpointed_refresh: false, ..client_before.slots@
                }
            } else {
                client_before.slots@
            })
        },
        PassEvent::RoutesRefreshed { state_pruned } => {
            &&& after == (if state_pruned {
                TransportPass { point: PassPoint::Save, ..before }
            } else {
                after_routes(before, client_before)
            })
            &&& asks(after, action)
            &&& client_after.slots@ == client_before.slots@
        },
        PassEvent::Replayed { outcome } => match outcome {
            EpochBackfillRunOutcome::Completed(summary) => {
                let kept = client_before.slots@.retain_checkpointed(summary@);
                if client_before.delivery_overflow_recovery_pending {
                    &&& after == (TransportPass {
                        point: PassPoint::Overflow { confirmed: true },
                        ..before
                    })
                    &&& client_after.slots@ == kept.handed_out()
                    &&& action matches PassAction::RecoverOverflow { summary: given } && given@
                        == kept.report()
                } else {
                    &&& after == ended
                    &&& client_after.slots@ == kept
                    &&& action == (PassAction::Finish { verdict: DrainVerdict::Complete })
                }
            },
            EpochBackfillRunOutcome::Incomplete(summary) => {
                &&& after == (TransportPass { point: PassPoint::HandOff, ..before })
                &&& client_after.slots@ == client_before.slots@
                &&& action == (PassAction::HandOff { summary })
            },
            EpochBackfillRunOutcome::Deferred => {
                &&& after == (if before.attempts_left > 1 {
                    TransportPass { attempts_left: (before.attempts_left - 1) as usize, ..before }
                } else {
                    TransportPass { point: PassPoint::Activate, ..before }
                })
                &&& asks(after, action)
                &&& client_after.slots@ == client_before.slots@
            },
            EpochBackfillRunOutcome::NotPending => {
                &&& after == (TransportPass { point: PassPoint::Activate, ..before })
                &&& asks(after, action)
                &&& client_after.slots@ == client_before.slots@
            },
        },
        PassEvent::Drained { verdict } => if before.kind is OverflowReplay {
            &&& after == ended
            &&& client_after.slots@ == client_before.slots@
            &&& action == (PassAction::Finish { verdict })
        } else if drop_waits(client_before, verdict) {
            &&& after == (TransportPass {
                point: PassPoint::Overflow { confirmed: false },
                ..before
            })
            &&& begins_recovery(before.kind, client_before.slots@, client_after.slots@, action)
        } else if before.kind is Repair {
            &&& after == ended
            &&& repair_ends(verdict, client_before.slots@, client_after.slots@, action)
        } else {
            &&& after == ended
            &&& client_after.slots@ == client_before.slots@
            &&& action == (PassAction::Finish { verdict })
        },
        PassEvent::Recovered { summary } => {
            let kept = client_before.slots@.retain_checkpointed(summary@);
            &&& after == ended
            &&& if before.kind is Repair {
                repair_ends(
                    verdict_after_recovery(client_before),
                    kept,
                    client_after.slots@,
                    action,
                )
            } else {
                &&& client_after.slots@ == kept
                &&& action == (PassAction::Finish {
                    verdict: verdict_after_recovery(client_before),
                })
            }
        },
        PassEvent::Failed { error } => {
            &&& after == ended
            &&& client_after.slots@ == client_before.slots@
            &&& action matches PassAction::Fail { failure } && failure.partial_summary@
                == SummaryContent::nothing() && failure.source == error && failure.stage
                == stage_of(before.point)
        },
        PassEvent::FailedAt { failure } => {
            &&& after == ended
            &&& client_after.slots@ == client_before.slots@
            &&& action == (PassAction::Fail { failure })
        },
    }
}

impl TransportPass {
    /// Begins a pass and asks for its first step.
    pub fn begin(kind: PassKind, since: Option<u64>) -> (begun: (Self, PassAction))
        ensures
            begun.0 == (TransportPass { kind, point: first_point(kind), since, attempts_left: 0 }),
            asks(begun.0, begun.1),
    {
        match kind {
            PassKind::CatchUp => (
                TransportPass { kind, point: PassPoint::Visibility, since, attempts_left: 0 },
                PassAction::ReplayVisibility,
            ),
            PassKind::Repair => (
                TransportPass { kind, point: PassPoint::Routes, since, attempts_left: 0 },
                PassAction::RefreshRoutes,
            ),
            PassKind::OverflowReplay => (
                TransportPass { kind, point: PassPoint::Activate, since, attempts_left: 0 },
                PassAction::Activate,
            ),
        }
    }

    fn stage(&self) -> (stage: SyncFailureStage)
        ensures
            stage == stage_of(self.point),
    {
        match self.point {
            PassPoint::Visibility => SyncFailureStage::StatePersist,
            PassPoint::Routes => SyncFailureStage::StatePersist,
            PassPoint::Save => SyncFailureStage::StatePersist,
            PassPoint::Activate => SyncFailureStage::TransportActivation,
            PassPoint::Reconcile => SyncFailureStage::TransportActivation,
            PassPoint::Groups => SyncFailureStage::GroupSubscriptionSync,
            _ => SyncFailureStage::Unknown,
        }
    }

    fn enter_after_routes(&mut self, client: &AppClient) -> (action: PassAction)
        ensures
            *final(self) == after_routes(*old(self), *client),
            asks(*final(self), action),
    {
        match self.kind {
            PassKind::CatchUp => {
                self.point = PassPoint::Prepare;
                PassAction::PrepareTransport
            },
            _ => {
                let attempts: usize = client.repair_attempts();
                if client.backfill.has_pending_epoch_backfill() && attempts > 0 {
                    self.point = PassPoint::Replay;
                    self.attempts_left = attempts;
                    PassAction::RunPendingReplay
                } else {
                    self.point = PassPoint::Activate;
                    PassAction::Activate
                }
            },
        }
    }

    fn end_repair(&mut self, client: &mut AppClient, verdict: DrainVerdict) -> (action: PassAction)
        ensures
            *final(self) == (TransportPass { point: PassPoint::Ended, ..*old(self) }),
            reports_only(*old(client), *final(client)),
            repair_ends(verdict, old(client).slots@, final(client).slots@, action),
    {
        self.point = PassPoint::Ended;
        match client.finish_full_history_repair(verdict) {
            Ok(()) => PassAction::Finish { verdict },
            Err(failure) => PassAction::Fail { failure },
        }
    }

    fn take_done(&mut self, client: &mut AppClient) -> (action: PassAction)
        requires
            answers(old(self).point, PassEvent::Done),
        ensures
            pass_steps(
                *old(self),
                *final(self),
                *old(client),
                *final(client),
                PassEvent::Done,
                action,
            ),
    {
        match self.point {
            PassPoint::Visibility => {
                self.point = PassPoint::Routes;
                PassAction::RefreshRoutes
            },
            PassPoint::Save => self.enter_after_routes(client),
            PassPoint::HandOff => {
                self.point = PassPoint::Activate;
                PassAction::Activate
            },
            PassPoint::Activate => {
                self.point = PassPoint::Groups;
                PassAction::SyncGroups
            },
            PassPoint::Groups => {
                client.slots.clear_subscription_refresh();
                match self.kind {
                    PassKind::OverflowReplay => {
                        self.point = PassPoint::Relay;
                        PassAction::DrainRelay
                    },
                    _ => {
                        self.point = PassPoint::Session;
                        PassAction::DrainSession
                    },
                }
            },
            PassPoint::Prepare => match self.since {
                Some(until) => {
                    self.point = PassPoint::Reconcile;
                    PassAction::Reconcile { until }
                },
                None => {
                    client.slots.clear_subscription_refresh();
                    self.point = PassPoint::Session;
                    PassAction::DrainSession
                },
            },
            PassPoint::Reconcile => {
                client.slots.clear_subscription_refresh();
                self.point = PassPoint::Session;
                PassAction::DrainSession
            },
            _ => {
                self.point = PassPoint::Relay;
                PassAction::DrainRelay
            },
        }
    }

    fn take_replayed(&mut self, client: &mut AppClient, outcome: EpochBackfillRunOutcome) -> (action:
        PassAction)
        requires
            old(self).point is Replay,
        ensures
            pass_steps(
                *old(self),
                *final(self),
                *old(client),
                *final(client),
                PassEvent::Replayed { outcome },
                action,
            ),
    {
        match client.repair_step(outcome) {
            RepairStep::Confirmed => {
                if client.delivery_overflow_recovery_pending {
                    self.point = PassPoint::Overflow { confirmed: true };
                    PassAction::RecoverOverflow {
                        summary: client.slots.take_checkpointed_sync_summary_or_default(),
                    }
                } else {
                    self.point = PassPoint::Ended;
                    PassAction::Finish { verdict: DrainVerdict::Complete }
                }
            },
            RepairStep::HandOff(summary) => {
                self.point = PassPoint::HandOff;
                PassAction::HandOff { summary }
            },
            RepairStep::TryNext => {
                if self.attempts_left > 1 {
                    self.attempts_left = self.attempts_left - 1;
                    PassAction::RunPendingReplay
                } else {
                    self.point = PassPoint::Activate;
                    PassAction::Activate
                }
            },
            RepairStep::Repair => {
                self.point = PassPoint::Activate;
                PassAction::Activate
            },
        }
    }

    fn take_drained(&mut self, client: &mut AppClient, verdict: DrainVerdict) -> (action: PassAction)
        ensures
            pass_steps(
                *old(self),
                *final(self),
                *old(client),
                *final(client),
                PassEvent::Drained { verdict },
                action,
            ),
    {
        match self.kind {
            PassKind::OverflowReplay => {
                self.point = PassPoint::Ended;
                PassAction::Finish { verdict }
            },
            PassKind::CatchUp => {
                if client.needs_overflow_recovery(verdict) {
                    self.point = PassPoint::Overflow { confirmed: false };
                    PassAction::RecoverOverflow { summary: SyncSummary::default() }
                } else {
                    self.point = PassPoint::Ended;
                    PassAction::Finish { verdict }
                }
            },
            PassKind::Repair => {
                if client.needs_overflow_recovery(verdict) {
                    self.point = PassPoint::Overflow { confirmed: false };
                    PassAction::RecoverOverflow {
                        summary: client.slots.take_checkpointed_sync_summary_or_default(),
                    }
                } else {
                    self.end_repair(client, verdict)
                }
            },
        }
    }

    /// Takes in what the step brought and asks for the next one.
    pub fn step(&mut self, client: &mut AppClient, event: PassEvent) -> (action: PassAction)
        requires
            answers(old(self).point, event),
        ensures
            pass_steps(
                *old(self),
                *final(self),
                *old(client),
                *final(client),
                event,
                action,
            ),
    {
        match event {
            PassEvent::Done => self.take_done(client),
            PassEvent::RoutesRefreshed { state_pruned } => {
                if state_pruned {
                    self.point = PassPoint::Save;
                    PassAction::SaveState
                } else {
                    self.enter_after_routes(client)
                }
            },
            PassEvent::Replayed { outcome } => self.take_replayed(client, outcome),
            PassEvent::Drained { verdict } => self.take_drained(client, verdict),
            PassEvent::Recovered { summary } => {
                client.slots.retain_checkpointed_sync_summary(summary);
                let verdict = client.repair_verdict_after_recovery();
                match self.kind {
                    PassKind::Repair => self.end_repair(client, verdict),
                    _ => {
                        self.point = PassPoint::Ended;
                        PassAction::Finish { verdict }
                    },
                }
            },
            PassEvent::Failed { error } => {
                let stage = self.stage();
                self.point = PassPoint::Ended;
                PassAction::Fail {
                    failure: ClassifiedSyncFailure::at_stage(SyncSummary::default(), error, stage),
                }
            },
            PassEvent::FailedAt { failure } => {
                self.point = PassPoint::Ended;
                PassAction::Fail { failure }
            },
        }
    }
}

/// How far a pass is from its end, counting every step that it can still take.
pub open spec fn steps_left(pass: TransportPass) -> nat {
    let rest: nat = match pass.point {
        PassPoint::Visibility => 12,
        PassPoint::Routes => 11,
        PassPoint::Save => 10,
        PassPoint::Replay => 9,
        PassPoint::HandOff => 8,
        PassPoint::Activate => 7,
        PassPoint::Groups => 6,
        PassPoint::Prepare => 5,
        PassPoint::Reconcile => 4,
        PassPoint::Session => 3,
        PassPoint::Relay => 2,
        PassPoint::Overflow { .. } => 1,
        PassPoint::Ended => 0,
    };
    rest
}

/// Every step brings a pass nearer to its end, but for a pending replay that was put
/// off, which uses up one of the attempts.
pub proof fn law_pass_comes_to_an_end(
    before: TransportPass,
    after: TransportPass,
    client_before: AppClient,
    client_after: AppClient,
    event: PassEvent,
    action: PassAction,
)
    requires
        answers(before.point, event),
        pass_steps(before, after, client_before, client_after, event, action),
    ensures
        steps_left(after) < steps_left(before) || (steps_left(after) == steps_left(before)
            && after.attempts_left < before.attempts_left),
        after.point is Ended <==> action is Finish || action is Fail,
{
}

/// A repair succeeds only on a complete drain, or on a replay that was confirmed;
/// never while a drop still waits.
pub proof fn law_repair_succeeds_on_evidence(
    before: TransportPass,
    after: TransportPass,
    client_before: AppClient,
    client_after: AppClient,
    event: PassEvent,
    action: PassAction,
)
    requires
        before.kind is Repair,
        answers(before.point, event),
        pass_steps(before, after, client_before, client_after, event, action),
        action is Finish,
    ensures
        !client_after.delivery_overflow_recovery_pending,
        match event {
            PassEvent::Drained { verdict } => verdict is Complete,
            PassEvent::Replayed { outcome } => outcome is Completed,
            PassEvent::Recovered { .. } => true,
            _ => false,
        },
{
}

} // verus!
