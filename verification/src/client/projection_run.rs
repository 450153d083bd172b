//! The projection of one operation's effects, step by step, in the order that its
//! source asks for: what the runtime is asked to do, what the client keeps of it, and
//! when the operation is complete.

use crate::client::app_client::{stages_kind, woken_by, AppClient};
use crate::client::cursor::cursor_spec;
use crate::client::drain::DeliveryIngest;
use crate::client::effects::{EffectsPass, ObservationSeam};
use crate::client::observe::{
    affected_groups, apply_published_outbound_action_outcomes, event_groups, evidence_of,
    left_groups, observe_recovery_evidence, primary_outbound_group, published_groups,
    EvidenceContent, IngestOutcome, OutcomeContent, RecoveryEvidence,
};
use crate::client::replay::ReplayedAccountVisibilityOperation;
use crate::client::summary::{ProjectionUpdate, SlotsContent, SummaryContent, SyncSummary};
use crate::client::visibility::{
    AccountDeviceEffects, AccountVisibilityRecordKind, AccountVisibilitySource, SourceContent,
};
use crate::client::visibility_replay::has_to_commit;
use crate::collections::{Key, KeySet};
use crate::error::AppError;
use crate::ids::GroupId;
use crate::order::{extend_unique, push_unique};
use crate::text::{hex_encode, hex_text};
use vstd::prelude::*;

verus! {

/// How an operation is projected.
#[derive(Debug, PartialEq, Eq)]
pub enum ProjectionKind {
    /// The effects of a delivery.
    Inbound {
        event_id_hex: String,
        timestamp: u64,
        outcome: IngestOutcome,
        must_stay_fetchable: bool,
    },
    /// Effects that the engine queued without a delivery.
    Drained,
    /// The convergence of a group, or a send to it.
    Group { group_id: GroupId },
}

/// The content of a [`ProjectionKind`].
pub enum KindContent {
    Inbound(Seq<char>, u64, OutcomeContent, bool),
    Drained,
    Group(Seq<u8>),
}

impl DeepView for ProjectionKind {
    type V = KindContent;

    open spec fn deep_view(&self) -> KindContent {
        match self {
            ProjectionKind::Inbound {
                event_id_hex,
                timestamp,
                outcome,
                must_stay_fetchable,
            } => KindContent::Inbound(
                event_id_hex@,
                *timestamp,
                outcome.deep_view(),
                *must_stay_fetchable,
            ),
            ProjectionKind::Drained => KindContent::Drained,
            ProjectionKind::Group { group_id } => KindContent::Group(group_id.deep_view()),
        }
    }
}

/// The group that carries an outbound operation: that of its source, else of the
/// first event with a group, else of the first published message.
pub open spec fn outbound_group(
    source: Option<Seq<u8>>,
    events: Seq<Seq<u8>>,
    messages: Seq<Seq<u8>>,
) -> Option<Seq<u8>> {
    if source is Some {
        source
    } else if events.len() > 0 {
        Some(events[0])
    } else if messages.len() > 0 {
        Some(messages[0])
    } else {
        None
    }
}

/// How an operation of a source is projected again. A refused delivery stays
/// fetchable; a send without a group is projected like a drain; maintenance has its
/// own way.
pub open spec fn kind_of_source(
    source: SourceContent,
    events: Seq<Seq<u8>>,
    messages: Seq<Seq<u8>>,
) -> Option<KindContent> {
    match source {
        SourceContent::Inbound(message, _, timestamp, _, outcome, _) => Some(
            KindContent::Inbound(
                hex_text(message),
                timestamp,
                outcome,
                outcome is ResourceRefused,
            ),
        ),
        SourceContent::Drain(_) => Some(KindContent::Drained),
        SourceContent::Convergence(group, _) => Some(KindContent::Group(group)),
        SourceContent::Maintenance(_) => None,
        SourceContent::Outbound(group, _) => match outbound_group(group, events, messages) {
            Some(group) => Some(KindContent::Group(group)),
            None => Some(KindContent::Drained),
        },
    }
}

/// How an interrupted operation is projected again; none for maintenance.
pub fn replayed_kind(operation: &ReplayedAccountVisibilityOperation) -> (kind: Option<
    ProjectionKind,
>)
    ensures
        kind.deep_view() == kind_of_source(
            operation.source.deep_view(),
            event_groups(operation.effects@.events),
            published_groups(operation.effects@.published_app_messages),
        ),
{
    match &operation.source {
        AccountVisibilitySource::Inbound { message_id, timestamp, outcome, .. } => {
            let must_stay_fetchable = match outcome {
                IngestOutcome::ResourceRefused { .. } => true,
                _ => false,
            };
            Some(
                ProjectionKind::Inbound {
                    event_id_hex: hex_encode(message_id.bytes.as_slice()),
                    timestamp: *timestamp,
                    outcome: outcome.duplicate(),
                    must_stay_fetchable,
                },
            )
        },
        AccountVisibilitySource::Drain { .. } => Some(ProjectionKind::Drained),
        AccountVisibilitySource::Convergence { group_id, .. } => Some(
            ProjectionKind::Group { group_id: group_id.duplicate() },
        ),
        AccountVisibilitySource::Maintenance { .. } => None,
        AccountVisibilitySource::Outbound { group_id, .. } => match primary_outbound_group(
            group_id,
            &operation.effects,
        ) {
            Some(group_id) => Some(ProjectionKind::Group { group_id }),
            None => Some(ProjectionKind::Drained),
        },
    }
}

/// What a projection waits for.
#[derive(Clone, Copy, Debug, PartialEq, Eq, Structural)]
pub enum ProjectionPoint {
    /// Outcomes of actions, publish reports and failed welcomes.
    Settle,
    /// The published message at the current place.
    Finalize,
    /// The stall detector, on the evidence of the batch.
    Evidence,
    /// The stall detector, on the delivery itself.
    Stall,
    /// The records of the groups that the operation touches.
    Refresh,
    Events,
    /// Retention in the groups that the operation touches.
    Prune,
    /// The save of a replayed delivery that changed the routes.
    SaveFirst,
    Routes,
    Save,
    Ended,
}

/// One projection.
pub struct ProjectionRun {
    pub kind: ProjectionKind,
    pub effects: AccountDeviceEffects,
    /// The operation is projected again after an interruption.
    pub replayed: bool,
    pub observed_at: u64,
    /// The groups that the operation touches.
    pub affected: KeySet<GroupId>,
    pub at: usize,
    pub evidence_seen: bool,
    pub saved_first: bool,
    /// A failure that comes out once the completed prefix is committed.
    pub failure: Option<AppError>,
    /// A publish failure that rode the operation.
    pub publish_error: Option<AppError>,
    pub point: ProjectionPoint,
}

/// What the step that a projection waits for brought.
pub enum ProjectionEvent {
    Settled,
    /// What a finalized message adds to the report, if anything.
    Finalized { update: Option<ProjectionUpdate> },
    EvidenceObserved { now: u64, max_future_skew_secs: u64, overflow_pending: bool },
    StallDetected,
    Refreshed,
    /// The events were projected as far as `result` says, with the completed ones
    /// in `pass`.
    EventsProjected { pass: EffectsPass, result: Result<(), AppError> },
    Pruned,
    RoutesRefreshed { routing_changed: bool, state_pruned: bool },
    Saved,
    /// The step failed. Where it observed what the engine queued, what is complete is
    /// committed before the failure comes out.
    Failed { error: AppError },
}

/// What a projection comes to.
#[derive(Debug)]
pub enum ProjectionOutcome {
    /// A live delivery, for its caller to settle.
    Delivered { ingest: DeliveryIngest, summary: SyncSummary },
    Settled,
    /// A group's effects, committed and ready to be told.
    Reported { summary: SyncSummary },
}

/// What a projection asks for.
pub enum ProjectionAction {
    /// Record the groups that the account left, the publish reports, and the
    /// welcomes that failed.
    Settle { left: Vec<String>, recorded_at: u64 },
    Finalize { index: usize },
    ObserveEvidence { evidence: Vec<RecoveryEvidence> },
    DetectStall,
    RefreshGroups,
    ProjectEvents { seam: ObservationSeam, publish_error: Option<AppError> },
    /// Apply retention in the groups, after their records where `refresh` says so.
    PruneGroups { refresh: bool },
    SaveState,
    RefreshRoutes,
    Ended { outcome: Result<ProjectionOutcome, AppError> },
}

/// Whether an event answers what a projection waits for.
pub open spec fn answers_projection(point: ProjectionPoint, event: ProjectionEvent) -> bool {
    match event {
        ProjectionEvent::Settled => point is Settle,
        ProjectionEvent::Finalized { .. } => point is Finalize,
        ProjectionEvent::EvidenceObserved { .. } => point is Evidence,
        ProjectionEvent::StallDetected => point is Stall,
        ProjectionEvent::Refreshed => point is Refresh,
        ProjectionEvent::EventsProjected { .. } => point is Events,
        ProjectionEvent::Pruned => point is Prune,
        ProjectionEvent::RoutesRefreshed { .. } => point is Routes,
        ProjectionEvent::Saved => point is SaveFirst || point is Save,
        ProjectionEvent::Failed { .. } => !(point is Ended) && !(point is Events),
    }
}

/// What a projection keeps from step to step.
pub open spec fn same_operation(before: ProjectionRun, after: ProjectionRun) -> bool {
    &&& after.kind == before.kind
    &&& after.effects == before.effects
    &&& after.replayed == before.replayed
    &&& after.observed_at == before.observed_at
    &&& after.affected == before.affected
}

/// How a projection that fails ends.
pub open spec fn fails(after: ProjectionRun, action: ProjectionAction, error: AppError) -> bool {
    &&& after.point is Ended
    &&& action == (ProjectionAction::Ended { outcome: Err::<ProjectionOutcome, AppError>(error) })
}

/// How a projection that has nothing to tell ends.
pub open spec fn settles(after: ProjectionRun, action: ProjectionAction) -> bool {
    &&& after.point is Ended
    &&& action == (ProjectionAction::Ended {
        outcome: Ok::<ProjectionOutcome, AppError>(ProjectionOutcome::Settled),
    })
}

/// How a projection turns to what is not of the engine's session: outcomes, reports
/// and published messages.
pub open spec fn asks_settle(
    before: ProjectionRun,
    after: ProjectionRun,
    action: ProjectionAction,
) -> bool {
    &&& after == (ProjectionRun {
        point: ProjectionPoint::Settle,
        at: 0,
        evidence_seen: after.evidence_seen,
        ..before
    })
    &&& action matches ProjectionAction::Settle { left, recorded_at } && {
        &&& left.deep_view() == left_groups(before.effects.action_outcomes@)
        &&& recorded_at == before.observed_at
    }
}

/// The groups to converge after a batch: what a buffered delivery woke, and what the
/// batch itself wakes.
pub open spec fn woken_groups(
    groups: Seq<Seq<u8>>,
    kind: ProjectionKind,
    effects: AccountDeviceEffects,
) -> Seq<Seq<u8>> {
    extend_unique(
        match kind {
            ProjectionKind::Inbound { outcome, .. } => woken_by(groups, outcome.deep_view()),
            _ => groups,
        },
        effects.pending_convergence.deep_view(),
    )
}

/// How a projection turns to the evidence of its batch. Its wake-ups are kept first.
pub open spec fn asks_evidence(
    before: ProjectionRun,
    after: ProjectionRun,
    client: AppClient,
    stepped: AppClient,
    action: ProjectionAction,
) -> bool {
    &&& after == (ProjectionRun { point: ProjectionPoint::Evidence, at: after.at, ..before })
    &&& stepped == (AppClient {
        pending_convergence_groups: stepped.pending_convergence_groups,
        ..client
    })
    &&& stepped.pending_convergence_groups.sequence() == woken_groups(
        client.pending_convergence_groups.sequence(),
        before.kind,
        before.effects,
    )
    &&& action matches ProjectionAction::ObserveEvidence { evidence } && evidence.deep_view() == (
    if client.cursor_policy is Advance {
        evidence_of(before.effects.events@)
    } else {
        Seq::<EvidenceContent>::empty()
    })
}

/// How a projection turns to its events. Only those that the engine queued without a
/// delivery report as they go, and end by the publish failure that rode them.
pub open spec fn asks_events(
    before: ProjectionRun,
    after: ProjectionRun,
    action: ProjectionAction,
) -> bool {
    if before.kind is Drained {
        &&& after == (ProjectionRun {
            point: ProjectionPoint::Events,
            publish_error: None,
            ..before
        })
        &&& action == (ProjectionAction::ProjectEvents {
            seam: ObservationSeam::Drained,
            publish_error: before.publish_error,
        })
    } else {
        &&& after == (ProjectionRun { point: ProjectionPoint::Events, ..before })
        &&& action == (ProjectionAction::ProjectEvents {
            seam: ObservationSeam::Live,
            publish_error: None::<AppError>,
        })
    }
}

/// How records of a kind of the current operation are staged.
pub open spec fn stages(
    client: AppClient,
    staged: AppClient,
    kind: AccountVisibilityRecordKind,
) -> bool {
    &&& staged == (AppClient { visibility: staged.visibility, ..client })
    &&& stages_kind(client.visibility, staged.visibility, kind)
}

/// How a projection turns to its next published message, or past them: only when all
/// are done are their record and the wake-ups staged.
pub open spec fn passes_messages(
    before: ProjectionRun,
    after: ProjectionRun,
    client: AppClient,
    stepped: AppClient,
    action: ProjectionAction,
) -> bool {
    if after.at < before.effects.published_app_messages@.len() {
        &&& after == (ProjectionRun {
            point: ProjectionPoint::Finalize,
            at: after.at,
            ..before
        })
        &&& stepped == client
        &&& action == (ProjectionAction::Finalize { index: after.at })
    } else {
        exists|told: AppClient, staged: AppClient|
            {
                &&& #[trigger] stages(client, told, AccountVisibilityRecordKind::NonSession)
                &&& #[trigger] stages(told, staged, AccountVisibilityRecordKind::SessionControl)
                &&& if !before.evidence_seen {
                    asks_evidence(before, after, staged, stepped, action)
                } else {
                    &&& stepped == staged
                    &&& if before.kind is Group {
                        &&& after == (ProjectionRun {
                            point: ProjectionPoint::Refresh,
                            at: after.at,
                            ..before
                        })
                        &&& action is RefreshGroups
                    } else {
                        asks_events(ProjectionRun { at: after.at, ..before }, after, action)
                    }
                }
            }
    }
}

/// How a projection ends after its last save.
pub open spec fn finishes(
    before: ProjectionRun,
    after: ProjectionRun,
    client: AppClient,
    stepped: AppClient,
    action: ProjectionAction,
) -> bool {
    &&& same_operation(before, after)
    &&& match before.failure {
        Some(error) => stepped == client && fails(after, action, error),
        None => if before.kind is Group {
            match before.publish_error {
                Some(error) => stepped == client && fails(after, action, error),
                None => {
                    let handed = client.slots@.handed_out();
                    &&& stepped == (AppClient { slots: stepped.slots, ..client })
                    &&& if before.replayed {
                        &&& stepped.slots@ == handed.retain_checkpointed(client.slots@.report())
                        &&& settles(after, action)
                    } else {
                        &&& stepped.slots@ == handed
                        &&& after.point is Ended
                        &&& action matches ProjectionAction::Ended {
                            outcome: Ok(ProjectionOutcome::Reported { summary }),
                        } && summary@ == client.slots@.report()
                    }
                },
            }
        } else {
            stepped == client && settles(after, action)
        },
    }
}

/// How a projection commits what it completed, where there is something to commit.
pub open spec fn commits(
    before: ProjectionRun,
    after: ProjectionRun,
    client: AppClient,
    stepped: AppClient,
    action: ProjectionAction,
) -> bool {
    if has_to_commit(client) {
        &&& after == (ProjectionRun { point: ProjectionPoint::Routes, ..before })
        &&& stepped == client
        &&& action is RefreshRoutes
    } else {
        finishes(before, after, client, stepped, action)
    }
}

/// What a delivery came to.
pub open spec fn ingest_of(
    outcome: OutcomeContent,
    must_stay_fetchable: bool,
    routes_dirty: bool,
    ingest: DeliveryIngest,
) -> bool {
    &&& ingest.routes_dirty == routes_dirty
    &&& ingest.must_stay_fetchable == must_stay_fetchable
    &&& ingest.refused_group.deep_view() == (match outcome {
        OutcomeContent::ResourceRefused(group) => Some(group),
        _ => None,
    })
}

/// How a client takes in a replayed delivery: its report, its routes, and that it was
/// seen, unless only a relay can bring it back.
pub open spec fn takes_in(
    client: AppClient,
    stepped: AppClient,
    event_id_hex: Seq<char>,
    must_stay_fetchable: bool,
    pass: EffectsPass,
) -> bool {
    &&& stepped == (AppClient {
        slots: stepped.slots,
        seen_events: stepped.seen_events,
        pending_seen_event_count: stepped.pending_seen_event_count,
        ..client
    })
    &&& stepped.slots@ == (SlotsContent {
        uncheckpointed_refresh: client.slots@.uncheckpointed_refresh || pass.routes_dirty,
        ..client.slots@.retain_uncheckpointed(pass.summary@)
    })
    &&& stepped.seen_events.sequence() == (if must_stay_fetchable {
        client.seen_events.sequence()
    } else {
        push_unique(client.seen_events.sequence(), event_id_hex)
    })
    &&& stepped.pending_seen_event_count == client.pending_seen_event_count + (
    if must_stay_fetchable || client.seen_events.spec_contains(event_id_hex) {
        0int
    } else {
        1int
    })
}

/// How an inbound projection goes on from its events.
pub open spec fn inbound_projected(
    before: ProjectionRun,
    after: ProjectionRun,
    client: AppClient,
    stepped: AppClient,
    pass: EffectsPass,
    result: Result<(), AppError>,
    action: ProjectionAction,
) -> bool {
    before.kind matches ProjectionKind::Inbound {
        event_id_hex,
        outcome,
        must_stay_fetchable,
        ..
    } && match result {
        Err(error) => {
            &&& stepped == (AppClient { slots: stepped.slots, ..client })
            &&& stepped.slots@ == client.slots@.retain_uncheckpointed(pass.summary@)
            &&& fails(after, action, error)
        },
        Ok(_) => exists|staged: AppClient| #[trigger]
            stages(client, staged, AccountVisibilityRecordKind::Header) && if before.replayed {
                &&& takes_in(staged, stepped, event_id_hex@, must_stay_fetchable, pass)
                &&& after == (ProjectionRun {
                    saved_first: pass.routes_dirty,
                    point: if pass.routes_dirty {
                        ProjectionPoint::SaveFirst
                    } else {
                        ProjectionPoint::Routes
                    },
                    ..before
                })
                &&& if pass.routes_dirty {
                    action is SaveState
                } else {
                    action is RefreshRoutes
                }
            } else {
                &&& stepped == staged
                &&& after.point is Ended
                &&& action matches ProjectionAction::Ended {
                    outcome: Ok(ProjectionOutcome::Delivered { ingest, summary }),
                } && {
                    &&& ingest_of(
                        outcome.deep_view(),
                        must_stay_fetchable,
                        pass.routes_dirty,
                        ingest,
                    )
                    &&& summary == pass.summary
                }
            },
    }
}

/// How a drained projection goes on from its events.
pub open spec fn drained_projected(
    before: ProjectionRun,
    after: ProjectionRun,
    client: AppClient,
    stepped: AppClient,
    result: Result<(), AppError>,
    action: ProjectionAction,
) -> bool {
    match result {
        Err(error) => if before.replayed {
            stepped == client && fails(after, action, error)
        } else {
            commits(
                ProjectionRun { failure: Some(error), ..before },
                after,
                client,
                stepped,
                action,
            )
        },
        Ok(_) => if before.replayed {
            &&& stepped == client
            &&& after == (ProjectionRun { point: ProjectionPoint::Prune, ..before })
            &&& action == (ProjectionAction::PruneGroups { refresh: true })
        } else {
            &&& stages(client, stepped, AccountVisibilityRecordKind::Header)
            &&& settles(after, action)
        },
    }
}

/// How a group's projection goes on from its events.
pub open spec fn group_projected(
    before: ProjectionRun,
    after: ProjectionRun,
    client: AppClient,
    stepped: AppClient,
    pass: EffectsPass,
    result: Result<(), AppError>,
    action: ProjectionAction,
) -> bool {
    match result {
        Err(error) => exists|kept: AppClient|
            {
                &&& #[trigger] keeps(client, kept, pass, false)
                &&& commits(
                    ProjectionRun { failure: Some(error), ..before },
                    after,
                    kept,
                    stepped,
                    action,
                )
            },
        Ok(_) => {
            &&& keeps(client, stepped, pass, pass.routes_dirty)
            &&& after == (ProjectionRun { point: ProjectionPoint::Routes, ..before })
            &&& action is RefreshRoutes
        },
    }
}

/// How a client keeps what a group's events report.
pub open spec fn keeps(
    client: AppClient,
    kept: AppClient,
    pass: EffectsPass,
    routes_dirty: bool,
) -> bool {
    &&& kept == (AppClient { slots: kept.slots, ..client })
    &&& kept.slots@ == (SlotsContent {
        uncheckpointed_refresh: client.slots@.uncheckpointed_refresh || routes_dirty,
        ..client.slots@.retain_uncheckpointed(pass.summary@)
    })
}

/// How a projection goes on from refreshed routes.
pub open spec fn routes_taken(
    before: ProjectionRun,
    after: ProjectionRun,
    client: AppClient,
    stepped: AppClient,
    routing_changed: bool,
    state_pruned: bool,
    action: ProjectionAction,
) -> bool {
    let noted = SlotsContent {
        uncheckpointed_refresh: client.slots@.uncheckpointed_refresh || routing_changed,
        ..client.slots@
    };
    &&& stepped == (AppClient { slots: stepped.slots, ..client })
    &&& if before.kind is Inbound && before.saved_first && !state_pruned {
        &&& stepped.slots@ == (SlotsContent {
            refresh: client.slots@.refresh || routing_changed,
            ..client.slots@
        })
        &&& same_operation(before, after)
        &&& settles(after, action)
    } else {
        &&& stepped.slots@ == noted
        &&& if before.kind is Group && before.failure is None {
            &&& after == (ProjectionRun { point: ProjectionPoint::Prune, ..before })
            &&& action == (ProjectionAction::PruneGroups { refresh: false })
        } else {
            &&& after == (ProjectionRun { point: ProjectionPoint::Save, ..before })
            &&& action is SaveState
        }
    }
}

/// How a projection and its client step.
pub open spec fn projection_steps(
    before: ProjectionRun,
    after: ProjectionRun,
    client: AppClient,
    stepped: AppClient,
    event: ProjectionEvent,
    action: ProjectionAction,
) -> bool {
    &&& same_operation(before, after)
    &&& match event {
        ProjectionEvent::Failed { error } => if before.point is Evidence && before.kind is Drained
            && !before.replayed {
            commits(
                ProjectionRun { failure: Some(error), ..before },
                after,
                client,
                stepped,
                action,
            )
        } else {
            stepped == client && fails(after, action, error)
        },
        ProjectionEvent::Settled => {
            &&& after.at == 0
            &&& passes_messages(before, after, client, stepped, action)
        },
        ProjectionEvent::Finalized { update } => {
            &&& after.at == before.at + 1
            &&& exists|told: AppClient|
                {
                    &&& #[trigger] tells(client, told, update)
                    &&& passes_messages(before, after, told, stepped, action)
                }
        },
        ProjectionEvent::EvidenceObserved { now, max_future_skew_secs, overflow_pending } => {
            match before.kind {
                ProjectionKind::Inbound { timestamp, outcome, .. } => {
                    &&& moves_cursor(
                        client,
                        stepped,
                        timestamp,
                        outcome.deep_view(),
                        now,
                        max_future_skew_secs,
                        overflow_pending,
                    )
                    &&& after == (ProjectionRun {
                        point: ProjectionPoint::Stall,
                        evidence_seen: true,
                        ..before
                    })
                    &&& action is DetectStall
                },
                ProjectionKind::Drained => {
                    &&& stepped == client
                    &&& asks_events(
                        ProjectionRun { evidence_seen: true, ..before },
                        after,
                        action,
                    )
                },
                ProjectionKind::Group { .. } => {
                    &&& stepped == client
                    &&& after.evidence_seen
                    &&& asks_settle(before, after, action)
                },
            }
        },
        ProjectionEvent::StallDetected => {
            &&& stepped == client
            &&& after.evidence_seen == before.evidence_seen
            &&& asks_settle(before, after, action)
        },
        ProjectionEvent::Refreshed => {
            &&& stepped == client
            &&& asks_events(before, after, action)
        },
        ProjectionEvent::EventsProjected { pass, result } => match before.kind {
            ProjectionKind::Inbound { .. } => inbound_projected(
                before,
                after,
                client,
                stepped,
                pass,
                result,
                action,
            ),
            ProjectionKind::Drained => drained_projected(
                before,
                after,
                client,
                stepped,
                result,
                action,
            ),
            ProjectionKind::Group { .. } => group_projected(
                before,
                after,
                client,
                stepped,
                pass,
                result,
                action,
            ),
        },
        ProjectionEvent::Pruned => if before.kind is Group {
            &&& stages(client, stepped, AccountVisibilityRecordKind::Header)
            &&& after == (ProjectionRun { point: ProjectionPoint::Save, ..before })
            &&& action is SaveState
        } else {
            commits(before, after, client, stepped, action)
        },
        ProjectionEvent::RoutesRefreshed { routing_changed, state_pruned } => routes_taken(
            before,
            after,
            client,
            stepped,
            routing_changed,
            state_pruned,
            action,
        ),
        ProjectionEvent::Saved => if before.point is SaveFirst {
            &&& stepped == client
            &&& after == (ProjectionRun { point: ProjectionPoint::Routes, ..before })
            &&& action is RefreshRoutes
        } else {
            finishes(before, after, client, stepped, action)
        },
    }
}

/// How a client keeps what a finalized message adds.
pub open spec fn tells(
    client: AppClient,
    told: AppClient,
    update: Option<ProjectionUpdate>,
) -> bool {
    match update {
        Some(update) => {
            &&& told == (AppClient { slots: told.slots, ..client })
            &&& told.slots@ == client.slots@.retain_uncheckpointed(
                SummaryContent {
                    projection_updates: seq![update],
                    ..SummaryContent::nothing()
                },
            )
        },
        None => told == client,
    }
}

/// How a delivery moves the cursor: a refused one does not, nor one while a drop of
/// the queue is known, nor any in a runtime that may not.
pub open spec fn moves_cursor(
    client: AppClient,
    stepped: AppClient,
    timestamp: u64,
    outcome: OutcomeContent,
    now: u64,
    max_future_skew_secs: u64,
    overflow_pending: bool,
) -> bool {
    &&& stepped == (AppClient {
        last_transport_timestamp: stepped.last_transport_timestamp,
        ..client
    })
    &&& if outcome is ResourceRefused || overflow_pending || client.cursor_policy is Frozen {
        stepped.last_transport_timestamp == client.last_transport_timestamp
    } else {
        stepped.last_transport_timestamp matches Some(cursor) && cursor == cursor_spec(
            client.last_transport_timestamp,
            timestamp,
            now,
            max_future_skew_secs,
        )
    }
}

impl ProjectionRun {
    /// What holds while the projection waits for something.
    pub open spec fn wf(&self) -> bool {
        &&& self.point is Finalize ==> self.at < self.effects.published_app_messages@.len()
        &&& self.point is Evidence ==> !self.evidence_seen
        &&& self.point is Stall ==> self.kind is Inbound
        &&& self.point is Refresh ==> self.kind is Group
        &&& self.point is Prune ==> !(self.kind is Inbound)
        &&& (self.point is Settle || self.point is Finalize) && self.kind is Drained
            ==> !self.evidence_seen
        &&& self.kind is Inbound ==> self.failure is None && self.publish_error is None
        &&& self.point is Stall || self.point is Refresh || self.point is Events
            ==> self.evidence_seen
    }

    fn enter_settle(&mut self) -> (action: ProjectionAction)
        ensures
            asks_settle(*old(self), *final(self), action),
            final(self).evidence_seen == old(self).evidence_seen,
    {
        self.point = ProjectionPoint::Settle;
        self.at = 0;
        ProjectionAction::Settle {
            left: apply_published_outbound_action_outcomes(&self.effects.action_outcomes),
            recorded_at: self.observed_at,
        }
    }

    fn enter_evidence(&mut self, client: &mut AppClient) -> (action: ProjectionAction)
        ensures
            asks_evidence(*old(self), *final(self), *old(client), *final(client), action),
            final(self).at == old(self).at,
    {
        self.point = ProjectionPoint::Evidence;
        match &self.kind {
            ProjectionKind::Inbound { outcome, .. } => {
                client.remember_buffered_convergence_outcome(outcome);
            },
            _ => {},
        }
        client.remember_pending_convergence_groups(&self.effects.pending_convergence);
        let evidence = observe_recovery_evidence(client.cursor_policy, &self.effects.events);
        assert(client.cursor_policy is Frozen ==> evidence.deep_view() =~= Seq::<
            EvidenceContent,
        >::empty());
        ProjectionAction::ObserveEvidence { evidence }
    }

    fn enter_events(&mut self) -> (action: ProjectionAction)
        ensures
            asks_events(*old(self), *final(self), action),
    {
        self.point = ProjectionPoint::Events;
        match &self.kind {
            ProjectionKind::Drained => ProjectionAction::ProjectEvents {
                seam: ObservationSeam::Drained,
                publish_error: self.publish_error.take(),
            },
            _ => ProjectionAction::ProjectEvents {
                seam: ObservationSeam::Live,
                publish_error: None,
            },
        }
    }

    /// Turns to the published message at a place, or past them.
    fn pass_messages(&mut self, client: &mut AppClient, at: usize) -> (action: ProjectionAction)
        requires
            old(self).kind is Drained ==> !old(self).evidence_seen,
            old(self).kind is Inbound ==> old(self).failure is None
                && old(self).publish_error is None,
        ensures
            passes_messages(*old(self), *final(self), *old(client), *final(client), action),
            final(self).at == at,
            same_operation(*old(self), *final(self)),
            final(self).wf(),
    {
        self.at = at;
        if at < self.effects.published_app_messages.len() {
            self.point = ProjectionPoint::Finalize;
            return ProjectionAction::Finalize { index: at };
        }
        let ghost start = *client;
        client.stage_current_account_visibility_record_kind(
            AccountVisibilityRecordKind::NonSession,
        );
        let ghost told = *client;
        client.stage_current_account_visibility_record_kind(
            AccountVisibilityRecordKind::SessionControl,
        );
        assert(stages(start, told, AccountVisibilityRecordKind::NonSession));
        assert(stages(told, *client, AccountVisibilityRecordKind::SessionControl));
        if !self.evidence_seen {
            return self.enter_evidence(client);
        }
        match &self.kind {
            ProjectionKind::Group { .. } => {
                self.point = ProjectionPoint::Refresh;
                ProjectionAction::RefreshGroups
            },
            _ => self.enter_events(),
        }
    }

    fn finish(&mut self, client: &mut AppClient) -> (action: ProjectionAction)
        requires
            old(self).kind is Inbound ==> old(self).failure is None
                && old(self).publish_error is None,
            old(client).wf(),
        ensures
            finishes(*old(self), *final(self), *old(client), *final(client), action),
            final(self).wf(),
            final(client).wf(),
    {
        self.point = ProjectionPoint::Ended;
        match self.failure.take() {
            Some(error) => {
                return ProjectionAction::Ended { outcome: Err(error) };
            },
            None => {},
        }
        match &self.kind {
            ProjectionKind::Group { .. } => {
                match self.publish_error.take() {
                    Some(error) => {
                        return ProjectionAction::Ended { outcome: Err(error) };
                    },
                    None => {},
                }
                let summary = client.slots.take_checkpointed_sync_summary_or_default();
                if self.replayed {
                    client.slots.retain_checkpointed_sync_summary(summary);
                    ProjectionAction::Ended { outcome: Ok(ProjectionOutcome::Settled) }
                } else {
                    ProjectionAction::Ended {
                        outcome: Ok(ProjectionOutcome::Reported { summary }),
                    }
                }
            },
            _ => ProjectionAction::Ended { outcome: Ok(ProjectionOutcome::Settled) },
        }
    }

    fn commit(&mut self, client: &mut AppClient) -> (action: ProjectionAction)
        requires
            old(self).kind is Inbound ==> old(self).failure is None
                && old(self).publish_error is None,
            old(client).wf(),
        ensures
            commits(*old(self), *final(self), *old(client), *final(client), action),
            final(self).wf(),
            final(client).wf(),
    {
        if client.has_visibility_to_checkpoint() {
            self.point = ProjectionPoint::Routes;
            ProjectionAction::RefreshRoutes
        } else {
            self.finish(client)
        }
    }

    /// Begins a projection. An interrupted operation reports no publish failure
    /// again, and an inbound one never does.
    pub fn begin(
        client: &mut AppClient,
        kind: ProjectionKind,
        effects: AccountDeviceEffects,
        replayed: bool,
        observed_at: u64,
        publish_error: Option<AppError>,
    ) -> (begun: (Self, ProjectionAction))
        ensures
            begun.0.kind == kind,
            begun.0.effects == effects,
            begun.0.replayed == replayed,
            begun.0.observed_at == observed_at,
            begun.0.affected.sequence() == touched_groups(kind, effects),
            !begun.0.evidence_seen,
            begun.0.failure is None,
            begun.0.publish_error == (if replayed || kind is Inbound {
                None
            } else {
                publish_error
            }),
            begun.0.wf(),
            old(client).wf() ==> final(client).wf(),
            if kind is Drained || (kind is Inbound && replayed) {
                &&& *final(client) == *old(client)
                &&& asks_settle(begun.0, begun.0, begun.1)
            } else {
                asks_evidence(begun.0, begun.0, *old(client), *final(client), begun.1)
            },
    {
        let mut affected = affected_groups(&effects);
        let mut publish_error = publish_error;
        let mut settles_first = false;
        match &kind {
            ProjectionKind::Inbound { .. } => {
                publish_error = None;
                settles_first = replayed;
            },
            ProjectionKind::Drained => {
                settles_first = true;
            },
            ProjectionKind::Group { group_id } => {
                let _ = affected.insert(group_id.duplicate());
            },
        }
        if replayed {
            publish_error = None;
        }
        let mut run = ProjectionRun {
            kind,
            effects,
            replayed,
            observed_at,
            affected,
            at: 0,
            evidence_seen: false,
            saved_first: false,
            failure: None,
            publish_error,
            point: ProjectionPoint::Ended,
        };
        let action = if settles_first {
            run.enter_settle()
        } else {
            run.enter_evidence(client)
        };
        (run, action)
    }

    fn project_inbound(
        &mut self,
        client: &mut AppClient,
        pass: EffectsPass,
        result: Result<(), AppError>,
    ) -> (action: ProjectionAction)
        requires
            old(self).kind is Inbound,
            old(self).wf(),
            old(client).wf(),
        ensures
            inbound_projected(
                *old(self),
                *final(self),
                *old(client),
                *final(client),
                pass,
                result,
                action,
            ),
            same_operation(*old(self), *final(self)),
            final(self).wf(),
            final(client).wf(),
    {
        let ghost start = *client;
        let (event_id_hex, must_stay_fetchable, refused_group) = match &self.kind {
            ProjectionKind::Inbound { event_id_hex, outcome, must_stay_fetchable, .. } => (
                event_id_hex.clone(),
                *must_stay_fetchable,
                match outcome {
                    IngestOutcome::ResourceRefused { group_id } => Some(group_id.duplicate()),
                    _ => None,
                },
            ),
            _ => (String::new(), false, None),
        };
        match result {
            Err(error) => {
                client.retain_failed_live_pass(pass);
                self.point = ProjectionPoint::Ended;
                ProjectionAction::Ended { outcome: Err(error) }
            },
            Ok(()) => {
                client.stage_current_account_visibility_record_kind(
                    AccountVisibilityRecordKind::Header,
                );
                assert(stages(start, *client, AccountVisibilityRecordKind::Header));
                let ingest = DeliveryIngest {
                    routes_dirty: pass.routes_dirty,
                    must_stay_fetchable,
                    refused_group,
                };
                if !self.replayed {
                    self.point = ProjectionPoint::Ended;
                    return ProjectionAction::Ended {
                        outcome: Ok(
                            ProjectionOutcome::Delivered { ingest, summary: pass.summary },
                        ),
                    };
                }
                let cursor = client.last_transport_timestamp;
                let save_first = client.settle_received_delivery(
                    &ingest,
                    event_id_hex,
                    pass.summary,
                    cursor,
                    false,
                );
                self.saved_first = save_first;
                if save_first {
                    self.point = ProjectionPoint::SaveFirst;
                    ProjectionAction::SaveState
                } else {
                    self.point = ProjectionPoint::Routes;
                    ProjectionAction::RefreshRoutes
                }
            },
        }
    }

    fn project_drained(
        &mut self,
        client: &mut AppClient,
        result: Result<(), AppError>,
    ) -> (action: ProjectionAction)
        requires
            old(self).kind is Drained,
            old(self).wf(),
            old(client).wf(),
        ensures
            drained_projected(
                *old(self),
                *final(self),
                *old(client),
                *final(client),
                result,
                action,
            ),
            same_operation(*old(self), *final(self)),
            final(self).wf(),
            final(client).wf(),
    {
        match result {
            Err(error) => {
                if self.replayed {
                    self.point = ProjectionPoint::Ended;
                    ProjectionAction::Ended { outcome: Err(error) }
                } else {
                    self.failure = Some(error);
                    self.commit(client)
                }
            },
            Ok(()) => {
                if self.replayed {
                    self.point = ProjectionPoint::Prune;
                    ProjectionAction::PruneGroups { refresh: true }
                } else {
                    client.stage_current_account_visibility_record_kind(
                        AccountVisibilityRecordKind::Header,
                    );
                    self.point = ProjectionPoint::Ended;
                    ProjectionAction::Ended { outcome: Ok(ProjectionOutcome::Settled) }
                }
            },
        }
    }

    fn project_group(
        &mut self,
        client: &mut AppClient,
        pass: EffectsPass,
        result: Result<(), AppError>,
    ) -> (action: ProjectionAction)
        requires
            old(self).kind is Group,
            old(self).wf(),
            old(client).wf(),
        ensures
            group_projected(
                *old(self),
                *final(self),
                *old(client),
                *final(client),
                pass,
                result,
                action,
            ),
            same_operation(*old(self), *final(self)),
            final(self).wf(),
            final(client).wf(),
    {
        let ghost start = *client;
        client.slots.retain_uncheckpointed_sync_summary(pass.summary);
        match result {
            Err(error) => {
                assert(keeps(start, *client, pass, false));
                self.failure = Some(error);
                self.commit(client)
            },
            Ok(()) => {
                client.slots.remember_uncheckpointed_runtime_group_subscription_refresh(
                    pass.routes_dirty,
                );
                self.point = ProjectionPoint::Routes;
                ProjectionAction::RefreshRoutes
            },
        }
    }

    fn take_routes(
        &mut self,
        client: &mut AppClient,
        routing_changed: bool,
        state_pruned: bool,
    ) -> (action: ProjectionAction)
        requires
            old(self).wf(),
            old(client).wf(),
        ensures
            routes_taken(
                *old(self),
                *final(self),
                *old(client),
                *final(client),
                routing_changed,
                state_pruned,
                action,
            ),
            same_operation(*old(self), *final(self)),
            final(self).wf(),
            final(client).wf(),
    {
        let inbound = match &self.kind {
            ProjectionKind::Inbound { .. } => true,
            _ => false,
        };
        if inbound {
            let save = client.settle_refreshed_routes(
                self.saved_first,
                routing_changed,
                state_pruned,
            );
            if save {
                self.point = ProjectionPoint::Save;
                return ProjectionAction::SaveState;
            }
            self.point = ProjectionPoint::Ended;
            return ProjectionAction::Ended { outcome: Ok(ProjectionOutcome::Settled) };
        }
        client.slots.remember_uncheckpointed_runtime_group_subscription_refresh(routing_changed);
        let group = match &self.kind {
            ProjectionKind::Group { .. } => true,
            _ => false,
        };
        if group && self.failure.is_none() {
            self.point = ProjectionPoint::Prune;
            ProjectionAction::PruneGroups { refresh: false }
        } else {
            self.point = ProjectionPoint::Save;
            ProjectionAction::SaveState
        }
    }

    fn observe_evidence(
        &mut self,
        client: &mut AppClient,
        now: u64,
        max_future_skew_secs: u64,
        overflow_pending: bool,
    ) -> (action: ProjectionAction)
        requires
            old(self).wf(),
            old(self).point is Evidence,
            old(client).wf(),
        ensures
            projection_steps(
                *old(self),
                *final(self),
                *old(client),
                *final(client),
                ProjectionEvent::EvidenceObserved { now, max_future_skew_secs, overflow_pending },
                action,
            ),
            final(self).wf(),
            final(client).wf(),
    {
        self.evidence_seen = true;
        match &self.kind {
            ProjectionKind::Inbound { timestamp, outcome, .. } => {
                match outcome {
                    IngestOutcome::ResourceRefused { .. } => {},
                    _ => {
                        client.remember_transport_cursor(
                            *timestamp,
                            now,
                            max_future_skew_secs,
                            overflow_pending,
                        );
                    },
                }
                self.point = ProjectionPoint::Stall;
                ProjectionAction::DetectStall
            },
            ProjectionKind::Drained => self.enter_events(),
            ProjectionKind::Group { .. } => self.enter_settle(),
        }
    }

    /// Makes a step.
    pub fn step(&mut self, client: &mut AppClient, event: ProjectionEvent) -> (action:
        ProjectionAction)
        requires
            old(self).wf(),
            old(client).wf(),
            answers_projection(old(self).point, event),
        ensures
            projection_steps(*old(self), *final(self), *old(client), *final(client), event, action),
            final(self).wf(),
            final(client).wf(),
    {
        match event {
            ProjectionEvent::Failed { error } => {
                let observes_drain = match (&self.kind, self.point) {
                    (ProjectionKind::Drained, ProjectionPoint::Evidence) => !self.replayed,
                    _ => false,
                };
                if observes_drain {
                    self.failure = Some(error);
                    return self.commit(client);
                }
                self.point = ProjectionPoint::Ended;
                ProjectionAction::Ended { outcome: Err(error) }
            },
            ProjectionEvent::Settled => self.pass_messages(client, 0),
            ProjectionEvent::Finalized { update } => {
                let ghost start = *client;
                match update {
                    Some(update) => {
                        let mut finalized = SyncSummary::default();
                        finalized.projection_updates.push(update);
                        assert(finalized@ =~= (SummaryContent {
                            projection_updates: seq![update],
                            ..SummaryContent::nothing()
                        }));
                        client.slots.retain_uncheckpointed_sync_summary(finalized);
                    },
                    None => {},
                }
                assert(tells(start, *client, update));
                assert(self.at < self.effects.published_app_messages.len());
                let at: usize = self.at + 1;
                self.pass_messages(client, at)
            },
            ProjectionEvent::EvidenceObserved { now, max_future_skew_secs, overflow_pending } => {
                self.observe_evidence(client, now, max_future_skew_secs, overflow_pending)
            },
            ProjectionEvent::StallDetected => self.enter_settle(),
            ProjectionEvent::Refreshed => self.enter_events(),
            ProjectionEvent::EventsProjected { pass, result } => match &self.kind {
                ProjectionKind::Inbound { .. } => self.project_inbound(client, pass, result),
                ProjectionKind::Drained => self.project_drained(client, result),
                ProjectionKind::Group { .. } => self.project_group(client, pass, result),
            },
            ProjectionEvent::Pruned => match &self.kind {
                ProjectionKind::Group { .. } => {
                    client.stage_current_account_visibility_record_kind(
                        AccountVisibilityRecordKind::Header,
                    );
                    self.point = ProjectionPoint::Save;
                    ProjectionAction::SaveState
                },
                _ => self.commit(client),
            },
            ProjectionEvent::RoutesRefreshed { routing_changed, state_pruned } => {
                self.take_routes(client, routing_changed, state_pruned)
            },
            ProjectionEvent::Saved => match self.point {
                ProjectionPoint::SaveFirst => {
                    self.point = ProjectionPoint::Routes;
                    ProjectionAction::RefreshRoutes
                },
                _ => self.finish(client),
            },
        }
    }
}

/// The groups that an operation touches: those of its events and of its published
/// messages, and the one that it is about.
pub open spec fn touched_groups(kind: ProjectionKind, effects: AccountDeviceEffects) -> Seq<
    Seq<u8>,
> {
    let listed = extend_unique(
        extend_unique(Seq::empty(), event_groups(effects@.events)),
        published_groups(effects@.published_app_messages),
    );
    match kind {
        ProjectionKind::Group { group_id } => push_unique(listed, group_id.deep_view()),
        _ => listed,
    }
}

/// A projection stages a record only when what the record stands for is done: the
/// published messages are through, or the events are. One whose events fail stages
/// nothing more, so that the operation is projected again.
pub proof fn law_only_completed_records_are_staged(
    before: ProjectionRun,
    after: ProjectionRun,
    client: AppClient,
    stepped: AppClient,
    event: ProjectionEvent,
    action: ProjectionAction,
)
    requires
        before.wf(),
        answers_projection(before.point, event),
        projection_steps(before, after, client, stepped, event, action),
        stepped.visibility != client.visibility,
    ensures
        match event {
            ProjectionEvent::Settled => before.effects.published_app_messages@.len() == 0,
            ProjectionEvent::Finalized { .. } => before.at + 1
                == before.effects.published_app_messages@.len(),
            ProjectionEvent::EventsProjected { result, .. } => result is Ok && !(
            before.kind is Group),
            ProjectionEvent::Pruned => before.kind is Group,
            _ => false,
        },
{
}

/// A refused delivery moves the cursor at no step of its projection.
pub proof fn law_refused_delivery_holds_the_cursor(
    before: ProjectionRun,
    after: ProjectionRun,
    client: AppClient,
    stepped: AppClient,
    event: ProjectionEvent,
    action: ProjectionAction,
    group: Seq<u8>,
)
    requires
        before.kind matches ProjectionKind::Inbound { outcome, .. } && outcome.deep_view() == (
        OutcomeContent::ResourceRefused(group)),
        projection_steps(before, after, client, stepped, event, action),
    ensures
        stepped.last_transport_timestamp == client.last_transport_timestamp,
{
}

/// Events that fail take nothing back: what the completed ones of a delivery report
/// is kept, nothing more is acknowledged, and the delivery stays unseen.
pub proof fn law_failed_projection_keeps_the_completed_events(
    before: ProjectionRun,
    after: ProjectionRun,
    client: AppClient,
    stepped: AppClient,
    pass: EffectsPass,
    error: AppError,
    action: ProjectionAction,
)
    requires
        before.kind is Inbound,
        projection_steps(
            before,
            after,
            client,
            stepped,
            ProjectionEvent::EventsProjected { pass, result: Err(error) },
            action,
        ),
    ensures
        stepped.slots@ == client.slots@.retain_uncheckpointed(pass.summary@),
        stepped.visibility == client.visibility,
        stepped.seen_events == client.seen_events,
        fails(after, action, error),
{
}

/// A delivery's projection ends with a failure only where a step or one of its
/// events failed: a publish failure that rode it does not undo it.
pub proof fn law_publish_failure_undoes_no_delivery(
    before: ProjectionRun,
    after: ProjectionRun,
    client: AppClient,
    stepped: AppClient,
    event: ProjectionEvent,
    action: ProjectionAction,
    error: AppError,
)
    requires
        before.wf(),
        before.kind is Inbound,
        projection_steps(before, after, client, stepped, event, action),
        action == (ProjectionAction::Ended { outcome: Err::<ProjectionOutcome, AppError>(error) }),
    ensures
        match event {
            ProjectionEvent::Failed { error: failed } => failed == error,
            ProjectionEvent::EventsProjected { result, .. } => result == Err::<(), AppError>(error),
            _ => false,
        },
{
}

/// How many steps a projection has left at most.
pub open spec fn projection_left(run: ProjectionRun) -> int {
    let messages = run.effects.published_app_messages@.len() as int;
    let ahead = if run.evidence_seen {
        0int
    } else {
        messages + 40
    };
    ahead + (match run.point {
        ProjectionPoint::Settle => messages + 21,
        ProjectionPoint::Finalize => messages - run.at + 20,
        ProjectionPoint::Evidence => 10int,
        ProjectionPoint::Stall => messages + 30,
        ProjectionPoint::Refresh => 12int,
        ProjectionPoint::Events => 11int,
        ProjectionPoint::SaveFirst => 8int,
        ProjectionPoint::Prune => if run.kind is Group {
            5int
        } else {
            7int
        },
        ProjectionPoint::Routes => 6int,
        ProjectionPoint::Save => 4int,
        ProjectionPoint::Ended => 0int,
    })
}

/// A projection comes to an end: every step brings it closer.
pub proof fn law_projection_comes_to_an_end(
    before: ProjectionRun,
    after: ProjectionRun,
    client: AppClient,
    stepped: AppClient,
    event: ProjectionEvent,
    action: ProjectionAction,
)
    requires
        before.wf(),
        answers_projection(before.point, event),
        projection_steps(before, after, client, stepped, event, action),
    ensures
        after.point is Ended || 0 <= projection_left(after) < projection_left(before),
{
}

} // verus!
