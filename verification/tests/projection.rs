use marmot_app::client::app_client::AppClient;
use marmot_app::client::cursor::CursorPersistence;
use marmot_app::client::drain::DeliveryIngest;
use marmot_app::client::effects::{EffectsPass, ObservationSeam, ProjectedEvent};
use marmot_app::client::events::{GroupEvent, GroupStateChange};
use marmot_app::client::events_run::{EventsAction, EventsEvent, EventsPoint, EventsRun};
use marmot_app::client::observe::{IngestOutcome, RecoveryEvidence};
use marmot_app::client::projection_run::{
    replayed_kind, ProjectionAction, ProjectionEvent, ProjectionKind, ProjectionOutcome,
    ProjectionPoint, ProjectionRun,
};
use marmot_app::client::reconcile::{
    GroupRoute, RouteAttempt, RouteReconciliation, TransportReconciliationRoute,
};
use marmot_app::client::reconcile_run::{ReconcileAction, ReconcileEvent, ReconcileRun};
use marmot_app::client::replay::ReplayedAccountVisibilityOperation;
use marmot_app::client::summary::{ProjectionUpdate, SyncSummary};
use marmot_app::client::visibility::{
    install_account_visibility_lease, AccountDeviceEffects, AccountVisibilityBatch,
    AccountVisibilityRecordKind, AccountVisibilitySource, OutboundActionOutcome,
    PublishedAppMessage,
};
use marmot_app::client::visibility_replay::{
    VisibilityAction, VisibilityEvent, VisibilityPoint, VisibilityReplay,
};
use marmot_app::collections::KeyMap;
use marmot_app::error::AppError;
use marmot_app::ids::{BatchId, GroupId, MemberId, MessageId, OperationId};

fn client() -> AppClient {
    AppClient::new("alice".to_owned(), CursorPersistence::Advance, Some(50))
}

fn group(id: u8) -> GroupId {
    GroupId::new(vec![id])
}

fn failure() -> AppError {
    AppError::Storage("disk".to_owned())
}

fn message(id: u8) -> GroupEvent {
    GroupEvent::MessageReceived {
        group_id: group(0x42),
        message_id: MessageId::new(vec![id]),
        sender: MemberId::new(vec![1]),
        epoch: 3,
        payload: vec![],
        retention: None,
    }
}

fn projected(update: u64) -> ProjectedEvent {
    ProjectedEvent {
        summary: SyncSummary {
            projection_updates: vec![ProjectionUpdate { id: update }],
            ..SyncSummary::default()
        },
        gossip_message_id_hex: None,
        group_record_changed: false,
        routes_dirty: false,
        groups_before: 1,
        groups_after: 1,
        crossed: None,
        system_rows: vec![],
    }
}

fn record(id: u8, kind: AccountVisibilityRecordKind, effects: AccountDeviceEffects) -> AccountVisibilityBatch {
    AccountVisibilityBatch {
        batch_id: BatchId::new(vec![id]),
        operation_id: OperationId::new(vec![9]),
        kind,
        source: AccountVisibilitySource::Drain { observed_at: 70 },
        effects,
    }
}

fn records() -> Vec<AccountVisibilityBatch> {
    vec![
        record(1, AccountVisibilityRecordKind::Header, AccountDeviceEffects::default()),
        record(2, AccountVisibilityRecordKind::NonSession, AccountDeviceEffects::default()),
        record(3, AccountVisibilityRecordKind::SessionControl, AccountDeviceEffects::default()),
        record(
            4,
            AccountVisibilityRecordKind::Event { index: 0 },
            AccountDeviceEffects {
                events: vec![message(7)],
                ..AccountDeviceEffects::default()
            },
        ),
    ]
}

fn leased() -> AppClient {
    let mut client = client();
    install_account_visibility_lease(
        &mut client.visibility,
        5,
        records(),
        Some(OperationId::new(vec![9])),
    );
    client
}

fn staged(client: &AppClient) -> Vec<u8> {
    match &client.visibility {
        Some(lease) => lease
            .staged_batch_ids
            .iter()
            .map(|id| id.bytes[0])
            .collect(),
        None => vec![],
    }
}

fn pass(update: u64, routes_dirty: bool) -> EffectsPass {
    EffectsPass {
        seam: ObservationSeam::Live,
        routes_dirty,
        summary: SyncSummary {
            projection_updates: vec![ProjectionUpdate { id: update }],
            ..SyncSummary::default()
        },
    }
}

fn inbound(outcome: IngestOutcome, must_stay_fetchable: bool) -> ProjectionKind {
    ProjectionKind::Inbound {
        event_id_hex: "ab".to_owned(),
        timestamp: 60,
        outcome,
        must_stay_fetchable,
    }
}

fn evidence_observed() -> ProjectionEvent {
    ProjectionEvent::EvidenceObserved {
        now: 100,
        max_future_skew_secs: 10,
        overflow_pending: false,
    }
}

#[test]
fn a_batch_reports_its_events_in_order_and_then_clears_ended_groups() {
    let mut client = leased();
    let (mut run, action) = EventsRun::begin(
        ObservationSeam::Live,
        vec![message(7), message(8)],
        KeyMap::new(),
        None,
    );
    assert!(matches!(action, EventsAction::Suppress { index: 0, frontier: None }));
    let action = run.step(&mut client, EventsEvent::Suppression { changed: None });
    assert!(matches!(action, EventsAction::Project { index: 0, crossing: None }));
    let action = run.step(
        &mut client,
        EventsEvent::Projected { projected: projected(1), prior_routes_adopted: false },
    );
    assert!(matches!(action, EventsAction::Suppress { index: 1, frontier: None }));
    assert_eq!(staged(&client), vec![4]);
    assert_eq!(client.pending_application_event_acks.to_list(), vec![MessageId::new(vec![7])]);
    let action = run.step(&mut client, EventsEvent::Suppression { changed: Some(true) });
    assert!(matches!(action, EventsAction::ClearTerminalFrontiers));
    assert!(run.pass.routes_dirty);
    assert_eq!(run.pass.summary.projection_updates, vec![ProjectionUpdate { id: 1 }]);
    let action = run.step(&mut client, EventsEvent::Cleared);
    assert!(matches!(action, EventsAction::Ended { result: Ok(()) }));
}

#[test]
fn an_event_that_fails_leaves_the_completed_ones() {
    let mut client = leased();
    let (mut run, _) = EventsRun::begin(
        ObservationSeam::Live,
        vec![message(7), message(8)],
        KeyMap::new(),
        None,
    );
    let _ = run.step(&mut client, EventsEvent::Suppression { changed: None });
    let _ = run.step(
        &mut client,
        EventsEvent::Projected { projected: projected(1), prior_routes_adopted: false },
    );
    let _ = run.step(&mut client, EventsEvent::Suppression { changed: None });
    assert!(client.state_delta().dirty_groups.is_empty());
    let action = run.step(
        &mut client,
        EventsEvent::ProjectionFailed { error: failure(), group_record_changed: true },
    );
    match action {
        EventsAction::Ended { result } => assert_eq!(result, Err(failure())),
        _ => panic!("a failed event ends its batch"),
    }
    assert_eq!(client.state_delta().dirty_groups, vec!["42".to_owned()]);
    assert_eq!(run.at, 1);
    assert_eq!(run.pass.summary.projection_updates, vec![ProjectionUpdate { id: 1 }]);
    assert_eq!(client.pending_application_event_acks.to_list(), vec![MessageId::new(vec![7])]);
}

#[test]
fn an_event_that_brings_a_group_back_waits_for_its_routes() {
    let mut client = client();
    let mut frontiers = KeyMap::new();
    let _ = frontiers.insert("42".to_owned(), 11u64);
    let (mut run, action) =
        EventsRun::begin(ObservationSeam::Live, vec![message(7)], frontiers, None);
    assert!(matches!(action, EventsAction::ReadCrossing { index: 0, frontier: 11 }));
    let action = run.step(&mut client, EventsEvent::Crossing { crosses: true });
    assert!(matches!(action, EventsAction::Project { index: 0, crossing: Some(11) }));
    let _ = run.step(
        &mut client,
        EventsEvent::Projected { projected: projected(1), prior_routes_adopted: false },
    );
    assert_eq!(client.pending_application_event_acks.len(), 0);
    assert_eq!(run.point, EventsPoint::Clearing);
}

#[test]
fn a_group_that_stays_deleted_suppresses_its_event_at_its_frontier() {
    let mut client = client();
    let mut frontiers = KeyMap::new();
    let _ = frontiers.insert("42".to_owned(), 11u64);
    let (mut run, _) = EventsRun::begin(ObservationSeam::Live, vec![message(7)], frontiers, None);
    let action = run.step(&mut client, EventsEvent::Crossing { crosses: false });
    assert!(matches!(action, EventsAction::Suppress { index: 0, frontier: Some(11) }));
}

#[test]
fn a_drained_batch_ends_by_the_publish_failure_that_rode_it() {
    let (_, action) =
        EventsRun::begin(ObservationSeam::Drained, vec![], KeyMap::new(), Some(failure()));
    match action {
        EventsAction::Ended { result } => assert_eq!(result, Err(failure())),
        _ => panic!("a drained batch without events ends at once"),
    }
    let mut client = client();
    let (mut run, _) = EventsRun::begin(
        ObservationSeam::Drained,
        vec![message(7)],
        KeyMap::new(),
        Some(failure()),
    );
    let _ = run.step(&mut client, EventsEvent::Suppression { changed: None });
    let _ = run.step(
        &mut client,
        EventsEvent::Projected { projected: projected(1), prior_routes_adopted: false },
    );
    let action = run.step(&mut client, EventsEvent::Cleared);
    match action {
        EventsAction::Ended { result } => assert_eq!(result, Err(failure())),
        _ => panic!("a cleared batch is over"),
    }
    let kept = client.slots.uncheckpointed.as_ref().expect("the report was kept");
    assert_eq!(kept.projection_updates, vec![ProjectionUpdate { id: 1 }]);
}

#[test]
fn a_live_delivery_is_projected_in_its_order() {
    let mut client = leased();
    let effects = AccountDeviceEffects {
        events: vec![message(7)],
        pending_convergence: vec![group(5)],
        action_outcomes: vec![OutboundActionOutcome { group_id: group(0xcd), published: true }],
        published_app_messages: vec![PublishedAppMessage {
            group_id: group(6),
            app_event_id: "e".to_owned(),
        }],
        ..AccountDeviceEffects::default()
    };
    let (mut run, action) = ProjectionRun::begin(
        &mut client,
        inbound(IngestOutcome::Buffered { group_id: group(4) }, false),
        effects,
        false,
        70,
        Some(failure()),
    );
    match action {
        ProjectionAction::ObserveEvidence { evidence } => assert_eq!(evidence, vec![]),
        _ => panic!("a live delivery begins with its evidence"),
    }
    assert_eq!(client.pending_convergence_groups.to_list(), vec![group(4), group(5)]);
    assert_eq!(run.affected.to_list(), vec![group(0x42), group(6)]);
    let action = run.step(&mut client, evidence_observed());
    assert!(matches!(action, ProjectionAction::DetectStall));
    assert_eq!(client.last_transport_timestamp, Some(60));
    match run.step(&mut client, ProjectionEvent::StallDetected) {
        ProjectionAction::Settle { left, recorded_at } => {
            assert_eq!(left, vec!["cd".to_owned()]);
            assert_eq!(recorded_at, 70);
        }
        _ => panic!("outcomes come before the events"),
    }
    let action = run.step(&mut client, ProjectionEvent::Settled);
    assert!(matches!(action, ProjectionAction::Finalize { index: 0 }));
    assert_eq!(staged(&client), Vec::<u8>::new());
    let action = run.step(
        &mut client,
        ProjectionEvent::Finalized { update: Some(ProjectionUpdate { id: 3 }) },
    );
    assert!(matches!(
        action,
        ProjectionAction::ProjectEvents { seam: ObservationSeam::Live, publish_error: None }
    ));
    assert_eq!(staged(&client), vec![2, 3]);
    let action = run.step(
        &mut client,
        ProjectionEvent::EventsProjected { pass: pass(9, true), result: Ok(()) },
    );
    match action {
        ProjectionAction::Ended {
            outcome: Ok(ProjectionOutcome::Delivered { ingest, summary }),
        } => {
            assert_eq!(
                ingest,
                DeliveryIngest {
                    routes_dirty: true,
                    must_stay_fetchable: false,
                    refused_group: None,
                }
            );
            assert_eq!(summary.projection_updates, vec![ProjectionUpdate { id: 9 }]);
        }
        _ => panic!("a publish failure does not undo a delivery"),
    }
    assert_eq!(staged(&client), vec![2, 3, 1]);
}

#[test]
fn a_refused_delivery_holds_the_cursor_and_names_its_group() {
    let mut client = client();
    let refused = IngestOutcome::ResourceRefused { group_id: group(4) };
    let (mut run, _) = ProjectionRun::begin(
        &mut client,
        inbound(refused, true),
        AccountDeviceEffects::default(),
        false,
        70,
        None,
    );
    let _ = run.step(&mut client, evidence_observed());
    assert_eq!(client.last_transport_timestamp, Some(50));
    let _ = run.step(&mut client, ProjectionEvent::StallDetected);
    let _ = run.step(&mut client, ProjectionEvent::Settled);
    match run.step(
        &mut client,
        ProjectionEvent::EventsProjected { pass: pass(9, false), result: Ok(()) },
    ) {
        ProjectionAction::Ended {
            outcome: Ok(ProjectionOutcome::Delivered { ingest, .. }),
        } => {
            assert_eq!(ingest.refused_group, Some(group(4)));
            assert!(ingest.must_stay_fetchable);
        }
        _ => panic!("a refused delivery is still projected"),
    }
}

#[test]
fn a_delivery_whose_events_fail_keeps_the_completed_ones() {
    let mut client = leased();
    let (mut run, _) = ProjectionRun::begin(
        &mut client,
        inbound(IngestOutcome::Processed, false),
        AccountDeviceEffects::default(),
        false,
        70,
        None,
    );
    let _ = run.step(&mut client, evidence_observed());
    let _ = run.step(&mut client, ProjectionEvent::StallDetected);
    let _ = run.step(&mut client, ProjectionEvent::Settled);
    let action = run.step(
        &mut client,
        ProjectionEvent::EventsProjected { pass: pass(9, true), result: Err(failure()) },
    );
    assert!(matches!(action, ProjectionAction::Ended { outcome: Err(AppError::Storage(_)) }));
    let kept = client.slots.uncheckpointed.as_ref().expect("the prefix was kept");
    assert_eq!(kept.projection_updates, vec![ProjectionUpdate { id: 9 }]);
    assert_eq!(staged(&client), vec![2, 3]);
}

#[test]
fn a_replayed_delivery_is_settled_and_saved_before_its_routes() {
    let mut client = leased();
    let (mut run, action) = ProjectionRun::begin(
        &mut client,
        inbound(IngestOutcome::Processed, false),
        AccountDeviceEffects::default(),
        true,
        70,
        None,
    );
    assert!(matches!(action, ProjectionAction::Settle { .. }));
    let action = run.step(&mut client, ProjectionEvent::Settled);
    assert!(matches!(action, ProjectionAction::ObserveEvidence { .. }));
    let _ = run.step(&mut client, evidence_observed());
    let action = run.step(&mut client, ProjectionEvent::StallDetected);
    assert!(matches!(action, ProjectionAction::Settle { .. }));
    let action = run.step(&mut client, ProjectionEvent::Settled);
    assert!(matches!(action, ProjectionAction::ProjectEvents { .. }));
    let action = run.step(
        &mut client,
        ProjectionEvent::EventsProjected { pass: pass(9, true), result: Ok(()) },
    );
    assert!(matches!(action, ProjectionAction::SaveState));
    assert!(client.skips_delivery(&"ab".to_owned()));
    let action = run.step(&mut client, ProjectionEvent::Saved);
    assert!(matches!(action, ProjectionAction::RefreshRoutes));
    let action = run.step(
        &mut client,
        ProjectionEvent::RoutesRefreshed { routing_changed: true, state_pruned: false },
    );
    assert!(matches!(action, ProjectionAction::Ended { outcome: Ok(ProjectionOutcome::Settled) }));
    assert!(client.slots.refresh);
}

#[test]
fn a_replayed_delivery_without_new_routes_is_saved_after_them() {
    let mut client = client();
    let (mut run, _) = ProjectionRun::begin(
        &mut client,
        inbound(IngestOutcome::ResourceRefused { group_id: group(4) }, true),
        AccountDeviceEffects::default(),
        true,
        70,
        None,
    );
    let _ = run.step(&mut client, ProjectionEvent::Settled);
    let _ = run.step(&mut client, evidence_observed());
    let _ = run.step(&mut client, ProjectionEvent::StallDetected);
    let _ = run.step(&mut client, ProjectionEvent::Settled);
    let action = run.step(
        &mut client,
        ProjectionEvent::EventsProjected { pass: pass(9, false), result: Ok(()) },
    );
    assert!(matches!(action, ProjectionAction::RefreshRoutes));
    assert!(!client.skips_delivery(&"ab".to_owned()));
    let action = run.step(
        &mut client,
        ProjectionEvent::RoutesRefreshed { routing_changed: true, state_pruned: false },
    );
    assert!(matches!(action, ProjectionAction::SaveState));
    let action = run.step(&mut client, ProjectionEvent::Saved);
    assert!(matches!(action, ProjectionAction::Ended { outcome: Ok(ProjectionOutcome::Settled) }));
}

#[test]
fn a_live_drain_hands_its_publish_failure_to_its_events_and_commits_before_it_fails() {
    let mut client = leased();
    let (mut run, action) = ProjectionRun::begin(
        &mut client,
        ProjectionKind::Drained,
        AccountDeviceEffects::default(),
        false,
        70,
        Some(failure()),
    );
    assert!(matches!(action, ProjectionAction::Settle { .. }));
    let action = run.step(&mut client, ProjectionEvent::Settled);
    assert!(matches!(action, ProjectionAction::ObserveEvidence { .. }));
    let action = run.step(&mut client, evidence_observed());
    match action {
        ProjectionAction::ProjectEvents { seam, publish_error } => {
            assert_eq!(seam, ObservationSeam::Drained);
            assert_eq!(publish_error, Some(failure()));
        }
        _ => panic!("a drain projects its events after the evidence"),
    }
    assert_eq!(client.last_transport_timestamp, Some(50));
    let action = run.step(
        &mut client,
        ProjectionEvent::EventsProjected {
            pass: EffectsPass::begin(ObservationSeam::Drained),
            result: Err(failure()),
        },
    );
    assert!(matches!(action, ProjectionAction::RefreshRoutes));
    let action = run.step(
        &mut client,
        ProjectionEvent::RoutesRefreshed { routing_changed: true, state_pruned: false },
    );
    assert!(matches!(action, ProjectionAction::SaveState));
    let action = run.step(&mut client, ProjectionEvent::Saved);
    assert!(matches!(action, ProjectionAction::Ended { outcome: Err(AppError::Storage(_)) }));
    assert_eq!(staged(&client), vec![2, 3]);
}

#[test]
fn a_replayed_drain_prunes_and_commits() {
    let mut client = client();
    let (mut run, _) = ProjectionRun::begin(
        &mut client,
        ProjectionKind::Drained,
        AccountDeviceEffects::default(),
        true,
        70,
        Some(failure()),
    );
    let _ = run.step(&mut client, ProjectionEvent::Settled);
    let action = run.step(&mut client, evidence_observed());
    assert!(matches!(action, ProjectionAction::ProjectEvents { publish_error: None, .. }));
    let action = run.step(
        &mut client,
        ProjectionEvent::EventsProjected {
            pass: EffectsPass::begin(ObservationSeam::Drained),
            result: Ok(()),
        },
    );
    assert!(matches!(action, ProjectionAction::PruneGroups { refresh: true }));
    let action = run.step(&mut client, ProjectionEvent::Pruned);
    assert!(matches!(action, ProjectionAction::Ended { outcome: Ok(ProjectionOutcome::Settled) }));
}

#[test]
fn a_groups_convergence_is_committed_and_then_told() {
    let mut client = leased();
    let effects = AccountDeviceEffects {
        events: vec![GroupEvent::EpochChanged { group_id: group(3), from: 1, to: 2 }],
        ..AccountDeviceEffects::default()
    };
    let (mut run, action) = ProjectionRun::begin(
        &mut client,
        ProjectionKind::Group { group_id: group(4) },
        effects,
        false,
        70,
        None,
    );
    match action {
        ProjectionAction::ObserveEvidence { evidence } => assert_eq!(
            evidence,
            vec![RecoveryEvidence::EpochPassage { group_id: group(3), from: 1, to: 2 }]
        ),
        _ => panic!("a convergence begins with its evidence"),
    }
    assert_eq!(run.affected.to_list(), vec![group(3), group(4)]);
    let action = run.step(&mut client, evidence_observed());
    assert!(matches!(action, ProjectionAction::Settle { .. }));
    let action = run.step(&mut client, ProjectionEvent::Settled);
    assert!(matches!(action, ProjectionAction::RefreshGroups));
    let action = run.step(&mut client, ProjectionEvent::Refreshed);
    assert!(matches!(
        action,
        ProjectionAction::ProjectEvents { seam: ObservationSeam::Live, publish_error: None }
    ));
    let action = run.step(
        &mut client,
        ProjectionEvent::EventsProjected { pass: pass(9, true), result: Ok(()) },
    );
    assert!(matches!(action, ProjectionAction::RefreshRoutes));
    let action = run.step(
        &mut client,
        ProjectionEvent::RoutesRefreshed { routing_changed: false, state_pruned: false },
    );
    assert!(matches!(action, ProjectionAction::PruneGroups { refresh: false }));
    let action = run.step(&mut client, ProjectionEvent::Pruned);
    assert!(matches!(action, ProjectionAction::SaveState));
    assert_eq!(staged(&client), vec![2, 3, 1]);
    client.commit_state_delta(&vec![]);
    match run.step(&mut client, ProjectionEvent::Saved) {
        ProjectionAction::Ended {
            outcome: Ok(ProjectionOutcome::Reported { summary }),
        } => assert_eq!(summary.projection_updates, vec![ProjectionUpdate { id: 9 }]),
        _ => panic!("a committed convergence is told"),
    }
    assert_eq!(run.point, ProjectionPoint::Ended);
}

#[test]
fn a_groups_publish_failure_comes_out_after_the_commit() {
    let mut client = client();
    let (mut run, _) = ProjectionRun::begin(
        &mut client,
        ProjectionKind::Group { group_id: group(4) },
        AccountDeviceEffects::default(),
        false,
        70,
        Some(failure()),
    );
    let _ = run.step(&mut client, evidence_observed());
    let _ = run.step(&mut client, ProjectionEvent::Settled);
    let _ = run.step(&mut client, ProjectionEvent::Refreshed);
    let _ = run.step(
        &mut client,
        ProjectionEvent::EventsProjected { pass: pass(9, false), result: Ok(()) },
    );
    let _ = run.step(
        &mut client,
        ProjectionEvent::RoutesRefreshed { routing_changed: false, state_pruned: false },
    );
    let _ = run.step(&mut client, ProjectionEvent::Pruned);
    client.commit_state_delta(&vec![]);
    let action = run.step(&mut client, ProjectionEvent::Saved);
    assert!(matches!(action, ProjectionAction::Ended { outcome: Err(AppError::Storage(_)) }));
    let kept = client.slots.checkpointed.as_ref().expect("the report is still owed");
    assert_eq!(kept.projection_updates, vec![ProjectionUpdate { id: 9 }]);
}

#[test]
fn a_step_that_fails_ends_a_projection() {
    let mut client = client();
    let (mut run, _) = ProjectionRun::begin(
        &mut client,
        inbound(IngestOutcome::Processed, false),
        AccountDeviceEffects::default(),
        false,
        70,
        None,
    );
    let action = run.step(&mut client, ProjectionEvent::Failed { error: failure() });
    assert!(matches!(action, ProjectionAction::Ended { outcome: Err(AppError::Storage(_)) }));
    assert_eq!(client.last_transport_timestamp, Some(50));
}

fn operation(
    source: AccountVisibilitySource,
    effects: AccountDeviceEffects,
) -> ReplayedAccountVisibilityOperation {
    ReplayedAccountVisibilityOperation {
        operation_id: OperationId::new(vec![9]),
        source,
        effects,
    }
}

#[test]
fn every_source_is_replayed_in_its_own_way() {
    let delivered = |outcome: IngestOutcome| {
        operation(
            AccountVisibilitySource::Inbound {
                message_id: MessageId::new(vec![0xab]),
                received_at: 61,
                timestamp: 60,
                group_id_hint: None,
                outcome,
                observed_at: 70,
            },
            AccountDeviceEffects::default(),
        )
    };
    assert_eq!(
        replayed_kind(&delivered(IngestOutcome::Processed)),
        Some(inbound(IngestOutcome::Processed, false))
    );
    let refused = IngestOutcome::ResourceRefused { group_id: group(4) };
    let again = IngestOutcome::ResourceRefused { group_id: group(4) };
    assert_eq!(replayed_kind(&delivered(refused)), Some(inbound(again, true)));
    let drained = operation(
        AccountVisibilitySource::Drain { observed_at: 70 },
        AccountDeviceEffects::default(),
    );
    assert_eq!(replayed_kind(&drained), Some(ProjectionKind::Drained));
    let maintained = operation(
        AccountVisibilitySource::Maintenance { observed_at: 70 },
        AccountDeviceEffects::default(),
    );
    assert_eq!(replayed_kind(&maintained), None);
    let converged = operation(
        AccountVisibilitySource::Convergence { group_id: group(8), observed_at: 70 },
        AccountDeviceEffects::default(),
    );
    assert_eq!(
        replayed_kind(&converged),
        Some(ProjectionKind::Group { group_id: group(8) })
    );
    let sent = operation(
        AccountVisibilitySource::Outbound { group_id: None, observed_at: 70 },
        AccountDeviceEffects {
            events: vec![GroupEvent::GroupStateChanged {
                group_id: group(6),
                change: GroupStateChange::GroupDisbanded,
            }],
            ..AccountDeviceEffects::default()
        },
    );
    assert_eq!(
        replayed_kind(&sent),
        Some(ProjectionKind::Group { group_id: group(6) })
    );
    let nothing = operation(
        AccountVisibilitySource::Outbound { group_id: None, observed_at: 70 },
        AccountDeviceEffects::default(),
    );
    assert_eq!(replayed_kind(&nothing), Some(ProjectionKind::Drained));
}

#[test]
fn interrupted_operations_are_projected_and_committed_one_by_one() {
    let mut client = client();
    let (mut replay, action) = VisibilityReplay::begin(&client);
    assert!(matches!(action, VisibilityAction::Lease));
    let action = replay.step(
        &mut client,
        VisibilityEvent::Leased { lease: Some((5, records())) },
    );
    assert!(matches!(action, VisibilityAction::Project { index: 0 }));
    assert_eq!(replay.operations.len(), 1);
    assert_eq!(replay.operations[0].effects.events, vec![message(7)]);
    assert_eq!(staged(&client), Vec::<u8>::new());
    let action = replay.step(&mut client, VisibilityEvent::Projected);
    assert!(matches!(action, VisibilityAction::RefreshRoutes));
    assert_eq!(staged(&client), vec![1]);
    let action = replay.step(
        &mut client,
        VisibilityEvent::RoutesRefreshed { routing_changed: true },
    );
    assert!(matches!(action, VisibilityAction::SaveState));
    assert!(client.slots.uncheckpointed_refresh);
    let action = replay.step(&mut client, VisibilityEvent::Saved);
    assert!(matches!(action, VisibilityAction::Ended { result: Ok(true) }));
    assert_eq!(replay.point, VisibilityPoint::Ended);
}

#[test]
fn staged_records_are_saved_before_anything_is_leased() {
    let mut client = leased();
    client.stage_current_account_visibility_record_kind(AccountVisibilityRecordKind::NonSession);
    let (mut replay, action) = VisibilityReplay::begin(&client);
    assert!(matches!(action, VisibilityAction::SaveState));
    let action = replay.step(&mut client, VisibilityEvent::Saved);
    assert!(matches!(action, VisibilityAction::Lease));
    let action = replay.step(&mut client, VisibilityEvent::Leased { lease: None });
    assert!(matches!(action, VisibilityAction::Ended { result: Ok(false) }));
}

#[test]
fn a_projection_that_fails_lends_no_authority_to_later_saves() {
    let mut client = client();
    let (mut replay, _) = VisibilityReplay::begin(&client);
    let _ = replay.step(
        &mut client,
        VisibilityEvent::Leased { lease: Some((5, records())) },
    );
    let action = replay.step(&mut client, VisibilityEvent::Failed { error: failure() });
    match action {
        VisibilityAction::Ended { result } => assert_eq!(result, Err(failure())),
        _ => panic!("a failed projection ends the replay"),
    }
    let lease = client.visibility.as_ref().expect("the lease stays");
    assert_eq!(lease.projection_operation_id, None);
}

#[test]
fn an_operation_that_changed_its_source_is_not_replayed() {
    let mut client = client();
    let (mut replay, _) = VisibilityReplay::begin(&client);
    let mut batches = records();
    batches[3].source = AccountVisibilitySource::Drain { observed_at: 71 };
    let action = replay.step(&mut client, VisibilityEvent::Leased { lease: Some((5, batches)) });
    match action {
        VisibilityAction::Ended { result } => assert_eq!(
            result,
            Err(AppError::BlockingTask(
                "account visibility operation changed source".to_owned()
            ))
        ),
        _ => panic!("sources that disagree end the replay"),
    }
}

#[test]
fn a_pass_moves_its_cursor_before_it_asks_and_skips_young_sets() {
    let groups = vec![
        GroupRoute { transport_group_id: vec![1; 32], subscription: 10 },
        GroupRoute { transport_group_id: vec![2; 31], subscription: 11 },
    ];
    let (mut run, action) = ReconcileRun::begin(vec!["wss://a".to_owned()], groups, None, 100);
    match action {
        ReconcileAction::MoveCursor { route } => {
            assert_eq!(route, TransportReconciliationRoute::Inbox)
        }
        _ => panic!("the cursor moves first"),
    }
    let action = run.step(ReconcileEvent::CursorMoved);
    assert!(matches!(action, ReconcileAction::ReadInventory { .. }));
    let action = run.step(ReconcileEvent::Inventory { since: 101 });
    match action {
        ReconcileAction::MoveCursor { route } => {
            assert_eq!(route, TransportReconciliationRoute::Group(vec![1; 32]))
        }
        _ => panic!("a set that begins too late is skipped"),
    }
    let _ = run.step(ReconcileEvent::CursorMoved);
    let action = run.step(ReconcileEvent::Inventory { since: 100 });
    assert!(matches!(action, ReconcileAction::Attempt { index: 1, since: 100 }));
    let action = run.step(ReconcileEvent::Attempted {
        attempt: RouteAttempt::Reconciled(RouteReconciliation {
            relays_succeeded: 2,
            relays_failed: 1,
            remote_items: 5,
            received_items: 3,
        }),
    });
    match action {
        ReconcileAction::Ended { result: Ok(tally) } => {
            assert_eq!(tally.attempted_routes, 1);
            assert_eq!(tally.routes_failed, 0);
            assert_eq!(tally.relays_succeeded, 2);
            assert_eq!(tally.received_items, 3);
        }
        _ => panic!("the pass is over"),
    }
}

#[test]
fn a_route_that_fails_does_not_end_a_pass_but_storage_does() {
    let groups = vec![GroupRoute { transport_group_id: vec![1; 32], subscription: 10 }];
    let (mut run, _) = ReconcileRun::begin(vec!["wss://a".to_owned()], groups, None, 100);
    let _ = run.step(ReconcileEvent::CursorMoved);
    let _ = run.step(ReconcileEvent::Inventory { since: 1 });
    let action = run.step(ReconcileEvent::Attempted { attempt: RouteAttempt::Failed });
    assert!(matches!(action, ReconcileAction::MoveCursor { .. }));
    assert_eq!(run.tally.routes_failed, 1);
    let action = run.step(ReconcileEvent::Failed { error: failure() });
    match action {
        ReconcileAction::Ended { result } => assert_eq!(result.map(|_| ()), Err(failure())),
        _ => panic!("storage that fails ends the pass"),
    }
}

#[test]
fn an_event_that_fails_before_its_group_changed_marks_nothing() {
    let mut client = leased();
    let (mut run, _) =
        EventsRun::begin(ObservationSeam::Live, vec![message(7)], KeyMap::new(), None);
    let _ = run.step(&mut client, EventsEvent::Suppression { changed: None });
    let _ = run.step(
        &mut client,
        EventsEvent::ProjectionFailed { error: failure(), group_record_changed: false },
    );
    assert!(client.state_delta().dirty_groups.is_empty());
}

#[test]
fn a_live_drain_whose_evidence_fails_commits_before_it_fails() {
    let mut client = leased();
    let (mut run, _) = ProjectionRun::begin(
        &mut client,
        ProjectionKind::Drained,
        AccountDeviceEffects::default(),
        false,
        70,
        None,
    );
    let _ = run.step(&mut client, ProjectionEvent::Settled);
    let action = run.step(&mut client, ProjectionEvent::Failed { error: failure() });
    assert!(matches!(action, ProjectionAction::RefreshRoutes));
    let action = run.step(
        &mut client,
        ProjectionEvent::RoutesRefreshed { routing_changed: false, state_pruned: false },
    );
    assert!(matches!(action, ProjectionAction::SaveState));
    let action = run.step(&mut client, ProjectionEvent::Saved);
    assert!(matches!(action, ProjectionAction::Ended { outcome: Err(AppError::Storage(_)) }));
}
