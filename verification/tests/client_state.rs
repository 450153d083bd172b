use marmot_app::client::app_client::{AppClient, FrontierClear};
use marmot_app::client::checkpoint_run::{
    CheckpointAction, CheckpointEvent, CheckpointPoint, PrefixCheckpoint,
};
use marmot_app::client::cursor::CursorPersistence;
use marmot_app::client::drain::DeliveryIngest;
use marmot_app::client::effects::{
    CrossedFrontier, EffectsPass, ObservationSeam, ProjectedEvent,
};
use marmot_app::client::events::{
    plan_event_projection, GroupEvent, GroupStateChange, SelfMembership,
};
use marmot_app::client::observe::{
    affected_groups, apply_published_outbound_action_outcomes, convergence_schedule_state,
    detect_epoch_stall, local_deleted_group_event_crosses_frontier,
    local_group_deletion_frontiers_at_batch_start, observe_recovery_evidence,
    primary_outbound_group, project_received_message, AppEventKinds, ConvergenceScheduleState,
    IngestOutcome, MessageProjection, RecoveryEvidence, StallObservation,
};
use marmot_app::client::replay::group_visibility_operations;
use marmot_app::client::summary::{ProjectionUpdate, ReceivedMessage, SyncSummary};
use marmot_app::client::visibility::{
    has_staged_account_visibility_batches, install_account_visibility_lease,
    AccountDeviceEffects, AccountVisibilityBatch, AccountVisibilityRecordKind,
    AccountVisibilitySource, OutboundActionOutcome, PublishedAppMessage,
};
use marmot_app::error::AppError;
use marmot_app::ids::{BatchId, GroupId, MemberId, MessageId, OperationId};

const KINDS: AppEventKinds = AppEventKinds { chat: 9, delete: 5 };

fn client() -> AppClient {
    AppClient::new("device".to_owned(), CursorPersistence::Advance, Some(50))
}

fn joined(byte: u8) -> SyncSummary {
    SyncSummary {
        joined_groups: vec![GroupId::new(vec![byte])],
        ..SyncSummary::default()
    }
}

fn message(byte: u8) -> GroupEvent {
    GroupEvent::MessageReceived {
        group_id: GroupId::new(vec![0xab]),
        message_id: MessageId::new(vec![byte]),
        sender: MemberId::new(vec![1]),
        epoch: 3,
        payload: vec![],
        retention: None,
    }
}

fn kept(routes_dirty: bool) -> DeliveryIngest {
    DeliveryIngest {
        routes_dirty,
        must_stay_fetchable: false,
        refused_group: None,
    }
}

#[test]
fn an_own_echo_is_one_that_was_seen_and_is_signed_here() {
    let mut client = client();
    let id = "01".to_owned();
    let own = Some("aa".to_owned());
    assert!(!client.is_own_relay_echo(&id, &own, "aa"));
    client.remember_seen_event(id.clone());
    client.remember_seen_event(id.clone());
    assert_eq!(client.pending_seen_event_count, 1);
    assert!(client.is_own_relay_echo(&id, &own, "aa"));
    assert!(!client.is_own_relay_echo(&id, &own, "bb"));
    assert!(!client.is_own_relay_echo(&id, &None, "aa"));
    assert!(client.skips_delivery(&id));
}

#[test]
fn the_cursor_stands_still_below_a_drop() {
    let mut client = client();
    client.remember_transport_cursor(60, 100, 10, false);
    assert_eq!(client.last_transport_timestamp, Some(60));
    client.remember_transport_cursor(70, 100, 10, true);
    assert_eq!(client.last_transport_timestamp, Some(60));
    client.remember_transport_cursor(500, 100, 10, false);
    assert_eq!(client.last_transport_timestamp, Some(110));
    let mut frozen = AppClient::new("device".to_owned(), CursorPersistence::Frozen, Some(50));
    frozen.remember_transport_cursor(60, 100, 10, false);
    assert_eq!(frozen.last_transport_timestamp, Some(50));
}

#[test]
fn a_buffered_object_wakes_its_group() {
    let mut client = client();
    let group = GroupId::new(vec![4]);
    client.remember_buffered_convergence_outcome(&IngestOutcome::Processed);
    assert_eq!(client.pending_convergence_groups.len(), 0);
    client.remember_buffered_convergence_outcome(&IngestOutcome::Buffered {
        group_id: group.clone(),
    });
    client.remember_pending_convergence_groups(&vec![group.clone(), GroupId::new(vec![5])]);
    assert_eq!(
        client.take_pending_convergence_groups(),
        vec![group, GroupId::new(vec![5])]
    );
    assert!(client.take_pending_convergence_groups().is_empty());
}

#[test]
fn a_drop_takes_the_floor_away() {
    let mut client = client();
    assert_eq!(client.subscription_rebuild_since(Some(40)), Some(40));
    client.observe_delivery_overflow(3);
    assert_eq!(client.subscription_rebuild_since(Some(40)), None);
}

#[test]
fn a_delta_is_owed_until_it_is_committed() {
    let mut client = client();
    client.remember_seen_event("01".to_owned());
    client.mark_group_projection_dirty(&GroupId::new(vec![0xab]));
    client.prepare_pending_application_event_ack(&message(7));
    assert!(client.prepare_local_group_deletion_frontier_clear(&message(7), 12, true));
    assert!(!client.prepare_local_group_deletion_frontier_clear(&message(7), 12, false));
    let delta = client.state_delta();
    assert_eq!(delta.seen_events, vec!["01".to_owned()]);
    assert_eq!(delta.last_transport_timestamp, Some(50));
    assert_eq!(delta.dirty_groups, vec!["ab".to_owned()]);
    assert_eq!(
        delta.frontiers_to_clear,
        vec![FrontierClear {
            group_id_hex: "ab".to_owned(),
            frontier: 12,
        }]
    );
    assert_eq!(delta.application_event_acks, vec![MessageId::new(vec![7])]);
    client
        .slots
        .retain_uncheckpointed_sync_summary(joined(1));
    client.commit_state_delta(&vec![]);
    let delta = client.state_delta();
    assert!(delta.seen_events.is_empty());
    assert!(delta.dirty_groups.is_empty());
    assert!(delta.frontiers_to_clear.is_empty());
    assert!(delta.application_event_acks.is_empty());
    assert!(client.skips_delivery(&"01".to_owned()));
    assert_eq!(
        client.slots.take_checkpointed_sync_summary_or_default(),
        joined(1)
    );
}

#[test]
fn an_acknowledgement_can_be_taken_back() {
    let mut client = client();
    client.prepare_pending_application_event_ack(&message(7));
    client.discard_pending_application_event_ack(&message(7));
    assert!(client.state_delta().application_event_acks.is_empty());
}

#[test]
fn a_quiet_prefix_does_not_recompute_the_routes() {
    let mut client = client();
    assert!(!client.begin_prefix_checkpoint(false, 0));
    assert!(client.begin_prefix_checkpoint(false, 1));
    assert!(client.begin_prefix_checkpoint(true, 0));
    assert!(
        client.begin_prefix_checkpoint(false, 0),
        "an older request is still owed"
    );
    assert_eq!(client.checkpoint_route_refresh_recomputes, 3);
}

#[test]
fn a_failed_checkpoint_takes_its_cursor_back() {
    let mut client = client();
    client.last_transport_timestamp = Some(80);
    let before = client.advance_checkpoint_cursor(false, false);
    assert_eq!(client.checkpointed_transport_timestamp, Some(80));
    client.revert_checkpoint_cursor(before);
    assert_eq!(client.checkpointed_transport_timestamp, Some(50));
    client.advance_checkpoint_cursor(false, true);
    assert_eq!(client.checkpointed_transport_timestamp, Some(50));
}

#[test]
fn a_live_delivery_saves_before_its_routes_where_membership_changed() {
    let mut client = client();
    client.last_transport_timestamp = Some(80);
    assert!(client.settle_received_delivery(
        &kept(true),
        "01".to_owned(),
        joined(1),
        Some(50),
        true
    ));
    assert_eq!(client.last_transport_timestamp, Some(50));
    assert!(!client.settle_refreshed_routes(true, true, false));
    assert!(client.slots.refresh, "the rebuild is owed on the saved side");
    assert!(client.settle_refreshed_routes(true, false, true));
    assert!(!client.settle_received_delivery(
        &kept(false),
        "02".to_owned(),
        joined(2),
        Some(50),
        false
    ));
    assert!(client.settle_refreshed_routes(false, false, false));
}

#[test]
fn reports_go_from_owed_to_committed_to_handed_out() {
    let mut client = client();
    client.slots.retain_uncheckpointed_sync_summary(joined(1));
    client
        .slots
        .remember_uncheckpointed_runtime_group_subscription_refresh(true);
    assert_eq!(client.next_event(Ok(())), Ok(None));
    client.slots.promote_uncheckpointed_sync_visibility();
    assert!(client.slots.has_pending_runtime_group_subscription_refresh());
    let refused = client.next_event(Err(AppError::TransportClosed));
    assert_eq!(
        refused,
        Ok(Some(joined(1))),
        "what is committed is not hidden behind the failure"
    );
    client
        .slots
        .retain_checkpointed_sync_summary(SyncSummary::default());
    assert_eq!(
        client.next_event(Err(AppError::TransportClosed)),
        Err(AppError::TransportClosed),
        "an empty report waits for the subscriptions"
    );
    assert_eq!(client.next_event(Ok(())), Ok(Some(SyncSummary::default())));
    assert_eq!(client.next_event(Ok(())), Ok(None));
}

#[test]
fn an_escalation_is_reported_once() {
    let mut client = client();
    client.report_epoch_stall_escalation(&GroupId::new(vec![1]), 5, 3);
    let report = client.slots.take_checkpointed_sync_summary_or_default();
    assert_eq!(report.epoch_stall_escalations.len(), 1);
    assert_eq!(report.epoch_stall_escalations[0].arms, 3);
    assert!(client
        .slots
        .take_checkpointed_sync_summary_or_default()
        .is_default());
}

#[test]
fn a_crossing_event_waits_until_its_routes_are_adopted() {
    let mut client = client();
    let mut pass = EffectsPass::begin(ObservationSeam::Live);
    let projected = |adopted| ProjectedEvent {
        summary: joined(2),
        gossip_message_id_hex: None,
        group_record_changed: true,
        routes_dirty: false,
        groups_before: 1,
        groups_after: 1,
        crossed: Some(CrossedFrontier {
            frontier: 12,
            prior_routes_adopted: adopted,
        }),
        system_rows: vec![],
    };
    assert!(!client.finish_projected_event(&mut pass, &message(7), projected(false)));
    assert!(client.state_delta().application_event_acks.is_empty());
    assert!(client.finish_projected_event(&mut pass, &message(7), projected(true)));
    let delta = client.state_delta();
    assert_eq!(delta.application_event_acks, vec![MessageId::new(vec![7])]);
    assert_eq!(delta.frontiers_to_clear.len(), 1);
    assert_eq!(delta.dirty_groups, vec!["ab".to_owned()]);
}

#[test]
fn gossip_is_not_shown_and_system_rows_are() {
    let mut client = client();
    let mut pass = EffectsPass::begin(ObservationSeam::Live);
    let summary = SyncSummary {
        messages: vec![ReceivedMessage {
            message_id_hex: "07".to_owned(),
            group_id: GroupId::new(vec![0xab]),
            sender: "aa".to_owned(),
            plaintext: "token".to_owned(),
            kind: 1,
        }],
        ..SyncSummary::default()
    };
    client.finish_projected_event(
        &mut pass,
        &message(7),
        ProjectedEvent {
            summary,
            gossip_message_id_hex: Some("07".to_owned()),
            group_record_changed: false,
            routes_dirty: false,
            groups_before: 1,
            groups_after: 2,
            crossed: None,
            system_rows: vec![ProjectionUpdate { id: 4 }],
        },
    );
    assert!(pass.summary.messages.is_empty());
    assert_eq!(
        pass.summary.projection_updates,
        vec![ProjectionUpdate { id: 4 }]
    );
    assert!(pass.routes_dirty, "a new group needs its routes");
}

#[test]
fn a_drained_pass_ends_with_the_publish_failure() {
    let mut client = client();
    let mut pass = EffectsPass::begin(ObservationSeam::Drained);
    client.finish_suppressed_event(&mut pass, &message(7), true);
    assert!(pass.routes_dirty);
    assert_eq!(
        client.finish_drained_pass(&pass, Some(AppError::TransportClosed)),
        Err(AppError::TransportClosed)
    );
    assert!(client.slots.uncheckpointed_refresh);
    assert_eq!(client.finish_drained_pass(&pass, None), Ok(()));
}

#[test]
fn a_failed_live_pass_keeps_its_prefix() {
    let mut client = client();
    let mut pass = EffectsPass::begin(ObservationSeam::Live);
    pass.summary = joined(1);
    client.retain_failed_live_pass(pass);
    assert_eq!(client.slots.uncheckpointed, Some(joined(1)));
    let mut pass = EffectsPass::begin(ObservationSeam::Live);
    pass.summary = joined(2);
    client.retain_send_applied_pass(pass, Some(true));
    assert!(client.slots.refresh);
    assert_eq!(client.slots.take_pending_applied_sync_summary(), joined(2));
}

#[test]
fn the_convergence_state_follows_the_earliest_cutoff() {
    assert_eq!(
        convergence_schedule_state(Some(30), Some(20), true, true),
        ConvergenceScheduleState::Collecting { remaining_ms: 20 }
    );
    assert_eq!(
        convergence_schedule_state(Some(0), None, false, false),
        ConvergenceScheduleState::Ready
    );
    assert_eq!(
        convergence_schedule_state(None, Some(5), true, true),
        ConvergenceScheduleState::PendingUnopenable
    );
    assert_eq!(
        convergence_schedule_state(None, Some(5), false, true),
        ConvergenceScheduleState::PendingOutbound
    );
    assert_eq!(
        convergence_schedule_state(None, Some(5), false, false),
        ConvergenceScheduleState::Collecting { remaining_ms: 5 }
    );
    assert_eq!(
        convergence_schedule_state(None, None, false, false),
        ConvergenceScheduleState::Idle
    );
}

#[test]
fn evidence_is_read_from_epochs_and_refusals() {
    let events = vec![
        message(1),
        GroupEvent::EpochChanged {
            group_id: GroupId::new(vec![1]),
            from: 3,
            to: 4,
        },
        GroupEvent::TransportObjectResourceRefused {
            group_id: GroupId::new(vec![2]),
        },
    ];
    assert_eq!(
        observe_recovery_evidence(CursorPersistence::Advance, &events),
        vec![
            RecoveryEvidence::EpochPassage {
                group_id: GroupId::new(vec![1]),
                from: 3,
                to: 4,
            },
            RecoveryEvidence::ResourceRefusal {
                group_id: GroupId::new(vec![2]),
            },
        ]
    );
    assert!(observe_recovery_evidence(CursorPersistence::Frozen, &events).is_empty());
}

#[test]
fn a_stall_is_seen_where_the_group_and_its_epoch_are_known() {
    let group = Some(GroupId::new(vec![1]));
    let detect = |outcome: &IngestOutcome| {
        detect_epoch_stall(CursorPersistence::Advance, &group, Some(4), outcome)
    };
    assert_eq!(
        detect(&IngestOutcome::TransportDeferred),
        StallObservation::Undecryptable { epoch: 4 }
    );
    assert_eq!(
        detect(&IngestOutcome::ResourceRefused {
            group_id: GroupId::new(vec![1])
        }),
        StallObservation::ResourceRefusal { epoch: 4 }
    );
    assert_eq!(
        detect(&IngestOutcome::Processed),
        StallObservation::Landing { epoch: 4 }
    );
    assert_eq!(
        detect_epoch_stall(
            CursorPersistence::Advance,
            &None,
            Some(4),
            &IngestOutcome::TransportDeferred
        ),
        StallObservation::Nothing
    );
}

#[test]
fn a_batch_names_its_groups() {
    let effects = AccountDeviceEffects {
        events: vec![message(1), message(2)],
        published_app_messages: vec![PublishedAppMessage {
            group_id: GroupId::new(vec![9]),
            app_event_id: "x".to_owned(),
        }],
        ..AccountDeviceEffects::default()
    };
    assert_eq!(
        affected_groups(&effects).to_list(),
        vec![GroupId::new(vec![0xab]), GroupId::new(vec![9])]
    );
    assert_eq!(
        primary_outbound_group(&None, &effects),
        Some(GroupId::new(vec![0xab]))
    );
    assert_eq!(
        primary_outbound_group(&Some(GroupId::new(vec![3])), &effects),
        Some(GroupId::new(vec![3]))
    );
    assert_eq!(
        local_group_deletion_frontiers_at_batch_start(&effects.events),
        vec!["ab".to_owned()]
    );
}

#[test]
fn only_published_departures_leave_a_group() {
    let outcomes = vec![
        OutboundActionOutcome {
            group_id: GroupId::new(vec![1]),
            published: true,
        },
        OutboundActionOutcome {
            group_id: GroupId::new(vec![2]),
            published: false,
        },
    ];
    assert_eq!(
        apply_published_outbound_action_outcomes(&outcomes),
        vec!["01".to_owned()]
    );
}

#[test]
fn only_a_newer_chat_brings_a_deleted_group_back() {
    let crosses = |kind, newer, terminal| {
        local_deleted_group_event_crosses_frontier(&message(1), terminal, kind, newer, KINDS)
    };
    assert!(crosses(Some(9), true, false));
    assert!(!crosses(Some(9), false, false));
    assert!(!crosses(Some(5), true, false));
    assert!(!crosses(None, true, false));
    assert!(!crosses(Some(9), true, true));
}

#[test]
fn a_received_message_is_projected_by_its_kind() {
    assert_eq!(
        project_received_message(9, true, true, true, KINDS),
        MessageProjection::Gossip
    );
    assert_eq!(
        project_received_message(9, false, true, true, KINDS),
        MessageProjection::Row {
            moderation_grant: false,
            keeps_media_secret: true,
        }
    );
    assert_eq!(
        project_received_message(5, false, true, true, KINDS),
        MessageProjection::Row {
            moderation_grant: true,
            keeps_media_secret: false,
        }
    );
}

#[test]
fn an_event_says_what_to_do_for_the_account() {
    let removed = GroupEvent::GroupStateChanged {
        group_id: GroupId::new(vec![1]),
        change: GroupStateChange::MemberRemoved {
            member: MemberId::new(vec![0xaa]),
        },
    };
    let plan = plan_event_projection(&removed, "AA");
    assert_eq!(plan.departed_member_hex, Some("aa".to_owned()));
    assert_eq!(plan.self_membership, Some(SelfMembership::Removed));
    assert!(plan.withdraw_pending_sends);
    assert!(!plan.group_disbanded);
    let plan = plan_event_projection(&removed, "bb");
    assert_eq!(plan.self_membership, None);
    assert!(!plan.withdraw_pending_sends);
}

fn batch(id: u8, operation: u8, index: u64, at: u64) -> AccountVisibilityBatch {
    AccountVisibilityBatch {
        batch_id: BatchId::new(vec![id]),
        operation_id: OperationId::new(vec![operation]),
        kind: AccountVisibilityRecordKind::Event { index },
        source: AccountVisibilitySource::Drain { observed_at: at },
        effects: AccountDeviceEffects {
            events: vec![message(id)],
            ..AccountDeviceEffects::default()
        },
    }
}

#[test]
fn batches_are_replayed_by_operation() {
    let operations =
        group_visibility_operations(vec![batch(1, 1, 0, 5), batch(2, 1, 1, 5), batch(3, 2, 0, 6)])
            .expect("the sources agree");
    assert_eq!(operations.len(), 2);
    assert_eq!(operations[0].effects.events, vec![message(1), message(2)]);
    assert_eq!(operations[1].source.observed_at(), 6);
    assert_eq!(
        group_visibility_operations(vec![batch(1, 1, 0, 5), batch(2, 1, 1, 6)]),
        Err(AppError::BlockingTask(
            "account visibility operation changed source".to_owned()
        ))
    );
}

#[test]
fn staged_batches_leave_with_the_delta_that_stored_them() {
    let mut client = client();
    install_account_visibility_lease(
        &mut client.visibility,
        1,
        vec![batch(1, 1, 0, 5), batch(2, 1, 1, 5)],
        Some(OperationId::new(vec![1])),
    );
    assert!(!has_staged_account_visibility_batches(&client.visibility));
    client.stage_current_account_visibility_event(&message(1));
    assert!(has_staged_account_visibility_batches(&client.visibility));
    assert_eq!(
        client.state_delta().visibility_batch_acks,
        vec![BatchId::new(vec![1])]
    );
    client.commit_state_delta(&vec![BatchId::new(vec![1])]);
    assert!(!has_staged_account_visibility_batches(&client.visibility));
    let lease = client.visibility.as_ref().expect("one batch is left");
    assert_eq!(lease.batches.len(), 1);
    assert_eq!(lease.batches[0].batch_id, BatchId::new(vec![2]));
    assert_eq!(lease.lease, 1);
    assert_eq!(
        lease.projection_operation_id,
        Some(OperationId::new(vec![1]))
    );
    client.commit_state_delta(&vec![]);
    let lease = client.visibility.as_ref().expect("nothing was acknowledged");
    assert_eq!(lease.batches.len(), 1);
    client.commit_state_delta(&vec![BatchId::new(vec![2])]);
    assert!(client.visibility.is_none());
}

fn storage_failure() -> AppError {
    AppError::Storage("disk".to_owned())
}

#[test]
fn a_prefix_is_stored_with_its_new_routes_and_its_cursor() {
    let mut client = client();
    client.last_transport_timestamp = Some(80);
    let (mut checkpoint, action) = PrefixCheckpoint::begin(&mut client, false, 1);
    assert!(matches!(action, CheckpointAction::RefreshRoutes));
    assert_eq!(client.checkpoint_route_refresh_recomputes, 1);
    let action = checkpoint.step(
        &mut client,
        CheckpointEvent::RoutesRefreshed { routing_changed: true },
    );
    assert!(matches!(action, CheckpointAction::ReadOverflow));
    assert_eq!(client.checkpointed_transport_timestamp, Some(50));
    let action = checkpoint.step(&mut client, CheckpointEvent::OverflowRead { pending: false });
    assert!(matches!(action, CheckpointAction::SaveState));
    assert!(client.slots.uncheckpointed_refresh);
    assert_eq!(client.checkpointed_transport_timestamp, Some(80));
    let action = checkpoint.step(&mut client, CheckpointEvent::Saved);
    assert!(matches!(action, CheckpointAction::Ended { result: Ok(()) }));
    assert_eq!(client.checkpointed_transport_timestamp, Some(80));
}

#[test]
fn a_save_that_fails_takes_the_checkpoint_back() {
    let mut client = client();
    client.last_transport_timestamp = Some(80);
    let (mut checkpoint, action) = PrefixCheckpoint::begin(&mut client, false, 0);
    assert!(matches!(action, CheckpointAction::ReadOverflow), "nothing moved the routes");
    let _ = checkpoint.step(&mut client, CheckpointEvent::OverflowRead { pending: false });
    assert_eq!(client.checkpointed_transport_timestamp, Some(80));
    match checkpoint.step(&mut client, CheckpointEvent::Failed { error: storage_failure() }) {
        CheckpointAction::Ended { result } => assert_eq!(result, Err(storage_failure())),
        _ => panic!("a failed save ends its checkpoint"),
    }
    assert_eq!(client.checkpointed_transport_timestamp, Some(50));
    assert_eq!(client.last_transport_timestamp, Some(80));
}

#[test]
fn a_known_drop_holds_the_stored_cursor() {
    let mut client = client();
    client.last_transport_timestamp = Some(80);
    let (mut checkpoint, _) = PrefixCheckpoint::begin(&mut client, true, 0);
    let _ = checkpoint.step(
        &mut client,
        CheckpointEvent::RoutesRefreshed { routing_changed: false },
    );
    let _ = checkpoint.step(&mut client, CheckpointEvent::OverflowRead { pending: true });
    assert_eq!(client.checkpointed_transport_timestamp, Some(50));
    let _ = checkpoint.step(&mut client, CheckpointEvent::Saved);
    assert_eq!(client.checkpointed_transport_timestamp, Some(50));
    assert!(client.slots.uncheckpointed_refresh, "the dirty routes are remembered");
}

#[test]
fn routes_that_cannot_be_computed_end_a_checkpoint_before_its_cursor() {
    let mut client = client();
    client.last_transport_timestamp = Some(80);
    let (mut checkpoint, _) = PrefixCheckpoint::begin(&mut client, true, 2);
    let action = checkpoint.step(
        &mut client,
        CheckpointEvent::Failed { error: storage_failure() },
    );
    assert!(matches!(action, CheckpointAction::Ended { result: Err(AppError::Storage(_)) }));
    assert_eq!(checkpoint.point, CheckpointPoint::Ended);
    assert_eq!(client.checkpointed_transport_timestamp, Some(50));
}

#[test]
fn a_client_knows_whether_its_queue_is_written_and_its_counts_agree() {
    let mut client = client();
    assert!(client.is_well_formed());
    client.note_journal_write(false);
    assert!(client.backfill.journal_dirty);
    client.note_journal_write(true);
    assert!(!client.backfill.journal_dirty);
    client.pending_seen_event_count = 1;
    assert!(!client.is_well_formed());
}
