use marmot_app::client::app_client::AppClient;
use marmot_app::client::cursor::CursorPersistence;
use marmot_app::client::drain::DrainVerdict;
use marmot_app::client::effects::{EffectsPass, ObservationSeam, ProjectedEvent};
use marmot_app::client::epoch_backfill::BackfillDecision;
use marmot_app::client::events::GroupEvent;
use marmot_app::client::pass::{PassAction, PassEvent, PassKind, TransportPass};
use marmot_app::client::subscription_retry::{
    RetryAction, RetryEvent, RetryPoint, SubscriptionRetry,
};
use marmot_app::client::summary::{EpochStallEscalation, SyncSummary};
use marmot_app::client::sync::EpochBackfillRunOutcome;
use marmot_app::error::{AppError, SyncFailureStage};
use marmot_app::ids::{GroupId, MemberId, MessageId};

fn client() -> AppClient {
    AppClient::new("alice".to_owned(), CursorPersistence::Advance, Some(50))
}

fn group() -> GroupId {
    GroupId::new(vec![0x42])
}

fn joined() -> SyncSummary {
    SyncSummary {
        joined_groups: vec![group()],
        ..SyncSummary::default()
    }
}

fn failure() -> AppError {
    AppError::Transport("injected".to_owned())
}

fn event() -> GroupEvent {
    GroupEvent::MessageReceived {
        group_id: group(),
        message_id: MessageId::new(vec![7]),
        sender: MemberId::new(vec![1]),
        epoch: 3,
        payload: vec![],
        retention: None,
    }
}

#[test]
fn catch_up_checkpoint_defers_subscription_refresh_after_durable_save() {
    let mut client = client();
    assert!(client.begin_prefix_checkpoint(true, 0));
    client.commit_state_delta(&vec![]);
    assert!(client.slots.has_pending_runtime_group_subscription_refresh());
    assert_eq!(
        client.note_subscription_refresh(Err(failure())),
        Err(failure()),
        "the deferred injected subscription failure must reach the retry"
    );
    assert!(client.slots.has_pending_runtime_group_subscription_refresh());
    assert_eq!(client.note_subscription_refresh(Ok(())), Ok(()));
    assert!(!client.slots.has_pending_runtime_group_subscription_refresh());
}

#[test]
fn cancelled_next_event_is_returned_by_following_sync() {
    let mut client = client();
    client.slots.refresh = true;
    // The refresh is given up while it waits: the report was retained before it.
    client.retain_direct_next_event_summary(joined());
    assert!(client.slots.has_pending_runtime_group_subscription_refresh());
    assert_eq!(client.sync(Ok(()), Ok(())), Ok(joined()));
    assert!(!client.slots.has_pending_runtime_group_subscription_refresh());
    assert_eq!(
        client.sync(Ok(()), Ok(())),
        Ok(SyncSummary::default()),
        "the retained summary must be returned exactly once"
    );
}

#[test]
fn cancelled_sync_v1_is_checkpointed_by_the_managed_fallback() {
    let mut client = client();
    // The pass is given up after the projection and before its checkpoint.
    client.slots.retain_uncheckpointed_sync_summary(joined());
    client.prepare_pending_application_event_ack(&event());
    assert_eq!(client.slots.take_pending_checkpointed_sync_summary(), None);
    assert_eq!(client.state_delta().application_event_acks.len(), 1);
    assert!(client.has_visibility_to_checkpoint());
    client.commit_state_delta(&vec![]);
    assert!(client.state_delta().application_event_acks.is_empty());
    assert!(!client.has_visibility_to_checkpoint());
    assert_eq!(
        client.slots.take_pending_checkpointed_sync_summary(),
        Some(joined()),
        "the fallback must receive the promoted batch"
    );
    assert_eq!(
        client.sync(Ok(()), Ok(())),
        Ok(SyncSummary::default()),
        "the checkpointed batch must be handed off exactly once"
    );
}

#[test]
fn an_escalation_without_a_summary_still_occupies_the_v2_handoff() {
    let mut client = client();
    let stalled = GroupId::new(vec![0x5a; 32]);
    client.report_epoch_stall_escalation(&stalled, 9, 3);
    let summary = client
        .slots
        .take_pending_checkpointed_sync_summary()
        .expect("an escalation-only handoff must not collapse to None");
    assert_eq!(
        summary.epoch_stall_escalations,
        vec![EpochStallEscalation {
            group_id: stalled,
            stalled_epoch: 9,
            arms: 3,
        }]
    );
    assert_eq!(client.slots.take_pending_checkpointed_sync_summary(), None);
}

#[test]
fn cancelled_sync_after_prefix_checkpoint_leaves_summary_owned_by_client() {
    let mut client = client();
    client.slots.retain_uncheckpointed_sync_summary(joined());
    client.begin_prefix_checkpoint(false, 1);
    client.commit_state_delta(&vec![]);
    // The pass is given up here: what is committed stays with the client.
    assert!(client.state_delta().application_event_acks.is_empty());
    assert_eq!(client.sync(Ok(()), Ok(())), Ok(joined()));
    assert_eq!(client.slots.take_pending_checkpointed_sync_summary(), None);
}

#[test]
fn scheduled_convergence_returns_v2_before_subscription_network_work() {
    let mut client = client();
    client.begin_prefix_checkpoint(true, 0);
    client.commit_state_delta(&vec![]);
    assert!(client.slots.has_pending_runtime_group_subscription_refresh());
    assert_eq!(
        client.slots.take_checkpointed_sync_summary_or_default(),
        SyncSummary::default()
    );
    assert_eq!(client.slots.take_pending_checkpointed_sync_summary(), None);
    assert!(
        client.slots.has_pending_runtime_group_subscription_refresh(),
        "the handoff must leave subscription network work for the worker"
    );
}

#[test]
fn cancelled_next_event_retains_an_empty_epoch_backfill_wake_batch() {
    let mut client = client();
    client.backfill.apply_backfill_decision(
        &group(),
        5,
        BackfillDecision::Arm,
        "first".to_owned(),
    );
    assert!(client.backfill.has_pending_epoch_backfill());
    client.slots.refresh = true;
    client.retain_direct_next_event_summary(SyncSummary::default());
    assert_eq!(
        client.next_event(Err(failure())),
        Err(failure()),
        "an empty wake batch must not hide a refresh error"
    );
    assert!(client.slots.has_pending_runtime_group_subscription_refresh());
    assert_eq!(
        client.next_event(Ok(())),
        Ok(Some(SyncSummary::default())),
        "an empty wake batch must remain occupied across retry failure"
    );
    assert!(!client.slots.has_pending_runtime_group_subscription_refresh());
    assert!(client.backfill.has_pending_epoch_backfill());
    assert_eq!(
        client.next_event(Ok(())),
        Ok(None),
        "the empty wake batch must be returned exactly once"
    );
}

#[test]
fn an_empty_report_without_a_wake_is_not_retained() {
    let mut client = client();
    client.retain_direct_next_event_summary(SyncSummary::default());
    assert_eq!(client.next_event(Ok(())), Ok(None));
}

#[test]
fn drained_event_returns_summary_and_defers_subscription_retry() {
    let mut client = client();
    let mut pass = EffectsPass::begin(ObservationSeam::Drained);
    client.finish_projected_event(
        &mut pass,
        &event(),
        ProjectedEvent {
            summary: joined(),
            gossip_message_id_hex: None,
            group_record_changed: true,
            routes_dirty: false,
            groups_before: 0,
            groups_after: 1,
            crossed: None,
            system_rows: vec![],
        },
    );
    assert_eq!(client.finish_drained_pass(&pass, None), Ok(()));
    client.commit_state_delta(&vec![]);
    assert_eq!(
        client.slots.take_checkpointed_sync_summary_or_default(),
        joined()
    );
    assert!(client.slots.has_pending_runtime_group_subscription_refresh());
    assert_eq!(
        client.note_subscription_refresh(Err(failure())),
        Err(failure())
    );
    assert!(client.slots.has_pending_runtime_group_subscription_refresh());
    assert_eq!(client.note_subscription_refresh(Ok(())), Ok(()));
    assert!(!client.slots.has_pending_runtime_group_subscription_refresh());
}

#[test]
fn direct_sync_finalizer_retains_summary_across_refresh_failure() {
    let mut client = client();
    client.slots.refresh = true;
    client.slots.retain_checkpointed_sync_summary(joined());
    assert_eq!(
        client.finalize_direct_sync_summary(Err(failure())),
        Err(failure())
    );
    assert!(client.slots.has_pending_runtime_group_subscription_refresh());
    assert_eq!(client.finalize_direct_sync_summary(Ok(())), Ok(joined()));
    assert_eq!(client.slots.take_pending_checkpointed_sync_summary(), None);
    assert!(!client.slots.has_pending_runtime_group_subscription_refresh());
}

#[test]
fn explicit_full_history_repair_preserves_ingested_prefix_without_eose() {
    let mut client = client();
    client.slots.retain_checkpointed_sync_summary(joined());
    let (mut pass, mut action) = TransportPass::begin(PassKind::Repair, None);
    let failed = loop {
        let event = match action {
            PassAction::RefreshRoutes => PassEvent::RoutesRefreshed {
                state_pruned: false,
            },
            PassAction::RunPendingReplay => PassEvent::Replayed {
                outcome: EpochBackfillRunOutcome::NotPending,
            },
            PassAction::DrainRelay => PassEvent::Drained {
                verdict: DrainVerdict::NoRelayEose,
            },
            PassAction::Fail { failure } => break failure,
            PassAction::Finish { .. } => panic!("silence cannot prove that history was served"),
            _ => PassEvent::Done,
        };
        action = pass.step(&mut client, event);
    };
    assert_eq!(failed.partial_summary, joined());
    assert!(matches!(failed.stage, SyncFailureStage::RelayReceive));
    let AppError::BlockingTask(text) = failed.source else {
        panic!("the cause of the incomplete drain");
    };
    assert!(text.contains("backfill_drain_no_relay_eose"));
}

#[test]
fn a_retry_without_a_due_rebuild_does_nothing() {
    let (retry, action) = SubscriptionRetry::begin(&client());
    assert_eq!(retry.point, RetryPoint::Ended);
    assert!(matches!(action, RetryAction::Ended { result: Ok(()) }));
}

#[test]
fn a_retry_computes_and_saves_new_routes_before_it_subscribes() {
    let mut client = client();
    client.slots.refresh = true;
    let (mut retry, action) = SubscriptionRetry::begin(&client);
    assert!(matches!(action, RetryAction::RefreshRoutes));
    let action = retry.step(&mut client, RetryEvent::RoutesRefreshed { state_pruned: true });
    assert!(matches!(action, RetryAction::SaveState));
    let action = retry.step(&mut client, RetryEvent::Saved);
    assert!(matches!(action, RetryAction::SyncGroups));
    assert!(client.slots.has_pending_runtime_group_subscription_refresh());
    let action = retry.step(&mut client, RetryEvent::Synced);
    assert!(matches!(action, RetryAction::Ended { result: Ok(()) }));
    assert!(!client.slots.has_pending_runtime_group_subscription_refresh());
}

#[test]
fn a_retry_of_an_inactive_account_prepares_the_transport() {
    let mut client = client();
    client.slots.refresh = true;
    let (mut retry, _) = SubscriptionRetry::begin(&client);
    let action = retry.step(&mut client, RetryEvent::RoutesRefreshed { state_pruned: false });
    assert!(matches!(action, RetryAction::SyncGroups));
    let action = retry.step(&mut client, RetryEvent::NotActive);
    assert!(matches!(action, RetryAction::Prepare));
    assert!(client.slots.has_pending_runtime_group_subscription_refresh());
    let action = retry.step(&mut client, RetryEvent::Prepared);
    assert!(matches!(action, RetryAction::Ended { result: Ok(()) }));
    assert!(!client.slots.has_pending_runtime_group_subscription_refresh());
}

#[test]
fn a_failed_retry_stays_due() {
    let mut client = client();
    client.slots.refresh = true;
    let (mut retry, _) = SubscriptionRetry::begin(&client);
    let _ = retry.step(&mut client, RetryEvent::RoutesRefreshed { state_pruned: false });
    match retry.step(&mut client, RetryEvent::Failed { error: failure() }) {
        RetryAction::Ended { result } => assert_eq!(result, Err(failure())),
        _ => panic!("a failed retry ends"),
    }
    assert!(client.slots.has_pending_runtime_group_subscription_refresh());
}
