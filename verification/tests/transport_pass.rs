use marmot_app::client::app_client::AppClient;
use marmot_app::client::cursor::CursorPersistence;
use marmot_app::client::drain::DrainVerdict;
use marmot_app::client::epoch_backfill::BackfillDecision;
use marmot_app::client::pass::{PassAction, PassEvent, PassKind, PassPoint, TransportPass};
use marmot_app::client::summary::{ClassifiedSyncFailure, SyncSummary};
use marmot_app::client::sync::{
    merge_delivery_overflow_recovery, DeliveryOverflowRecoveryOutcome, EpochBackfillRunOutcome,
    MarkerClear, OverflowRecoveryBegin,
};
use marmot_app::error::{AppError, SyncFailureStage};
use marmot_app::ids::GroupId;

fn client() -> AppClient {
    AppClient::new("device".to_owned(), CursorPersistence::Advance, None)
}

fn joined(byte: u8) -> SyncSummary {
    SyncSummary {
        joined_groups: vec![GroupId::new(vec![byte])],
        ..SyncSummary::default()
    }
}

fn failure_of(action: PassAction) -> ClassifiedSyncFailure {
    match action {
        PassAction::Fail { failure } => failure,
        _ => panic!("the pass goes on"),
    }
}

#[test]
fn a_catch_up_takes_its_steps_in_order() {
    let mut client = client();
    client
        .slots
        .remember_uncheckpointed_runtime_group_subscription_refresh(true);
    let (mut pass, action) = TransportPass::begin(PassKind::CatchUp, Some(40));
    assert!(matches!(action, PassAction::ReplayVisibility));
    assert!(matches!(
        pass.step(&mut client, PassEvent::Done),
        PassAction::RefreshRoutes
    ));
    assert!(matches!(
        pass.step(&mut client, PassEvent::RoutesRefreshed { state_pruned: true }),
        PassAction::SaveState
    ));
    assert!(matches!(
        pass.step(&mut client, PassEvent::Done),
        PassAction::PrepareTransport
    ));
    assert!(matches!(
        pass.step(&mut client, PassEvent::Done),
        PassAction::Reconcile { until: 40 }
    ));
    assert!(client.slots.uncheckpointed_refresh);
    assert!(matches!(
        pass.step(&mut client, PassEvent::Done),
        PassAction::DrainSession
    ));
    assert!(
        !client.slots.uncheckpointed_refresh,
        "complete subscriptions leave no older request"
    );
    assert!(matches!(
        pass.step(&mut client, PassEvent::Done),
        PassAction::DrainRelay
    ));
    let drained = PassEvent::Drained {
        verdict: DrainVerdict::Complete,
    };
    assert!(matches!(
        pass.step(&mut client, drained),
        PassAction::Finish {
            verdict: DrainVerdict::Complete
        }
    ));
    assert_eq!(pass.point, PassPoint::Ended);
}

#[test]
fn a_catch_up_without_a_floor_reconciles_nothing() {
    let mut client = client();
    let (mut pass, _) = TransportPass::begin(PassKind::CatchUp, None);
    pass.step(&mut client, PassEvent::Done);
    assert!(matches!(
        pass.step(
            &mut client,
            PassEvent::RoutesRefreshed {
                state_pruned: false
            }
        ),
        PassAction::PrepareTransport
    ));
    assert!(matches!(
        pass.step(&mut client, PassEvent::Done),
        PassAction::DrainSession
    ));
}

fn repair_at_drain(client: &mut AppClient) -> TransportPass {
    let (mut pass, action) = TransportPass::begin(PassKind::Repair, None);
    assert!(matches!(action, PassAction::RefreshRoutes));
    let routes = PassEvent::RoutesRefreshed {
        state_pruned: false,
    };
    assert!(matches!(pass.step(client, routes), PassAction::Activate));
    assert!(matches!(
        pass.step(client, PassEvent::Done),
        PassAction::SyncGroups
    ));
    assert!(matches!(
        pass.step(client, PassEvent::Done),
        PassAction::DrainSession
    ));
    assert!(matches!(
        pass.step(client, PassEvent::Done),
        PassAction::DrainRelay
    ));
    pass
}

#[test]
fn a_repair_fails_without_confirmation() {
    let mut client = client();
    client
        .slots
        .retain_checkpointed_sync_summary(joined(3));
    let mut pass = repair_at_drain(&mut client);
    let drained = PassEvent::Drained {
        verdict: DrainVerdict::NoRelayEose,
    };
    let failure = failure_of(pass.step(&mut client, drained));
    assert_eq!(failure.partial_summary, joined(3));
    assert_eq!(failure.stage, SyncFailureStage::RelayReceive);
    assert_eq!(
        failure.source,
        AppError::BlockingTask("full-history repair incomplete: backfill_drain_no_relay_eose".to_owned())
    );
}

#[test]
fn a_repair_replays_a_drop_before_it_ends() {
    let mut client = client();
    let mut pass = repair_at_drain(&mut client);
    client.observe_delivery_overflow(5);
    let drained = PassEvent::Drained {
        verdict: DrainVerdict::Complete,
    };
    assert!(matches!(
        pass.step(&mut client, drained),
        PassAction::RecoverOverflow { .. }
    ));
    let still = PassEvent::Recovered { summary: joined(1) };
    let mut unresolved = pass;
    let failure = failure_of(unresolved.step(&mut client, still));
    assert_eq!(failure.partial_summary, joined(1));
    assert_eq!(
        failure.source,
        AppError::BlockingTask("full-history repair incomplete: account_delivery_queue_overflow".to_owned())
    );
    client.clear_delivery_overflow_recovery(true, None);
    let recovered = PassEvent::Recovered { summary: joined(2) };
    assert!(matches!(
        pass.step(&mut client, recovered),
        PassAction::Finish {
            verdict: DrainVerdict::Complete
        }
    ));
    assert_eq!(
        client.slots.take_checkpointed_sync_summary_or_default(),
        joined(2)
    );
}

fn repair_at_replay(client: &mut AppClient) -> TransportPass {
    client.backfill.apply_backfill_decision(
        &GroupId::new(vec![1]),
        5,
        BackfillDecision::Arm,
        "first".to_owned(),
    );
    let (mut pass, _) = TransportPass::begin(PassKind::Repair, None);
    let routes = PassEvent::RoutesRefreshed {
        state_pruned: false,
    };
    assert!(matches!(
        pass.step(client, routes),
        PassAction::RunPendingReplay
    ));
    assert_eq!(pass.attempts_left, 1);
    pass
}

#[test]
fn a_confirmed_replay_ends_a_repair() {
    let mut client = client();
    let mut pass = repair_at_replay(&mut client);
    let replayed = PassEvent::Replayed {
        outcome: EpochBackfillRunOutcome::Completed(joined(4)),
    };
    assert!(matches!(
        pass.step(&mut client, replayed),
        PassAction::Finish {
            verdict: DrainVerdict::Complete
        }
    ));
    assert_eq!(
        client.slots.take_checkpointed_sync_summary_or_default(),
        joined(4)
    );
}

#[test]
fn an_unconfirmed_replay_is_handed_out_before_the_repair_goes_on() {
    let mut client = client();
    let mut pass = repair_at_replay(&mut client);
    let replayed = PassEvent::Replayed {
        outcome: EpochBackfillRunOutcome::Incomplete(joined(4)),
    };
    match pass.step(&mut client, replayed) {
        PassAction::HandOff { summary } => assert_eq!(summary, joined(4)),
        _ => panic!("the part is handed out"),
    }
    assert!(matches!(
        pass.step(&mut client, PassEvent::Done),
        PassAction::Activate
    ));
}

#[test]
fn a_deferred_replay_is_left_for_the_repair() {
    let mut client = client();
    let mut pass = repair_at_replay(&mut client);
    let deferred = PassEvent::Replayed {
        outcome: EpochBackfillRunOutcome::Deferred,
    };
    assert!(matches!(
        pass.step(&mut client, deferred),
        PassAction::Activate
    ));
}

#[test]
fn failures_are_told_with_their_stage() {
    let mut client = client();
    let (mut pass, _) = TransportPass::begin(PassKind::OverflowReplay, None);
    let failed = PassEvent::Failed {
        error: AppError::TransportClosed,
    };
    let failure = failure_of(pass.step(&mut client, failed));
    assert_eq!(failure.stage, SyncFailureStage::TransportActivation);
    assert_eq!(failure.source, AppError::TransportClosed);
    let (mut pass, _) = TransportPass::begin(PassKind::OverflowReplay, None);
    pass.step(&mut client, PassEvent::Done);
    let failed = PassEvent::Failed {
        error: AppError::TransportClosed,
    };
    let failure = failure_of(pass.step(&mut client, failed));
    assert_eq!(failure.stage, SyncFailureStage::GroupSubscriptionSync);
}

#[test]
fn a_drop_needs_its_marker_to_be_replayed() {
    let mut client = client();
    assert!(matches!(
        client.begin_delivery_overflow_recovery(),
        OverflowRecoveryBegin::NotNeeded
    ));
    client.delivery_overflow_recovery_pending = true;
    let OverflowRecoveryBegin::MarkerUnavailable(failure) =
        client.begin_delivery_overflow_recovery()
    else {
        panic!("the marker is missing");
    };
    assert_eq!(
        failure.source,
        AppError::Transport("account delivery overflow marker unavailable".to_owned())
    );
    client.observe_delivery_overflow(8);
    assert!(matches!(
        client.begin_delivery_overflow_recovery(),
        OverflowRecoveryBegin::Attempt { marker_token: 8 }
    ));
}

#[test]
fn a_newer_drop_keeps_the_recovery_pending() {
    let mut client = client();
    client.observe_delivery_overflow(8);
    client
        .slots
        .retain_checkpointed_sync_summary(joined(6));
    let superseded = Some(MarkerClear::Superseded { current: Some(9) });
    let failure = client
        .finish_delivery_overflow_recovery(superseded)
        .expect_err("a newer drop won");
    assert_eq!(
        failure.source,
        AppError::Transport("account delivery overflow generation advanced".to_owned())
    );
    assert_eq!(failure.partial_summary, joined(6));
    assert!(client.delivery_overflow_recovery_pending);
    assert_eq!(client.delivery_overflow_recovery_marker_token, Some(9));

    let outcome = client.finish_delivery_overflow_recovery(Some(MarkerClear::Cleared));
    assert!(matches!(
        outcome,
        Ok(DeliveryOverflowRecoveryOutcome::Completed(_))
    ));
    assert!(!client.delivery_overflow_recovery_pending);

    let outcome = client.finish_delivery_overflow_recovery(None);
    assert!(matches!(
        outcome,
        Ok(DeliveryOverflowRecoveryOutcome::Incomplete(_))
    ));
}

#[test]
fn what_a_recovery_brings_is_merged() {
    let mut summary = joined(1);
    let outcome = Ok(DeliveryOverflowRecoveryOutcome::Incomplete(joined(2)));
    merge_delivery_overflow_recovery(&mut summary, outcome).expect("merged");
    assert_eq!(
        summary.joined_groups,
        vec![GroupId::new(vec![1]), GroupId::new(vec![2])]
    );
    let failure = ClassifiedSyncFailure::at_stage(
        joined(3),
        AppError::TransportClosed,
        SyncFailureStage::RelayReceive,
    );
    let failure = merge_delivery_overflow_recovery(&mut summary, Err(failure))
        .expect_err("the failure stays one");
    assert_eq!(failure.partial_summary.joined_groups.len(), 3);
    assert_eq!(summary, SyncSummary::default());
}
