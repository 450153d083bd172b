use marmot_app::client::app_client::AppClient;
use marmot_app::client::backfill_run::{EpochBackfillGate, EpochBackfillTerminalRow};
use marmot_app::client::cursor::CursorPersistence;
use marmot_app::client::drain::{DeliveryIngest, DrainCounts, DrainVerdict};
use marmot_app::client::epoch_backfill::{
    BackfillDecision, EpochBackfillBegin, EpochBackfillExecution, EpochBackfillExecutionSeam,
};
use marmot_app::client::replay_run::{
    EpochBackfillActivationOutcome, ReplayEvent, ReplayPoint, ReplayStep,
};
use marmot_app::client::replay_start::{ReplayStart, StartAction, StartEvent, StartPoint};
use marmot_app::client::summary::SyncSummary;
use marmot_app::client::sync::EpochBackfillRunOutcome;
use marmot_app::collections::{KeyMap, KeySet};
use marmot_app::error::AppError;
use marmot_app::ids::GroupId;

const BASE: u64 = 15_000;

fn group() -> GroupId {
    GroupId::new(vec![1])
}

fn epochs(epoch: u64) -> KeyMap<GroupId, u64> {
    let mut known = KeyMap::new();
    known.insert(group(), epoch);
    known
}

fn armed() -> AppClient {
    let mut client = AppClient::new("device".to_owned(), CursorPersistence::Advance, None);
    let told = client.backfill.apply_backfill_decision(
        &group(),
        5,
        BackfillDecision::Arm,
        "first".to_owned(),
    );
    assert_eq!(told, Some(("first".to_owned(), true)));
    client
}

fn started(client: &mut AppClient) -> EpochBackfillExecution {
    match client
        .backfill
        .begin_epoch_backfill_execution(&epochs(5), 0)
    {
        EpochBackfillBegin::Started(execution) => execution,
        _ => panic!("the replay begins"),
    }
}

fn failed(point: ReplayPoint) -> ReplayEvent {
    ReplayEvent::Failed {
        point,
        error: AppError::TransportClosed,
        kind: "transport_closed".to_owned(),
        partial: SyncSummary::default(),
        counts: DrainCounts::new(),
    }
}

fn one_delivery() -> DrainCounts {
    let mut counts = DrainCounts::new();
    counts.record_ingest(&DeliveryIngest {
        routes_dirty: false,
        must_stay_fetchable: false,
        refused_group: None,
    });
    counts
}

#[test]
fn a_confirmed_replay_consumes_its_intent() {
    let mut client = armed();
    let execution = started(&mut client);
    assert_eq!(execution.pending.execution_attempts, 1);
    assert_eq!(execution.retry_ordinal, 0);
    let known = epochs(6);
    let step = client.step_replay(execution, ReplayEvent::IntentPersisted, &known, 10, BASE);
    let ReplayStep::Activate { execution } = step else {
        panic!("the transport is activated first");
    };
    let step = client.step_replay(execution, ReplayEvent::Activated, &known, 10, BASE);
    let ReplayStep::SyncGroups { execution } = step else {
        panic!("the groups follow");
    };
    client
        .slots
        .remember_uncheckpointed_runtime_group_subscription_refresh(true);
    let step = client.step_replay(execution, ReplayEvent::GroupsSynced, &known, 10, BASE);
    let ReplayStep::DrainSession { execution } = step else {
        panic!("the session follows");
    };
    assert!(!client.slots.uncheckpointed_refresh);
    let step = client.step_replay(execution, ReplayEvent::SessionDrained, &known, 10, BASE);
    let ReplayStep::DrainRelay { execution } = step else {
        panic!("the relays follow");
    };
    let drained = ReplayEvent::RelayDrained {
        verdict: DrainVerdict::Complete,
        counts: one_delivery(),
    };
    let step = client.step_replay(execution, drained, &known, 10, BASE);
    let ReplayStep::ClearIntent { execution, counts } = step else {
        panic!("the stored intent is cleared before the replay ends");
    };
    assert!(client.backfill.has_pending_epoch_backfill());
    let cleared = ReplayEvent::IntentCleared { counts };
    let ReplayStep::PersistJournal { ending } =
        client.step_replay(execution, cleared, &known, 10, BASE)
    else {
        panic!("the replay ends");
    };
    assert_eq!(ending.activation, EpochBackfillActivationOutcome::Succeeded);
    let end = &ending.audit;
    assert!(end.succeeded && end.recovered && !end.fruitless_completion);
    assert_eq!(end.error_kind, None);
    assert_eq!(
        end.rows,
        vec![EpochBackfillTerminalRow {
            group_id: group(),
            local_epoch_before: 5,
            local_epoch_after: 6,
            group_advanced: true,
        }]
    );
    assert!(!client.backfill.has_pending_epoch_backfill());
    assert_eq!(client.backfill.retry_not_before_ms, None);
    let outcome = client.finish_replay(ending, Ok(()));
    assert!(matches!(outcome, Ok(EpochBackfillRunOutcome::Completed(_))));
}

#[test]
fn a_confirmed_replay_that_brought_nothing_is_paced() {
    let mut client = armed();
    let execution = started(&mut client);
    let cleared = ReplayEvent::IntentCleared {
        counts: DrainCounts::new(),
    };
    let ReplayStep::PersistJournal { ending } =
        client.step_replay(execution, cleared, &epochs(5), 100, BASE)
    else {
        panic!("the replay ends");
    };
    assert!(ending.audit.fruitless_completion);
    assert_eq!(client.backfill.retry_not_before_ms, Some(15_100));
    assert!(!client.backfill.has_pending_epoch_backfill());
}

#[test]
fn an_unconfirmed_replay_keeps_its_intent_and_is_counted() {
    let mut client = armed();
    let execution = started(&mut client);
    let drained = ReplayEvent::RelayDrained {
        verdict: DrainVerdict::EoseTimeout,
        counts: DrainCounts::new(),
    };
    let ReplayStep::PersistJournal { ending } =
        client.step_replay(execution, drained, &epochs(5), 100, BASE)
    else {
        panic!("the replay ends");
    };
    assert_eq!(
        ending.audit.error_kind,
        Some("backfill_drain_eose_timeout".to_owned())
    );
    let outcome = client.finish_replay(ending, Ok(()));
    assert!(matches!(outcome, Ok(EpochBackfillRunOutcome::Incomplete(_))));
    let pending = client.backfill.pending.as_ref().expect("the intent stays");
    assert_eq!(pending.eose_unconfirmed_attempts, 1);
    assert_eq!(client.backfill.retry_not_before_ms, Some(15_100));
    assert_eq!(
        client
            .backfill
            .check_pending(EpochBackfillExecutionSeam::Receive, 15_099),
        EpochBackfillGate::Deferred
    );
    assert_eq!(
        client
            .backfill
            .check_pending(EpochBackfillExecutionSeam::ExplicitCatchUp, 15_099),
        EpochBackfillGate::Ready
    );
    assert_eq!(
        client
            .backfill
            .check_pending(EpochBackfillExecutionSeam::Receive, 15_100),
        EpochBackfillGate::Ready
    );
}

#[test]
fn new_history_lifts_the_pacing() {
    let mut client = armed();
    client.backfill.retry_not_before_ms = Some(9);
    let execution = started(&mut client);
    let drained = ReplayEvent::RelayDrained {
        verdict: DrainVerdict::NovelProgressQuantumYield,
        counts: one_delivery(),
    };
    client.step_replay(execution, drained, &epochs(5), 100, BASE);
    assert_eq!(client.backfill.retry_not_before_ms, None);
    assert!(client.backfill.has_pending_epoch_backfill());
}

#[test]
fn a_failed_step_puts_the_intent_back() {
    for (point, activation) in [
        (
            ReplayPoint::PersistIntent,
            EpochBackfillActivationOutcome::Failed,
        ),
        (ReplayPoint::Activate, EpochBackfillActivationOutcome::Failed),
        (
            ReplayPoint::SyncGroups,
            EpochBackfillActivationOutcome::Succeeded,
        ),
        (
            ReplayPoint::DrainRelay,
            EpochBackfillActivationOutcome::Succeeded,
        ),
    ] {
        let mut client = armed();
        let execution = started(&mut client);
        let ReplayStep::PersistJournal { ending } =
            client.step_replay(execution, failed(point), &epochs(5), 100, BASE)
        else {
            panic!("the replay ends");
        };
        assert_eq!(ending.activation, activation);
        assert!(!ending.audit.succeeded);
        assert_eq!(
            ending.audit.error_kind,
            Some("transport_closed".to_owned())
        );
        let outcome = client.finish_replay(ending, Ok(()));
        assert!(matches!(outcome, Err(AppError::TransportClosed)));
        assert!(client.backfill.has_pending_epoch_backfill());
        assert_eq!(client.backfill.retry_not_before_ms, Some(15_100));
    }
}

#[test]
fn the_end_of_a_replay_that_does_not_run_is_refused() {
    let mut client = armed();
    let execution = started(&mut client);
    client.backfill.active = None;
    let ReplayStep::Lost {
        error: AppError::BlockingTask(text),
    } = client.step_replay(execution, failed(ReplayPoint::Activate), &epochs(5), 0, BASE)
    else {
        panic!("the end is refused");
    };
    assert_eq!(
        text,
        "epoch-backfill terminal state does not match active intent"
    );
}

#[test]
fn an_end_that_cannot_be_written_is_told_to_nobody() {
    let mut client = armed();
    client.slots.retain_checkpointed_sync_summary(SyncSummary {
        joined_groups: vec![group()],
        ..SyncSummary::default()
    });
    let execution = started(&mut client);
    let drained = ReplayEvent::RelayDrained {
        verdict: DrainVerdict::EoseTimeout,
        counts: DrainCounts::new(),
    };
    let ReplayStep::PersistJournal { ending } =
        client.step_replay(execution, drained, &epochs(5), 100, BASE)
    else {
        panic!("the replay ends");
    };
    let outcome = client.finish_replay(ending, Err(AppError::TransportClosed));
    assert!(matches!(outcome, Err(AppError::TransportClosed)));
    assert!(client.backfill.journal_dirty);
    assert!(client.backfill.active.is_some(), "the replay counts as running");
    assert_eq!(client.backfill.retry_not_before_ms, Some(15_100));
    let owed = client.slots.checkpointed.as_ref().expect("the report is owed");
    assert_eq!(owed.joined_groups, vec![group()]);
}

#[test]
fn a_start_writes_the_queue_before_anything_runs() {
    let mut client = armed();
    client.backfill.journal_dirty = true;
    let (mut start, action) =
        ReplayStart::begin(&mut client, EpochBackfillExecutionSeam::Receive, 0);
    assert!(matches!(action, StartAction::PersistJournal));
    assert_eq!(start.point, StartPoint::Flush);
    let action = start.step(&mut client, StartEvent::JournalPersisted { now_ms: 1 });
    assert!(matches!(action, StartAction::ReadEpochs));
    assert!(!client.backfill.journal_dirty);
    let action = start.step(
        &mut client,
        StartEvent::EpochsRead {
            observed: epochs(5),
            now_ms: 2,
        },
    );
    assert!(matches!(action, StartAction::PersistJournal));
    let action = start.step(&mut client, StartEvent::JournalPersisted { now_ms: 3 });
    let StartAction::Started { execution } = action else {
        panic!("the replay starts");
    };
    assert_eq!(execution.pending.execution_attempts, 1);
    assert_eq!(execution.started_ms, 2);
}

#[test]
fn an_interrupted_replay_is_put_back_and_written_first() {
    let mut client = armed();
    let _ = started(&mut client);
    assert!(client.backfill.active.is_some());
    let (mut start, action) =
        ReplayStart::begin(&mut client, EpochBackfillExecutionSeam::Receive, 0);
    assert!(matches!(action, StartAction::PersistJournal));
    assert_eq!(start.point, StartPoint::Recovery);
    assert!(client.backfill.active.is_none());
    let action = start.step(&mut client, StartEvent::JournalPersisted { now_ms: 1 });
    assert!(matches!(action, StartAction::ReadEpochs));
}

#[test]
fn a_start_stops_at_its_gate() {
    let mut idle = AppClient::new("device".to_owned(), CursorPersistence::Advance, None);
    let (_, action) = ReplayStart::begin(&mut idle, EpochBackfillExecutionSeam::Receive, 0);
    assert!(matches!(
        action,
        StartAction::Ended {
            outcome: Ok(EpochBackfillRunOutcome::NotPending)
        }
    ));
    let mut paced = armed();
    paced.backfill.retry_not_before_ms = Some(9);
    let (_, action) = ReplayStart::begin(&mut paced, EpochBackfillExecutionSeam::Receive, 8);
    assert!(matches!(
        action,
        StartAction::Ended {
            outcome: Ok(EpochBackfillRunOutcome::Deferred)
        }
    ));
    let (_, action) =
        ReplayStart::begin(&mut paced, EpochBackfillExecutionSeam::ExplicitCatchUp, 8);
    assert!(matches!(action, StartAction::ReadEpochs));
}

#[test]
fn a_start_without_epochs_is_recorded_once_and_put_off() {
    let mut client = armed();
    for audited in [true, false] {
        let (mut start, _) =
            ReplayStart::begin(&mut client, EpochBackfillExecutionSeam::Receive, 0);
        let action = start.step(
            &mut client,
            StartEvent::EpochsRead {
                observed: KeyMap::new(),
                now_ms: 1,
            },
        );
        let StartAction::PersistDeferral {
            audit,
            attempt_id,
            retry_ordinal,
        } = action
        else {
            panic!("the start is put off");
        };
        assert_eq!(audit, audited);
        assert_eq!(attempt_id, "first");
        assert_eq!(retry_ordinal, 0);
        let action = start.step(&mut client, StartEvent::JournalPersisted { now_ms: 2 });
        assert!(matches!(
            action,
            StartAction::Ended {
                outcome: Ok(EpochBackfillRunOutcome::Deferred)
            }
        ));
    }
}

#[test]
fn a_start_that_cannot_be_written_is_taken_back() {
    let mut client = armed();
    let (mut start, _) = ReplayStart::begin(&mut client, EpochBackfillExecutionSeam::Receive, 0);
    let _ = start.step(
        &mut client,
        StartEvent::EpochsRead {
            observed: epochs(5),
            now_ms: 1,
        },
    );
    let action = start.step(
        &mut client,
        StartEvent::Failed {
            error: AppError::TransportClosed,
        },
    );
    assert!(matches!(
        action,
        StartAction::Ended {
            outcome: Err(AppError::TransportClosed)
        }
    ));
    assert!(client.backfill.active.is_none());
    assert!(client.backfill.journal_dirty);
    let pending = client.backfill.pending.as_ref().expect("the intent is back");
    assert_eq!(pending.attempt_id, "first");
}

#[test]
fn a_group_without_an_epoch_defers_the_replay() {
    let mut client = armed();
    let nothing = KeyMap::new();
    let begin = client.backfill.begin_epoch_backfill_execution(&nothing, 0);
    assert!(matches!(
        begin,
        EpochBackfillBegin::Deferred { audit: true, .. }
    ));
    let begin = client.backfill.begin_epoch_backfill_execution(&nothing, 0);
    assert!(
        matches!(begin, EpochBackfillBegin::Deferred { audit: false, .. }),
        "the same deferral is recorded once"
    );
}

#[test]
fn a_journal_brings_the_queue_back() {
    let mut client = armed();
    client.backfill.retry_not_before_ms = Some(2_000);
    let journal = client.backfill.journal(1_000, 100).expect("something waits");
    assert_eq!(journal.retry_not_before_unix_ms, Some(101_000));
    let mut other = AppClient::new("device".to_owned(), CursorPersistence::Advance, None);
    let written = other
        .backfill
        .restore_epoch_backfill_intent_journal(journal, 100, 7_000);
    assert_eq!(written, Ok(false));
    let pending = other.backfill.pending.as_ref().expect("the intent is back");
    assert_eq!(pending.attempt_id, "first");
    assert_eq!(pending.groups.get(&group()), Some(&5));
    assert_eq!(other.backfill.retry_not_before_ms, Some(8_000));
    assert!(AppClient::new("d".to_owned(), CursorPersistence::Advance, None)
        .backfill
        .journal(0, 0)
        .is_none());
}

#[test]
fn an_interrupted_replay_comes_back_with_the_journal() {
    let mut client = armed();
    started(&mut client);
    let journal = client.backfill.journal(0, 0).expect("the replay runs");
    let mut other = AppClient::new("device".to_owned(), CursorPersistence::Advance, None);
    assert_eq!(
        other
            .backfill
            .restore_epoch_backfill_intent_journal(journal, 0, 0),
        Ok(true)
    );
    assert!(other.backfill.active.is_none());
    let pending = other.backfill.pending.as_ref().expect("the intent is back");
    assert_eq!(pending.execution_attempts, 1);
}

#[test]
fn an_unknown_journal_version_is_refused() {
    let client = armed();
    let mut journal = client.backfill.journal(0, 0).expect("something waits");
    journal.version = 2;
    let mut other = AppClient::new("device".to_owned(), CursorPersistence::Advance, None);
    assert_eq!(
        other
            .backfill
            .restore_epoch_backfill_intent_journal(journal, 0, 0),
        Err(AppError::BlockingTask(
            "unsupported durable epoch-backfill intent journal".to_owned()
        ))
    );
    assert!(!other.backfill.has_pending_epoch_backfill());
}

#[test]
fn only_live_groups_stay_in_the_queue() {
    let mut client = armed();
    client.backfill.apply_backfill_decision(
        &GroupId::new(vec![2]),
        8,
        BackfillDecision::ArmAndEscalate { arms: 3 },
        "unused".to_owned(),
    );
    let mut live = KeySet::new();
    live.insert(GroupId::new(vec![2]));
    assert!(client.backfill.retain_live_epoch_backfill_groups(&live));
    let pending = client.backfill.pending.as_ref().expect("one group is left");
    assert_eq!(pending.attempt_id, "first");
    assert_eq!(pending.groups.len(), 1);
    assert!(!client.backfill.retain_live_epoch_backfill_groups(&live));
    assert!(client
        .backfill
        .prune_deleted_epoch_backfill_group(&GroupId::new(vec![2])));
    assert!(!client.backfill.has_pending_epoch_backfill());
}

#[test]
fn a_skipped_decision_arms_nothing() {
    let mut client = AppClient::new("device".to_owned(), CursorPersistence::Advance, None);
    let told = client.backfill.apply_backfill_decision(
        &group(),
        5,
        BackfillDecision::Skip,
        "unused".to_owned(),
    );
    assert_eq!(told, None);
    assert!(!BackfillDecision::Skip.arms_backfill());
    assert!(!client.backfill.has_pending_epoch_backfill());
}
