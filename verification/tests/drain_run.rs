use marmot_app::client::app_client::AppClient;
use marmot_app::client::cursor::CursorPersistence;
use marmot_app::client::drain::{
    AccountSubscriptionEose, DeliveryIngest, DrainCompletion, DrainCounts, DrainLoop, DrainTimings,
    DrainVerdict, EpochBackfillCompletionKind,
};
use marmot_app::client::drain_run::{DrainAction, DrainEvent, DrainRun};
use marmot_app::client::summary::SyncSummary;
use marmot_app::error::{AppError, SyncFailureStage};
use marmot_app::ids::GroupId;

const LOCAL: &str = "aa";

fn client() -> AppClient {
    AppClient::new("device".to_owned(), CursorPersistence::Advance, Some(50))
}

fn run_of(completion: DrainCompletion) -> DrainRun {
    let timings = DrainTimings {
        first_wait_ms: 500,
        drain_wait_ms: 100,
    };
    DrainRun::begin(DrainLoop::begin(completion, timings, 1_000, Some(50)))
}

fn replay() -> DrainRun {
    run_of(DrainCompletion::EndOfStoredEvents {
        silence_budget_ms: 300,
        execution_quantum_ms: 2_000,
    })
}

fn eose(done: usize, of: usize) -> AccountSubscriptionEose {
    AccountSubscriptionEose {
        subscriptions: of,
        with_eose: done,
        relay_subscription_attempts: of,
        relay_subscription_attempts_with_eose: done,
    }
}

fn received(id: &str) -> DrainEvent {
    DrainEvent::Received {
        event_id_hex: id.to_owned(),
        author: None,
    }
}

fn kept() -> DeliveryIngest {
    DeliveryIngest {
        routes_dirty: false,
        must_stay_fetchable: false,
        refused_group: None,
    }
}

fn verdict_of(action: DrainAction) -> DrainVerdict {
    match action {
        DrainAction::Conclude { verdict } => verdict,
        _ => panic!("the drain goes on"),
    }
}

fn wait_of(action: DrainAction) -> u64 {
    match action {
        DrainAction::Receive { wait_ms } => wait_ms,
        _ => panic!("the drain does not wait"),
    }
}

#[test]
fn a_quiet_relay_ends_an_ordinary_drain() {
    let mut client = client();
    let mut run = run_of(DrainCompletion::Quiescence);
    assert_eq!(
        wait_of(run.step(&mut client, LOCAL, DrainEvent::Resumed, 1_000)),
        500
    );
    let action = run.step(
        &mut client,
        LOCAL,
        DrainEvent::Silent { eose: eose(0, 0) },
        1_500,
    );
    assert_eq!(verdict_of(action), DrainVerdict::Complete);
}

#[test]
fn a_delivery_that_was_kept_is_skipped_when_it_comes_again() {
    let mut client = client();
    let mut run = replay();
    run.step(&mut client, LOCAL, DrainEvent::Resumed, 1_000);
    assert!(matches!(
        run.step(&mut client, LOCAL, received("01"), 1_010),
        DrainAction::Ingest
    ));
    let ingested = DrainEvent::Ingested {
        ingest: kept(),
        summary: SyncSummary::default(),
    };
    assert_eq!(wait_of(run.step(&mut client, LOCAL, ingested, 1_020)), 100);
    assert_eq!(client.pending_seen_event_count, 1);
    assert!(matches!(
        run.step(&mut client, LOCAL, received("01"), 1_030),
        DrainAction::RecordSkipped { read: false }
    ));
    assert_eq!(run.drain.counts.deliveries, 1);
    assert_eq!(run.drain.counts.skipped, 1);
}

#[test]
fn a_delivery_without_a_trace_is_ingested_again() {
    let mut client = client();
    let mut run = replay();
    let ingest = DeliveryIngest {
        routes_dirty: true,
        must_stay_fetchable: true,
        refused_group: Some(GroupId::new(vec![7])),
    };
    run.step(&mut client, LOCAL, received("01"), 1_010);
    let ingested = DrainEvent::Ingested {
        ingest,
        summary: SyncSummary::default(),
    };
    run.step(&mut client, LOCAL, ingested, 1_020);
    assert!(run.drain.routes_dirty);
    assert_eq!(run.drain.counts.unpersisted, 1);
    assert_eq!(run.drain.counts.refused, 1);
    assert_eq!(run.drain.counts.durable_deliveries(), 0);
    assert!(run.drain.counts.refused_groups.contains(&GroupId::new(vec![7])));
    assert_eq!(client.pending_seen_event_count, 0);
    assert!(matches!(
        run.step(&mut client, LOCAL, received("01"), 1_030),
        DrainAction::Ingest
    ));
}

#[test]
fn silence_spends_a_budget_before_a_replay_gives_up() {
    let mut client = client();
    let mut run = replay();
    run.step(&mut client, LOCAL, DrainEvent::Resumed, 1_000);
    let silent = |done| DrainEvent::Silent {
        eose: eose(done, 2),
    };
    assert_eq!(
        wait_of(run.step(&mut client, LOCAL, silent(0), 1_299)),
        100,
        "the budget is not spent"
    );
    assert_eq!(
        verdict_of(run.step(&mut client, LOCAL, silent(1), 1_300)),
        DrainVerdict::EoseTimeout
    );
    assert_eq!(
        verdict_of(run.step(&mut client, LOCAL, silent(0), 1_300)),
        DrainVerdict::NoRelayEose
    );
    assert_eq!(
        verdict_of(run.step(&mut client, LOCAL, silent(2), 1_001)),
        DrainVerdict::Complete
    );
}

#[test]
fn silence_is_counted_from_the_last_receipt() {
    let mut client = client();
    let mut run = replay();
    run.step(&mut client, LOCAL, received("01"), 1_250);
    let ingested = DrainEvent::Ingested {
        ingest: kept(),
        summary: SyncSummary::default(),
    };
    run.step(&mut client, LOCAL, ingested, 1_400);
    let silent = || DrainEvent::Silent { eose: eose(0, 1) };
    assert_eq!(wait_of(run.step(&mut client, LOCAL, silent(), 1_549)), 100);
    assert_eq!(
        verdict_of(run.step(&mut client, LOCAL, silent(), 1_550)),
        DrainVerdict::NoRelayEose
    );
}

#[test]
fn the_quantum_yields_by_what_was_kept() {
    let mut client = client();
    let mut run = replay();
    assert!(matches!(
        run.step(&mut client, LOCAL, DrainEvent::Resumed, 3_000),
        DrainAction::ReadAtQuantum
    ));
    let read = |done| DrainEvent::QuantumRead {
        eose: eose(done, 1),
    };
    assert_eq!(
        verdict_of(run.step(&mut client, LOCAL, read(0), 3_000)),
        DrainVerdict::NoProgressQuantumYield
    );
    assert_eq!(
        verdict_of(run.step(&mut client, LOCAL, read(1), 3_000)),
        DrainVerdict::Complete
    );
    run.drain.counts.record_ingest(&kept());
    assert_eq!(
        verdict_of(run.step(&mut client, LOCAL, read(0), 3_000)),
        DrainVerdict::NovelProgressQuantumYield
    );
}

#[test]
fn the_last_wait_ends_with_the_quantum() {
    let mut client = client();
    let mut run = replay();
    assert_eq!(
        wait_of(run.step(&mut client, LOCAL, DrainEvent::Resumed, 2_960)),
        40
    );
}

#[test]
fn a_skipped_delivery_reads_the_subscriptions_at_most_once_per_wait() {
    let mut client = client();
    client.remember_seen_event("01".to_owned());
    let mut run = replay();
    assert!(matches!(
        run.step(&mut client, LOCAL, received("01"), 1_100),
        DrainAction::RecordSkipped { read: true }
    ));
    assert!(matches!(
        run.step(&mut client, LOCAL, received("01"), 1_199),
        DrainAction::RecordSkipped { read: false }
    ));
    let unread = DrainEvent::SkipRead { eose: eose(0, 1) };
    assert_eq!(wait_of(run.step(&mut client, LOCAL, unread, 1_200)), 500);
    let read = DrainEvent::SkipRead { eose: eose(1, 1) };
    assert_eq!(
        verdict_of(run.step(&mut client, LOCAL, read, 1_200)),
        DrainVerdict::Complete
    );
}

#[test]
fn a_closed_queue_ends_a_replay_as_the_relays_say() {
    let mut client = client();
    let closed = |done| DrainEvent::Closed {
        eose: eose(done, 1),
    };
    assert_eq!(
        verdict_of(replay().step(&mut client, LOCAL, closed(0), 1_000)),
        DrainVerdict::NoRelayEose
    );
    assert_eq!(
        verdict_of(replay().step(&mut client, LOCAL, closed(1), 1_000)),
        DrainVerdict::Complete
    );
    let mut quiet = run_of(DrainCompletion::Quiescence);
    assert_eq!(
        verdict_of(quiet.step(&mut client, LOCAL, closed(0), 1_000)),
        DrainVerdict::Complete
    );
}

#[test]
fn a_drop_ends_the_drain_and_is_remembered() {
    let mut client = client();
    let event = DrainEvent::Overflowed { marker: Ok(9) };
    assert_eq!(
        verdict_of(replay().step(&mut client, LOCAL, event, 1_000)),
        DrainVerdict::Overflow
    );
    assert!(client.delivery_overflow_recovery_pending);
    assert_eq!(client.delivery_overflow_recovery_marker_token, Some(9));
}

#[test]
fn a_drop_that_cannot_be_stored_holds_the_cursor() {
    let mut client = client();
    client.last_transport_timestamp = Some(70);
    let event = DrainEvent::Overflowed {
        marker: Err(AppError::Storage("full".to_owned())),
    };
    match replay().step(&mut client, LOCAL, event, 1_000) {
        DrainAction::Fail { error, stage } => {
            assert_eq!(error, AppError::Storage("full".to_owned()));
            assert_eq!(stage, SyncFailureStage::StatePersist);
        }
        _ => panic!("the drain fails"),
    }
    assert_eq!(client.last_transport_timestamp, Some(50));
    assert!(!client.delivery_overflow_recovery_pending);
}

#[test]
fn failures_name_their_stage() {
    let mut client = client();
    let event = DrainEvent::ReceiveFailed {
        error: AppError::TransportClosed,
    };
    assert!(matches!(
        replay().step(&mut client, LOCAL, event, 1_000),
        DrainAction::Fail {
            error: AppError::TransportClosed,
            stage: SyncFailureStage::RelayReceive,
        }
    ));
    let event = DrainEvent::IngestFailed {
        error: AppError::InvalidHex,
    };
    assert!(matches!(
        replay().step(&mut client, LOCAL, event, 1_000),
        DrainAction::Fail {
            error: AppError::InvalidHex,
            stage: SyncFailureStage::CgkaIngest,
        }
    ));
}

#[test]
fn a_drop_that_was_not_told_yet_overrides_the_verdict() {
    let mut client = client();
    client.last_transport_timestamp = Some(70);
    let run = replay();
    assert_eq!(
        run.conclude(&mut client, DrainVerdict::Complete, None),
        Ok(DrainVerdict::Complete)
    );
    assert_eq!(client.last_transport_timestamp, Some(70));
    assert_eq!(
        run.conclude(&mut client, DrainVerdict::Complete, Some(Ok(4))),
        Ok(DrainVerdict::Overflow)
    );
    assert_eq!(client.last_transport_timestamp, Some(50));
    assert_eq!(client.delivery_overflow_recovery_marker_token, Some(4));
}

#[test]
fn words_and_counters_follow_the_verdict() {
    assert_eq!(DrainVerdict::Complete.error_kind(), None);
    assert_eq!(DrainVerdict::EoseTimeout.error_kind(), Some("backfill_drain_eose_timeout"));
    assert_eq!(
        DrainVerdict::Complete.completion_kind(),
        Some(EpochBackfillCompletionKind::EndOfStoredEvents)
    );
    assert_eq!(DrainVerdict::NoRelayEose.completion_kind(), None);
    assert!(DrainVerdict::NoRelayEose.spends_eose_attempt());
    assert!(!DrainVerdict::Overflow.spends_eose_attempt());
    assert!(DrainVerdict::NovelProgressQuantumYield.made_novel_progress());
    assert!(DrainVerdict::NoProgressQuantumYield.made_no_progress());
    assert_eq!(
        DrainVerdict::quantum_yield(&DrainCounts::new()),
        DrainVerdict::NoProgressQuantumYield
    );
    assert_eq!(DrainCompletion::Quiescence.execution_quantum(), None);
    assert!(eose(1, 2).any());
    assert!(!eose(0, 2).any());
}
