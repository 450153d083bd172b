use marmot_app::client::backfill_intent::{
    read_backfill_table, stored_epoch_backfill_intents, PendingEpochBackfill,
    StoredEpochBackfillIntent,
};
use marmot_app::client::drain::{
    backfill_drain_verdict, incomplete_full_history_repair, AccountSubscriptionEose, DrainVerdict,
};
use marmot_app::client::epoch_backfill::{
    epoch_backfill_retry_deadline_unix_ms, restore_epoch_backfill_retry_deadline,
    retry_backoff_for_ordinal, EPOCH_BACKFILL_RETRY_BACKOFF_CAP_MS,
    EPOCH_BACKFILL_RETRY_BACKOFF_MS,
};
use marmot_app::client::reconcile::{
    attempts_route, reconciliation_start_after_cursor, transport_reconciliation_record,
    TransportDelivery, TransportEnvelope, TransportReconciliationItem,
    TransportReconciliationRoute,
};
use marmot_app::client::stall_evidence::{
    persist_epoch_stall_evidence, projected_group_ids, restore_persisted_epoch_stall_evidence,
    EpochStallEvidence, StoredEpochStallEvidence,
};
use marmot_app::client::summary::SyncSummary;
use marmot_app::collections::KeyMap;
use marmot_app::error::AppError;
use marmot_app::ids::{GroupId, MemberId, MessageId};

#[test]
fn reconciliation_cursor_rotates_past_a_slow_route_and_wraps() {
    let routes = vec![
        TransportReconciliationRoute::Inbox,
        TransportReconciliationRoute::Group(vec![0x01; 32]),
        TransportReconciliationRoute::Group(vec![0x02; 32]),
    ];
    assert_eq!(
        reconciliation_start_after_cursor(&routes, Some(&routes[0])),
        1
    );
    assert_eq!(
        reconciliation_start_after_cursor(&routes, Some(&routes[1])),
        2
    );
    assert_eq!(
        reconciliation_start_after_cursor(&routes, Some(&routes[2])),
        0
    );
}

#[test]
fn durable_skip_record_requires_a_validated_route_hint() {
    let account = MemberId {
        bytes: vec![0x11; 32],
    };
    let route_id = vec![0x22; 32];
    let mut delivery = TransportDelivery {
        message_id: MessageId::new(vec![0x44; 32]),
        timestamp: 1_700_000_000,
        group_id_hint: Some(GroupId::new(vec![0x33; 16])),
        envelope: TransportEnvelope::GroupMessage {
            transport_group_id: route_id.clone(),
        },
    };

    assert_eq!(
        transport_reconciliation_record(&account, &delivery),
        Some((
            TransportReconciliationRoute::Group(route_id),
            TransportReconciliationItem {
                event_id: vec![0x44; 32],
                created_at: 1_700_000_000,
            },
        ))
    );
    delivery.group_id_hint = None;
    assert_eq!(transport_reconciliation_record(&account, &delivery), None);
}

#[test]
fn the_retry_backoff_doubles_from_its_base_and_caps() {
    let base = EPOCH_BACKFILL_RETRY_BACKOFF_MS;
    let expect_secs = [15, 30, 60, 120, 240, 300, 300, 300];
    for (ordinal, secs) in expect_secs.iter().enumerate() {
        assert_eq!(
            retry_backoff_for_ordinal(base, ordinal as u64),
            secs * 1_000,
            "ordinal {ordinal}"
        );
    }
    assert_eq!(
        retry_backoff_for_ordinal(base, u64::MAX),
        EPOCH_BACKFILL_RETRY_BACKOFF_CAP_MS,
        "the shift clamp must hold for absurd ordinals"
    );
    let oversized = EPOCH_BACKFILL_RETRY_BACKOFF_CAP_MS * 2;
    assert_eq!(retry_backoff_for_ordinal(oversized, 0), oversized);
}

#[test]
fn restored_epoch_backfill_deadlines_are_capped_and_checked() {
    let unix_now_secs: u64 = 1_800_000_000;
    let monotonic_now_ms: u64 = 12_345;
    assert!(restore_epoch_backfill_retry_deadline(None, unix_now_secs, monotonic_now_ms).is_none());
    let now_ms = unix_now_secs.saturating_mul(1_000);
    assert!(
        restore_epoch_backfill_retry_deadline(Some(now_ms), unix_now_secs, monotonic_now_ms)
            .is_none()
    );
    let restored = restore_epoch_backfill_retry_deadline(
        Some(now_ms.saturating_add(u64::MAX)),
        unix_now_secs,
        monotonic_now_ms,
    )
    .expect("a far-future deadline must restore as a capped delay");
    let cap = EPOCH_BACKFILL_RETRY_BACKOFF_CAP_MS + 1_000;
    assert!(
        restored.saturating_sub(monotonic_now_ms) <= cap,
        "restored wall-clock delay must not exceed the retry cap"
    );
    assert_eq!(
        restored,
        monotonic_now_ms + EPOCH_BACKFILL_RETRY_BACKOFF_CAP_MS
    );
}

#[test]
fn a_stored_deadline_survives_a_restart_in_the_same_second() {
    let stored = epoch_backfill_retry_deadline_unix_ms(Some(20_000), 5_000, 1_000);
    assert_eq!(stored, Some(1_015_000));
    assert_eq!(
        restore_epoch_backfill_retry_deadline(stored, 1_000, 70_000),
        Some(85_000)
    );
    assert_eq!(
        epoch_backfill_retry_deadline_unix_ms(Some(5_000), 5_000, 1_000),
        None
    );
}

#[test]
fn drain_verdict_reads_end_of_stored_events_progress() {
    let progress = |subscriptions,
                    with_eose,
                    relay_subscription_attempts,
                    relay_subscription_attempts_with_eose| AccountSubscriptionEose {
        subscriptions,
        with_eose,
        relay_subscription_attempts,
        relay_subscription_attempts_with_eose,
    };
    assert_eq!(
        backfill_drain_verdict(progress(2, 2, 2, 2)),
        DrainVerdict::Complete
    );
    assert_eq!(
        backfill_drain_verdict(progress(2, 1, 2, 1)),
        DrainVerdict::EoseTimeout
    );
    assert_eq!(
        backfill_drain_verdict(progress(2, 0, 2, 0)),
        DrainVerdict::NoRelayEose
    );
    assert_eq!(
        backfill_drain_verdict(progress(0, 0, 0, 0)),
        DrainVerdict::NoRelayEose,
        "an account with nothing subscribed cannot have been served"
    );
    assert_eq!(
        backfill_drain_verdict(progress(2, 2, 4, 2)),
        DrainVerdict::EoseTimeout,
        "EOSE on every logical subscription is insufficient while another relay remains uncovered"
    );
}

fn joined(bytes: Vec<u8>) -> SyncSummary {
    SyncSummary {
        joined_groups: vec![GroupId::new(bytes)],
        ..SyncSummary::default()
    }
}

#[test]
fn explicit_full_history_repair_requires_end_of_stored_events() {
    for verdict in [
        DrainVerdict::NoRelayEose,
        DrainVerdict::EoseTimeout,
        DrainVerdict::NovelProgressQuantumYield,
        DrainVerdict::NoProgressQuantumYield,
        DrainVerdict::Overflow,
    ] {
        let error = incomplete_full_history_repair(joined(vec![0x42]), verdict);
        assert_eq!(error.partial_summary, joined(vec![0x42]));
        let AppError::BlockingTask(text) = &error.source else {
            panic!("the repair fails as a blocking task");
        };
        assert!(
            text.contains(verdict.error_kind().unwrap()),
            "the caller must be able to distinguish why the repair stayed incomplete",
        );
    }
}

#[test]
fn a_route_whose_set_begins_later_is_not_attempted() {
    assert!(attempts_route(5, 5));
    assert!(!attempts_route(6, 5));
}

#[test]
fn armed_groups_are_written_in_hex_and_bad_rows_are_counted() {
    let mut pending = PendingEpochBackfill::new("attempt".to_owned());
    pending.groups.insert(GroupId::new(vec![0xab, 0x01]), 7);
    let mut rows = stored_epoch_backfill_intents(&pending);
    assert_eq!(rows.len(), 1);
    assert_eq!(rows[0].group_id_hex, "ab01");
    rows.push(StoredEpochBackfillIntent {
        group_id_hex: "xyz".to_owned(),
        stalled_epoch: 1,
    });
    let (table, malformed) = read_backfill_table(&rows);
    assert_eq!(malformed, 1);
    assert_eq!(table.get(&GroupId::new(vec![0xab, 0x01])), Some(&7));
    assert_eq!(table.get(&GroupId::new(vec![0xab])), None);
}

#[test]
fn stored_stall_evidence_is_read_back() {
    let evidence = EpochStallEvidence {
        stalled_epoch: 4,
        fruitless_completions: 2,
        fruitless_reported: true,
        last_arm_at_ms: 99,
    };
    let mut known = KeyMap::new();
    known.insert(GroupId::new(vec![0x0f]), evidence);
    let groups = vec![GroupId::new(vec![0x01]), GroupId::new(vec![0x0f])];
    let mut rows = persist_epoch_stall_evidence(&groups, &known);
    assert_eq!(
        rows,
        vec![StoredEpochStallEvidence {
            group_id_hex: "0f".to_owned(),
            stalled_epoch: 4,
            fruitless_completions: 2,
            fruitless_reported: true,
            last_arm_at_ms: 99,
        }]
    );
    rows.push(StoredEpochStallEvidence {
        group_id_hex: "0".to_owned(),
        stalled_epoch: 1,
        fruitless_completions: 0,
        fruitless_reported: false,
        last_arm_at_ms: 0,
    });
    let (restored, malformed) = restore_persisted_epoch_stall_evidence(&rows);
    assert_eq!(malformed, 1);
    assert_eq!(restored.len(), 1);
    assert_eq!(restored[0].group_id, GroupId::new(vec![0x0f]));
    assert_eq!(restored[0].evidence, evidence);
}

#[test]
fn shown_groups_are_read_once_each() {
    let names = vec!["0A".to_owned(), "zz".to_owned(), "0a".to_owned()];
    let groups = projected_group_ids(&names);
    assert_eq!(groups.len(), 1);
    assert!(groups.contains(&GroupId::new(vec![0x0a])));
}
