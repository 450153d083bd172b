use marmot_app::client::backfill_restore::{
    epoch_backfill_group_is_live, live_backfill_groups,
};
use marmot_app::client::epoch_backfill::{BackfillDecision, EpochBackfillQueue};
use marmot_app::client::reconcile::{
    plan_transport_reconciliation, GroupRoute, ReconciliationTally, RouteAttempt,
    RouteReconciliation, TransportReconciliationRoute, TransportReconciliationWork,
};
use marmot_app::client::visibility::{
    install_account_visibility_lease, set_account_visibility_projection_operation,
    AccountDeviceEffects, AccountVisibilityBatch, AccountVisibilityRecordKind,
    AccountVisibilitySource,
};
use marmot_app::collections::{KeyMap, KeySet};
use marmot_app::ids::{BatchId, GroupId, OperationId};

fn group(byte: u8) -> GroupId {
    GroupId::new(vec![byte])
}

fn set(bytes: &[u8]) -> KeySet<GroupId> {
    let mut groups = KeySet::new();
    for byte in bytes {
        groups.insert(group(*byte));
    }
    groups
}

#[test]
fn a_group_is_live_where_the_engine_or_the_projection_has_it() {
    let deleted = set(&[1]);
    let engine = set(&[1, 2]);
    let projected = set(&[3]);
    let live = |byte| epoch_backfill_group_is_live(&group(byte), &deleted, &engine, &projected);
    assert!(!live(1), "a deleted group is not replayed");
    assert!(live(2));
    assert!(!live(4));
    let kept = live_backfill_groups(&set(&[1, 2, 4]), &deleted, &engine, &projected);
    assert_eq!(kept.to_list(), vec![group(2)]);
}

#[test]
fn stored_rows_join_the_queue_that_the_journal_restored() {
    let mut queue = EpochBackfillQueue::new();
    queue.apply_backfill_decision(&group(1), 5, BackfillDecision::Arm, "first".to_owned());
    let mut table = KeyMap::new();
    table.insert(group(1), 5);
    table.insert(group(2), 7);
    table.insert(group(3), 9);
    assert!(
        queue.restore_persisted_epoch_backfill_intents(
            table,
            &set(&[1, 2]),
            "fresh".to_owned()
        ),
        "a row that the journal does not know is written to it"
    );
    let mut known = queue.known_groups().to_list();
    known.sort_by(|left, right| left.bytes.cmp(&right.bytes));
    assert_eq!(known, vec![group(1), group(2)], "the dead group is left out");
    let mut empty = EpochBackfillQueue::new();
    let mut table = KeyMap::new();
    table.insert(group(2), 7);
    assert!(!empty.restore_persisted_epoch_backfill_intents(
        table,
        &set(&[2]),
        "fresh".to_owned()
    ));
    assert!(empty.has_pending_epoch_backfill());
}

fn route(byte: u8) -> GroupRoute {
    GroupRoute {
        transport_group_id: vec![byte; 32],
        subscription: byte as u64,
    }
}

#[test]
fn a_pass_reconciles_a_bounded_number_of_routes_after_the_last_one() {
    let plan = |cursor: Option<&TransportReconciliationRoute>| {
        plan_transport_reconciliation(
            vec!["wss://inbox.example".to_owned()],
            vec![route(4), route(2), route(1), route(3), route(5)],
            cursor,
        )
    };
    let first = plan(None);
    assert_eq!(first.len(), 4);
    assert_eq!(
        first[0],
        TransportReconciliationWork::Inbox {
            endpoints: vec!["wss://inbox.example".to_owned()]
        }
    );
    let last = first[3].route().expect("a route");
    assert_eq!(last, TransportReconciliationRoute::Group(vec![3; 32]));
    let second = plan(Some(&last));
    assert_eq!(
        second[0].route(),
        Some(TransportReconciliationRoute::Group(vec![4; 32]))
    );
    assert_eq!(
        second[2].route(),
        Some(TransportReconciliationRoute::Inbox),
        "the rotation wraps"
    );
}

#[test]
fn attempts_are_tallied_by_their_outcome() {
    let mut tally = ReconciliationTally {
        attempted_routes: 0,
        routes_failed: 0,
        relays_succeeded: 0,
        relays_failed: 0,
        remote_items: usize::MAX,
        received_items: 0,
    };
    tally.record(RouteAttempt::Reconciled(RouteReconciliation {
        relays_succeeded: 2,
        relays_failed: 1,
        remote_items: 5,
        received_items: 3,
    }));
    tally.record(RouteAttempt::Unsupported);
    tally.record(RouteAttempt::Failed);
    assert_eq!(tally.attempted_routes, 3);
    assert_eq!(tally.routes_failed, 1);
    assert_eq!((tally.relays_succeeded, tally.relays_failed), (2, 1));
    assert_eq!(tally.received_items, 3);
    assert_eq!(tally.remote_items, usize::MAX, "a count does not wrap");
}

#[test]
fn an_operation_is_projected_at_its_own_time() {
    let batch = AccountVisibilityBatch {
        batch_id: BatchId::new(vec![1]),
        operation_id: OperationId::new(vec![7]),
        kind: AccountVisibilityRecordKind::Header,
        source: AccountVisibilitySource::Drain { observed_at: 40 },
        effects: AccountDeviceEffects::default(),
    };
    let mut slot = None;
    set_account_visibility_projection_operation(&mut slot, Some(OperationId::new(vec![7])));
    assert!(slot.is_none(), "there is no lease to set it in");
    install_account_visibility_lease(&mut slot, 1, vec![batch], None);
    let observed = |slot: &Option<_>, now| {
        let lease: &marmot_app::client::visibility::PendingAccountVisibilityLease =
            slot.as_ref().expect("a lease");
        lease.current_account_visibility_observed_at(now)
    };
    assert_eq!(observed(&slot, 90), 90);
    set_account_visibility_projection_operation(&mut slot, Some(OperationId::new(vec![7])));
    assert_eq!(observed(&slot, 90), 40);
}
