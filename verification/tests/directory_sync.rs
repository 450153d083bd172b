use marmot_app::directory::records::{
    KIND_MARMOT_INBOX_RELAY_LIST, KIND_MARMOT_KEY_PACKAGE, KIND_NIP65_RELAY_LIST,
    KIND_NOSTR_CONTACT_LIST, KIND_NOSTR_METADATA,
};
use marmot_app::directory::sync::{
    directory_subscription_id, DirectoryRecoveryRebuildQueue, DirectorySyncPlan,
    DirectorySyncWorker, RebuildRequest, SendOutcome, WorkerAction, WorkerEvent,
};

const DIRECTORY_SYNC_KINDS: [u64; 4] = [
    KIND_NOSTR_METADATA,
    KIND_NIP65_RELAY_LIST,
    KIND_MARMOT_INBOX_RELAY_LIST,
    KIND_MARMOT_KEY_PACKAGE,
];

fn account_id(value: u8) -> String {
    format!("{value:064x}")
}

#[test]
fn sync_plan_chunks_known_users_with_privacy_safe_ids() {
    let users = vec![account_id(3), account_id(1), account_id(2), account_id(1)];

    let plan = DirectorySyncPlan::from_known_users_with_batch_size(
        vec![
            "wss://relay.example".to_owned(),
            "wss://relay.example".to_owned(),
        ],
        Vec::new(),
        users,
        Some(100),
        2,
    );

    assert_eq!(plan.endpoints, vec!["wss://relay.example".to_owned()]);
    assert_eq!(plan.watched_user_count, 3);
    assert_eq!(plan.batches.len(), 2);
    assert_eq!(plan.batches[0].authors, vec![account_id(1), account_id(2)]);
    assert_eq!(plan.batches[1].authors, vec![account_id(3)]);
    assert_eq!(plan.batches[0].kinds, DIRECTORY_SYNC_KINDS);
    assert_eq!(plan.batches[0].since, Some(100));
    assert!(!plan.batches[0].subscription_id.contains(&account_id(1)));
    assert_ne!(
        plan.batches[0].subscription_id,
        plan.batches[1].subscription_id
    );
}

#[test]
fn sync_plan_omits_contact_list_for_non_local_known_users() {
    let local = account_id(1);
    let remote = account_id(2);

    let plan = DirectorySyncPlan::from_known_users_with_batch_size(
        vec!["wss://relay.example".to_owned()],
        vec![local.clone()],
        vec![local.clone(), remote.clone()],
        None,
        200,
    );

    let local_batch = plan
        .batches
        .iter()
        .find(|batch| batch.authors == vec![local.clone()])
        .expect("local account should be watched");
    let remote_batch = plan
        .batches
        .iter()
        .find(|batch| batch.authors == vec![remote.clone()])
        .expect("non-local known user should be watched");

    assert!(local_batch.kinds.contains(&KIND_NOSTR_CONTACT_LIST));
    assert!(
        !remote_batch.kinds.contains(&KIND_NOSTR_CONTACT_LIST),
        "non-local known users must not be subscribed to kind-3 contact lists"
    );
    assert!(remote_batch.kinds.contains(&KIND_NOSTR_METADATA));
    assert!(remote_batch.kinds.contains(&KIND_MARMOT_KEY_PACKAGE));
    assert_eq!(
        plan.batches
            .iter()
            .filter(|batch| batch.authors.contains(&local))
            .count(),
        1
    );
}

#[test]
fn recovery_rebuild_queue_coalesces_to_one_follow_up_pass() {
    let mut rebuilds = DirectoryRecoveryRebuildQueue::new();

    assert!(rebuilds.request(), "the first request starts a rebuild");
    assert!(!rebuilds.request(), "an active rebuild absorbs a request");
    assert!(!rebuilds.request(), "more requests stay coalesced");
    assert!(
        rebuilds.complete(),
        "completion starts exactly one coalesced follow-up"
    );
    assert!(
        !rebuilds.complete(),
        "the follow-up completes without another queued pass"
    );
    assert!(
        rebuilds.request(),
        "a later independent recovery can start normally"
    );
}

#[test]
fn a_request_is_sent_once_and_again_where_the_worker_was_gone() {
    let mut request = RebuildRequest { queued: false };
    assert!(request.begin());
    assert!(!request.begin());
    request.settle(SendOutcome::Full);
    assert!(!request.begin());
    request.settle(SendOutcome::Closed);
    assert!(request.begin());
    request.settle(SendOutcome::Sent);
    assert!(!request.begin());
}

#[test]
fn a_subscription_id_hashes_its_authors() {
    let first = directory_subscription_id("local", 0, &vec![account_id(1)]);
    let second = directory_subscription_id("local", 0, &vec![account_id(2)]);
    assert!(first.starts_with("directory_local_0_"));
    assert_eq!(first.len(), "directory_local_0_".len() + 16);
    assert_ne!(first, second);
    assert_eq!(
        first,
        directory_subscription_id("local", 0, &vec![account_id(1)])
    );
}

#[test]
fn background_rebuild_requests_are_coalesced_until_worker_takes_command() {
    let mut worker = DirectorySyncWorker::new();
    assert!(worker.request.begin());
    worker.request.settle(SendOutcome::Sent);
    assert!(!worker.request.begin(), "one command is on its way");
    assert_eq!(worker.step(WorkerEvent::Rebuild), WorkerAction::Rebuild);
    assert!(worker.request.begin());
}

#[test]
fn worker_clears_background_rebuild_flag_when_dequeuing_command() {
    let mut worker = DirectorySyncWorker::new();
    assert!(worker.request.begin());
    assert_eq!(worker.step(WorkerEvent::Rebuild), WorkerAction::Rebuild);
    assert!(!worker.request.queued);
    assert!(worker.request.begin());
    assert_eq!(worker.step(WorkerEvent::Rebuild), WorkerAction::Rebuild);
    assert!(!worker.request.queued);
    assert_eq!(worker.step(WorkerEvent::Shutdown), WorkerAction::Stop);
}

#[test]
fn full_rebuild_channel_coalesces_with_pending_foreground_rebuild() {
    let mut worker = DirectorySyncWorker::new();
    assert!(worker.request.begin());
    worker.request.settle(SendOutcome::Full);
    assert!(
        worker.request.queued,
        "a full command channel should keep the coalescing flag set until an existing rebuild runs"
    );
    assert!(!worker.request.begin());
    assert_eq!(worker.step(WorkerEvent::Rebuild), WorkerAction::Rebuild);
    assert!(!worker.request.queued);
}

#[test]
fn a_recovery_that_is_required_while_one_runs_starts_after_it() {
    let mut worker = DirectorySyncWorker::new();
    assert_eq!(
        worker.step(WorkerEvent::RecoveryRequired),
        WorkerAction::StartRecovery
    );
    assert_eq!(worker.step(WorkerEvent::Lagged), WorkerAction::Wait);
    assert_eq!(worker.step(WorkerEvent::Record), WorkerAction::Ingest);
    assert_eq!(
        worker.step(WorkerEvent::RecoveryFinished),
        WorkerAction::StartRecovery
    );
    assert_eq!(
        worker.step(WorkerEvent::RecoveryFinished),
        WorkerAction::Wait
    );
    assert_eq!(worker.step(WorkerEvent::EventsClosed), WorkerAction::Stop);
    assert_eq!(worker.step(WorkerEvent::CommandsClosed), WorkerAction::Stop);
}
