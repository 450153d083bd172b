use marmot_app::directory::app_entry::npub_for_account_id_lossy;
use marmot_app::directory::cache::{
    DirectoryCache, DirectorySearchGraphRecord, SEARCH_GRAPH_PROFILE_TTL_SECONDS,
};
use marmot_app::directory::entry::{
    DirectoryKeyPackage, UserDirectoryRecord, UserProfileMetadata,
};
use marmot_app::directory::records::AccountRelayListStatus;
use marmot_app::error::AppError;

const NOW: i64 = 1_700_000_003;

fn account_id(value: u8) -> String {
    format!("{value:064x}")
}

fn profile_named(name: &str, created_at: u64) -> UserProfileMetadata {
    UserProfileMetadata {
        name: Some(name.to_owned()),
        created_at,
        ..UserProfileMetadata::default()
    }
}

fn directory_record(account_id_hex: String, follows: Vec<String>) -> UserDirectoryRecord {
    UserDirectoryRecord {
        npub: npub_for_account_id_lossy(&account_id_hex),
        account_id_hex,
        local_account: None,
        profile: Some(UserProfileMetadata {
            name: Some("alice".to_owned()),
            display_name: None,
            about: None,
            picture: None,
            banner: None,
            nip05: None,
            lud16: None,
            created_at: 1_700_000_001,
            source_relays: vec!["wss://profiles.example".to_owned()],
            extra: String::new(),
        }),
        follows,
        follow_source_relays: vec!["wss://follows.example".to_owned()],
        relay_lists: AccountRelayListStatus::empty(),
        key_package: None,
    }
}

#[test]
fn put_persists_directory_record_in_structured_tables() {
    let mut cache = DirectoryCache::new();
    let alice = account_id(1);
    let bob = account_id(2);

    cache
        .put(&directory_record(alice.clone(), vec![bob.clone()]), NOW)
        .unwrap();

    let users = cache.entries().unwrap();
    assert_eq!(users.len(), 1);
    assert_eq!(users[0].account_id_hex, alice);
    assert_eq!(users[0].follows, vec![bob]);
}

#[test]
fn conditional_key_package_clear_preserves_identity_and_sibling_slot() {
    let mut cache = DirectoryCache::new();
    let alice = account_id(1);
    let bob = account_id(2);
    let mut record = directory_record(alice.clone(), vec![bob.clone()]);
    record.key_package = Some(DirectoryKeyPackage {
        key_package_id: "removed-slot".to_owned(),
        key_package_ref_hex: "11".repeat(32),
        key_package_event_id: "22".repeat(32),
        key_package_hex: "33".repeat(32),
        created_at: 1_700_000_002,
        source_relays: vec!["wss://relay.example".to_owned()],
    });
    cache.put(&record, NOW).unwrap();

    assert!(!cache
        .clear_key_package_if_slot(&alice, Some("sibling-slot".to_owned()))
        .unwrap());
    assert_eq!(cache.entry(&alice).unwrap().unwrap(), record);

    assert!(cache
        .clear_key_package_if_slot(&alice, Some("removed-slot".to_owned()))
        .unwrap());
    let scrubbed = cache.entry(&alice).unwrap().unwrap();
    assert_eq!(scrubbed.profile, record.profile);
    assert_eq!(scrubbed.relay_lists, record.relay_lists);
    assert_eq!(scrubbed.follows, vec![bob]);
    assert!(scrubbed.key_package.is_none());
}

#[test]
fn search_graph_record_does_not_create_known_directory_entry() {
    let mut cache = DirectoryCache::new();
    let carol = account_id(3);
    let dave = account_id(4);

    cache
        .put_search_graph_record(&DirectorySearchGraphRecord {
            npub: npub_for_account_id_lossy(&carol),
            account_id_hex: carol.clone(),
            profile: Some(profile_named("carol", 1_700_000_002)),
            follows: Some(vec![dave.clone()]),
            metadata_updated_at: Some(1_700_000_002),
            metadata_expires_at: None,
        })
        .unwrap();

    assert!(cache.entry(&carol).unwrap().is_none());
    let search_record = cache.search_record(&carol, 1_700_000_003).unwrap().unwrap();
    assert_eq!(
        search_record.profile.and_then(|profile| profile.name),
        Some("carol".to_owned())
    );
    assert_eq!(search_record.follows, vec![dave]);
}

#[test]
fn an_expired_search_graph_profile_stops_being_served() {
    let mut cache = DirectoryCache::new();
    let carol = account_id(3);
    let dave = account_id(4);
    let cached_at = 1_700_000_000;
    let expires_at = cached_at + SEARCH_GRAPH_PROFILE_TTL_SECONDS;

    cache
        .put_search_graph_record(&DirectorySearchGraphRecord {
            npub: npub_for_account_id_lossy(&carol),
            account_id_hex: carol.clone(),
            profile: Some(profile_named("carol", cached_at as u64)),
            follows: Some(vec![dave.clone()]),
            metadata_updated_at: Some(cached_at as u64),
            metadata_expires_at: Some(expires_at as u64),
        })
        .unwrap();

    let fresh = cache
        .search_record(&carol, expires_at - 1)
        .unwrap()
        .expect("a record cached inside its TTL is still known");
    assert_eq!(
        fresh.profile.and_then(|profile| profile.name),
        Some("carol".to_owned())
    );

    let stale = cache
        .search_record(&carol, expires_at + 1)
        .unwrap()
        .expect("expiry hides the profile, it does not erase the account");
    assert!(
        stale.profile.is_none(),
        "an expired profile must fall through to a fresh fetch"
    );
    assert_eq!(stale.follows, vec![dave]);
}

#[test]
fn search_graph_follows_separate_unknown_from_known_empty() {
    let mut cache = DirectoryCache::new();
    let never_seen = account_id(1);
    let follows_nobody = account_id(2);
    let follows_someone = account_id(3);
    let friend = account_id(4);

    cache
        .remember_search_graph_follows(
            &follows_nobody,
            &npub_for_account_id_lossy(&follows_nobody),
            &vec![],
        )
        .unwrap();
    cache
        .remember_search_graph_follows(
            &follows_someone,
            &npub_for_account_id_lossy(&follows_someone),
            &vec![friend.clone()],
        )
        .unwrap();

    assert_eq!(cache.search_graph_follows(&never_seen).unwrap(), None);
    assert_eq!(
        cache.search_graph_follows(&follows_nobody).unwrap(),
        Some(Vec::new())
    );
    assert_eq!(
        cache.search_graph_follows(&follows_someone).unwrap(),
        Some(vec![friend])
    );
}

#[test]
fn directory_user_promotion_preserves_search_graph_only_follows() {
    let mut cache = DirectoryCache::new();
    let alice = account_id(1);
    let bob = account_id(2);

    cache
        .remember_search_graph_follows(
            &alice,
            &npub_for_account_id_lossy(&alice),
            &vec![bob.clone()],
        )
        .unwrap();
    cache
        .put(&directory_record(alice.clone(), Vec::new()), NOW)
        .unwrap();

    let graph_record = cache.search_graph_record(&alice, NOW).unwrap().unwrap();
    assert_eq!(graph_record.follows, vec![bob]);
}

#[test]
fn open_migrates_legacy_json_records_into_structured_tables() {
    let mut cache = DirectoryCache::new();
    let alice = account_id(1);
    let bob = account_id(2);

    cache
        .migrate_legacy_json_records(
            &vec![directory_record(alice.clone(), vec![bob.clone()])],
            1_700_000_001,
        )
        .unwrap();

    let entry = cache.entry(&alice).unwrap().unwrap();
    assert_eq!(entry.follows, vec![bob]);
    assert_eq!(cache.entries().unwrap().len(), 1);
}

#[test]
fn users_are_listed_by_account() {
    let mut cache = DirectoryCache::new();
    for value in [3, 1, 2] {
        cache
            .put(&directory_record(account_id(value), Vec::new()), NOW)
            .unwrap();
    }
    let listed: Vec<String> = cache
        .entries()
        .unwrap()
        .into_iter()
        .map(|entry| entry.account_id_hex)
        .collect();
    assert_eq!(listed, vec![account_id(1), account_id(2), account_id(3)]);
}

#[test]
fn a_closed_cache_fails_every_call() {
    let mut cache = DirectoryCache::new();
    let alice = account_id(1);
    cache.close();
    let closed = || AppError::Storage("directory cache is closed".to_owned());
    assert_eq!(cache.entry(&alice), Err(closed()));
    assert_eq!(cache.entries(), Err(closed()));
    assert_eq!(cache.search_record(&alice, NOW), Err(closed()));
    assert_eq!(cache.search_graph_follows(&alice), Err(closed()));
    assert_eq!(
        cache.put(&directory_record(alice.clone(), Vec::new()), NOW),
        Err(closed())
    );
    assert_eq!(cache.clear_key_package_if_slot(&alice, None), Err(closed()));
}

#[test]
fn a_repeated_follow_is_refused_and_nothing_is_stored() {
    let mut cache = DirectoryCache::new();
    let alice = account_id(1);
    let bob = account_id(2);
    let refused = cache.put(
        &directory_record(alice.clone(), vec![bob.clone(), bob.clone()]),
        NOW,
    );
    assert!(matches!(refused, Err(AppError::Storage(_))));
    assert!(cache.entry(&alice).unwrap().is_none());
    let refused = cache.remember_search_graph_follows(&alice, "npub", &vec![bob.clone(), bob]);
    assert!(matches!(refused, Err(AppError::Storage(_))));
    assert_eq!(cache.search_graph_follows(&alice).unwrap(), None);
}

#[test]
fn any_slot_is_cleared_where_none_is_named() {
    let mut cache = DirectoryCache::new();
    let alice = account_id(1);
    let mut record = directory_record(alice.clone(), Vec::new());
    record.key_package = Some(DirectoryKeyPackage {
        key_package_id: "slot".to_owned(),
        key_package_ref_hex: "11".repeat(32),
        key_package_event_id: "22".repeat(32),
        key_package_hex: "33".repeat(32),
        created_at: 1,
        source_relays: vec![],
    });
    cache.put(&record, NOW).unwrap();
    assert!(cache.clear_key_package_if_slot(&alice, None).unwrap());
    assert!(!cache.clear_key_package_if_slot(&alice, None).unwrap());
}
