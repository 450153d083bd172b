use marmot_app::directory::app_discovery::latest_follow_lists;
use marmot_app::directory::app_entry::{
    normalize_account_ids, npub_for_account_id_lossy, parse_account_id_hex,
};
use marmot_app::directory::app_fetch::{
    account_events_query, account_profile_publish_endpoints, contact_list_tags, parse_list_kind,
    profile_fallback_relays, RelayListStep,
};
use marmot_app::directory::app_ingest::DirectoryIngestEvent;
use marmot_app::directory::app_search::UserDirectorySearch;
use marmot_app::directory::app_state::{
    AccountState, Admission, DirectoryConfig, KeyPackageLifecycle, MarmotApp, RemovedSlot,
    SessionAdmission,
};
use marmot_app::directory::cache::DirectoryCache;
use marmot_app::directory::entry::{DirectoryKeyPackage, UserDirectoryRecord, UserProfileMetadata};
use marmot_app::directory::records::{
    relay_list_queries, AccountRelayListStatus, RelayEvent, RelayEventRecord, RelayListState,
    KIND_MARMOT_INBOX_RELAY_LIST, KIND_NIP65_RELAY_LIST, KIND_NOSTR_CONTACT_LIST,
    KIND_NOSTR_METADATA,
};
use marmot_app::directory::search::RankedPubkey;
use marmot_app::directory::search_match::{MatchQuality, MatchedField, ProviderRank};
use marmot_app::error::{AppError, MissingRelayListKind};
use marmot_app::ids::MessageId;

const NOW: i64 = 1_700_000_000;

fn id(value: u8) -> String {
    format!("{value:064x}")
}

fn config() -> DirectoryConfig {
    DirectoryConfig {
        relay_urls: vec!["wss://own.example".to_owned()],
        directory_relay_urls: vec!["wss://directory.example".to_owned()],
        directory_max_future_skew: 60,
        directory_search_fallback_seeds: vec![],
        max_cached_identity_page_size: 2,
        search_max_visited: 100,
        search_max_frontier: 100,
    }
}

fn account(label: &str, value: u8) -> AccountState {
    AccountState {
        label: label.to_owned(),
        account_id_hex: id(value),
        local_signing: true,
        external_signing: false,
        signed_out: false,
        cache: DirectoryCache::new(),
        lifecycle: None,
        current_key_package: None,
        nip65_generation: None,
    }
}

fn app() -> MarmotApp {
    let mut app = MarmotApp::new(config());
    app.accounts.push(account("alice", 1));
    app
}

fn profile(name: &str, created_at: u64) -> UserProfileMetadata {
    UserProfileMetadata {
        name: Some(name.to_owned()),
        created_at,
        ..UserProfileMetadata::default()
    }
}

fn package(slot: &str, created_at: u64) -> DirectoryKeyPackage {
    DirectoryKeyPackage {
        key_package_id: slot.to_owned(),
        key_package_ref_hex: "11".repeat(32),
        key_package_event_id: "22".repeat(32),
        key_package_hex: "33".to_owned(),
        created_at,
        source_relays: vec![],
    }
}

fn list(relay: &str) -> RelayListState {
    RelayListState {
        relays: vec![relay.to_owned()],
        read_relays: vec![],
        write_relays: vec![relay.to_owned()],
    }
}

fn event(author: u8, kind: u64, created_at: u64, event_id: &str) -> RelayEventRecord {
    RelayEventRecord {
        event: RelayEvent {
            id: event_id.to_owned(),
            pubkey: id(author),
            kind,
            created_at,
            content: String::new(),
            tags: vec![],
        },
        endpoints: vec!["wss://found.example".to_owned()],
        relay_list: None,
    }
}

fn contact_list(author: u8, created_at: u64, event_id: &str, follows: &[u8]) -> RelayEventRecord {
    let mut record = event(author, KIND_NOSTR_CONTACT_LIST, created_at, event_id);
    record.event.tags = follows
        .iter()
        .map(|value| vec!["p".to_owned(), id(*value)])
        .collect();
    record
}

fn relay_list(author: u8, kind: u64, created_at: u64, event_id: &str, relay: &str) -> RelayEventRecord {
    let mut record = event(author, kind, created_at, event_id);
    record.relay_list = Some(list(relay));
    record
}

fn ingest(record: RelayEventRecord, profile: Option<UserProfileMetadata>) -> DirectoryIngestEvent {
    DirectoryIngestEvent {
        record,
        profile,
        metadata: Err("not a key package".to_owned()),
    }
}

fn search(query: &str, radii: (u8, u8)) -> UserDirectorySearch {
    UserDirectorySearch {
        searcher_account_id_hex: id(1),
        query: query.to_owned(),
        radius_start: radii.0,
        radius_end: radii.1,
        limit: None,
    }
}

#[test]
fn an_identity_is_read_in_each_of_its_forms() {
    let npub = npub_for_account_id_lossy(&id(1));
    assert!(npub.starts_with("npub1"));
    assert_eq!(parse_account_id_hex(&npub), Ok(id(1)));
    assert_eq!(parse_account_id_hex(&id(1)), Ok(id(1)));
    assert_eq!(
        parse_account_id_hex("nobody"),
        Err(AppError::InvalidPublicKey)
    );
    assert_eq!(npub_for_account_id_lossy("nobody"), "nobody");
}

#[test]
fn identities_are_normalized_once_each_and_in_order() {
    let ids = vec![id(2), npub_for_account_id_lossy(&id(1)), id(2)];
    assert_eq!(normalize_account_ids(&ids), Ok(vec![id(1), id(2)]));
    assert_eq!(
        normalize_account_ids(&vec!["nobody".to_owned()]),
        Err(AppError::InvalidPublicKey)
    );
}

#[test]
fn a_remembered_profile_is_shown_and_an_older_one_is_not() {
    let mut app = app();
    app.remember_directory_profile_if_newer(&id(2), &profile("bob", 10), NOW)
        .expect("remembered");
    app.remember_directory_profile_if_newer(&id(2), &profile("old", 9), NOW)
        .expect("an older one changes nothing");
    let entry = app
        .directory_entry_for_account_id(&id(2))
        .expect("readable")
        .expect("known");
    assert_eq!(entry.profile, Some(profile("bob", 10)));
    assert_eq!(entry.npub, npub_for_account_id_lossy(&id(2)));
    assert_eq!(entry.local_account, None);
    assert_eq!(
        app.directory_entry_for_account_id_with_admitted_account(&id(2), true),
        Ok(Some(entry))
    );
    let own = app.empty_directory_record(&id(1));
    assert_eq!(
        own.local_account.expect("an account of this device").label,
        "alice"
    );
}

#[test]
fn pages_of_identities_are_bounded() {
    let mut app = app();
    app.remember_directory_profile(&id(2), &profile("bob", 10), NOW)
        .expect("remembered");
    let page = app
        .cached_identity_projections_for_account_ids(&vec![id(2), "nobody".to_owned()])
        .expect("within the page");
    assert_eq!(page[0].account_id_hex, Some(id(2)));
    assert_eq!(page[0].profile, Some(profile("bob", 10)));
    assert_eq!(page[1].requested_id, "nobody");
    assert_eq!(page[1].account_id_hex, None);
    let refused = app.cached_identity_projections_for_account_ids(&vec![id(1), id(2), id(3)]);
    let Err(AppError::InvalidCachedIdentityPage(text)) = refused else {
        panic!("the page is too large");
    };
    assert_eq!(text, "requested 3 accounts; maximum page size is 2");
}

#[test]
fn relay_lists_are_read_by_label() {
    let mut app = app();
    assert_eq!(
        app.account_relay_list_status("nobody"),
        Err(AppError::Storage("unknown account: nobody".to_owned()))
    );
    assert_eq!(
        app.account_relay_list_status("alice"),
        Ok(AccountRelayListStatus::empty())
    );
    app.accounts[0].nip65_generation = Some(list("wss://authored.example"));
    let mut known = AccountRelayListStatus::empty();
    known.inbox = list("wss://inbox.example");
    known.refresh();
    app.remember_directory_relay_lists(&id(1), &known, NOW)
        .expect("remembered");
    let shown = app.account_relay_list_status("alice").expect("known");
    assert_eq!(
        shown.nip65,
        list("wss://authored.example"),
        "the route that this account authored is shown"
    );
    assert!(shown.missing.is_empty());
}

#[test]
fn a_future_event_is_ignored() {
    let mut app = app();
    let late = event(2, KIND_NOSTR_METADATA, NOW as u64 + 61, "a");
    app.ingest_directory_relay_event(ingest(late, Some(profile("bob", 10))), NOW as u64)
        .expect("ignored");
    assert_eq!(app.directory_entry_for_account_id(&id(2)), Ok(None));
    let due = event(2, KIND_NOSTR_METADATA, NOW as u64 + 60, "a");
    app.ingest_directory_relay_event(ingest(due, Some(profile("bob", 10))), NOW as u64)
        .expect("taken in");
    assert!(app
        .directory_entry_for_account_id(&id(2))
        .expect("readable")
        .is_some());
}

#[test]
fn relays_do_not_replace_the_route_of_an_own_account() {
    let mut app = app();
    let own = relay_list(1, KIND_NIP65_RELAY_LIST, 5, "a", "wss://forged.example");
    app.ingest_directory_relay_event(ingest(own, None), NOW as u64)
        .expect("ignored");
    assert_eq!(
        app.account_relay_list_status("alice"),
        Ok(AccountRelayListStatus::empty())
    );
    let other = relay_list(2, KIND_NIP65_RELAY_LIST, 5, "a", "wss://two.example");
    app.ingest_directory_relay_event(ingest(other, None), NOW as u64)
        .expect("taken in");
    let shown = app
        .account_relay_list_status_for_account_id(&id(2))
        .expect("known");
    assert_eq!(shown.nip65, list("wss://two.example"));
    assert_eq!(shown.missing, vec![MissingRelayListKind::Inbox]);
}

#[test]
fn an_ingested_contact_list_promotes_nobody() {
    let mut app = app();
    let record = contact_list(2, 5, "a", &[3, 4]);
    app.ingest_directory_relay_event(ingest(record, None), NOW as u64)
        .expect("taken in");
    assert_eq!(app.directory_entry_for_account_id(&id(3)), Ok(None));
    let (cached, unknown) = app
        .partition_cached_follows(&vec![id(2), id(5)])
        .expect("readable");
    assert_eq!(cached, vec![vec![id(3), id(4)]]);
    assert_eq!(unknown, vec![id(5)]);
}

#[test]
fn a_fetch_keeps_what_the_relays_do_not_mention() {
    let mut app = app();
    let mut known = AccountRelayListStatus::empty();
    known.inbox = list("wss://inbox.example");
    known.refresh();
    app.remember_directory_relay_lists(&id(2), &known, NOW)
        .expect("remembered");
    let (account, asked) = app
        .relay_list_request(&npub_for_account_id_lossy(&id(2)), &vec![])
        .expect("an identity");
    assert_eq!(account, id(2));
    assert_eq!(asked, vec!["wss://directory.example".to_owned()]);
    let queries = relay_list_queries(account.clone());
    assert_eq!(queries[0].kind, KIND_NIP65_RELAY_LIST);
    assert_eq!(queries[1].kind, KIND_MARMOT_INBOX_RELAY_LIST);
    assert_eq!(queries[0].limit, 12);
    let records = vec![
        relay_list(2, KIND_NIP65_RELAY_LIST, 5, "a", "wss://older.example"),
        relay_list(2, KIND_NIP65_RELAY_LIST, 6, "b", "wss://newer.example"),
        relay_list(3, KIND_NIP65_RELAY_LIST, 9, "c", "wss://other.example"),
    ];
    let status = app
        .finish_account_relay_list_fetch(&account, records, &asked, NOW as u64)
        .expect("fetched");
    assert_eq!(status.nip65, list("wss://newer.example"));
    assert_eq!(status.inbox, list("wss://inbox.example"));
    assert_eq!(
        app.account_relay_list_status_for_account_id(&id(2))
            .expect("remembered")
            .nip65,
        list("wss://newer.example")
    );
}

#[test]
fn a_current_fetch_needs_the_list_that_was_asked_for() {
    let mut app = app();
    assert_eq!(
        parse_list_kind(&Some("nip65".to_owned())),
        Ok(Some(KIND_NIP65_RELAY_LIST))
    );
    assert_eq!(parse_list_kind(&None), Ok(None));
    assert_eq!(
        parse_list_kind(&Some("other".to_owned())),
        Err(AppError::RelayDirectory(
            "unsupported relay list type: other".to_owned()
        ))
    );
    let inbox = || relay_list(2, KIND_MARMOT_INBOX_RELAY_LIST, 5, "a", "wss://inbox.example");
    let asked = vec!["wss://asked.example".to_owned()];
    let none = app.finish_current_relay_list_fetch(
        &id(2),
        vec![inbox()],
        &asked,
        Some(KIND_NIP65_RELAY_LIST),
        NOW as u64,
    );
    assert_eq!(none, Ok(None));
    let status = app
        .finish_current_relay_list_fetch(&id(2), vec![inbox()], &asked, None, NOW as u64)
        .expect("fetched")
        .expect("one list is enough");
    assert_eq!(status.inbox, list("wss://inbox.example"));
    assert_eq!(status.missing, vec![MissingRelayListKind::Nip65]);
}

#[test]
fn silence_does_not_mean_that_an_account_follows_nobody() {
    let mut app = app();
    let asked = vec!["wss://asked.example".to_owned()];
    let found = vec![contact_list(2, 5, "a", &[4, 3])];
    let list = app
        .finish_follow_list_fetch(&id(2), &found, &asked, NOW as u64)
        .expect("fetched");
    assert_eq!(list.follows, vec![id(3), id(4)]);
    app.remember_directory_follow_list(&id(2), &list, NOW)
        .expect("remembered");
    let again = app
        .finish_follow_list_fetch(&id(2), &vec![], &asked, NOW as u64)
        .expect("the known list stays");
    assert_eq!(again.follows, vec![id(3), id(4)]);
    let unknown = app
        .finish_follow_list_fetch(&id(9), &vec![], &asked, NOW as u64)
        .expect("unknown");
    assert!(unknown.follows.is_empty());
    assert_eq!(unknown.source_relays, asked);
    assert_eq!(
        app.finish_current_follow_list_fetch(&id(9), &vec![], NOW as u64),
        Ok(None)
    );
    assert_eq!(
        app.finish_current_follow_list_fetch(&id(9), &vec![contact_list(9, 5, "a", &[])], NOW as u64),
        Ok(Some(vec![]))
    );
}

#[test]
fn key_package_sources_fall_back_to_the_directory() {
    let app = app();
    assert_eq!(
        app.key_package_sources(vec!["wss://two.example".to_owned()]),
        Ok(vec!["wss://two.example".to_owned()])
    );
    assert_eq!(
        app.key_package_sources(vec![]),
        Ok(vec!["wss://directory.example".to_owned()])
    );
    let mut bare = MarmotApp::new(config());
    bare.config.directory_relay_urls = vec![];
    bare.config.relay_urls = vec![];
    assert_eq!(
        bare.key_package_sources(vec![]),
        Err(AppError::MissingRelayLists(vec![
            MissingRelayListKind::Nip65
        ]))
    );
    let RelayListStep::Fetch(relays) = app
        .key_package_list_step(&id(2), &vec![])
        .expect("nothing is known")
    else {
        panic!("the lists are fetched first");
    };
    assert_eq!(relays, vec!["wss://directory.example".to_owned()]);
}

#[test]
fn a_query_asks_for_four_events_of_each_account() {
    let query = account_events_query(&vec![id(1), id(2)], 0).expect("identities");
    assert_eq!(query.limit, 8);
    assert_eq!(query.authors, vec![id(1), id(2)]);
    assert_eq!(account_events_query(&vec![], 0).expect("nobody").limit, 1);
    assert_eq!(
        account_events_query(&vec!["nobody".to_owned()], 0),
        Err(AppError::InvalidPublicKey)
    );
}

#[test]
fn publishing_prefers_the_published_relays() {
    let own = vec!["wss://own.example".to_owned()];
    let other = vec!["wss://other.example".to_owned()];
    assert_eq!(
        account_profile_publish_endpoints(own.clone(), other.clone()),
        Ok(own)
    );
    assert_eq!(
        account_profile_publish_endpoints(vec![], other.clone()),
        Ok(other.clone())
    );
    assert!(matches!(
        account_profile_publish_endpoints(vec![], vec![]),
        Err(AppError::RelayDirectory(_))
    ));
    let mut status = AccountRelayListStatus::empty();
    status.default_relays = vec!["wss://default.example".to_owned()];
    assert_eq!(
        profile_fallback_relays(&status),
        vec!["wss://default.example".to_owned()]
    );
    status.bootstrap_relays = other.clone();
    assert_eq!(profile_fallback_relays(&status), other);
}

#[test]
fn a_contact_list_names_each_account_once() {
    let (listed, tags) = contact_list_tags(&vec![id(2), id(1), id(2)]).expect("identities");
    assert_eq!(listed, vec![id(1), id(2)]);
    assert_eq!(
        tags,
        vec![
            vec!["p".to_owned(), id(1)],
            vec!["p".to_owned(), id(2)],
        ]
    );
}

#[test]
fn a_refresh_needs_a_known_account() {
    let mut app = app();
    let status = AccountRelayListStatus::empty();
    assert_eq!(
        app.finish_directory_entry_refresh("nobody", &status, NOW),
        Err(AppError::InvalidPublicKey)
    );
    assert_eq!(
        app.finish_profiles_refresh(
            &vec![id(2), id(3)],
            &vec![(id(2), profile("bob", 10))],
            NOW
        ),
        Ok(1)
    );
    let entry = app
        .directory_entry_for_account_id(&id(3))
        .expect("readable")
        .expect("asked for, so known");
    assert_eq!(entry.profile, None);
}

#[test]
fn the_plan_watches_contact_lists_of_own_accounts_alone() {
    let mut app = app();
    app.remember_directory_message_sender(&id(2), NOW)
        .expect("remembered");
    let plan = app
        .directory_sync_plan()
        .expect("readable")
        .expect("countable");
    assert_eq!(plan.watched_user_count, 2);
    assert_eq!(plan.batches.len(), 2);
    assert!(plan.batches[0].kinds.contains(&KIND_NOSTR_CONTACT_LIST));
    assert_eq!(plan.batches[0].authors, vec![id(1)]);
    assert!(!plan.batches[1].kinds.contains(&KIND_NOSTR_CONTACT_LIST));
    assert_eq!(plan.batches[1].authors, vec![id(2)]);
}

fn entry(value: u8, package: Option<DirectoryKeyPackage>) -> UserDirectoryRecord {
    UserDirectoryRecord {
        account_id_hex: id(value),
        npub: npub_for_account_id_lossy(&id(value)),
        local_account: None,
        profile: None,
        follows: vec![],
        follow_source_relays: vec![],
        relay_lists: AccountRelayListStatus::empty(),
        key_package: package,
    }
}

#[test]
fn a_removed_slot_is_neither_shown_nor_kept() {
    let mut app = app();
    app.save_directory_entry(entry(2, Some(package("slot", 5))), NOW)
        .expect("saved");
    app.removed_slots.push(RemovedSlot {
        account_id_hex: id(2),
        key_package_id: "slot".to_owned(),
    });
    let shown = app
        .directory_entry_for_account_id(&id(2))
        .expect("readable")
        .expect("known");
    assert_eq!(shown.key_package, None);
    app.warm_directory_storage().expect("warmed");
    assert!(app.rebuild_requested);
    let held = app.accounts[0].cache.entry(&id(2)).expect("open");
    assert_eq!(held.expect("known").key_package, None);
}

#[test]
fn the_older_shared_cache_is_taken_in_once() {
    let mut app = app();
    app.migrate_legacy_directory_cache_once(Some(vec![entry(2, None)]), NOW)
        .expect("taken in");
    assert!(app.legacy_cache_checked);
    assert!(app
        .directory_entry_for_account_id(&id(2))
        .expect("readable")
        .is_some());
    app.migrate_legacy_directory_cache_once(Some(vec![entry(3, None)]), NOW)
        .expect("nothing to do");
    assert_eq!(app.directory_entry_for_account_id(&id(3)), Ok(None));
}

#[test]
fn an_account_is_admitted_while_it_is_signed_in_and_open() {
    let mut app = app();
    assert_eq!(app.local_key_package_admission(&id(2)), Admission::Remote);
    assert_eq!(
        app.local_key_package_admission(&id(1)),
        Admission::Admitted(0)
    );
    app.admissions.insert(
        "alice".to_owned(),
        SessionAdmission {
            account_id_hex: id(1),
            open: false,
        },
    );
    assert_eq!(app.local_key_package_admission(&id(1)), Admission::Refused);
    app.admissions.remove(&"alice".to_owned());
    app.accounts[0].signed_out = true;
    assert_eq!(app.local_key_package_admission(&id(1)), Admission::Refused);
    assert!(app.accounts[0].can_sign());
    assert!(!app.accounts[0].is_active_signing());
}

#[test]
fn a_spent_revision_is_not_live() {
    let mut app = app();
    app.accounts[0].lifecycle = Some(KeyPackageLifecycle {
        current_key_package_ref: Some(vec![0xaa]),
        authored_event_id: Some(MessageId::new(vec![1; 32])),
        authored_signed_event_id: None,
        pending_replacement: None,
        consumed_key_package_refs: vec![vec![0xbb]],
        deleted_live_revision_event_ids: vec![],
    });
    let event = "01".repeat(32);
    assert_eq!(
        app.local_key_package_revision_is_live(&id(1), "aa", &event),
        Ok(true)
    );
    assert_eq!(
        app.local_key_package_revision_is_live(&id(1), "bb", &event),
        Ok(false)
    );
    assert_eq!(
        app.local_current_key_package_ref_is_live(&id(1), "aa"),
        Ok(true)
    );
    assert_eq!(
        app.local_key_package_revision_is_live(&id(1), "xy", &event),
        Err(AppError::InvalidHex)
    );
}

#[test]
fn a_cached_graph_is_searched_radius_by_radius() {
    let mut app = app();
    app.accounts[0]
        .cache
        .put(
            &UserDirectoryRecord {
                profile: Some(profile("alice", 1)),
                follows: vec![id(2)],
                ..entry(1, None)
            },
            NOW,
        )
        .expect("stored");
    app.accounts[0]
        .cache
        .put(
            &UserDirectoryRecord {
                profile: Some(profile("Alicia", 1)),
                ..entry(2, None)
            },
            NOW,
        )
        .expect("stored");
    let found = app
        .search_user_directory(search(" ALI ", (0, 1)), NOW)
        .expect("searched");
    assert_eq!(found.len(), 2);
    assert_eq!((found[0].account_id_hex.clone(), found[0].radius), (id(1), 0));
    assert_eq!((found[1].account_id_hex.clone(), found[1].radius), (id(2), 1));
    assert_eq!(found[1].matched_field, MatchedField::Name);
    assert_eq!(found[1].match_quality, MatchQuality::Prefix);
    let far = app
        .search_user_directory(search("ali", (1, 1)), NOW)
        .expect("searched");
    assert_eq!(far.len(), 1);
    assert_eq!(
        app.search_user_directory(search("  ", (0, 1)), NOW),
        Ok(vec![])
    );
    assert!(matches!(
        app.search_user_directory(search("ali", (2, 1)), NOW),
        Err(AppError::InvalidDirectorySearch(_))
    ));
}

#[test]
fn what_a_search_resolved_is_kept_for_a_day() {
    let mut app = app();
    let records = app.profile_records(&vec![id(2), id(3)], &vec![(id(2), profile("bob", 7))]);
    assert_eq!(records.len(), 2);
    assert_eq!(records[1].profile, None);
    app.cache_resolved_profiles(&records, NOW).expect("kept");
    let known = |app: &MarmotApp, now| {
        app.partition_locally_known(&vec![id(2), id(3)], now)
            .expect("readable")
    };
    let (found, missing) = known(&app, NOW + 86_399);
    assert_eq!(found.len(), 1);
    assert_eq!(missing, vec![id(3)]);
    let (found, missing) = known(&app, NOW + 86_400);
    assert!(found.is_empty());
    assert_eq!(missing, vec![id(2), id(3)]);
    assert_eq!(app.directory_entry_for_account_id(&id(2)), Ok(None));
    app.cache_resolved_follows(&vec![(id(2), vec![id(4)])])
        .expect("kept");
    let (cached, _) = app
        .partition_cached_follows(&vec![id(2)])
        .expect("readable");
    assert_eq!(cached, vec![vec![id(4)]]);
}

#[test]
fn ranked_accounts_need_a_profile() {
    let app = app();
    let ranked = vec![
        RankedPubkey {
            account_id_hex: id(2),
            rank: ProviderRank::from_bits(1.5_f64.to_bits()),
        },
        RankedPubkey {
            account_id_hex: id(3),
            rank: ProviderRank::from_bits(1.0_f64.to_bits()),
        },
    ];
    let found = app.hydrate_open_ranking_profiles(&ranked, &vec![(id(3), profile("carol", 1))]);
    assert_eq!(found.len(), 1);
    assert_eq!(found[0].record.account_id_hex, id(3));
}

#[test]
fn each_author_is_answered_by_its_newest_list() {
    let app = app();
    let freshness = app.directory_freshness(NOW as u64);
    let lists = latest_follow_lists(
        &vec![id(2), id(3), id(4)],
        &vec![
            contact_list(2, 5, "b", &[7]),
            contact_list(2, 5, "a", &[8]),
            contact_list(3, 4, "c", &[]),
        ],
        freshness,
    );
    assert_eq!(
        lists,
        vec![(id(2), vec![id(8)]), (id(3), vec![])],
        "of two events of one second, the lower id stands"
    );
}

#[test]
fn a_cached_account_is_written_out_and_taken_back() {
    let mut cache = DirectoryCache::new();
    cache
        .put_with_reason(&entry(2, Some(package("slot", 5))), "message_sender", 3)
        .expect("stored");
    cache
        .put_with_reason(&entry(2, Some(package("slot", 5))), "message_sender", 9)
        .expect("stored");
    let out = cache.cached_account(&id(2)).expect("open");
    assert_eq!(out.reasons.len(), 1);
    let seen = out
        .reasons
        .get(&"message_sender".to_owned())
        .expect("the reason");
    assert_eq!((seen.first_seen_at, seen.last_seen_at), (3, 9));
    let mut other = DirectoryCache::new();
    other.restore_account(&out).expect("taken back");
    assert_eq!(other.entry(&id(2)), cache.entry(&id(2)));
    assert_eq!(
        other.search_graph_record(&id(2), 9),
        cache.search_graph_record(&id(2), 9)
    );
    let again = other.cached_account(&id(2)).expect("open");
    assert_eq!(again.reasons.get(&"message_sender".to_owned()), Some(seen));
}

#[test]
fn warming_again_changes_nothing() {
    let mut app = app();
    app.save_directory_entry(entry(2, Some(package("slot", 5))), NOW)
        .expect("saved");
    app.save_directory_entry(entry(3, Some(package("other", 5))), NOW)
        .expect("saved");
    app.removed_slots.push(RemovedSlot {
        account_id_hex: id(2),
        key_package_id: "slot".to_owned(),
    });
    app.rebuild_requested = false;
    app.warm_directory_storage().expect("warmed");
    assert!(app.rebuild_requested);
    app.rebuild_requested = false;
    let before = app.directory_entries().expect("readable");
    app.warm_directory_storage().expect("warmed");
    assert!(!app.rebuild_requested, "nothing was removed");
    assert_eq!(app.directory_entries().expect("readable"), before);
    let kept = app.accounts[0].cache.entry(&id(3)).expect("open");
    assert_eq!(
        kept.expect("known").key_package,
        Some(package("other", 5))
    );
}

#[test]
fn offered_profiles_never_bring_an_older_one_back() {
    let mut app = app();
    let mut shown = 0;
    for (name, created_at) in [("a", 5), ("b", 9), ("c", 7), ("d", 9), ("e", 12), ("f", 1)] {
        app.remember_directory_profile_if_newer(&id(2), &profile(name, created_at), NOW)
            .expect("offered");
        let entry = app
            .directory_entry_for_account_id(&id(2))
            .expect("readable")
            .expect("known");
        let now = entry.profile.expect("a profile").created_at;
        assert!(now >= shown && now >= created_at);
        shown = now;
    }
    let last = app
        .directory_entry_for_account_id(&id(2))
        .expect("readable")
        .expect("known");
    assert_eq!(last.profile, Some(profile("e", 12)));
}

#[test]
fn what_is_shown_is_canonical_in_every_form_of_an_identity() {
    let mut app = app();
    let mut stored = entry(2, None);
    stored.follows = vec![npub_for_account_id_lossy(&id(4)), id(3), id(4)];
    stored.follow_source_relays = vec!["wss://b".to_owned(), "wss://a".to_owned()];
    app.save_directory_entry(stored, NOW).expect("saved");
    let by_hex = app.directory_entry_for_account_id(&id(2)).expect("readable");
    let by_npub = app
        .directory_entry_for_account_id(&npub_for_account_id_lossy(&id(2)))
        .expect("readable");
    assert_eq!(by_hex, by_npub);
    let shown = by_hex.expect("known");
    assert_eq!(shown.account_id_hex, id(2));
    assert_eq!(shown.npub, npub_for_account_id_lossy(&id(2)));
    assert_eq!(shown.follows, vec![id(3), id(4)]);
    assert_eq!(
        shown.follow_source_relays,
        vec!["wss://a".to_owned(), "wss://b".to_owned()]
    );
}

#[test]
fn an_account_taken_back_is_kept_under_its_own_identity() {
    let mut cache = DirectoryCache::new();
    cache.put(&entry(2, None), 3).expect("stored");
    let mut out = cache.cached_account(&id(2)).expect("open");
    out.account_id_hex = id(5);
    cache.restore_account(&out).expect("taken back");
    let held = cache.entry(&id(5)).expect("open").expect("known");
    assert_eq!(held.account_id_hex, id(5));
}

#[test]
fn profiles_offered_in_any_form_never_bring_an_older_one_back() {
    let mut app = app();
    let npub = npub_for_account_id_lossy(&id(2));
    let forms = [npub.clone(), id(2), npub.clone(), id(2).to_uppercase()];
    let mut shown = 0;
    for (form, created_at) in forms.iter().zip([5, 9, 7, 9]) {
        app.remember_directory_profile_if_newer(form, &profile("p", created_at), NOW)
            .expect("offered");
        let entry = app
            .directory_entry_for_account_id(&npub)
            .expect("readable")
            .expect("known");
        assert_eq!(entry.account_id_hex, id(2));
        let now = entry.profile.expect("a profile").created_at;
        assert!(now >= shown && now >= created_at);
        shown = now;
    }
    app.remember_directory_profile_if_newer(&npub, &profile("late", 9), NOW)
        .expect("offered");
    let last = app
        .directory_entry_for_account_id(&id(2))
        .expect("readable")
        .expect("known");
    assert_eq!(last.profile, Some(profile("p", 9)), "the first of one second stays");
}

#[test]
fn a_save_keeps_the_live_package_of_every_store() {
    let mut app = app();
    app.accounts.push(account("bob", 9));
    app.accounts[1]
        .cache
        .put(&entry(2, Some(package("newer", 9))), NOW)
        .expect("stored");
    app.save_directory_entry(entry(2, Some(package("older", 5))), NOW)
        .expect("saved");
    for held in &app.accounts {
        let kept = held.cache.entry(&id(2)).expect("open").expect("known");
        assert_eq!(kept.key_package, Some(package("newer", 9)));
    }
    let shared = app.public_directory_user(&id(2)).expect("shared");
    assert_eq!(shared.key_package, Some(package("newer", 9)));
    let read = app
        .directory_entry_for_account_id(&id(2))
        .expect("readable")
        .expect("known");
    assert_eq!(read.key_package, Some(package("newer", 9)));
}
