use marmot_app::directory::app_entry::npub_for_account_id_lossy;
use marmot_app::directory::app_state::{AccountState, DirectoryConfig, MarmotApp};
use marmot_app::directory::cache::{
    DirectoryCache, DirectorySearchGraphRecord, SEARCH_GRAPH_PROFILE_TTL_SECONDS,
};
use marmot_app::directory::entry::{UserDirectoryRecord, UserProfileMetadata};
use marmot_app::directory::records::{
    AccountRelayListStatus, RelayEvent, RelayEventRecord, KIND_NOSTR_CONTACT_LIST,
};
use marmot_app::directory::search::{
    RankedPubkey, SearchUpdateTrigger, UserSearchParams, UserSearchUpdate,
    OFF_GRAPH_SEARCH_RADIUS,
};
use marmot_app::directory::search_match::{MatchQuality, MatchedField, ProviderRank};
use marmot_app::directory::search_run::{SearchNeed, UserSearchRun};
use marmot_app::error::AppError;

const NOW: i64 = 1_700_000_000;

fn id(value: u64) -> String {
    format!("{value:064x}")
}

fn named(name: &str) -> UserProfileMetadata {
    UserProfileMetadata {
        name: Some(name.to_owned()),
        ..UserProfileMetadata::default()
    }
}

fn record_named(account_id_hex: &str, name: &str) -> UserDirectoryRecord {
    UserDirectoryRecord {
        account_id_hex: account_id_hex.to_owned(),
        npub: npub_for_account_id_lossy(account_id_hex),
        local_account: None,
        profile: Some(named(name)),
        follows: Vec::new(),
        follow_source_relays: Vec::new(),
        relay_lists: AccountRelayListStatus::empty(),
        key_package: None,
    }
}

fn graph_record(account_id_hex: &str, name: &str) -> DirectorySearchGraphRecord {
    DirectorySearchGraphRecord {
        account_id_hex: account_id_hex.to_owned(),
        npub: npub_for_account_id_lossy(account_id_hex),
        profile: Some(named(name)),
        follows: None,
        metadata_updated_at: Some(NOW as u64),
        metadata_expires_at: Some((NOW + SEARCH_GRAPH_PROFILE_TTL_SECONDS) as u64),
    }
}

fn params(searcher_account_id_hex: &str, query: &str, radii: (u8, u8)) -> UserSearchParams {
    UserSearchParams {
        searcher_account_id_hex: searcher_account_id_hex.to_owned(),
        query: query.to_owned(),
        radius_start: radii.0,
        radius_end: radii.1,
        radius_one_seeds: Vec::new(),
    }
}

fn app_with_seeds(seeds: Vec<String>) -> MarmotApp {
    let mut app = MarmotApp::new(DirectoryConfig {
        relay_urls: vec!["wss://relay.invalid".to_owned()],
        directory_relay_urls: vec![],
        directory_max_future_skew: 60,
        directory_search_fallback_seeds: seeds,
        max_cached_identity_page_size: 10,
        search_max_visited: 100,
        search_max_frontier: 100,
    });
    app.accounts.push(AccountState {
        label: "alice".to_owned(),
        account_id_hex: id(1),
        local_signing: true,
        external_signing: false,
        signed_out: false,
        cache: DirectoryCache::new(),
        lifecycle: None,
        current_key_package: None,
        nip65_generation: None,
    });
    app
}

fn app() -> MarmotApp {
    app_with_seeds(vec![])
}

/// What the relays hold. Nothing, unless a test says so.
#[derive(Default)]
struct Relays {
    /// Names, by account, on the searcher's relays.
    profiles: Vec<(String, String)>,
    /// The write relay of an account.
    write_lists: Vec<(String, String)>,
    /// Names, by relay and account.
    write_profiles: Vec<(String, String, String)>,
    /// Whom an account follows.
    contacts: Vec<(String, Vec<String>)>,
    refuses: bool,
    /// The consumer goes away once the first radius began.
    cancelled: bool,
    asked: Vec<SearchNeed>,
}

fn contact_list(author: &str, follows: &[String]) -> RelayEventRecord {
    RelayEventRecord {
        event: RelayEvent {
            id: "11".repeat(32),
            pubkey: author.to_owned(),
            kind: KIND_NOSTR_CONTACT_LIST,
            created_at: 5,
            content: String::new(),
            tags: follows
                .iter()
                .map(|follow| vec!["p".to_owned(), follow.clone()])
                .collect(),
        },
        endpoints: vec![],
        relay_list: None,
    }
}

/// Runs the graph part of a search against relays.
fn walk(
    app: &mut MarmotApp,
    relays: &mut Relays,
    params: UserSearchParams,
) -> (UserSearchRun, Vec<UserSearchUpdate>) {
    let searcher = params.validate().expect("a valid search");
    let (mut run, mut need) = UserSearchRun::begin(params, searcher);
    let mut updates = Vec::new();
    let mut began = 0;
    loop {
        let step = match &need {
            SearchNeed::NextRadius => {
                began += 1;
                run.begin_radius(app, relays.cancelled && began > 1, NOW)
            }
            SearchNeed::Discovery | SearchNeed::Completion => break,
            SearchNeed::Failed(_) => {
                updates.push(run.failed("refused".to_owned()));
                break;
            }
            _ if relays.refuses => {
                updates.push(run.timed_out());
                break;
            }
            SearchNeed::Profiles { account_ids } => {
                let found: Vec<(String, UserProfileMetadata)> = relays
                    .profiles
                    .iter()
                    .filter(|(account, _)| account_ids.contains(account))
                    .map(|(account, name)| (account.clone(), named(name)))
                    .collect();
                run.profiles_answered(app, &found, relays.cancelled)
            }
            SearchNeed::WriteLists { account_ids } => {
                let found: Vec<(String, Vec<String>)> = relays
                    .write_lists
                    .iter()
                    .filter(|(account, _)| account_ids.contains(account))
                    .map(|(account, relay)| (account.clone(), vec![relay.clone()]))
                    .collect();
                run.write_lists_answered(app, &found, relays.cancelled)
            }
            SearchNeed::WriteProfiles { relay, account_ids } => {
                let found: Vec<(String, UserProfileMetadata)> = relays
                    .write_profiles
                    .iter()
                    .filter(|(at, account, _)| at == relay && account_ids.contains(account))
                    .map(|(_, account, name)| (account.clone(), named(name)))
                    .collect();
                run.write_profiles_answered(app, &found, relays.cancelled)
            }
            SearchNeed::ContactLists { account_ids } => {
                let found: Vec<RelayEventRecord> = relays
                    .contacts
                    .iter()
                    .filter(|(account, _)| account_ids.contains(account))
                    .map(|(account, follows)| contact_list(account, follows))
                    .collect();
                run.contact_lists_answered(app, &found, NOW as u64)
            }
        };
        updates.extend(step.updates);
        relays.asked.push(need);
        need = step.need;
    }
    (run, updates)
}

fn drain(
    app: &mut MarmotApp,
    relays: &mut Relays,
    params: UserSearchParams,
) -> Vec<UserSearchUpdate> {
    let (run, mut updates) = walk(app, relays, params);
    updates.push(run.completed());
    updates
}

fn found(updates: &[UserSearchUpdate], account: &str) -> Option<(u8, MatchedField)> {
    updates
        .iter()
        .flat_map(|update| &update.new_results)
        .find(|result| result.account_id_hex == account)
        .map(|result| (result.radius, result.matched_field))
}

#[test]
fn an_empty_query_completes_without_matching_everybody() {
    let mut app = app();
    app.accounts[0]
        .cache
        .put(&record_named(&id(1), "alice"), NOW)
        .unwrap();
    let updates = drain(
        &mut app,
        &mut Relays::default(),
        params(&id(1), "   ", (0, 0)),
    );
    assert_eq!(updates.len(), 1);
    assert_eq!(updates[0].trigger, SearchUpdateTrigger::SearchCompleted);
    assert_eq!(updates[0].total_result_count, 0);
}

#[test]
fn streams_a_cached_radius_zero_match_through_the_full_update_sequence() {
    let mut app = app();
    app.accounts[0]
        .cache
        .put(&record_named(&id(1), "needle"), NOW)
        .unwrap();
    let mut relays = Relays::default();
    let updates = drain(&mut app, &mut relays, params(&id(1), "needle", (0, 0)));
    let triggers: Vec<&SearchUpdateTrigger> =
        updates.iter().map(|update| &update.trigger).collect();
    assert_eq!(
        triggers,
        vec![
            &SearchUpdateTrigger::RadiusStarted { radius: 0 },
            &SearchUpdateTrigger::ResultsFound { radius: 0 },
            &SearchUpdateTrigger::RadiusCompleted { radius: 0 },
            &SearchUpdateTrigger::SearchCompleted,
        ]
    );
    let found = updates
        .iter()
        .find(|update| !update.new_results.is_empty())
        .expect("the cached match must be streamed");
    assert_eq!(found.new_results.len(), 1);
    assert_eq!(found.new_results[0].account_id_hex, id(1));
    assert_eq!(found.new_results[0].radius, 0);
    assert_eq!(found.new_results[0].matched_field, MatchedField::Name);
    assert_eq!(found.new_results[0].match_quality, MatchQuality::Exact);
    assert_eq!(found.total_result_count, 1);
    assert_eq!(updates.last().unwrap().total_result_count, 1);
}

#[test]
fn a_search_matches_a_stranger_cached_in_the_un_promoted_tier() {
    let mut app = app();
    let stranger = id(77);
    let cache = &mut app.accounts[0].cache;
    cache
        .put(
            &UserDirectoryRecord {
                follows: vec![stranger.clone()],
                ..record_named(&id(1), "alice")
            },
            NOW,
        )
        .unwrap();
    cache
        .put_search_graph_record(&graph_record(&stranger, "needle"))
        .unwrap();
    let updates = drain(
        &mut app,
        &mut Relays::default(),
        params(&id(1), "needle", (1, 1)),
    );
    assert_eq!(
        found(&updates, &stranger),
        Some((1, MatchedField::Name)),
        "the un-promoted cached profile must be searchable"
    );
}

#[test]
fn a_profile_resolved_from_a_relay_is_cached_without_promoting_the_stranger() {
    let mut app = app();
    let stranger = id(78);
    app.accounts[0]
        .cache
        .put(
            &UserDirectoryRecord {
                follows: vec![stranger.clone()],
                ..record_named(&id(1), "alice")
            },
            NOW,
        )
        .unwrap();
    let mut relays = Relays {
        profiles: vec![(stranger.clone(), "needle".to_owned())],
        ..Relays::default()
    };
    let updates = drain(&mut app, &mut relays, params(&id(1), "needle", (1, 1)));
    assert!(found(&updates, &stranger).is_some());
    let cache = &app.accounts[0].cache;
    let cached = cache
        .search_record(&stranger, NOW)
        .unwrap()
        .expect("the resolved profile must be cached for the next search");
    assert_eq!(
        cached.profile.and_then(|profile| profile.name),
        Some("needle".to_owned())
    );
    assert!(
        cache.entry(&stranger).unwrap().is_none(),
        "caching a search result must not promote them"
    );
    let mut silent = Relays::default();
    let again = drain(&mut app, &mut silent, params(&id(1), "needle", (1, 1)));
    assert!(found(&again, &stranger).is_some());
    assert!(
        !silent
            .asked
            .iter()
            .any(|need| matches!(need, SearchNeed::Profiles { .. })),
        "the next search is answered from the device"
    );
}

#[test]
fn radius_two_expands_through_cached_follow_edges_without_a_relay() {
    let mut app = app();
    let friend = id(61);
    let stranger = id(62);
    let cache = &mut app.accounts[0].cache;
    cache
        .put(
            &UserDirectoryRecord {
                follows: vec![friend.clone()],
                ..record_named(&id(1), "alice")
            },
            NOW,
        )
        .unwrap();
    cache
        .remember_search_graph_follows(
            &friend,
            &npub_for_account_id_lossy(&friend),
            &vec![stranger.clone()],
        )
        .unwrap();
    cache
        .put_search_graph_record(&graph_record(&stranger, "needle"))
        .unwrap();
    let updates = drain(
        &mut app,
        &mut Relays::default(),
        params(&id(1), "needle", (2, 2)),
    );
    assert_eq!(
        found(&updates, &stranger).map(|(radius, _)| radius),
        Some(2),
        "a follow-of-a-follow must be reachable at radius 2"
    );
}

#[test]
fn an_unanswered_contact_list_is_not_cached_as_following_nobody() {
    let mut app = app();
    let friend = id(71);
    app.accounts[0]
        .cache
        .put(
            &UserDirectoryRecord {
                follows: vec![friend.clone()],
                ..record_named(&id(1), "alice")
            },
            NOW,
        )
        .unwrap();
    let mut relays = Relays::default();
    drain(&mut app, &mut relays, params(&id(1), "needle", (2, 2)));
    assert!(relays.asked.iter().any(|need| matches!(
        need,
        SearchNeed::ContactLists { account_ids } if *account_ids == vec![friend.clone()]
    )));
    assert_eq!(
        app.accounts[0].cache.search_graph_follows(&friend).unwrap(),
        None,
        "an unanswered contact list must stay re-fetchable"
    );
}

#[test]
fn an_answered_contact_list_leads_on_and_is_kept() {
    let mut app = app();
    let friend = id(72);
    let mut relays = Relays {
        contacts: vec![(id(1), vec![friend.clone()]), (friend.clone(), vec![])],
        profiles: vec![(friend.clone(), "needle".to_owned())],
        ..Relays::default()
    };
    let updates = drain(&mut app, &mut relays, params(&id(1), "needle", (0, 2)));
    assert_eq!(
        found(&updates, &friend).map(|(radius, _)| radius),
        Some(1)
    );
    assert_eq!(
        app.accounts[0].cache.search_graph_follows(&friend).unwrap(),
        Some(vec![]),
        "an empty list that came back says that nobody is followed"
    );
}

#[test]
fn a_seeded_account_is_searchable_at_radius_one_without_being_followed() {
    let mut app = app();
    let co_member = id(81);
    app.accounts[0]
        .cache
        .put_search_graph_record(&graph_record(&co_member, "needle"))
        .unwrap();
    let updates = drain(
        &mut app,
        &mut Relays::default(),
        UserSearchParams {
            radius_one_seeds: vec![co_member.clone()],
            ..params(&id(1), "needle", (1, 1))
        },
    );
    assert_eq!(
        found(&updates, &co_member).map(|(radius, _)| radius),
        Some(1),
        "a seeded account must be reachable at radius 1"
    );
}

#[test]
fn seeding_the_searcher_does_not_duplicate_them_at_radius_one() {
    let mut app = app();
    app.accounts[0]
        .cache
        .put(&record_named(&id(1), "needle"), NOW)
        .unwrap();
    let updates = drain(
        &mut app,
        &mut Relays::default(),
        UserSearchParams {
            radius_one_seeds: vec![id(1)],
            ..params(&id(1), "needle", (0, 1))
        },
    );
    let radii: Vec<u8> = updates
        .iter()
        .flat_map(|update| &update.new_results)
        .filter(|result| result.account_id_hex == id(1))
        .map(|result| result.radius)
        .collect();
    assert_eq!(radii, vec![0], "the searcher is radius 0 and only radius 0");
}

fn follower_of(stranger: &str) -> MarmotApp {
    let mut app = app();
    app.accounts[0]
        .cache
        .put(
            &UserDirectoryRecord {
                follows: vec![stranger.to_owned()],
                ..record_named(&id(1), "alice")
            },
            NOW,
        )
        .unwrap();
    app
}

#[test]
fn a_profile_only_on_its_authors_write_relay_is_still_found() {
    let stranger = id(82);
    let mut app = follower_of(&stranger);
    let own = "wss://own.example".to_owned();
    let mut relays = Relays {
        write_lists: vec![(stranger.clone(), own.clone())],
        write_profiles: vec![(own, stranger.clone(), "needle".to_owned())],
        ..Relays::default()
    };
    let (run, updates) = walk(&mut app, &mut relays, params(&id(1), "needle", (1, 1)));
    assert!(
        found(&updates, &stranger).is_some(),
        "the profile must be resolved from the author's own write relay"
    );
    assert_eq!(run.tally().from_write_relays, 1);
    assert_eq!(run.tally().unresolved, 0);
}

#[test]
fn an_empty_graph_falls_back_to_the_configured_seed_and_says_so() {
    let seed = id(91);
    let stranger = id(92);
    let mut app = app_with_seeds(vec![seed.clone()]);
    let cache = &mut app.accounts[0].cache;
    cache
        .remember_search_graph_follows(
            &seed,
            &npub_for_account_id_lossy(&seed),
            &vec![stranger.clone()],
        )
        .unwrap();
    cache
        .put_search_graph_record(&graph_record(&stranger, "needle"))
        .unwrap();
    let updates = drain(
        &mut app,
        &mut Relays::default(),
        params(&id(1), "needle", (0, 2)),
    );
    assert_eq!(
        found(&updates, &stranger).map(|(radius, _)| radius),
        Some(OFF_GRAPH_SEARCH_RADIUS),
        "a fallback match is not a measurable distance from the searcher"
    );
}

#[test]
fn a_searcher_with_follows_never_reaches_the_fallback_seed() {
    let friend = id(93);
    let seed = id(94);
    let seeded_stranger = id(95);
    let mut app = app_with_seeds(vec![seed.clone()]);
    let cache = &mut app.accounts[0].cache;
    cache
        .put(
            &UserDirectoryRecord {
                follows: vec![friend],
                ..record_named(&id(1), "alice")
            },
            NOW,
        )
        .unwrap();
    cache
        .remember_search_graph_follows(
            &seed,
            &npub_for_account_id_lossy(&seed),
            &vec![seeded_stranger.clone()],
        )
        .unwrap();
    cache
        .put_search_graph_record(&graph_record(&seeded_stranger, "needle"))
        .unwrap();
    let updates = drain(
        &mut app,
        &mut Relays::default(),
        params(&id(1), "needle", (0, 2)),
    );
    assert!(
        found(&updates, &seeded_stranger).is_none(),
        "a searcher with their own graph must not be given a stranger's"
    );
}

#[test]
fn a_promoted_row_without_a_profile_does_not_mask_the_cached_one() {
    let stranger = id(101);
    let mut app = follower_of(&stranger);
    let cache = &mut app.accounts[0].cache;
    cache
        .put(
            &UserDirectoryRecord {
                profile: None,
                ..record_named(&stranger, "ignored")
            },
            NOW,
        )
        .unwrap();
    cache
        .put_search_graph_record(&graph_record(&stranger, "needle"))
        .unwrap();
    let updates = drain(
        &mut app,
        &mut Relays::default(),
        params(&id(1), "needle", (1, 1)),
    );
    assert!(
        found(&updates, &stranger).is_some(),
        "the cached profile must be reachable despite the profile-less promoted row"
    );
}

#[test]
fn an_npub_match_resolved_by_the_outbox_tier_is_reported_once() {
    let stranger = id(102);
    let mut app = follower_of(&stranger);
    let own = "wss://own.example".to_owned();
    let mut relays = Relays {
        write_lists: vec![(stranger.clone(), own.clone())],
        write_profiles: vec![(own, stranger.clone(), "bob".to_owned())],
        ..Relays::default()
    };
    let updates = drain(&mut app, &mut relays, params(&id(1), &stranger, (1, 1)));
    let hits: Vec<bool> = updates
        .iter()
        .flat_map(|update| &update.new_results)
        .filter(|result| result.account_id_hex == stranger)
        .map(|result| result.profile.is_some())
        .collect();
    assert_eq!(
        hits,
        vec![true],
        "one person, one result, and it is the resolved one"
    );
}

#[test]
fn an_account_without_a_profile_is_found_by_its_identity() {
    let stranger = id(103);
    let mut app = follower_of(&stranger);
    let (run, updates) = walk(
        &mut app,
        &mut Relays::default(),
        params(&id(1), &stranger, (1, 1)),
    );
    assert!(found(&updates, &stranger).is_some());
    assert_eq!(run.tally().unresolved, 1);
}

#[test]
fn a_cached_searcher_outside_the_radius_window_reports_no_matches() {
    let mut app = app();
    app.accounts[0]
        .cache
        .put(&record_named(&id(1), "needle"), NOW)
        .unwrap();
    let updates = drain(
        &mut app,
        &mut Relays::default(),
        params(&id(1), "needle", (1, 1)),
    );
    assert!(
        updates.iter().all(|update| update.new_results.is_empty()),
        "radius 0 is traversed to reach radius 1, never reported as a match"
    );
    assert_eq!(updates.last().unwrap().total_result_count, 0);
}

#[test]
fn a_radius_that_runs_out_of_time_ends_the_walk() {
    let mut app = app();
    let mut relays = Relays {
        refuses: true,
        ..Relays::default()
    };
    let updates = drain(&mut app, &mut relays, params(&id(1), "needle", (0, 2)));
    let triggers: Vec<&SearchUpdateTrigger> =
        updates.iter().map(|update| &update.trigger).collect();
    assert_eq!(
        triggers,
        vec![
            &SearchUpdateTrigger::RadiusStarted { radius: 0 },
            &SearchUpdateTrigger::RadiusTimeout { radius: 0 },
            &SearchUpdateTrigger::SearchCompleted,
        ]
    );
}

#[test]
fn a_closed_cache_is_told_as_a_failure() {
    let mut app = app();
    app.accounts[0].cache.close();
    let (_, updates) = walk(
        &mut app,
        &mut Relays::default(),
        params(&id(1), "needle", (0, 0)),
    );
    assert_eq!(
        updates.last().unwrap().trigger,
        SearchUpdateTrigger::Error {
            message: "refused".to_owned()
        }
    );
}

#[test]
fn a_search_that_nobody_waits_for_asks_for_no_more_profiles() {
    let stranger = id(104);
    let mut app = follower_of(&stranger);
    let mut relays = Relays {
        cancelled: true,
        ..Relays::default()
    };
    drain(&mut app, &mut relays, params(&id(1), "needle", (0, 2)));
    assert!(!relays
        .asked
        .iter()
        .any(|need| matches!(need, SearchNeed::Profiles { .. })));
}

#[test]
fn ranked_accounts_are_told_after_the_graph() {
    let mut app = app();
    app.accounts[0]
        .cache
        .put(&record_named(&id(1), "needle"), NOW)
        .unwrap();
    let (mut run, _) = walk(
        &mut app,
        &mut Relays::default(),
        params(&id(1), "needle", (0, 0)),
    );
    let rank = || ProviderRank::from_bits(2.0_f64.to_bits());
    let remaining = run.still_wanted(vec![
        RankedPubkey {
            account_id_hex: id(1),
            rank: rank(),
        },
        RankedPubkey {
            account_id_hex: id(5),
            rank: rank(),
        },
    ]);
    assert_eq!(remaining.len(), 1, "the searcher was told already");
    let update = run
        .ranked_answered(&app, &remaining, &vec![(id(5), named("needle"))])
        .expect("a match");
    assert_eq!(update.trigger, SearchUpdateTrigger::DiscoveryResultsFound);
    assert_eq!(update.new_results[0].radius, OFF_GRAPH_SEARCH_RADIUS);
    assert_eq!(update.new_results[0].provider_rank, Some(rank()));
    assert_eq!(update.total_result_count, 2);
    assert_eq!(run.tally().from_open_ranking, 1);
    assert_eq!(app.accounts[0].cache.search_record(&id(5), NOW), Ok(None));
    assert!(run.has_room(1));
    assert!(!run.has_room(usize::MAX));
    assert!(matches!(
        params("nobody", "needle", (0, 0)).validate(),
        Err(AppError::InvalidPublicKey)
    ));
}
