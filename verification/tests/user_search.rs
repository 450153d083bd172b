use marmot_app::directory::app_discovery::{
    count_unresolved, replace_resolved_profiles, split_by_profile,
};
use marmot_app::directory::app_entry::npub_for_account_id_lossy;
use marmot_app::directory::entry::{UserDirectoryRecord, UserProfileMetadata};
use marmot_app::directory::records::AccountRelayListStatus;
use marmot_app::directory::search::{
    NextLayer, RankedDirectoryRecord, RankedPubkey, SearchEmitter, SearchTally,
    SearchUpdateTrigger, UserSearchParams, MAX_SUPPORTED_SEARCH_RADIUS, OFF_GRAPH_SEARCH_RADIUS,
    SEARCH_MAX_CANDIDATES_PER_RADIUS,
};
use marmot_app::directory::search_graph::{choose_write_relays, GraphWalk};
use marmot_app::directory::search_match::{
    sort_user_search_results, user_record_match, MatchQuality, MatchedField, ProviderRank,
    SearchMatch, UserDirectorySearchResult,
};
use marmot_app::error::AppError;
use vstd::hash_set::StringHashSet;

fn rank(value: f64) -> ProviderRank {
    ProviderRank::from_bits(value.to_bits())
}

fn record_named(account_id_hex: &str, name: &str) -> UserDirectoryRecord {
    UserDirectoryRecord {
        account_id_hex: account_id_hex.to_owned(),
        npub: npub_for_account_id_lossy(account_id_hex),
        local_account: None,
        profile: Some(UserProfileMetadata {
            name: Some(name.to_owned()),
            ..UserProfileMetadata::default()
        }),
        follows: Vec::new(),
        follow_source_relays: Vec::new(),
        relay_lists: AccountRelayListStatus::empty(),
        key_package: None,
    }
}

fn params(searcher_account_id_hex: &str, query: &str, radii: (u8, u8)) -> UserSearchParams {
    UserSearchParams {
        searcher_account_id_hex: searcher_account_id_hex.to_owned(),
        query: query.to_owned(),
        radius_start: radii.0,
        radius_end: radii.1,
        radius_one_seeds: Vec::new(),
    }
}

#[test]
fn rejects_a_radius_deeper_than_the_producer_answers() {
    let searcher = format!("{:064x}", 1);
    let error = params(&searcher, "needle", (0, MAX_SUPPORTED_SEARCH_RADIUS + 1))
        .validate()
        .expect_err("a radius past the supported depth must not be answered shallowly");
    assert_eq!(
        error,
        AppError::InvalidDirectorySearch("radius_end must be at most 2".to_owned())
    );
}

#[test]
fn rejects_an_inverted_radius_window() {
    let searcher = format!("{:064x}", 1);
    let error = params(&searcher, "needle", (1, 0))
        .validate()
        .expect_err("radius_start past radius_end is not a searchable window");
    assert!(matches!(error, AppError::InvalidDirectorySearch(_)));
}

#[test]
fn a_malformed_seed_is_rejected_rather_than_failing_the_traversal() {
    let searcher = format!("{:064x}", 1);
    let mut request = params(&searcher, "needle", (0, 1));
    request.radius_one_seeds = vec![searcher.clone(), "not-a-pubkey".to_owned()];
    assert_eq!(request.validate(), Err(AppError::InvalidPublicKey));
    request.radius_one_seeds.pop();
    assert_eq!(request.validate(), Ok(searcher));
}

#[test]
fn a_query_is_trimmed_and_lowercased() {
    let searcher = format!("{:064x}", 1);
    assert_eq!(
        params(&searcher, "  NEEDLE\n", (0, 0)).normalized_query(),
        "needle"
    );
    assert_eq!(params(&searcher, "   ", (0, 0)).normalized_query(), "");
}

#[test]
fn the_tally_attributes_each_profile_to_the_tier_that_resolved_it() {
    let mut tally = SearchTally::default();

    tally.resolved_from_cache(3);
    tally.resolved_from_relays(2);
    tally.resolved_from_write_relays(1);
    tally.resolved_from_open_ranking(5);
    tally.unresolved(4);
    // A second layer accumulates rather than replacing.
    tally.resolved_from_cache(1);

    assert_eq!(tally.from_cache, 4);
    assert_eq!(tally.from_relays, 2);
    assert_eq!(tally.from_write_relays, 1);
    assert_eq!(tally.from_open_ranking, 5);
    assert_eq!(tally.unresolved, 4);
}

#[test]
fn discovery_does_not_repeat_a_graph_result() {
    let mut emitter = SearchEmitter::new();
    let account_id_hex = format!("{:064x}", 97);
    let record = record_named(&account_id_hex, "needle");

    let update = emitter
        .emit_matches(1, vec![record], "needle")
        .expect("the graph result should be emitted");
    let remaining = emitter.remaining_ranked_pubkeys(
        vec![RankedPubkey {
            account_id_hex: account_id_hex.clone(),
            rank: rank(1.0),
        }],
        0,
    );
    assert!(
        remaining.is_empty(),
        "an emitted graph identity must be removed before hydration"
    );
    assert_eq!(update.new_results.len(), 1);
    assert_eq!(update.new_results[0].radius, 1);
    assert_eq!(update.total_result_count, 1);
    assert!(
        emitter
            .emit_matches(2, vec![record_named(&account_id_hex, "needle")], "needle")
            .is_none(),
        "an account is told of once"
    );
}

#[test]
fn discovery_does_not_reintroduce_a_graph_radius_below_the_requested_window() {
    let mut emitter = SearchEmitter::new();
    let searcher = format!("{:064x}", 96);
    emitter.remember_graph_accounts(0, &vec![searcher.clone()]);

    let remaining = emitter.remaining_ranked_pubkeys(
        vec![RankedPubkey {
            account_id_hex: searcher,
            rank: rank(1.0),
        }],
        1,
    );

    assert!(
        remaining.is_empty(),
        "discovery must preserve the requested graph radius window"
    );
}

#[test]
fn open_ranking_profiles_keep_graph_provenance_and_stay_ephemeral() {
    let account_id_hex = format!("{:064x}", 98);
    let mut emitter = SearchEmitter::new();
    emitter.remember_graph_accounts(1, &vec![account_id_hex.clone()]);
    let update = emitter
        .emit_ranked_matches(
            vec![RankedDirectoryRecord {
                record: record_named(&account_id_hex, "needle"),
                rank: rank(0.75),
            }],
            "needle",
        )
        .expect("ranked result");

    assert_eq!(update.trigger, SearchUpdateTrigger::DiscoveryResultsFound);
    assert_eq!(update.new_results[0].radius, 1);
    assert_eq!(
        update.new_results[0].provider_rank, None,
        "graph provenance wins over provider ranking metadata"
    );
}

#[test]
fn an_off_graph_discovery_keeps_its_rank() {
    let mut emitter = SearchEmitter::new();
    let update = emitter
        .emit_ranked_matches(
            vec![RankedDirectoryRecord {
                record: record_named(&format!("{:064x}", 5), "needle"),
                rank: rank(0.5),
            }],
            "needle",
        )
        .unwrap();
    assert_eq!(update.new_results[0].radius, OFF_GRAPH_SEARCH_RADIUS);
    assert_eq!(update.new_results[0].provider_rank, Some(rank(0.5)));
    assert_eq!(
        emitter.emit(SearchUpdateTrigger::SearchCompleted).total_result_count,
        1
    );
}

#[test]
fn an_overflowing_layer_is_reported_as_truncated() {
    let mut seen = StringHashSet::new();
    let mut layer = NextLayer::new();

    let admitted = layer.take_in(
        (0..SEARCH_MAX_CANDIDATES_PER_RADIUS + 1)
            .map(|index| format!("{index:064x}"))
            .collect(),
        &mut seen,
    );

    assert!(!admitted, "the cap must stop admitting candidates");
    assert!(layer.truncated);
    assert_eq!(layer.candidates.len(), SEARCH_MAX_CANDIDATES_PER_RADIUS);
}

#[test]
fn a_layer_admits_each_account_once() {
    let mut seen = StringHashSet::new();
    let mut layer = NextLayer::new();
    let repeated = format!("{:064x}", 9);

    assert!(layer.take_in(vec![repeated.clone(), repeated.clone()], &mut seen));
    assert!(layer.take_in(vec![repeated], &mut seen));

    assert_eq!(layer.candidates.len(), 1);
    assert!(!layer.truncated);
}

#[test]
fn a_batch_ranks_match_quality_before_matched_field() {
    let mut results = vec![
        UserDirectorySearchResult {
            account_id_hex: format!("{:064x}", 1),
            npub: "npub-contains-name".into(),
            radius: 1,
            matched_field: MatchedField::Name,
            match_quality: MatchQuality::Contains,
            provider_rank: None,
            profile: None,
        },
        UserDirectorySearchResult {
            account_id_hex: format!("{:064x}", 2),
            npub: "npub-exact-about".into(),
            radius: 1,
            matched_field: MatchedField::About,
            match_quality: MatchQuality::Exact,
            provider_rank: None,
            profile: None,
        },
        UserDirectorySearchResult {
            account_id_hex: format!("{:064x}", 3),
            npub: "npub-exact-name".into(),
            radius: 1,
            matched_field: MatchedField::Name,
            match_quality: MatchQuality::Exact,
            provider_rank: None,
            profile: None,
        },
    ];

    sort_user_search_results(&mut results);

    assert_eq!(
        results
            .iter()
            .map(|result| result.npub.as_str())
            .collect::<Vec<_>>(),
        vec!["npub-exact-name", "npub-exact-about", "npub-contains-name"]
    );
}

#[test]
fn discovery_results_preserve_provider_rank() {
    let mut results = vec![
        UserDirectorySearchResult {
            account_id_hex: format!("{:064x}", 4),
            npub: "npub-lower-provider-rank".into(),
            radius: OFF_GRAPH_SEARCH_RADIUS,
            matched_field: MatchedField::Name,
            match_quality: MatchQuality::Exact,
            provider_rank: Some(rank(0.25)),
            profile: None,
        },
        UserDirectorySearchResult {
            account_id_hex: format!("{:064x}", 5),
            npub: "npub-higher-provider-rank".into(),
            radius: OFF_GRAPH_SEARCH_RADIUS,
            matched_field: MatchedField::About,
            match_quality: MatchQuality::Contains,
            provider_rank: Some(rank(0.75)),
            profile: None,
        },
    ];

    sort_user_search_results(&mut results);

    assert_eq!(results[0].npub, "npub-higher-provider-rank");
}

#[test]
fn provider_ranks_order_as_their_numbers_do() {
    let ranks = [
        f64::NEG_INFINITY,
        -2.0,
        -0.5,
        -0.0,
        0.0,
        1.0e-300,
        0.25,
        3.0,
        f64::INFINITY,
    ];
    let mut results: Vec<UserDirectorySearchResult> = ranks
        .iter()
        .enumerate()
        .map(|(index, value)| UserDirectorySearchResult {
            account_id_hex: format!("{index:064x}"),
            npub: String::new(),
            radius: OFF_GRAPH_SEARCH_RADIUS,
            matched_field: MatchedField::Name,
            match_quality: MatchQuality::Exact,
            provider_rank: Some(rank(*value)),
            profile: None,
        })
        .collect();
    sort_user_search_results(&mut results);
    let sorted: Vec<u64> = results
        .iter()
        .map(|result| result.provider_rank.unwrap().bits)
        .collect();
    let expected: Vec<u64> = ranks.iter().rev().map(|value| value.to_bits()).collect();
    assert_eq!(sorted, expected);
}

#[test]
fn the_best_field_of_an_account_decides() {
    let mut record = record_named(&format!("{:064x}", 10), "Needlework");
    let found = |field, quality| Some(SearchMatch { field, quality });
    assert_eq!(
        user_record_match(&record, "needle"),
        found(MatchedField::Name, MatchQuality::Prefix)
    );
    assert_eq!(
        user_record_match(&record, "work"),
        found(MatchedField::Name, MatchQuality::Contains)
    );
    record.profile.as_mut().unwrap().about = Some("NEEDLE".to_owned());
    assert_eq!(
        user_record_match(&record, "needle"),
        found(MatchedField::About, MatchQuality::Exact)
    );
    assert_eq!(user_record_match(&record, "haystack"), None);
    assert_eq!(
        user_record_match(&record, &record.npub),
        found(MatchedField::Npub, MatchQuality::Exact)
    );
    record.profile = None;
    assert_eq!(
        user_record_match(&record, "000a"),
        found(MatchedField::AccountId, MatchQuality::Contains)
    );
}

#[test]
fn a_walk_reports_hops_until_it_falls_back_to_a_seed() {
    let searcher = format!("{:064x}", 1);
    let friend = format!("{:064x}", 2);
    let seed = format!("{:064x}", 3);
    let seeds = vec!["typo".to_owned(), searcher.clone(), seed.clone()];

    let mut walk = GraphWalk::new(searcher.clone(), 2);
    let depth = walk.depth().unwrap();
    assert_eq!((depth.hop, depth.reported), (0, 0));
    walk.complete(vec![friend.clone()], &seeds);
    let depth = walk.depth().unwrap();
    assert_eq!((depth.hop, depth.reported), (1, 1));
    assert_eq!(walk.frontier, vec![friend]);
    walk.complete(vec![], &seeds);
    assert!(walk.depth().is_none());

    let mut walk = GraphWalk::new(searcher, 1);
    walk.complete(vec![], &seeds);
    assert_eq!(walk.frontier, vec![seed]);
    let depth = walk.depth().unwrap();
    assert_eq!((depth.hop, depth.reported), (1, OFF_GRAPH_SEARCH_RADIUS));
    walk.complete(vec![format!("{:064x}", 4)], &seeds);
    assert!(walk.depth().is_none(), "the last radius was searched");
}

#[test]
fn named_neighbours_are_taken_in_first_and_the_searcher_never() {
    let searcher = format!("{:064x}", 1);
    let neighbour = format!("{:064x}", 2);
    let mut request = params(&searcher, "needle", (0, 1));
    request.radius_one_seeds = vec![searcher.clone(), neighbour.clone()];
    let mut walk = GraphWalk::new(searcher, 1);
    let depth = walk.depth().unwrap();
    assert!(depth.is_reported(&request));
    assert!(!depth.is_last(&request));
    let mut layer = walk.begin_layer(depth, &request);
    assert!(layer.take_in(vec![format!("{:064x}", 9)], &mut walk.seen));
    assert_eq!(layer.candidates, vec![neighbour, format!("{:064x}", 9)]);
}

#[test]
fn write_relays_are_bounded_and_chosen_by_coverage() {
    let lists = vec![
        (
            "a".to_owned(),
            vec!["r1", "r2", "r3", "r4", "r5"]
                .into_iter()
                .map(str::to_owned)
                .collect(),
        ),
        ("b".to_owned(), vec!["r2".to_owned()]),
        ("c".to_owned(), vec!["r5".to_owned(), "r2".to_owned()]),
    ];
    let plan = choose_write_relays(&lists);
    let asked: Vec<(&str, Vec<&str>)> = plan
        .iter()
        .map(|group| {
            (
                group.relay.as_str(),
                group.authors.iter().map(String::as_str).collect(),
            )
        })
        .collect();
    assert_eq!(
        asked,
        vec![
            ("r2", vec!["a", "b", "c"]),
            ("r1", vec!["a"]),
            ("r3", vec!["a"]),
            ("r4", vec!["a"]),
            ("r5", vec!["c"]),
        ]
    );
    let many: Vec<(String, Vec<String>)> = (0..20)
        .map(|index| (format!("author-{index}"), vec![format!("relay-{index:02}")]))
        .collect();
    assert_eq!(choose_write_relays(&many).len(), 8);
}

#[test]
fn a_fetched_profile_fills_the_record_that_waits_for_it() {
    let bare = |id: &str| UserDirectoryRecord {
        profile: None,
        ..record_named(id, "")
    };
    let (resolved, mut pending) =
        split_by_profile(vec![record_named("a", "x"), bare("b"), bare("c")]);
    assert_eq!(resolved.len(), 1);
    assert_eq!(count_unresolved(&pending), 2);
    replace_resolved_profiles(
        &mut pending,
        &vec![record_named("b", "old"), record_named("b", "new"), bare("c")],
    );
    assert_eq!(count_unresolved(&pending), 1);
    assert_eq!(
        pending[0].profile.as_ref().unwrap().name,
        Some("new".to_owned())
    );
    assert_eq!(pending[1].account_id_hex, "c");
}

#[test]
fn exactly_white_space_is_trimmed_around_a_query() {
    let mut trimmed = Vec::new();
    for code in 0..=0x10ffff_u32 {
        let Some(c) = char::from_u32(code) else {
            continue;
        };
        let query = params("searcher", &format!("{c}x y{c}"), (0, 1)).normalized_query();
        if query == "x y" {
            trimmed.push(code);
        }
    }
    let mut expected: Vec<u32> = (0x9..=0xd).collect();
    expected.extend([0x20, 0x85, 0xa0, 0x1680]);
    expected.extend(0x2000..=0x200a);
    expected.extend([0x2028, 0x2029, 0x202f, 0x205f, 0x3000]);
    assert_eq!(trimmed, expected);
}
