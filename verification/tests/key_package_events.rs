use marmot_app::directory::app_state::{AccountState, DirectoryConfig, MarmotApp};
use marmot_app::directory::cache::DirectoryCache;
use marmot_app::directory::entry::DirectoryKeyPackage;
use marmot_app::directory::key_packages::{
    key_package_content,
    account_key_package_record_from_fetched, fresh_or_cached_key_package,
    key_package_from_hex_with_optional_source, key_package_from_record,
    latest_fresh_key_package_from_records, parse_key_package_event_id_hex,
    publish_endpoints_from_bootstrap, validated_cached_key_package, write_id,
    AccountRelayListBootstrap, KeyPackageEventRecord, KeyPackageMetadata, ProtocolProfile,
};
use marmot_app::directory::member_run::MemberRun;
use marmot_app::directory::members::{
    validate_member_key_package_current, KeyPackageDecodings, MemberResolutionPurpose,
};
use marmot_app::directory::members_fetch::apply_batch_lists;
use marmot_app::directory::members_packages::{
    assemble_member_key_packages, open_members, order_positions,
};
use marmot_app::directory::records::{
    AccountRelayListStatus, DirectoryFreshness, RelayEvent, RelayEventRecord, RelayListState,
    KIND_MARMOT_KEY_PACKAGE, KIND_NIP65_RELAY_LIST,
};
use marmot_app::directory::self_nip65::{
    admit_self_nip65_event, choose_self_nip65_event, strict_nip65_query, StrictRecord,
};
use marmot_app::error::{AppError, MissingRelayListKind};
use marmot_app::ids::MessageId;

const NOW: u64 = 1_000;

fn id(value: u8) -> String {
    format!("{value:064x}")
}

fn metadata(author: u8) -> KeyPackageMetadata {
    KeyPackageMetadata {
        ciphersuite: 1,
        mls_extensions: vec![0xf2ee, 0x000a],
        mls_proposals: vec![],
        app_components: vec![0x0001, 0x8001],
        credential_identity_hex: id(author),
        key_package_ref_hex: "ab".to_owned(),
        protocol_profile: ProtocolProfile::Current,
        not_before: 10,
        not_after: 2_000,
    }
}

fn tag(values: &[&str]) -> Vec<String> {
    values.iter().map(|value| (*value).to_owned()).collect()
}

fn event(author: u8, created_at: u64, byte: &str) -> KeyPackageEventRecord {
    KeyPackageEventRecord {
        record: RelayEventRecord {
            event: RelayEvent {
                id: byte.repeat(32),
                pubkey: id(author),
                kind: KIND_MARMOT_KEY_PACKAGE,
                created_at,
                content: "AQI=".to_owned(),
                tags: vec![
                    tag(&["mls_protocol_version", "1.0"]),
                    tag(&["d", "slot"]),
                    tag(&["i", "ab"]),
                    tag(&["mls_ciphersuite", "0x0001"]),
                    tag(&["mls_extensions", "0x000a", "0xf2ee"]),
                    tag(&["mls_proposals"]),
                    tag(&["app_components", "0x8001"]),
                ],
            },
            endpoints: vec![
                "wss://a.example".to_owned(),
                "wss://a.example".to_owned(),
            ],
            relay_list: None,
        },
        metadata: Ok(metadata(author)),
    }
}

fn refusal(record: KeyPackageEventRecord) -> String {
    match key_package_from_record(record) {
        Err(AppError::InvalidKeyPackageEvent(text)) => text,
        Err(_) => panic!("another error"),
        Ok(_) => panic!("the event is read"),
    }
}

fn replaced(index: usize, values: &[&str]) -> KeyPackageEventRecord {
    let mut record = event(2, 5, "11");
    record.record.event.tags[index] = tag(values);
    record
}

#[test]
fn a_matching_event_is_read() {
    let fetched = key_package_from_record(event(2, 5, "11")).expect("readable");
    assert_eq!(fetched.account_id_hex, id(2));
    assert_eq!(fetched.key_package.bytes, vec![1, 2]);
    assert_eq!(
        fetched.key_package.source_event_id,
        Some(MessageId::new(vec![0x11; 32]))
    );
    assert_eq!(fetched.key_package_id, "slot");
    assert_eq!(fetched.key_package_ref_hex, "ab");
    assert_eq!(fetched.source_relays, vec!["wss://a.example".to_owned()]);
    let record = account_key_package_record_from_fetched(fetched);
    assert_eq!(record.key_package_bytes, 2);
    assert!(record.relay && !record.local);
}

#[test]
fn each_fault_of_an_event_is_named() {
    assert_eq!(
        refusal(replaced(0, &["mls_protocol_version", "2.0"])),
        "invalid mls_protocol_version tag"
    );
    assert_eq!(refusal(replaced(0, &["other"])), "missing mls_protocol_version tag");
    assert_eq!(refusal(replaced(1, &["d", ""])), "missing d tag");
    assert_eq!(refusal(replaced(2, &["x"])), "missing i tag");
    assert_eq!(
        refusal(replaced(1, &["mls_protocol_version", "1.0"])),
        "duplicate mls_protocol_version tag"
    );
    assert_eq!(
        refusal(replaced(4, &["mls_extensions", "0x000a"])),
        "mls_extensions tag does not exactly match decoded KeyPackage metadata"
    );
    assert_eq!(
        refusal(replaced(4, &["mls_extensions", "0x000a", "0xf2ee", "0x000a"])),
        "mls_extensions tag does not exactly match decoded KeyPackage metadata"
    );
    assert_eq!(
        refusal(replaced(2, &["i", "cd"])),
        "i tag does not match decoded KeyPackageRef"
    );
    let mut record = event(2, 5, "11");
    record.record.event.content = String::new();
    assert_eq!(refusal(record), "empty key package content");
    let mut record = event(2, 5, "11");
    record.record.event.content = "?".to_owned();
    assert!(refusal(record).starts_with("invalid base64 content: "));
    let mut record = event(2, 5, "11");
    record.record.event.id = "11".to_owned();
    assert_eq!(refusal(record), "KeyPackage event id must be 32 bytes, got 1");
    let mut record = event(2, 5, "11");
    record.metadata = Ok(metadata(3));
    assert_eq!(
        refusal(record),
        "transport author does not match KeyPackage credential identity"
    );
    let mut record = event(2, 5, "11");
    record.metadata = Err("unreadable".to_owned());
    assert_eq!(refusal(record), "unreadable");
}

#[test]
fn an_event_id_is_trimmed_and_measured() {
    assert_eq!(
        parse_key_package_event_id_hex(&format!(" {} ", "AB".repeat(32))),
        Ok("ab".repeat(32))
    );
    assert_eq!(
        parse_key_package_event_id_hex("abcd"),
        Err(AppError::InvalidKeyPackageEvent(
            "KeyPackage event id must be 32 bytes, got 2".to_owned()
        ))
    );
    assert_eq!(
        parse_key_package_event_id_hex("xyz"),
        Err(AppError::InvalidHex)
    );
    assert_eq!(write_id(0x0a), "0x000a");
    assert_eq!(write_id(0xf2ee), "0xf2ee");
}

#[test]
fn the_newest_current_package_is_chosen() {
    let freshness = DirectoryFreshness::from_now(NOW, 0);
    let choose = |records| latest_fresh_key_package_from_records(&id(2), records, freshness);
    let mut legacy = event(2, 7, "33");
    legacy.metadata = Ok(KeyPackageMetadata {
        protocol_profile: ProtocolProfile::Legacy,
        ..metadata(2)
    });
    let future = event(2, NOW + 1, "44");
    let chosen = choose(vec![event(2, 5, "11"), event(2, 6, "22"), legacy, future]).expect("one");
    assert!(chosen.rejected_future);
    assert_eq!(chosen.value.expect("one").created_at, 6);
    let none = choose(vec![event(3, 5, "11")]).expect("nothing of this account");
    assert!(none.value.is_none() && !none.rejected_future);
    let mut broken = event(2, 6, "22");
    broken.metadata = Err("newest".to_owned());
    let mut older = event(2, 5, "11");
    older.metadata = Err("older".to_owned());
    assert!(matches!(
        choose(vec![older, broken]),
        Err(AppError::InvalidKeyPackageEvent(text)) if text == "newest"
    ));
}

fn cached() -> DirectoryKeyPackage {
    DirectoryKeyPackage {
        key_package_id: "slot".to_owned(),
        key_package_ref_hex: "ab".to_owned(),
        key_package_event_id: "11".repeat(32),
        key_package_hex: "0102".to_owned(),
        created_at: 5,
        source_relays: vec![],
    }
}

#[test]
fn a_cached_package_is_held_to_its_account() {
    let read = validated_cached_key_package(&id(2), &cached(), Ok(metadata(2))).expect("usable");
    assert_eq!(read.bytes, vec![1, 2]);
    let refused = |metadata| match validated_cached_key_package(&id(2), &cached(), metadata) {
        Err(AppError::InvalidKeyPackageEvent(text)) => text,
        _ => panic!("the package is refused"),
    };
    assert_eq!(
        refused(Ok(metadata(3))),
        "cached KeyPackage credential identity does not match directory account"
    );
    assert_eq!(
        refused(Ok(KeyPackageMetadata {
            protocol_profile: ProtocolProfile::Legacy,
            ..metadata(2)
        })),
        "strict cutover rejects legacy KeyPackages for new joins"
    );
    assert_eq!(
        refused(Ok(KeyPackageMetadata {
            key_package_ref_hex: "cd".to_owned(),
            ..metadata(2)
        })),
        "cached KeyPackage ref does not match decoded KeyPackageRef"
    );
    let bare = key_package_from_hex_with_optional_source("0a", "").expect("hex");
    assert_eq!(bare.bytes, vec![10]);
    assert_eq!(bare.source_event_id, None);
    assert!(matches!(
        key_package_from_hex_with_optional_source("0", ""),
        Err(AppError::InvalidHex)
    ));
}

#[test]
fn the_cache_answers_only_where_newer_packages_lie_in_the_future() {
    let freshness = DirectoryFreshness::from_now(NOW, 0);
    let entry = || {
        let mut app = app();
        let mut entry = app.empty_directory_record(&id(2));
        entry.key_package = Some(cached());
        app.save_directory_entry(entry, 1).expect("saved");
        app.directory_entry_for_account_id(&id(2)).expect("readable")
    };
    let select = |records| {
        latest_fresh_key_package_from_records(&id(2), records, freshness).expect("selected")
    };
    let future = select(vec![event(2, NOW + 1, "44")]);
    let fetched = fresh_or_cached_key_package(&id(2), future, entry(), Ok(metadata(2)));
    assert_eq!(fetched.expect("the cached one").created_at, 5);
    assert!(matches!(
        fresh_or_cached_key_package(&id(2), select(vec![]), entry(), Ok(metadata(2))),
        Err(AppError::MissingKeyPackage(account)) if account == id(2)
    ));
}

#[test]
fn publishing_prefers_the_bootstrap_relays() {
    let mut bootstrap = AccountRelayListBootstrap {
        default_relays: vec!["wss://default.example".to_owned()],
        bootstrap_relays: vec![],
    };
    assert_eq!(
        publish_endpoints_from_bootstrap(&bootstrap),
        vec!["wss://default.example".to_owned()]
    );
    bootstrap.bootstrap_relays = vec!["wss://boot.example".to_owned()];
    assert_eq!(
        publish_endpoints_from_bootstrap(&bootstrap),
        vec!["wss://boot.example".to_owned()]
    );
}

fn strict(created_at: u64, byte: &str, endpoint: &str) -> StrictRecord {
    StrictRecord {
        record: RelayEventRecord {
            event: RelayEvent {
                id: byte.repeat(32),
                pubkey: id(2),
                kind: KIND_NIP65_RELAY_LIST,
                created_at,
                content: String::new(),
                tags: vec![],
            },
            endpoints: vec![endpoint.to_owned()],
            relay_list: Some(RelayListState::empty()),
        },
        signature_valid: true,
    }
}

#[test]
fn a_strict_read_adopts_the_newest_list_with_its_carriers() {
    let freshness = DirectoryFreshness::from_now(NOW, 0);
    let chosen = choose_self_nip65_event(
        &id(2),
        freshness,
        vec![
            strict(5, "11", "wss://b.example"),
            strict(6, "22", "wss://b.example"),
            strict(6, "22", "wss://a.example"),
        ],
    )
    .expect("chosen")
    .expect("one");
    assert_eq!(chosen.event.id, "22".repeat(32));
    assert_eq!(
        chosen.endpoints,
        vec!["wss://a.example".to_owned(), "wss://b.example".to_owned()]
    );
    assert!(matches!(
        admit_self_nip65_event(chosen, &vec![]),
        Err(AppError::MissingRelayLists(kinds)) if kinds == vec![MissingRelayListKind::Nip65]
    ));
    assert!(choose_self_nip65_event(&id(2), freshness, vec![])
        .expect("nothing is no fault")
        .is_none());
    assert_eq!(strict_nip65_query(&id(2)).expect("an identity").limit, 12);
    assert_eq!(
        strict_nip65_query("nobody"),
        Err(AppError::InvalidPublicKey)
    );
}

#[test]
fn each_fault_of_a_strict_read_is_named() {
    let freshness = DirectoryFreshness::from_now(NOW, 0);
    let fault = |record: StrictRecord| match choose_self_nip65_event(&id(2), freshness, vec![record])
    {
        Err(AppError::RelayDirectory(text)) => text,
        _ => panic!("the read is refused"),
    };
    let prefix = "strict setup NIP-65 discovery ";
    let mut record = strict(5, "11", "wss://a.example");
    record.record.event.pubkey = id(3);
    assert_eq!(fault(record), format!("{prefix}returned an unrelated event"));
    let mut record = strict(5, "11", "wss://a.example");
    record.signature_valid = false;
    assert_eq!(
        fault(record),
        format!("{prefix}returned an invalid signature")
    );
    assert_eq!(
        fault(strict(NOW + 1, "11", "wss://a.example")),
        format!("{prefix}observed a future-dated event")
    );
    let mut record = strict(5, "11", "wss://a.example");
    record.record.endpoints = vec![];
    assert_eq!(fault(record), format!("{prefix}returned an unscoped event"));
    let mut record = strict(5, "11", "wss://a.example");
    record.record.relay_list = None;
    assert_eq!(
        fault(record),
        format!("{prefix}returned a malformed relay list")
    );
    let full: Vec<StrictRecord> = (0..12)
        .map(|i| strict(5, &format!("{i:02x}"), "wss://a.example"))
        .collect();
    assert!(matches!(
        choose_self_nip65_event(&id(2), freshness, full),
        Err(AppError::RelayDirectory(text))
            if text == format!("{prefix}reached its bounded history capacity")
    ));
}

fn app() -> MarmotApp {
    let mut app = MarmotApp::new(DirectoryConfig {
        relay_urls: vec![],
        directory_relay_urls: vec!["wss://directory.example".to_owned()],
        directory_max_future_skew: 0,
        directory_search_fallback_seeds: vec![],
        max_cached_identity_page_size: 10,
        search_max_visited: 10,
        search_max_frontier: 10,
    });
    app.accounts.push(AccountState {
        label: "alice".to_owned(),
        account_id_hex: id(1),
        local_signing: true,
        external_signing: false,
        signed_out: false,
        cache: DirectoryCache::new(),
        lifecycle: None,
        current_key_package: None,
        nip65_generation: None,
    });
    app
}

#[test]
fn a_fetched_package_is_remembered() {
    let mut app = app();
    let lists = AccountRelayListStatus::empty();
    let none = || Err("nothing is cached".to_owned());
    let fetched = app
        .finish_key_package_fetch(&id(2), vec![event(2, 5, "11")], &lists, none(), NOW)
        .expect("fetched");
    assert_eq!(fetched.key_package.bytes, vec![1, 2]);
    let held = app
        .directory_entry_for_account_id(&id(2))
        .expect("readable")
        .expect("known")
        .key_package
        .expect("remembered");
    assert_eq!(held.key_package_hex, "0102");
    assert!(matches!(
        app.finish_key_package_fetch(&id(3), vec![], &lists, none(), NOW),
        Err(AppError::MissingKeyPackage(account)) if account == id(3)
    ));
}

#[test]
fn a_member_package_must_be_in_its_lifetime() {
    let check = |now| validate_member_key_package_current(&id(2), &Ok(metadata(2)), now);
    assert_eq!(check(10), Ok(()));
    assert_eq!(check(2_000), Ok(()));
    let late = Err(AppError::InvalidKeyPackageEvent(
        "member KeyPackage is outside its current lifetime".to_owned(),
    ));
    assert_eq!(check(9), late);
    assert_eq!(check(2_001), late);
    assert_eq!(
        validate_member_key_package_current(&id(3), &Ok(metadata(2)), 10),
        Err(AppError::InvalidKeyPackageEvent(
            "member KeyPackage identity or profile is invalid".to_owned()
        ))
    );
}

#[test]
fn a_roster_is_resolved_once_each_and_in_order() {
    let mut app = app();
    let mut table = KeyPackageDecodings::new();
    table.note(vec![1, 2], Ok(metadata(2)));
    let targets = app
        .member_targets(&vec![id(3), id(2), id(3)])
        .expect("identities");
    assert_eq!(targets.len(), 2);
    assert!(matches!(
        app.member_targets(&vec!["nobody".to_owned()]),
        Err(AppError::InvalidPublicKey)
    ));
    let purpose = MemberResolutionPurpose::Commit;
    let reused = app
        .reuse_member_key_packages(&targets, &table, purpose, NOW, 0)
        .expect("readable");
    assert_eq!(reused.unresolved, vec![0, 1]);
    assert_eq!(reused.reused_members, 0);
    let requests = app.plan_member_list_requests(&targets, &reused.unresolved);
    assert_eq!(requests.len(), 1);
    assert_eq!(requests[0].queries.len(), 2);
    assert_eq!(requests[0].queries[0].limit, 8);
    let mut outcomes = reused.outcomes;
    let open = open_members(&reused.unresolved, &outcomes);
    let usable = vec![vec![], vec!["wss://two.example".to_owned()]];
    let requests = app.plan_member_package_requests(&targets, &usable, &open, &mut outcomes);
    assert_eq!(requests.len(), 2);
    assert_eq!(
        requests[0].endpoints,
        vec!["wss://directory.example".to_owned()]
    );
    assert_eq!(requests[0].indices, vec![0]);
    assert_eq!(requests[1].query.limit, 12);
    let mut fallback = vec![];
    app.serve_member_batch(
        &targets,
        &vec![0, 1],
        &vec![event(2, 5, "11")],
        &table,
        purpose,
        &mut outcomes,
        &mut fallback,
        NOW,
        0,
    );
    assert_eq!(fallback, vec![0]);
    let alone = app.serve_member_alone(
        &targets[0],
        Err("refused".to_owned()),
        &table,
        purpose,
        NOW,
        0,
    );
    assert!(matches!(
        &alone,
        Err(AppError::RelayDirectory(text)) if text == "fetch key packages: refused"
    ));
    outcomes[0] = Some(alone);
    assert!(
        matches!(
            assemble_member_key_packages(&targets, outcomes, 3, 0, 2),
            Err(AppError::RelayDirectory(_))
        ),
        "the first member that is not resolved decides"
    );
    let again = app
        .member_targets(&vec![id(2)])
        .expect("an identity");
    let reused = app
        .reuse_member_key_packages(&again, &table, purpose, NOW, 0)
        .expect("readable");
    assert_eq!(reused.reused_members, 1);
    let resolved =
        assemble_member_key_packages(&again, reused.outcomes, 1, 1, 0).expect("complete");
    assert_eq!(resolved.key_packages[0].bytes, vec![1, 2]);
    assert_eq!(resolved.stats.unique_members, 1);
}

#[test]
fn prewarming_keeps_packages_apart_from_the_directory() {
    let mut app = app();
    let mut table = KeyPackageDecodings::new();
    table.note(vec![1, 2], Ok(metadata(2)));
    let targets = app.member_targets(&vec![id(2)]).expect("an identity");
    let served = app.serve_member_alone(
        &targets[0],
        Ok(vec![event(2, 5, "11")]),
        &table,
        MemberResolutionPurpose::Prewarm,
        NOW,
        0,
    );
    assert_eq!(served.expect("served").bytes, vec![1, 2]);
    assert!(app.prewarmed.holds(&id(2)));
    assert_eq!(app.directory_entry_for_account_id(&id(2)), Ok(None));
    let reused = app
        .reuse_member_key_packages(
            &targets,
            &table,
            MemberResolutionPurpose::Commit,
            NOW,
            1,
        )
        .expect("readable");
    assert_eq!(reused.reused_members, 1);
}

#[test]
fn answers_fill_the_lists_of_their_own_member() {
    let app = app();
    let mut targets = app.member_targets(&vec![id(2), id(3)]).expect("identities");
    let record = RelayEventRecord {
        event: RelayEvent {
            id: "11".repeat(32),
            pubkey: id(3),
            kind: KIND_NIP65_RELAY_LIST,
            created_at: 5,
            content: String::new(),
            tags: vec![],
        },
        endpoints: vec![],
        relay_list: Some(RelayListState {
            relays: vec!["wss://three.example".to_owned()],
            read_relays: vec![],
            write_relays: vec![],
        }),
    };
    let asked = vec!["wss://asked.example".to_owned()];
    let freshness = DirectoryFreshness::from_now(NOW, 0);
    apply_batch_lists(&mut targets, &vec![0, 1], &vec![record], &asked, freshness);
    assert!(targets[0].relay_lists.nip65.relays.is_empty());
    assert_eq!(
        targets[1].relay_lists.nip65.relays,
        vec!["wss://three.example".to_owned()]
    );
    assert_eq!(order_positions(&vec![3, 1, 3, 9], 5), vec![1, 3]);
}

fn decodings() -> KeyPackageDecodings {
    let mut table = KeyPackageDecodings::new();
    for author in [2, 3, 4] {
        table.note(vec![1, 2], Ok(metadata(author)));
    }
    table
}

fn own_list(author: u8) -> RelayEventRecord {
    RelayEventRecord {
        event: RelayEvent {
            id: "11".repeat(32),
            pubkey: id(author),
            kind: KIND_NIP65_RELAY_LIST,
            created_at: 5,
            content: String::new(),
            tags: vec![],
        },
        endpoints: vec![],
        relay_list: Some(RelayListState {
            relays: vec![format!("wss://{author}.example")],
            read_relays: vec![],
            write_relays: vec![],
        }),
    }
}

#[test]
fn a_roster_is_resolved_from_its_names_to_its_packages() {
    let mut app = app();
    let mut table = KeyPackageDecodings::new();
    table.note(vec![1, 2], Ok(metadata(2)));
    let freshness = DirectoryFreshness::from_now(NOW, 0);
    let mut run = MemberRun::begin(
        &mut app,
        &vec![id(2), id(2)],
        &table,
        MemberResolutionPurpose::Commit,
        NOW,
        0,
    )
    .expect("a roster");
    assert_eq!(run.account_ids(), vec![id(2)]);
    assert_eq!(run.asked(), vec!["wss://directory.example".to_owned()]);
    let requests = run.list_requests(&app);
    assert_eq!(requests.len(), 1);
    let left = run.lists_answered(
        requests.into_iter().next().expect("one").indices,
        Ok(vec![own_list(2)]),
        freshness,
    );
    assert!(left.is_empty());
    assert_eq!(
        run.member_relays(),
        vec![vec!["wss://2.example".to_owned()]]
    );
    let usable = run.member_relays();
    let requests = run.package_requests(&app, usable);
    assert_eq!(requests.len(), 1);
    assert_eq!(
        requests[0].endpoints,
        vec!["wss://2.example".to_owned()]
    );
    run.packages_answered(&mut app, vec![0], Ok(vec![event(2, 5, "11")]), &table, NOW, 0);
    assert!(run.fallback_requests(&app).is_empty());
    let resolved = run.finish().expect("complete");
    assert_eq!(resolved.key_packages.len(), 1);
    assert_eq!(resolved.stats.requested_members, 2);
    assert_eq!(resolved.stats.unique_members, 1);
    assert_eq!(resolved.stats.reused_members, 0);
    assert_eq!(resolved.stats.network_resolved_members, 1);
    let again = MemberRun::begin(
        &mut app,
        &vec![id(2)],
        &table,
        MemberResolutionPurpose::Commit,
        NOW,
        0,
    )
    .expect("a roster");
    assert!(again.list_requests(&app).is_empty());
    assert_eq!(again.finish().expect("reused").stats.reused_members, 1);
}

#[test]
fn members_that_a_batch_does_not_serve_are_asked_for_alone() {
    let mut app = app();
    let table = decodings();
    let freshness = DirectoryFreshness::from_now(NOW, 0);
    let mut run = MemberRun::begin(
        &mut app,
        &vec![id(2), id(3), id(4)],
        &table,
        MemberResolutionPurpose::Prewarm,
        NOW,
        0,
    )
    .expect("a roster");
    let request = run.list_requests(&app).into_iter().next().expect("one");
    assert_eq!(request.indices, vec![0, 1, 2]);
    let left = run.lists_answered(request.indices, Err("too many".to_owned()), freshness);
    assert_eq!(left.len(), 3);
    assert_eq!(left[1].indices, vec![1]);
    assert_eq!(left[1].queries[0].authors, vec![id(3)]);
    assert_eq!(left[1].queries[0].limit, 4);
    run.list_answered_alone(0, Ok(vec![own_list(2)]), freshness);
    run.list_answered_alone(1, Ok(vec![]), freshness);
    run.list_answered_alone(2, Err("refused".to_owned()), freshness);
    let usable = run.member_relays();
    let requests = run.package_requests(&app, usable);
    let asked: Vec<Vec<usize>> = requests
        .iter()
        .map(|request| request.indices.clone())
        .collect();
    assert_eq!(
        asked,
        vec![vec![0], vec![1]],
        "the member whose lists could not be read is not asked for"
    );
    run.packages_answered(&mut app, vec![1], Err("refused".to_owned()), &table, NOW, 0);
    run.packages_answered(&mut app, vec![0], Ok(vec![]), &table, NOW, 0);
    let alone = run.fallback_requests(&app);
    let order: Vec<Vec<usize>> = alone
        .iter()
        .map(|request| request.indices.clone())
        .collect();
    assert_eq!(order, vec![vec![0], vec![1]], "in the order of the roster");
    assert_eq!(alone[0].query.limit, 12);
    run.package_answered_alone(&mut app, 0, Ok(vec![event(2, 5, "11")]), &table, NOW, 0);
    run.package_answered_alone(&mut app, 1, Err("refused".to_owned()), &table, NOW, 0);
    assert!(matches!(
        run.finish(),
        Err(AppError::RelayDirectory(text)) if text == "fetch key packages: refused"
    ));
    assert!(app.prewarmed.holds(&id(2)));
}

#[test]
fn a_roster_with_a_name_of_nobody_is_refused() {
    let mut app = app();
    assert!(matches!(
        MemberRun::begin(
            &mut app,
            &vec!["nobody".to_owned()],
            &decodings(),
            MemberResolutionPurpose::Commit,
            NOW,
            0,
        ),
        Err(AppError::InvalidPublicKey)
    ));
}

#[test]
fn every_resolved_package_is_of_the_member_at_its_place() {
    let mut app = app();
    let mut table = KeyPackageDecodings::new();
    table.note(vec![1, 2], Ok(metadata(2)));
    let freshness = DirectoryFreshness::from_now(NOW, 0);
    let mut first = MemberRun::begin(
        &mut app,
        &vec![id(2)],
        &table,
        MemberResolutionPurpose::Commit,
        NOW,
        0,
    )
    .expect("a roster");
    let _ = first.lists_answered(vec![0], Ok(vec![own_list(2)]), freshness);
    let usable = first.member_relays();
    let _ = first.package_requests(&app, usable);
    first.packages_answered(&mut app, vec![0], Ok(vec![event(2, 5, "11")]), &table, NOW, 0);
    let resolved = first.finish().expect("complete");
    for package in &resolved.key_packages {
        let decoded = table.metadata_of(&package.bytes).expect("decoded");
        assert_eq!(decoded.credential_identity_hex, id(2));
    }
    assert_eq!(
        resolved.stats.unique_members,
        resolved.stats.reused_members + resolved.stats.network_resolved_members
    );
    let mut stranger = KeyPackageDecodings::new();
    stranger.note(vec![1, 2], Ok(metadata(3)));
    let again = MemberRun::begin(
        &mut app,
        &vec![id(2)],
        &stranger,
        MemberResolutionPurpose::Commit,
        NOW,
        0,
    )
    .expect("a roster");
    assert_eq!(
        again.finish().map(|resolved| resolved.stats),
        Err(AppError::MissingKeyPackage(id(2))),
        "a package of another identity is not reused"
    );
}

#[test]
fn the_content_of_an_event_is_read_as_base64() {
    let mut record = event(2, 5, "11").record;
    assert_eq!(key_package_content(&record), Ok(vec![1, 2]));
    record.event.content = "AQI".to_owned();
    assert!(key_package_content(&record).is_err());
}
