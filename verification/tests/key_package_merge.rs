use marmot_app::directory::merge::{merge_key_package_records, AccountKeyPackageRecord};
use std::collections::BTreeSet;

fn record(event: &str, reference: &str, local: bool, relay: bool) -> AccountKeyPackageRecord {
    AccountKeyPackageRecord {
        account_label: local.then_some("device".to_owned()),
        account_id_hex: "account".to_owned(),
        key_package_id: format!("slot-{event}-{reference}"),
        key_package_ref_hex: reference.to_owned(),
        key_package_event_id: event.to_owned(),
        published_at: event.len() as u64,
        key_package_bytes: 123,
        source_relays: relay
            .then_some("wss://relay.example".to_owned())
            .into_iter()
            .collect(),
        local,
        relay,
    }
}

#[test]
fn local_and_relay_copy_merge_without_losing_distinct_relay_events() {
    let records = merge_key_package_records(vec![
        record("", "ref", true, false),
        record("event-b", "ref", false, true),
        record("event-a", "ref", false, true),
    ]);
    assert_eq!(records.len(), 2);
    assert!(records.iter().all(|record| record.local && record.relay));
    assert_eq!(
        records
            .iter()
            .map(|record| record.key_package_event_id.as_str())
            .collect::<BTreeSet<_>>(),
        BTreeSet::from(["event-a", "event-b"])
    );
}

#[test]
fn empty_identity_records_only_merge_by_stable_slot() {
    let records = merge_key_package_records(vec![
        record("", "", true, false),
        record("", "", false, true),
    ]);
    assert_eq!(records.len(), 2);
}

#[test]
fn merge_is_independent_of_input_order() {
    let input = || {
        vec![
            record("", "ref", true, false),
            record("event-b", "ref", false, true),
            record("event-a", "ref", false, true),
        ]
    };
    let expected = merge_key_package_records(input());
    let actual = merge_key_package_records(input().into_iter().rev().collect());
    assert_eq!(actual, expected);
}

#[test]
fn merged_relays_are_ascending_and_listed_once() {
    let mut first = record("event", "ref", false, true);
    first.source_relays = vec!["wss://b".to_owned(), "wss://a".to_owned()];
    let mut second = record("event", "ref", false, true);
    second.source_relays = vec!["wss://c".to_owned(), "wss://a".to_owned()];
    let merged = merge_key_package_records(vec![first, second]);
    assert_eq!(merged.len(), 1);
    assert_eq!(
        merged[0].source_relays,
        vec![
            "wss://a".to_owned(),
            "wss://b".to_owned(),
            "wss://c".to_owned()
        ]
    );
}

#[test]
fn merging_what_was_merged_changes_nothing() {
    let input = || {
        vec![
            record("event-a", "ref-a", true, false),
            record("event-b", "ref-b", false, true),
            record("event-b", "ref-b", true, false),
            record("event-cc", "ref-c", true, true),
            record("event-d", "ref-a", true, false),
        ]
    };
    let once = merge_key_package_records(input());
    let again = merge_key_package_records(merge_key_package_records(input()));
    assert_eq!(again, once);
    assert_eq!(once.len(), 3);
    assert!(once
        .iter()
        .any(|record| record.key_package_event_id == "event-b" && record.relay && record.local));
}
