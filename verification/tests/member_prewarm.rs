use marmot_app::directory::key_packages::{FetchedKeyPackage, KeyPackage, ProtocolProfile};
use marmot_app::directory::member_cache::{
    MemberKeyPackagePrewarmCache, MEMBER_PREWARM_CACHE_LIMIT, MEMBER_PREWARM_CACHE_TTL_MS,
};
use marmot_app::directory::records::AccountRelayListStatus;

fn fetched(account_id_hex: String) -> FetchedKeyPackage {
    FetchedKeyPackage {
        account_id_hex,
        key_package: KeyPackage {
            bytes: vec![1],
            source_event_id: None,
            protocol_profile: ProtocolProfile::Legacy,
        },
        key_package_id: "slot".to_owned(),
        key_package_ref_hex: "ref".to_owned(),
        key_package_event_id: String::new(),
        created_at: 1,
        source_relays: Vec::new(),
        relay_lists: AccountRelayListStatus::empty(),
    }
}

#[test]
fn composition_prewarm_cache_is_bounded_and_expires_entries() {
    let now: u64 = 1_000_000_000;
    let mut cache = MemberKeyPackagePrewarmCache::new();
    for index in 0..MEMBER_PREWARM_CACHE_LIMIT {
        cache.insert(fetched(format!("{index:064x}")), now);
    }
    // The newest entry is as old as one that just expired.
    let newest = format!("{:064x}", MEMBER_PREWARM_CACHE_LIMIT);
    cache.insert(
        fetched(newest.clone()),
        now - MEMBER_PREWARM_CACHE_TTL_MS - 1_000,
    );
    assert_eq!(cache.len(), MEMBER_PREWARM_CACHE_LIMIT);
    assert!(cache.holds(&newest));
    assert!(cache.get(&format!("{:064x}", 0), now).is_none());

    assert!(cache.get(&newest, now).is_none());
    assert!(!cache.holds(&newest));

    let retained = format!("{:064x}", MEMBER_PREWARM_CACHE_LIMIT - 1);
    assert!(cache.get(&retained, now).is_some());
    cache.remove(&retained);
    assert!(cache.get(&retained, now).is_none());
    assert!(!cache.holds(&retained));
}

#[test]
fn an_entry_is_kept_to_the_end_of_its_time() {
    let mut cache = MemberKeyPackagePrewarmCache::new();
    let account = format!("{:064x}", 7);
    cache.insert(fetched(account.clone()), 10);
    let kept = cache.get(&account, 10 + MEMBER_PREWARM_CACHE_TTL_MS);
    assert_eq!(kept.map(|package| package.key_package.bytes), Some(vec![1]));
    assert!(cache
        .get(&account, 11 + MEMBER_PREWARM_CACHE_TTL_MS)
        .is_none());
}

#[test]
fn a_later_package_of_an_account_takes_the_place_of_its_earlier_one() {
    let mut cache = MemberKeyPackagePrewarmCache::new();
    for index in 0..MEMBER_PREWARM_CACHE_LIMIT {
        cache.insert(fetched(format!("{index:064x}")), 10);
    }
    let first = format!("{:064x}", 0);
    let mut again = fetched(first.clone());
    again.key_package.bytes = vec![2];
    cache.insert(again, 11);
    assert_eq!(cache.len(), MEMBER_PREWARM_CACHE_LIMIT, "one of an account");
    cache.insert(fetched("new".to_owned()), 12);
    assert_eq!(cache.len(), MEMBER_PREWARM_CACHE_LIMIT);
    assert!(!cache.holds(&format!("{:064x}", 1)), "the oldest left");
    let kept = cache.get(&first, 12).expect("came again");
    assert_eq!(kept.key_package.bytes, vec![2]);
}
