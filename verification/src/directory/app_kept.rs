//! Every operation on the directory leaves each entry under its own identity.

use crate::directory::app_discovery::{findings_spread, with_finding, with_findings, FindingContent};
use crate::directory::app_entry::{entry_named, Gate};
use crate::directory::app_fetch::{offered_package, with_fetched_package};
use crate::directory::app_ingest::{
    entry_with_package, freshness_at, ingested, with_admitted_package, with_live_package,
    IngestContent,
};
use crate::directory::app_laws::{
    law_saving_keeps_the_directory, law_search_edges_keep_the_directory, users_kept, well_kept,
};
use crate::directory::app_remember::{
    entry_or_empty, saved_entry, with_follow_list, with_follows, with_newer_profile,
    with_observed_lists, with_profile, with_relay_lists, with_user, with_users,
    FollowListContent,
};
use crate::directory::app_save::saved;
use crate::directory::app_state::{standing, AccountContent, AppContent};
use crate::directory::cache::{
    scrubbed, with_account, with_entry, with_graph_follows, with_graph_record, CacheContent,
    CachedAccountContent, GraphRecordContent,
};
use crate::directory::entry::{EntryContent, ProfileContent};
use crate::directory::key_packages::{FetchedContent, MetadataContent, PackageRecordContent};
use crate::directory::records::RelayListStatusContent;
use crate::text::public_key_hex;
use vstd::prelude::*;

verus! {

/// Whatever is stored in a cache, taken back or taken away, its entries stay under
/// their own identities.
pub proof fn law_cache_stays_kept(
    cache: CacheContent,
    entry: EntryContent,
    reason: Seq<char>,
    now: i64,
    cached: CachedAccountContent,
    record: GraphRecordContent,
    account: Seq<char>,
    npub: Seq<char>,
    follows: Seq<Seq<char>>,
)
    requires
        users_kept(cache.users),
    ensures
        users_kept(with_entry(cache, entry, reason, now).users),
        users_kept(with_account(cache, cached).users),
        users_kept(with_graph_record(cache, record).users),
        users_kept(with_graph_follows(cache, account, npub, follows).users),
        cache.users.dom().contains(account) ==> users_kept(
            cache.users.insert(account, scrubbed(cache.users[account])),
        ),
{
}

/// Saving any entry keeps the directory well kept.
proof fn lemma_saves_keep(app: AppContent, now: i64)
    requires
        well_kept(app),
    ensures
        forall|entry: EntryContent, reason: Seq<char>|
            (#[trigger] saved_entry(app, entry, reason, now)) is Ok ==> well_kept(
                saved_entry(app, entry, reason, now)->Ok_0,
            ),
{
    assert forall|entry: EntryContent, reason: Seq<char>|
        (#[trigger] saved_entry(app, entry, reason, now)) is Ok implies well_kept(
        saved_entry(app, entry, reason, now)->Ok_0,
    ) by {
        law_saving_keeps_the_directory(
            app,
            entry,
            reason,
            now,
            Gate::Given(standing(app, entry.account_id_hex) is Admitted),
        );
    }
}

/// Remembering an account, its relay lists or its profile keeps the directory well
/// kept.
pub proof fn law_remembering_keeps_the_directory(
    app: AppContent,
    text: Seq<char>,
    lists: RelayListStatusContent,
    profile: ProfileContent,
    reason: Seq<char>,
    now: i64,
)
    requires
        well_kept(app),
    ensures
        with_relay_lists(app, text, lists, now) matches Ok(after) ==> well_kept(after),
        with_observed_lists(app, text, lists, now) matches Ok(after) ==> well_kept(after),
        with_user(app, text, reason, now) matches Ok(after) ==> well_kept(after),
        with_profile(app, text, profile, now) matches Ok(after) ==> well_kept(after),
        with_newer_profile(app, text, profile, now) matches Ok(after) ==> well_kept(after),
{
    lemma_saves_keep(app, now);
}

/// Remembering accounts, or a contact list and everyone on it, keeps the directory well
/// kept, however far it comes.
pub proof fn law_remembering_many_keeps_the_directory(
    app: AppContent,
    text: Seq<char>,
    ids: Seq<Seq<char>>,
    list: FollowListContent,
    now: i64,
)
    requires
        well_kept(app),
    ensures
        well_kept(with_users(app, ids, now).0),
        well_kept(with_follow_list(app, text, list, now).0),
{
    lemma_users_keep(app, ids, now);
    lemma_saves_keep(app, now);
    if let Ok(entry) = entry_or_empty(app, text, Gate::Inspect) {
        if let Ok(after) = saved_entry(app, with_follows(entry, list), "directory"@, now) {
            lemma_users_keep(after, list.follows, now);
        }
    }
}

proof fn lemma_users_keep(app: AppContent, ids: Seq<Seq<char>>, now: i64)
    requires
        well_kept(app),
    ensures
        well_kept(with_users(app, ids, now).0),
    decreases ids.len(),
{
    if ids.len() > 0 {
        lemma_users_keep(app, ids.drop_last(), now);
        lemma_saves_keep(with_users(app, ids.drop_last(), now).0, now);
    }
}

/// Remembering a key package keeps the directory well kept.
pub proof fn law_remembered_package_keeps_the_directory(
    app: AppContent,
    fetched: FetchedContent,
    account: Option<int>,
    now: i64,
)
    requires
        well_kept(app),
    ensures
        well_kept(with_admitted_package(app, fetched, account, now).0),
        well_kept(with_live_package(app, fetched, now).0),
{
    lemma_admitted_keeps(app, fetched, true, now);
    lemma_admitted_keeps(app, fetched, false, now);
}

proof fn lemma_admitted_keeps(app: AppContent, fetched: FetchedContent, admitted: bool, now: i64)
    requires
        well_kept(app),
    ensures
        forall|account: Option<int>|
            admitted == (account is Some) ==> well_kept(
                (#[trigger] with_admitted_package(app, fetched, account, now)).0,
            ),
{
    let gate = Gate::Given(admitted);
    if let Ok(entry) = entry_or_empty(app, fetched.account_id_hex, gate) {
        let offered = entry_with_package(entry, fetched, admitted);
        if saved(app, offered, "directory"@, now, gate) is Ok {
            law_saving_keeps_the_directory(app, offered, "directory"@, now, gate);
        }
    }
}

/// Fetching a key package keeps the directory well kept.
pub proof fn law_fetched_package_keeps_the_directory(
    app: AppContent,
    id: Seq<char>,
    records: Seq<PackageRecordContent>,
    lists: RelayListStatusContent,
    metadata: Result<MetadataContent, Seq<char>>,
    now: u64,
)
    requires
        well_kept(app),
    ensures
        well_kept(with_fetched_package(app, id, records, lists, metadata, now).0),
{
    if let Ok(cached) = entry_named(app, id, Gate::Inspect) {
        if let Ok(offered) = offered_package(
            app,
            id,
            records,
            cached,
            metadata,
            freshness_at(app, now),
        ) {
            law_remembered_package_keeps_the_directory(
                app,
                FetchedContent { relay_lists: lists, ..offered },
                None,
                now as i64,
            );
        }
    }
}

/// Taking in an event keeps the directory well kept.
pub proof fn law_ingest_keeps_the_directory(app: AppContent, event: IngestContent, now: u64)
    requires
        well_kept(app),
    ensures
        well_kept(ingested(app, event, now).0),
{
    lemma_saves_keep(app, now as i64);
    if let Some(id) = public_key_hex(event.record.event.pubkey) {
        law_search_edges_keep_the_directory(
            app,
            id,
            crate::directory::app_ingest::follow_list_of(event.record),
            now as i64,
        );
        let record = PackageRecordContent { record: event.record, metadata: event.metadata };
        if let Ok(fetched) = crate::directory::key_packages::package_of_record(record) {
            let away = FetchedContent {
                relay_lists: crate::directory::app_ingest::lists_or_none(
                    app,
                    id,
                    Gate::Given(false),
                ),
                ..fetched
            };
            let own = FetchedContent {
                relay_lists: crate::directory::app_ingest::lists_or_none(
                    app,
                    id,
                    Gate::Given(true),
                ),
                ..fetched
            };
            lemma_admitted_keeps(app, away, false, now as i64);
            lemma_admitted_keeps(app, own, true, now as i64);
        }
    }
}

/// What a search finds touches no entry of the directory.
pub proof fn law_search_keeps_the_directory(app: AppContent, findings: Seq<FindingContent>)
    requires
        well_kept(app),
    ensures
        well_kept(AppContent { accounts: findings_spread(app.accounts, findings).0, ..app }),
{
    lemma_findings_keep_users(app.accounts, findings);
    let after = findings_spread(app.accounts, findings).0;
    assert forall|i: int| 0 <= i < after.len() implies users_kept(
        (#[trigger] after[i]).cache.users,
    ) by {
        assert(users_kept(app.accounts[i].cache.users));
    }
}

proof fn lemma_findings_keep_users(accounts: Seq<AccountContent>, findings: Seq<FindingContent>)
    ensures
        ({
            let after = findings_spread(accounts, findings).0;
            after.len() == accounts.len() && forall|i: int|
                0 <= i < after.len() ==> (#[trigger] after[i]).cache.users
                    == accounts[i].cache.users
        }),
    decreases accounts.len(),
{
    if accounts.len() > 0 {
        let rest = accounts.drop_first();
        lemma_findings_keep_users(rest, findings);
        lemma_cache_findings(accounts[0].cache, findings);
        let after = findings_spread(accounts, findings).0;
        let tail = findings_spread(rest, findings).0;
        assert forall|i: int| 0 <= i < after.len() implies (#[trigger] after[i]).cache.users
            == accounts[i].cache.users by {
            if i > 0 {
                assert(rest[i - 1] == accounts[i]);
                assert(after[i] == tail[i - 1] || after[i] == rest[i - 1]);
            }
        }
    }
}

proof fn lemma_cache_findings(cache: CacheContent, findings: Seq<FindingContent>)
    ensures
        with_findings(cache, findings).0.users == cache.users,
    decreases findings.len(),
{
    if findings.len() > 0 {
        let (after, fault) = with_finding(cache, findings[0]);
        lemma_cache_findings(after, findings.drop_first());
    }
}

} // verus!
