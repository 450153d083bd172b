//! What holds of what is read from the directory and of what cannot be stored in it.

use crate::directory::app_discovery::hydrated_ranked;
use crate::directory::app_entry::{
    entry_named, labelled, parsed_ids, projection_page, projections, Gate,
};
use crate::directory::app_fetch::{events_limit, list_kind_named, observed_outcome};
use crate::directory::app_refresh::{profiles_refreshed, refreshed_entry, with_profiles};
use crate::directory::app_remember::{with_observed_lists, with_users};
use crate::directory::app_state::{AccountContent, AppContent};
use crate::directory::app_warm::{active_ids, directory_of, ids_of, plan_for, user_list};
use crate::directory::cache::{
    account_fault, entry_fault, first_entry_fault, put_outcome, CacheContent, CachedAccountContent,
};
use crate::directory::entry::{EntryContent, ProfileContent};
use crate::directory::member_run::{lists_left, RunContent};
use crate::directory::records::{
    EventRecordContent, RelayListStatusContent, KIND_MARMOT_INBOX_RELAY_LIST,
    KIND_NIP65_RELAY_LIST,
};
use crate::directory::merge::lemma_concat_contains;
use crate::directory::search::{
    checked_params, fresh_ranked, EmitterContent, SearchTally, MAX_SUPPORTED_SEARCH_RADIUS,
};
use crate::directory::search_match::{lemma_result_weak_order, result_lt, ProviderRank};
use crate::directory::search_run::{ranked_taken, SearchContent};
use crate::directory::sync::DIRECTORY_SYNC_USER_BATCH_SIZE;
use crate::directory::sync_laws::law_plan_watches_everyone;
use crate::error::{AppError, ErrorContent};
use crate::order::lemma_sorted_by;
use crate::text::public_key_hex;
use vstd::prelude::*;

verus! {

/// A label names the first account that carries it, and none where none does.
pub proof fn law_label_names_the_first_account(
    accounts: Seq<AccountContent>,
    label: Seq<char>,
    k: int,
)
    ensures
        0 <= k < accounts.len() && accounts[k].label == label && (forall|j: int|
            0 <= j < k ==> (#[trigger] accounts[j]).label != label) ==> labelled(accounts, label)
            == Some(accounts[k].account_id_hex),
        (forall|j: int| 0 <= j < accounts.len() ==> (#[trigger] accounts[j]).label != label)
            ==> labelled(accounts, label) is None,
    decreases accounts.len(),
{
    if accounts.len() > 0 {
        let rest = accounts.drop_first();
        law_label_names_the_first_account(rest, label, k - 1);
        assert forall|j: int| 0 <= j < rest.len() implies #[trigger] rest[j] == accounts[j + 1] by {
        }
        if 0 < k < accounts.len() && accounts[k].label == label && (forall|j: int|
            0 <= j < k ==> (#[trigger] accounts[j]).label != label) {
            assert(rest[k - 1] == accounts[k]);
            assert(accounts[0].label != label);
            assert forall|j: int| 0 <= j < k - 1 implies (#[trigger] rest[j]).label != label by {
                assert(rest[j] == accounts[j + 1]);
            }
        }
        if forall|j: int| 0 <= j < accounts.len() ==> (#[trigger] accounts[j]).label != label {
            assert(accounts[0].label != label);
            assert forall|j: int| 0 <= j < rest.len() implies (#[trigger] rest[j]).label
                != label by {
                assert(rest[j] == accounts[j + 1]);
            }
        }
    }
}

/// A page of identities that is too long is refused. One that is answered has a projection
/// for each identity.
pub proof fn law_long_page_is_refused(app: AppContent, requested: Seq<Seq<char>>)
    ensures
        requested.len() > app.config.max_cached_identity_page_size ==> (projection_page(
            app,
            requested,
        ) matches Err(error) && error is InvalidCachedIdentityPage),
        projection_page(app, requested) matches Ok(page) ==> page.len() == requested.len()
            && requested.len() <= app.config.max_cached_identity_page_size,
{
    lemma_projections(app, requested);
}

proof fn lemma_projections(app: AppContent, requested: Seq<Seq<char>>)
    ensures
        projections(app, requested) matches Ok(page) ==> page.len()
            == requested.len(),
    decreases requested.len(),
{
    if requested.len() > 0 {
        lemma_projections(app, requested.drop_last());
    }
}

/// A query asks for the same number of events of each account, and never for none.
pub proof fn law_each_account_may_have_as_many_events(accounts: nat, more: nat)
    ensures
        events_limit(accounts) >= 1,
        events_limit(accounts) >= accounts,
        accounts > 0 && more > 0 ==> events_limit(accounts + more) == events_limit(accounts)
            + events_limit(more),
        events_limit(1) == 4,
        events_limit(0) == 1,
{
}

/// Each list has its name. Where none is named both are meant, and another name is refused.
pub proof fn law_lists_are_named(name: Seq<char>)
    ensures
        list_kind_named(None) == Ok::<Option<u64>, ErrorContent>(None),
        list_kind_named(Some("nip65"@)) == Ok::<Option<u64>, ErrorContent>(
            Some(KIND_NIP65_RELAY_LIST),
        ),
        list_kind_named(Some("inbox"@)) == Ok::<Option<u64>, ErrorContent>(
            Some(KIND_MARMOT_INBOX_RELAY_LIST),
        ),
        name != "nip65"@ && name != "inbox"@ ==> list_kind_named(Some(name)) is Err,
{
    reveal_strlit("nip65");
    reveal_strlit("inbox");
    assert("nip65"@[0] != "inbox"@[0]);
}

/// Lists that were observed are answered as they are and kept; a fault keeps nothing.
pub proof fn law_observed_lists_are_answered(
    before: AppContent,
    id: Seq<char>,
    lists: Result<RelayListStatusContent, ErrorContent>,
    now: u64,
    after: AppContent,
    result: Result<RelayListStatusContent, ErrorContent>,
)
    requires
        observed_outcome(before, id, lists, now, after, result),
    ensures
        result is Ok ==> result == lists && with_observed_lists(
            before,
            id,
            lists->Ok_0,
            now as i64,
        ) == Ok::<AppContent, ErrorContent>(after),
        result is Err ==> after == before,
        lists matches Err(error) ==> result == Err::<RelayListStatusContent, ErrorContent>(error),
{
}

/// A refresh remembers each account, then each newer profile, and tells how many profiles
/// there were. Where no account is asked for nothing happens.
pub proof fn law_refresh_counts_its_profiles(
    app: AppContent,
    ids: Seq<Seq<char>>,
    profiles: Seq<(Seq<char>, ProfileContent)>,
    now: i64,
)
    ensures
        ids.len() == 0 ==> profiles_refreshed(app, ids, profiles, now).0 == app,
        ids.len() > 0 ==> (profiles_refreshed(app, ids, profiles, now).1 matches Ok(count)
            ==> count == profiles.len() && with_users(app, ids, now).1 is None && with_profiles(
            with_users(app, ids, now).0,
            profiles,
            now,
        ) == (profiles_refreshed(app, ids, profiles, now).0, None::<ErrorContent>)),
        ids.len() > 0 && with_users(app, ids, now).1 is Some ==> profiles_refreshed(
            app,
            ids,
            profiles,
            now,
        ).1 is Err && profiles_refreshed(app, ids, profiles, now).0 == with_users(app, ids, now).0,
{
}

/// A refreshed entry is the known one; where nothing is known it is missing.
pub proof fn law_refreshed_entry_is_the_known_one(app: AppContent, text: Seq<char>)
    ensures
        refreshed_entry(app, text) matches Ok(entry) ==> entry_named(app, text, Gate::Inspect)
            == Ok::<Option<EntryContent>, ErrorContent>(Some(entry)),
        entry_named(app, text, Gate::Inspect) == Ok::<Option<EntryContent>, ErrorContent>(None)
            ==> refreshed_entry(app, text) == Err::<EntryContent, ErrorContent>(
            ErrorContent::MissingDirectoryEntry(text),
        ),
        entry_named(app, text, Gate::Inspect) matches Err(error) ==> refreshed_entry(app, text)
            == Err::<EntryContent, ErrorContent>(error),
{
}

/// The plan watches every signed-in account and every account that the directory lists, and
/// nobody else.
pub proof fn law_plan_watches_the_directory(app: AppContent, author: Seq<char>)
    requires
        plan_for(app) is Ok,
    ensures
        directory_of(app) is Ok,
        (exists|i: int|
            0 <= i < plan_for(app)->Ok_0.batches.len() && (
            #[trigger] plan_for(app)->Ok_0.batches[i]).authors.contains(author)) <==> active_ids(
            app.accounts,
        ).contains(author) || exists|k: int|
            0 <= k < user_list(directory_of(app)->Ok_0).len() && (#[trigger] user_list(
                directory_of(app)->Ok_0,
            )[k]).account_id_hex == author,
        forall|relay: Seq<char>| #[trigger]
            plan_for(app)->Ok_0.endpoints.contains(relay) <==> app.config.relay_urls.contains(
                relay,
            ),
{
    let listed = user_list(directory_of(app)->Ok_0);
    let local = active_ids(app.accounts);
    let ids = ids_of(listed);
    let size = DIRECTORY_SYNC_USER_BATCH_SIZE as nat;
    law_plan_watches_everyone(app.config.relay_urls, local, ids + local, None, size, author);
    lemma_concat_contains(ids, local, author);
    if ids.contains(author) {
        let k = choose|k: int| 0 <= k < ids.len() && ids[k] == author;
        assert(listed[k].account_id_hex == author);
    }
    if exists|k: int| 0 <= k < listed.len() && (#[trigger] listed[k]).account_id_hex == author {
        let k = choose|k: int|
            0 <= k < listed.len() && (#[trigger] listed[k]).account_id_hex == author;
        assert(ids[k] == author);
        assert(ids.contains(author));
    }
}

/// An entry can be stored exactly where it follows nobody twice and names no source of its
/// follows twice.
pub proof fn law_entry_with_distinct_follows_is_storable(entry: EntryContent)
    ensures
        entry_fault(entry) is None <==> entry.follows.no_duplicates()
            && entry.follow_source_relays.no_duplicates(),
        entry_fault(entry) matches Some(error) ==> error is Storage,
{
}

/// A list of entries can be stored exactly where each of them can; the first that cannot
/// tells why.
pub proof fn law_first_unstorable_entry_tells_why(entries: Seq<EntryContent>)
    ensures
        first_entry_fault(entries) is None <==> forall|i: int|
            0 <= i < entries.len() ==> entry_fault(#[trigger] entries[i]) is None,
        first_entry_fault(entries) is Some ==> exists|k: int|
            0 <= k < entries.len() && first_entry_fault(entries) == entry_fault(
                #[trigger] entries[k],
            ) && forall|j: int| 0 <= j < k ==> entry_fault(#[trigger] entries[j]) is None,
    decreases entries.len(),
{
    if entries.len() > 0 {
        let rest = entries.drop_first();
        law_first_unstorable_entry_tells_why(rest);
        assert forall|j: int| 0 <= j < rest.len() implies #[trigger] rest[j] == entries[j + 1] by {}
        if entry_fault(entries[0]) is None {
            if first_entry_fault(rest) is Some {
                let k = choose|k: int|
                    0 <= k < rest.len() && first_entry_fault(rest) == entry_fault(
                        #[trigger] rest[k],
                    ) && forall|j: int| 0 <= j < k ==> entry_fault(#[trigger] rest[j]) is None;
                assert(rest[k] == entries[k + 1]);
                assert forall|j: int| 0 <= j < k + 1 implies entry_fault(
                    #[trigger] entries[j],
                ) is None by {
                    if j > 0 {
                        assert(rest[j - 1] == entries[j]);
                    }
                }
                assert(entry_fault(entries[k + 1]) is Some);
            } else {
                assert forall|i: int| 0 <= i < entries.len() implies entry_fault(
                    #[trigger] entries[i],
                ) is None by {
                    if i > 0 {
                        assert(rest[i - 1] == entries[i]);
                    }
                }
            }
        } else {
            assert(first_entry_fault(entries) == entry_fault(entries[0]));
        }
    }
}

/// What is held of an account can be put back exactly where its entry can be stored and its
/// graph follows nobody twice.
pub proof fn law_held_account_is_storable(cached: CachedAccountContent)
    ensures
        account_fault(cached) is None <==> (cached.user matches Some(entry) ==> entry_fault(entry)
            is None) && (cached.graph matches Some(graph) ==> graph.follows.no_duplicates()),
{
}

/// An entry that cannot be stored, or a cache that is closed, leaves the cache as it was.
pub proof fn law_refused_entry_changes_nothing(
    before: CacheContent,
    entry: EntryContent,
    reason: Seq<char>,
    now: i64,
    after: CacheContent,
    result: Result<(), AppError>,
)
    requires
        put_outcome(before, entry, reason, now, after, result),
    ensures
        result is Ok <==> !before.closed && entry.follows.no_duplicates()
            && entry.follow_source_relays.no_duplicates(),
        result is Err ==> after == before,
{
}

/// Where relays failed to answer about many members at once, each of them is asked about
/// alone; where they answered, nobody is.
pub proof fn law_failed_batch_is_asked_about_one_by_one(
    run: RunContent,
    indices: Seq<int>,
    answer: Result<Seq<EventRecordContent>, Seq<char>>,
    k: int,
)
    requires
        0 <= k < indices.len(),
    ensures
        answer is Ok ==> lists_left(run, indices, answer).len() == 0,
        answer is Err ==> lists_left(run, indices, answer).len() == indices.len(),
        answer is Err ==> lists_left(run, indices, answer)[k].indices == seq![indices[k]],
        answer is Err ==> lists_left(run, indices, answer)[k].queries.len() > 0,
{
}

/// A search is admitted exactly where its radii are in order, it goes no deeper than it may,
/// and the searcher and every seed can be read. It then runs for the searcher.
pub proof fn law_search_is_checked(
    searcher: Seq<char>,
    radius_start: u8,
    radius_end: u8,
    seeds: Seq<Seq<char>>,
)
    ensures
        checked_params(searcher, radius_start, radius_end, seeds) is Ok <==> {
            &&& radius_start <= radius_end <= MAX_SUPPORTED_SEARCH_RADIUS
            &&& forall|i: int| 0 <= i < seeds.len() ==> public_key_hex(#[trigger] seeds[i]) is Some
            &&& public_key_hex(searcher) is Some
        },
        checked_params(searcher, radius_start, radius_end, seeds) matches Ok(id) ==> public_key_hex(
            searcher,
        ) == Some(id),
        MAX_SUPPORTED_SEARCH_RADIUS == 2,
{
    lemma_parsed_ids(seeds);
}

proof fn lemma_parsed_ids(ids: Seq<Seq<char>>)
    ensures
        parsed_ids(ids) is Some <==> forall|i: int|
            0 <= i < ids.len() ==> public_key_hex(#[trigger] ids[i]) is Some,
        parsed_ids(ids) matches Some(parsed) ==> parsed.len() == ids.len() && forall|i: int|
            0 <= i < ids.len() ==> public_key_hex(#[trigger] ids[i]) == Some(parsed[i]),
    decreases ids.len(),
{
    if ids.len() > 0 {
        let rest = ids.drop_last();
        let end = ids.len() - 1;
        lemma_parsed_ids(rest);
        assert(ids[end] == ids.last());
        if parsed_ids(ids) is Some {
            assert forall|i: int| 0 <= i < ids.len() implies public_key_hex(#[trigger] ids[i])
                == Some(parsed_ids(ids)->0[i]) by {
                if i < end {
                    assert(rest[i] == ids[i]);
                }
            }
        }
        if forall|i: int| 0 <= i < ids.len() ==> public_key_hex(#[trigger] ids[i]) is Some {
            assert forall|i: int| 0 <= i < rest.len() implies public_key_hex(
                #[trigger] rest[i],
            ) is Some by {
                assert(rest[i] == ids[i]);
            }
            assert(public_key_hex(ids[end]) is Some);
        }
    }
}

/// What the discovery provider found is counted as found by it, and its results are told as
/// such.
pub proof fn law_discovered_accounts_are_counted(
    search: SearchContent,
    app: AppContent,
    ranked: Seq<(Seq<char>, ProviderRank)>,
    profiles: Seq<(Seq<char>, ProfileContent)>,
)
    ensures
        ({
            let (after, update) = ranked_taken(search, app, ranked, profiles);
            &&& after.emitter.tally.from_cache == search.emitter.tally.from_cache
            &&& after.emitter.tally.from_relays == search.emitter.tally.from_relays
            &&& after.emitter.tally.from_write_relays == search.emitter.tally.from_write_relays
            &&& after.emitter.tally.unresolved == search.emitter.tally.unresolved
            &&& after.query == search.query
            &&& after.walk == search.walk
            &&& update matches Some(told) ==> told.trigger is DiscoveryResultsFound
                && told.new_results.len() > 0
        }),
{
    let records = hydrated_ranked(app, ranked, profiles);
    let tally = search.emitter.tally;
    let counted = EmitterContent {
        tally: SearchTally {
            from_open_ranking: (tally.from_open_ranking + records.len()) as usize,
            ..tally
        },
        ..search.emitter
    };
    lemma_result_weak_order();
    lemma_sorted_by(fresh_ranked(counted, records, search.query).results, result_lt());
}

} // verus!
