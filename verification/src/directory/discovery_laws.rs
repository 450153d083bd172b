//! What a discovery finds: who is known here and who has to be asked for, whose profile
//! is taken, who is told, and which relays are asked.

use crate::directory::app_discovery::{
    all_refilled, cached_follows, carried_profile, entries_of_profiles, fetched_lists,
    findings_spread, follows_known, graph_profile, hydrated_ranked, ids_of, last_profile,
    local_record, locally_known, names, profile_entries, profile_findings, with_finding,
    with_findings, FindingContent,
};
use crate::directory::app_entry::{entry_of, Gate};
use crate::directory::app_fetch::latest_contact_list;
use crate::directory::app_ingest::follow_list_of;
use crate::directory::app_state::{signs_now, AccountContent, AppContent};
use crate::directory::cache::{known_follows, CacheContent, SEARCH_GRAPH_PROFILE_TTL_SECONDS};
use crate::directory::entry::{EntryContent, ProfileContent};
use crate::directory::records::{DirectoryFreshness, EventRecordContent};
use crate::directory::search::{
    fresh_matches, ranked_result, told, EmitterContent, Fresh, TriggerContent,
    OFF_GRAPH_SEARCH_RADIUS,
};
use crate::directory::search_graph::{
    by_relay, coverage_lt, next_depth, relay_position, relays_to_ask, seeds_from, used_relays,
    with_author, with_author_of, AuthorsContent, WalkContent, SEARCH_MAX_WRITE_RELAYS_PER_AUTHOR,
    SEARCH_MAX_WRITE_RELAYS_PER_BATCH,
};
use crate::directory::search_match::{
    record_match, result_lt, ProviderRank, ResultContent,
};
use crate::error::ErrorContent;
use crate::order::{lemma_push_contains, lemma_same_elements, lemma_sorted_by, sorted_by};
use crate::text::public_key_hex;
use vstd::prelude::*;

verus! {

/// What is known here of an account has a profile, either that of the directory or one of
/// a search graph. Nothing is said to be known only where the directory has no profile.
pub proof fn law_known_record_has_a_profile(app: AppContent, id: Seq<char>, now: i64)
    ensures
        local_record(app, id, now) matches Ok(Some(record)) ==> record.profile is Some,
        entry_of(app, id, Gate::Inspect) matches Ok(Some(entry)) ==> (entry.profile is Some
            ==> local_record(app, id, now) == Ok::<Option<EntryContent>, ErrorContent>(
            Some(entry),
        )),
        local_record(app, id, now) == Ok::<Option<EntryContent>, ErrorContent>(None) ==> (entry_of(
            app,
            id,
            Gate::Inspect,
        ) matches Ok(entry) && (entry is Some ==> entry->0.profile is None)),
{
    lemma_graph_profile(app.accounts, id, now);
}

proof fn lemma_graph_profile(accounts: Seq<AccountContent>, id: Seq<char>, now: i64)
    ensures
        graph_profile(accounts, id, now) matches Ok(Some(record)) ==> record.profile is Some,
    decreases accounts.len(),
{
    if accounts.len() > 0 {
        lemma_graph_profile(accounts.drop_first(), id, now);
    }
}

/// Everyone on a frontier is either known here or has to be asked for, in the order of the
/// frontier, and nobody else is.
pub proof fn law_frontier_is_known_or_missing(
    app: AppContent,
    frontier: Seq<Seq<char>>,
    now: i64,
    known: Seq<EntryContent>,
    missing: Seq<Seq<char>>,
)
    requires
        locally_known(app, frontier, now, known, missing) is Ok,
    ensures
        ({
            let (found, asked) = locally_known(app, frontier, now, known, missing)->Ok_0;
            &&& found.len() + asked.len() == known.len() + missing.len() + frontier.len()
            &&& known.len() <= found.len() && missing.len() <= asked.len()
            &&& forall|k: int| 0 <= k < known.len() ==> found[k] == #[trigger] known[k]
            &&& forall|k: int| 0 <= k < missing.len() ==> asked[k] == #[trigger] missing[k]
            &&& forall|i: int|
                0 <= i < frontier.len() ==> match local_record(app, #[trigger] frontier[i], now) {
                    Ok(Some(record)) => found.contains(record),
                    Ok(None) => asked.contains(frontier[i]),
                    Err(_) => false,
                }
            &&& forall|k: int|
                missing.len() <= k < asked.len() ==> frontier.contains(#[trigger] asked[k])
                    && local_record(app, asked[k], now) == Ok::<
                    Option<EntryContent>,
                    ErrorContent,
                >(None)
        }),
    decreases frontier.len(),
{
    let (found, asked) = locally_known(app, frontier, now, known, missing)->Ok_0;
    if frontier.len() > 0 {
        let rest = frontier.drop_first();
        let first = frontier[0];
        let record = local_record(app, first, now)->Ok_0;
        let known1 = if record is Some {
            known.push(record->0)
        } else {
            known
        };
        let missing1 = if record is Some {
            missing
        } else {
            missing.push(first)
        };
        assert(locally_known(app, frontier, now, known, missing) == locally_known(
            app,
            rest,
            now,
            known1,
            missing1,
        ));
        law_frontier_is_known_or_missing(app, rest, now, known1, missing1);
        assert forall|k: int| 0 <= k < known.len() implies found[k] == #[trigger] known[k] by {
            assert(known1[k] == known[k]);
        }
        assert forall|k: int| 0 <= k < missing.len() implies asked[k] == #[trigger] missing[k] by {
            assert(missing1[k] == missing[k]);
        }
        if record is Some {
            assert(known1[known.len() as int] == record->0);
            assert(found[known.len() as int] == record->0);
        } else {
            assert(missing1[missing.len() as int] == first);
            assert(asked[missing.len() as int] == first);
        }
        assert forall|i: int| 0 <= i < frontier.len() implies match local_record(
            app,
            #[trigger] frontier[i],
            now,
        ) {
            Ok(Some(record)) => found.contains(record),
            Ok(None) => asked.contains(frontier[i]),
            Err(_) => false,
        } by {
            if i > 0 {
                assert(rest[i - 1] == frontier[i]);
            }
        }
        assert forall|k: int| missing.len() <= k < asked.len() implies frontier.contains(
            #[trigger] asked[k],
        ) && local_record(app, asked[k], now) == Ok::<Option<EntryContent>, ErrorContent>(None) by {
            if k >= missing1.len() {
                assert(rest.contains(asked[k]));
                let i = choose|i: int| 0 <= i < rest.len() && rest[i] == asked[k];
                assert(frontier[i + 1] == asked[k]);
            } else {
                assert(frontier[0] == asked[k]);
            }
        }
    }
}

/// Everyone on a frontier is either someone whose follows are cached or has to be asked for,
/// in the order of the frontier.
pub proof fn law_follows_are_cached_or_asked_for(
    accounts: Seq<AccountContent>,
    frontier: Seq<Seq<char>>,
    cached: Seq<Seq<Seq<char>>>,
    unknown: Seq<Seq<char>>,
)
    requires
        follows_known(accounts, frontier, cached, unknown) is Ok,
    ensures
        ({
            let (found, asked) = follows_known(accounts, frontier, cached, unknown)->Ok_0;
            &&& found.len() + asked.len() == cached.len() + unknown.len() + frontier.len()
            &&& cached.len() <= found.len() && unknown.len() <= asked.len()
            &&& forall|k: int| 0 <= k < cached.len() ==> found[k] == #[trigger] cached[k]
            &&& forall|k: int| 0 <= k < unknown.len() ==> asked[k] == #[trigger] unknown[k]
            &&& forall|i: int|
                0 <= i < frontier.len() ==> match cached_follows(accounts, #[trigger] frontier[i]) {
                    Ok(Some(follows)) => found.contains(follows),
                    Ok(None) => asked.contains(frontier[i]),
                    Err(_) => false,
                }
            &&& forall|k: int|
                unknown.len() <= k < asked.len() ==> frontier.contains(#[trigger] asked[k])
                    && cached_follows(accounts, asked[k]) == Ok::<
                    Option<Seq<Seq<char>>>,
                    ErrorContent,
                >(None)
        }),
    decreases frontier.len(),
{
    let (found, asked) = follows_known(accounts, frontier, cached, unknown)->Ok_0;
    if frontier.len() > 0 {
        let rest = frontier.drop_first();
        let first = frontier[0];
        let follows = cached_follows(accounts, first)->Ok_0;
        let cached1 = if follows is Some {
            cached.push(follows->0)
        } else {
            cached
        };
        let unknown1 = if follows is Some {
            unknown
        } else {
            unknown.push(first)
        };
        assert(follows_known(accounts, frontier, cached, unknown) == follows_known(
            accounts,
            rest,
            cached1,
            unknown1,
        ));
        law_follows_are_cached_or_asked_for(accounts, rest, cached1, unknown1);
        assert forall|k: int| 0 <= k < cached.len() implies found[k] == #[trigger] cached[k] by {
            assert(cached1[k] == cached[k]);
        }
        assert forall|k: int| 0 <= k < unknown.len() implies asked[k] == #[trigger] unknown[k] by {
            assert(unknown1[k] == unknown[k]);
        }
        if follows is Some {
            assert(cached1[cached.len() as int] == follows->0);
            assert(found[cached.len() as int] == follows->0);
        } else {
            assert(unknown1[unknown.len() as int] == first);
            assert(asked[unknown.len() as int] == first);
        }
        assert forall|i: int| 0 <= i < frontier.len() implies match cached_follows(
            accounts,
            #[trigger] frontier[i],
        ) {
            Ok(Some(follows)) => found.contains(follows),
            Ok(None) => asked.contains(frontier[i]),
            Err(_) => false,
        } by {
            if i > 0 {
                assert(rest[i - 1] == frontier[i]);
            }
        }
        assert forall|k: int| unknown.len() <= k < asked.len() implies frontier.contains(
            #[trigger] asked[k],
        ) && cached_follows(accounts, asked[k]) == Ok::<Option<Seq<Seq<char>>>, ErrorContent>(
            None,
        ) by {
            if k >= unknown1.len() {
                assert(rest.contains(asked[k]));
                let i = choose|i: int| 0 <= i < rest.len() && rest[i] == asked[k];
                assert(frontier[i + 1] == asked[k]);
            } else {
                assert(frontier[0] == asked[k]);
            }
        }
    }
}

/// The follows of an account are those that the first signed-in account knows that knows
/// any.
pub proof fn law_cached_follows_are_of_a_signed_in_account(
    accounts: Seq<AccountContent>,
    id: Seq<char>,
)
    ensures
        cached_follows(accounts, id) matches Ok(Some(follows)) ==> exists|i: int|
            0 <= i < accounts.len() && signs_now(#[trigger] accounts[i]) && known_follows(
                accounts[i].cache,
                id,
            ) == Some(follows),
        cached_follows(accounts, id) == Ok::<Option<Seq<Seq<char>>>, ErrorContent>(None)
            ==> forall|i: int|
            0 <= i < accounts.len() && signs_now(#[trigger] accounts[i]) ==> known_follows(
                accounts[i].cache,
                id,
            ) is None,
    decreases accounts.len(),
{
    if accounts.len() > 0 {
        let rest = accounts.drop_first();
        law_cached_follows_are_of_a_signed_in_account(rest, id);
        assert forall|i: int| 0 <= i < rest.len() implies accounts[i + 1] == #[trigger] rest[i] by {}
        if let Ok(Some(follows)) = cached_follows(accounts, id) {
            if signs_now(accounts[0]) && known_follows(accounts[0].cache, id) is Some {
                assert(signs_now(accounts[0]));
            } else {
                let i = choose|i: int|
                    0 <= i < rest.len() && signs_now(#[trigger] rest[i]) && known_follows(
                        rest[i].cache,
                        id,
                    ) == Some(follows);
                assert(signs_now(accounts[i + 1]));
            }
        }
        if cached_follows(accounts, id) == Ok::<Option<Seq<Seq<char>>>, ErrorContent>(None) {
            assert forall|i: int| 0 <= i < accounts.len() && signs_now(
                #[trigger] accounts[i],
            ) implies known_follows(accounts[i].cache, id) is None by {
                if i > 0 {
                    assert(rest[i - 1] == accounts[i]);
                }
            }
        }
    }
}

/// The profile that is taken of an account is the last one that was delivered for it, and
/// one is taken exactly where one was delivered.
pub proof fn law_last_delivered_profile_is_taken(
    profiles: Seq<(Seq<char>, ProfileContent)>,
    id: Seq<char>,
)
    ensures
        last_profile(profiles, id) is Some <==> exists|i: int|
            0 <= i < profiles.len() && (#[trigger] profiles[i]).0 == id,
        last_profile(profiles, id) matches Some(profile) ==> exists|i: int|
            0 <= i < profiles.len() && (#[trigger] profiles[i]).0 == id && profiles[i].1 == profile
                && forall|j: int| i < j < profiles.len() ==> (#[trigger] profiles[j]).0 != id,
    decreases profiles.len(),
{
    if profiles.len() > 0 {
        let rest = profiles.drop_last();
        let end = profiles.len() - 1;
        law_last_delivered_profile_is_taken(rest, id);
        assert(profiles[end] == profiles.last());
        assert forall|i: int| 0 <= i < rest.len() implies profiles[i] == #[trigger] rest[i] by {}
        if profiles.last().0 != id {
            if let Some(profile) = last_profile(profiles, id) {
                let i = choose|i: int|
                    0 <= i < rest.len() && (#[trigger] rest[i]).0 == id && rest[i].1 == profile
                        && forall|j: int| i < j < rest.len() ==> (#[trigger] rest[j]).0 != id;
                assert(profiles[i].0 == id);
                assert forall|j: int| i < j < profiles.len() implies (#[trigger] profiles[j]).0
                    != id by {
                    if j < end {
                        assert(rest[j] == profiles[j]);
                    }
                }
            }
            if exists|i: int| 0 <= i < profiles.len() && (#[trigger] profiles[i]).0 == id {
                let i = choose|i: int|
                    0 <= i < profiles.len() && (#[trigger] profiles[i]).0 == id;
                assert(rest[i].0 == id);
            }
        }
    }
}

/// Everyone of a batch gets an entry, in its place. It has the profile that was delivered
/// for the account, where one was and the batch does not name the account before.
pub proof fn law_batch_entries_carry_delivered_profiles(
    app: AppContent,
    batch: Seq<Seq<char>>,
    profiles: Seq<(Seq<char>, ProfileContent)>,
    i: int,
)
    requires
        0 <= i < batch.len(),
    ensures
        profile_entries(app, batch, profiles).len() == batch.len(),
        profile_entries(app, batch, profiles)[i].account_id_hex == batch[i],
        batch.no_duplicates() ==> profile_entries(app, batch, profiles)[i].profile == last_profile(
            profiles,
            batch[i],
        ),
        profile_entries(app, batch, profiles)[i].follows.len() == 0,
        profile_entries(app, batch, profiles)[i].key_package is None,
{
    if batch.no_duplicates() && batch.take(i).contains(batch[i]) {
        let k = choose|k: int| 0 <= k < batch.take(i).len() && batch.take(i)[k] == batch[i];
        assert(batch[k] == batch[i]);
    }
}

/// Everyone for whom a profile was delivered gets one entry, with the last one.
pub proof fn law_delivered_profiles_give_one_entry_each(
    app: AppContent,
    profiles: Seq<(Seq<char>, ProfileContent)>,
    id: Seq<char>,
)
    ensures
        ({
            let entries = entries_of_profiles(app, profiles);
            &&& forall|i: int|
                0 <= i < entries.len() ==> (#[trigger] entries[i]).profile == last_profile(
                    profiles,
                    entries[i].account_id_hex,
                ) && entries[i].profile is Some
            &&& last_profile(profiles, id) is Some <==> exists|i: int|
                0 <= i < entries.len() && (#[trigger] entries[i]).account_id_hex == id
            &&& forall|i: int, j: int|
                0 <= i < j < entries.len() ==> (#[trigger] entries[i]).account_id_hex != (
                #[trigger] entries[j]).account_id_hex
        }),
    decreases profiles.len(),
{
    if profiles.len() > 0 {
        let rest = profiles.drop_first();
        let later = entries_of_profiles(app, rest);
        let entries = entries_of_profiles(app, profiles);
        let (first, profile) = profiles[0];
        law_delivered_profiles_give_one_entry_each(app, rest, id);
        law_delivered_profiles_give_one_entry_each(app, rest, first);
        assert forall|other: Seq<char>| #[trigger] last_profile(profiles, other) == (if last_profile(
            rest,
            other,
        ) is Some {
            last_profile(rest, other)
        } else if other == first {
            Some(profile)
        } else {
            None
        }) by {
            lemma_last_profile_front(profiles, other);
        }
        if last_profile(rest, first) is Some {
            assert(entries == later);
            assert forall|i: int| 0 <= i < entries.len() implies (#[trigger] entries[i]).profile
                == last_profile(profiles, entries[i].account_id_hex)
                && entries[i].profile is Some by {
                assert(later[i].profile == last_profile(rest, later[i].account_id_hex));
            }
        } else {
            assert(entries.len() == later.len() + 1);
            assert(entries[0].account_id_hex == first);
            assert forall|i: int| 0 < i < entries.len() implies #[trigger] entries[i] == later[i
                - 1] by {}
            assert forall|i: int| 0 <= i < entries.len() implies (#[trigger] entries[i]).profile
                == last_profile(profiles, entries[i].account_id_hex)
                && entries[i].profile is Some by {
                if i > 0 {
                    assert(later[i - 1].profile == last_profile(
                        rest,
                        later[i - 1].account_id_hex,
                    ));
                }
            }
            assert forall|i: int, j: int| 0 <= i < j < entries.len() implies (
            #[trigger] entries[i]).account_id_hex != (#[trigger] entries[j]).account_id_hex by {
                assert(entries[j] == later[j - 1]);
                if i > 0 {
                    assert(entries[i] == later[i - 1]);
                }
            }
            if last_profile(rest, id) is Some {
                let i = choose|i: int|
                    0 <= i < later.len() && (#[trigger] later[i]).account_id_hex == id;
                assert(entries[i + 1].account_id_hex == id);
            }
            if exists|i: int|
                0 <= i < entries.len() && (#[trigger] entries[i]).account_id_hex == id {
                let i = choose|i: int|
                    0 <= i < entries.len() && (#[trigger] entries[i]).account_id_hex == id;
                if i > 0 {
                    assert(later[i - 1].account_id_hex == id);
                }
            }
        }
    }
}

proof fn lemma_last_profile_front(profiles: Seq<(Seq<char>, ProfileContent)>, id: Seq<char>)
    requires
        profiles.len() > 0,
    ensures
        last_profile(profiles, id) == (if last_profile(profiles.drop_first(), id) is Some {
            last_profile(profiles.drop_first(), id)
        } else if id == profiles[0].0 {
            Some(profiles[0].1)
        } else {
            None
        }),
    decreases profiles.len(),
{
    if profiles.len() == 1 {
        assert(last_profile(profiles.drop_first(), id) is None);
        assert(last_profile(profiles.drop_last(), id) is None);
    } else {
        assert(profiles.drop_first().last() == profiles.last());
        assert(profiles.drop_first().drop_last() =~= profiles.drop_last().drop_first());
        lemma_last_profile_front(profiles.drop_last(), id);
    }
}

/// Accounts that a provider ranked are taken with the rank that it gave and the profile that
/// was delivered for them, in its order; those without a profile are left out.
pub proof fn law_ranked_accounts_keep_rank_and_order(
    app: AppContent,
    ranked: Seq<(Seq<char>, ProviderRank)>,
    profiles: Seq<(Seq<char>, ProfileContent)>,
)
    requires
        names(ranked).no_duplicates(),
    ensures
        ({
            let taken = hydrated_ranked(app, ranked, profiles);
            let keep = |r: (Seq<char>, ProviderRank)| last_profile(profiles, r.0) is Some;
            &&& taken.len() == ranked.filter(keep).len()
            &&& forall|i: int|
                0 <= i < taken.len() ==> (#[trigger] taken[i]).0.account_id_hex == ranked.filter(
                    keep,
                )[i].0 && taken[i].1 == ranked.filter(keep)[i].1 && taken[i].0.profile
                    == last_profile(profiles, ranked.filter(keep)[i].0)
        }),
    decreases ranked.len(),
{
    reveal(Seq::filter);
    if ranked.len() > 0 {
        let rest = ranked.drop_last();
        let last = ranked.last();
        assert(names(rest).no_duplicates()) by {
            assert forall|i: int, j: int|
                0 <= i < names(rest).len() && 0 <= j < names(rest).len() && i != j implies names(
                rest,
            )[i] != names(rest)[j] by {
                assert(names(ranked)[i] == names(rest)[i]);
                assert(names(ranked)[j] == names(rest)[j]);
            }
        }
        law_ranked_accounts_keep_rank_and_order(app, rest, profiles);
        if names(rest).contains(last.0) {
            let k = choose|k: int| 0 <= k < names(rest).len() && names(rest)[k] == last.0;
            assert(names(ranked)[k] == names(ranked)[ranked.len() - 1]);
        }
    }
}

/// Only a profile that an account's own relays carried fills what was pending of it; all
/// else of it is kept.
pub proof fn law_refilled_entry_takes_only_a_profile(
    pending: Seq<EntryContent>,
    outboxed: Seq<EntryContent>,
    i: int,
)
    requires
        0 <= i < pending.len(),
    ensures
        ({
            let after = all_refilled(pending, outboxed)[i];
            &&& after == (EntryContent { profile: after.profile, ..pending[i] })
            &&& after.profile == pending[i].profile || exists|k: int|
                0 <= k < outboxed.len() && (#[trigger] outboxed[k]).account_id_hex
                    == pending[i].account_id_hex && outboxed[k].profile == after.profile
            &&& ids_of(pending).no_duplicates() && (exists|k: int|
                0 <= k < outboxed.len() && (#[trigger] outboxed[k]).account_id_hex
                    == pending[i].account_id_hex && outboxed[k].profile is Some)
                ==> after.profile is Some && exists|k: int|
                0 <= k < outboxed.len() && (#[trigger] outboxed[k]).account_id_hex
                    == pending[i].account_id_hex && outboxed[k].profile == after.profile
        }),
{
    let id = pending[i].account_id_hex;
    lemma_carried(outboxed, id);
    if ids_of(pending).no_duplicates() && ids_of(pending).take(i).contains(id) {
        let k = choose|k: int|
            0 <= k < ids_of(pending).take(i).len() && ids_of(pending).take(i)[k] == id;
        assert(ids_of(pending)[k] == ids_of(pending)[i]);
    }
}

proof fn lemma_carried(records: Seq<EntryContent>, id: Seq<char>)
    ensures
        carried_profile(records, id) is Some <==> exists|k: int|
            0 <= k < records.len() && (#[trigger] records[k]).account_id_hex == id
                && records[k].profile is Some,
        carried_profile(records, id) is Some ==> exists|k: int|
            0 <= k < records.len() && (#[trigger] records[k]).account_id_hex == id
                && records[k].profile == carried_profile(records, id),
    decreases records.len(),
{
    if records.len() > 0 {
        let rest = records.drop_last();
        lemma_carried(rest, id);
        assert(records[records.len() - 1] == records.last());
        assert forall|k: int| 0 <= k < rest.len() implies records[k] == #[trigger] rest[k] by {}
        if carried_profile(rest, id) is Some {
            let k = choose|k: int|
                0 <= k < rest.len() && (#[trigger] rest[k]).account_id_hex == id
                    && rest[k].profile == carried_profile(rest, id);
            assert(records[k].account_id_hex == id);
        }
        if exists|k: int|
            0 <= k < records.len() && (#[trigger] records[k]).account_id_hex == id
                && records[k].profile is Some {
            let k = choose|k: int|
                0 <= k < records.len() && (#[trigger] records[k]).account_id_hex == id
                    && records[k].profile is Some;
            if k < rest.len() {
                assert(rest[k] == records[k]);
            }
        }
    }
}

/// Of everyone in a batch who published a contact list, the newest is taken, once.
pub proof fn law_newest_follows_of_a_batch_are_taken(
    batch: Seq<Seq<char>>,
    records: Seq<EventRecordContent>,
    freshness: DirectoryFreshness,
    id: Seq<char>,
)
    ensures
        ({
            let lists = fetched_lists(batch, records, freshness);
            &&& forall|k: int|
                0 <= k < lists.len() ==> batch.contains((#[trigger] lists[k]).0) && (
                latest_contact_list(records, lists[k].0, freshness) matches Some(record)
                    && lists[k].1 == follow_list_of(record).follows)
            &&& batch.contains(id) && latest_contact_list(records, id, freshness) is Some
                ==> exists|k: int| 0 <= k < lists.len() && (#[trigger] lists[k]).0 == id
            &&& forall|j: int, k: int|
                0 <= j < k < lists.len() ==> (#[trigger] lists[j]).0 != (#[trigger] lists[k]).0
        }),
    decreases batch.len(),
{
    if batch.len() > 0 {
        let rest = batch.drop_last();
        let last = batch.last();
        let before = fetched_lists(rest, records, freshness);
        let lists = fetched_lists(batch, records, freshness);
        law_newest_follows_of_a_batch_are_taken(rest, records, freshness, id);
        assert(batch =~= rest.push(last));
        lemma_push_contains(rest, last, id);
        assert forall|k: int| 0 <= k < before.len() implies lists[k] == #[trigger] before[k] by {}
        assert forall|k: int| 0 <= k < lists.len() implies batch.contains((#[trigger] lists[k]).0)
            && (latest_contact_list(records, lists[k].0, freshness) matches Some(record)
            && lists[k].1 == follow_list_of(record).follows) by {
            if k < before.len() {
                assert(lists[k] == before[k]);
                lemma_push_contains(rest, last, before[k].0);
            } else {
                lemma_push_contains(rest, last, last);
            }
        }
        if batch.contains(id) && latest_contact_list(records, id, freshness) is Some {
            if rest.contains(id) {
                let k = choose|k: int| 0 <= k < before.len() && (#[trigger] before[k]).0 == id;
                assert(lists[k].0 == id);
            } else {
                assert(lists[lists.len() - 1].0 == id);
            }
        }
        assert forall|j: int, k: int| 0 <= j < k < lists.len() implies (#[trigger] lists[j]).0 != (
        #[trigger] lists[k]).0 by {
            assert(lists[j] == before[j]);
            if k < before.len() {
                assert(lists[k] == before[k]);
            } else {
                assert(rest.contains(before[j].0));
            }
        }
    }
}

/// What is found of profiles is kept for a set time from now on, and only of accounts that
/// have one.
pub proof fn law_found_profiles_expire(records: Seq<EntryContent>, now: i64)
    requires
        0 <= now,
        now + SEARCH_GRAPH_PROFILE_TTL_SECONDS <= u64::MAX,
    ensures
        ({
            let keep = |r: EntryContent| r.profile is Some;
            let findings = profile_findings(records, now);
            &&& findings.len() == records.filter(keep).len()
            &&& forall|k: int|
                0 <= k < findings.len() ==> (#[trigger] findings[k] matches FindingContent::Profile(
                    record,
                ) && record.account_id_hex == records.filter(keep)[k].account_id_hex
                    && record.profile == records.filter(keep)[k].profile && record.profile is Some
                    && record.metadata_updated_at == Some(record.profile->0.created_at)
                    && record.metadata_expires_at == Some(
                    (now + SEARCH_GRAPH_PROFILE_TTL_SECONDS) as u64,
                ) && record.follows is None)
        }),
    decreases records.len(),
{
    reveal(Seq::filter);
    if records.len() > 0 {
        law_found_profiles_expire(records.drop_last(), now);
    }
}

proof fn lemma_followed_is_known(cache: CacheContent, findings: Seq<FindingContent>, id: Seq<char>)
    requires
        with_findings(cache, findings).1 is None,
        forall|k: int|
            0 <= k < findings.len() ==> (#[trigger] findings[k]) is Profile
                && findings[k]->Profile_0.follows is None,
    ensures
        known_follows(with_findings(cache, findings).0, id) == known_follows(cache, id),
    decreases findings.len(),
{
    if findings.len() > 0 {
        let rest = findings.drop_first();
        assert forall|k: int| 0 <= k < rest.len() implies (#[trigger] rest[k]) is Profile
            && rest[k]->Profile_0.follows is None by {
            assert(rest[k] == findings[k + 1]);
        }
        assert(findings[0] is Profile);
        lemma_followed_is_known(with_finding(cache, findings[0]).0, rest, id);
    }
}

/// Profiles that are found change nothing of what is known that anyone follows.
pub proof fn law_found_profiles_keep_follows(
    cache: CacheContent,
    findings: Seq<FindingContent>,
    id: Seq<char>,
)
    requires
        with_findings(cache, findings).1 is None,
        forall|k: int|
            0 <= k < findings.len() ==> (#[trigger] findings[k]) is Profile
                && findings[k]->Profile_0.follows is None,
    ensures
        known_follows(with_findings(cache, findings).0, id) == known_follows(cache, id),
{
    lemma_followed_is_known(cache, findings, id);
}

/// Findings go to every signed-in account's search graph and to no other.
pub proof fn law_findings_reach_every_signed_in_account(
    accounts: Seq<AccountContent>,
    findings: Seq<FindingContent>,
    i: int,
)
    requires
        findings_spread(accounts, findings).1 is None,
        0 <= i < accounts.len(),
    ensures
        ({
            let after = findings_spread(accounts, findings).0;
            &&& after.len() == accounts.len()
            &&& signs_now(accounts[i]) ==> after[i].cache == with_findings(
                accounts[i].cache,
                findings,
            ).0 && with_findings(accounts[i].cache, findings).1 is None
            &&& !signs_now(accounts[i]) ==> after[i] == accounts[i]
        }),
    decreases accounts.len(),
{
    let rest = accounts.drop_first();
    let after = findings_spread(accounts, findings).0;
    if i > 0 {
        law_findings_reach_every_signed_in_account(rest, findings, i - 1);
        assert(rest[i - 1] == accounts[i]);
        assert(after[i] == findings_spread(rest, findings).0[i - 1]);
    } else if rest.len() > 0 {
        law_findings_reach_every_signed_in_account(rest, findings, 0);
    } else {
        assert(findings_spread(rest, findings).0 == rest);
    }
}

/// Of the records of a radius exactly those are told that match and were not told before:
/// every such account is among the new results, with its match, and counts as told.
pub proof fn law_new_matches_are_told(
    emitted: Set<Seq<char>>,
    records: Seq<EntryContent>,
    radius: u8,
    query: Seq<char>,
)
    ensures
        ({
            let fresh = fresh_matches(emitted, records, radius, query);
            &&& forall|i: int|
                0 <= i < records.len() && record_match(#[trigger] records[i], query) is Some
                    ==> fresh.emitted.contains(records[i].account_id_hex)
            &&& forall|id: Seq<char>| #[trigger]
                fresh.emitted.contains(id) && !emitted.contains(id) ==> exists|k: int|
                    0 <= k < fresh.results.len() && (#[trigger] fresh.results[k]).account_id_hex
                        == id
            &&& forall|k: int|
                0 <= k < fresh.results.len() ==> exists|i: int|
                    0 <= i < records.len() && (record_match(
                        #[trigger] records[i],
                        query,
                    ) matches Some(found) && #[trigger] fresh.results[k] == (ResultContent {
                        account_id_hex: records[i].account_id_hex,
                        npub: records[i].npub,
                        radius,
                        matched_field: found.field,
                        match_quality: found.quality,
                        provider_rank: None,
                        profile: records[i].profile,
                    }))
        }),
    decreases records.len(),
{
    if records.len() > 0 {
        let rest = records.drop_last();
        let last = records.last();
        let before = fresh_matches(emitted, rest, radius, query);
        let fresh = fresh_matches(emitted, records, radius, query);
        law_new_matches_are_told(emitted, rest, radius, query);
        assert(records[records.len() - 1] == last);
        assert forall|i: int| 0 <= i < rest.len() implies records[i] == #[trigger] rest[i] by {}
        assert forall|k: int| 0 <= k < before.results.len() implies fresh.results[k]
            == #[trigger] before.results[k] by {}
        assert forall|i: int|
            0 <= i < records.len() && record_match(
                #[trigger] records[i],
                query,
            ) is Some implies fresh.emitted.contains(records[i].account_id_hex) by {
            if i < rest.len() {
                assert(rest[i] == records[i]);
                assert(before.emitted.contains(rest[i].account_id_hex));
            }
        }
        assert forall|id: Seq<char>| #[trigger]
            fresh.emitted.contains(id) && !emitted.contains(id) implies exists|k: int|
            0 <= k < fresh.results.len() && (#[trigger] fresh.results[k]).account_id_hex == id by {
            if before.emitted.contains(id) {
                let k = choose|k: int|
                    0 <= k < before.results.len() && (
                    #[trigger] before.results[k]).account_id_hex == id;
                assert(fresh.results[k].account_id_hex == id);
            } else {
                assert(fresh.results[fresh.results.len() - 1].account_id_hex == id);
            }
        }
        assert forall|k: int| 0 <= k < fresh.results.len() implies exists|i: int|
            0 <= i < records.len() && (record_match(#[trigger] records[i], query) matches Some(
                found,
            ) && #[trigger] fresh.results[k] == (ResultContent {
                account_id_hex: records[i].account_id_hex,
                npub: records[i].npub,
                radius,
                matched_field: found.field,
                match_quality: found.quality,
                provider_rank: None,
                profile: records[i].profile,
            })) by {
            if k < before.results.len() {
                assert(fresh.results[k] == before.results[k]);
                let i = choose|i: int|
                    0 <= i < rest.len() && (record_match(#[trigger] rest[i], query) matches Some(
                        found,
                    ) && before.results[k] == (ResultContent {
                        account_id_hex: rest[i].account_id_hex,
                        npub: rest[i].npub,
                        radius,
                        matched_field: found.field,
                        match_quality: found.quality,
                        provider_rank: None,
                        profile: rest[i].profile,
                    }));
                assert(record_match(records[i], query) is Some);
            } else {
                assert(record_match(records[records.len() - 1], query) is Some);
            }
        }
    }
}

/// An account that a provider ranked is told at the radius at which the graph has it, and
/// off the graph, with its rank, where the graph does not have it.
pub proof fn law_ranked_account_is_told_at_its_radius(
    radii: Map<Seq<char>, u8>,
    entry: EntryContent,
    rank: ProviderRank,
    query: Seq<char>,
)
    ensures
        ranked_result(radii, entry, rank, query) is Some <==> record_match(entry, query) is Some,
        ranked_result(radii, entry, rank, query) matches Some(result) ==> {
            &&& result.account_id_hex == entry.account_id_hex
            &&& result.profile == entry.profile
            &&& radii.dom().contains(entry.account_id_hex) ==> result.radius
                == radii[entry.account_id_hex]
            &&& !radii.dom().contains(entry.account_id_hex) ==> result.radius
                == OFF_GRAPH_SEARCH_RADIUS && result.provider_rank == Some(rank)
            &&& result.match_quality == record_match(entry, query)->0.quality
            &&& result.matched_field == record_match(entry, query)->0.field
        },
{
}

/// An update tells all new results, best first, and how many were told in all. There is none
/// where nothing is new.
pub proof fn law_update_tells_all_new_results(
    emitter: EmitterContent,
    fresh: Fresh,
    trigger: TriggerContent,
)
    requires
        emitter.total_result_count + fresh.results.len() <= usize::MAX,
    ensures
        ({
            let (after, update) = told(emitter, fresh, trigger);
            &&& after.total_result_count == emitter.total_result_count + fresh.results.len()
            &&& after.emitted == fresh.emitted
            &&& after.radii == emitter.radii
            &&& update is None <==> fresh.results.len() == 0
            &&& update matches Some(update) ==> {
                &&& update.trigger == trigger
                &&& update.total_result_count == after.total_result_count
                &&& update.new_results.to_multiset() == fresh.results.to_multiset()
                &&& forall|i: int, j: int|
                    0 <= i < j < update.new_results.len() ==> !result_lt()(
                        #[trigger] update.new_results[j],
                        #[trigger] update.new_results[i],
                    )
            }
        }),
{
    crate::directory::search_match::lemma_result_weak_order();
    lemma_sorted_by(fresh.results, result_lt());
}

/// A walk goes on exactly while it has accounts to visit within its last radius. Off the
/// graph it tells so in place of the radius.
pub proof fn law_walk_goes_on_within_its_radius(walk: WalkContent)
    requires
        walk.radius_end <= u8::MAX,
    ensures
        next_depth(walk) is Some <==> walk.frontier.len() > 0 && walk.radius <= walk.radius_end,
        next_depth(walk) matches Some(depth) ==> depth.hop == walk.radius && (walk.off_graph
            ==> depth.reported == OFF_GRAPH_SEARCH_RADIUS) && (!walk.off_graph ==> depth.reported
            == walk.radius),
{
}

/// Seeds are taken exactly where they are identities that were not seen, each once.
pub proof fn law_unseen_seeds_are_taken(
    seen: Set<Seq<char>>,
    seeds: Seq<Seq<char>>,
    id: Seq<char>,
)
    ensures
        ({
            let (frontier, after) = seeds_from(seen, seeds);
            &&& frontier.contains(id) <==> !seen.contains(id) && exists|i: int|
                0 <= i < seeds.len() && public_key_hex(#[trigger] seeds[i]) == Some(id)
            &&& after.contains(id) <==> seen.contains(id) || frontier.contains(id)
            &&& frontier.no_duplicates()
        }),
    decreases seeds.len(),
{
    if seeds.len() > 0 {
        let rest = seeds.drop_last();
        let last = seeds.last();
        let (before, known) = seeds_from(seen, rest);
        let (frontier, after) = seeds_from(seen, seeds);
        law_unseen_seeds_are_taken(seen, rest, id);
        assert(seeds[seeds.len() - 1] == last);
        assert forall|i: int| 0 <= i < rest.len() implies seeds[i] == #[trigger] rest[i] by {}
        if let Some(key) = public_key_hex(last) {
            law_unseen_seeds_are_taken(seen, rest, key);
            lemma_push_contains(before, key, id);
            if !known.contains(key) {
                assert forall|a: int, b: int|
                    0 <= a < frontier.len() && 0 <= b < frontier.len() && a
                        != b implies frontier[a] != frontier[b] by {
                    if a == before.len() {
                        assert(before.contains(before[b]));
                    } else if b == before.len() {
                        assert(before.contains(before[a]));
                    }
                }
            }
        }
        if before.contains(id) {
            let i = choose|i: int|
                0 <= i < rest.len() && public_key_hex(#[trigger] rest[i]) == Some(id);
            assert(public_key_hex(seeds[i]) == Some(id));
        }
        if exists|i: int| 0 <= i < seeds.len() && public_key_hex(#[trigger] seeds[i]) == Some(id) {
            let i = choose|i: int|
                0 <= i < seeds.len() && public_key_hex(#[trigger] seeds[i]) == Some(id);
            if i < rest.len() {
                assert(public_key_hex(rest[i]) == Some(id));
            }
        }
    }
}

/// Of an author's relays the first few are used, and all where there are no more.
pub proof fn law_first_relays_are_used(relays: Seq<Seq<char>>)
    ensures
        used_relays(relays).len() <= SEARCH_MAX_WRITE_RELAYS_PER_AUTHOR,
        relays.len() <= SEARCH_MAX_WRITE_RELAYS_PER_AUTHOR ==> used_relays(relays) == relays,
        relays.len() >= SEARCH_MAX_WRITE_RELAYS_PER_AUTHOR ==> used_relays(relays).len()
            == SEARCH_MAX_WRITE_RELAYS_PER_AUTHOR,
        forall|i: int|
            0 <= i < used_relays(relays).len() ==> #[trigger] used_relays(relays)[i] == relays[i],
{
}

spec fn serves(groups: Seq<AuthorsContent>, relay: Seq<char>, author: Seq<char>) -> bool {
    exists|g: int|
        0 <= g < groups.len() && (#[trigger] groups[g]).relay == relay
            && groups[g].authors.contains(author)
}

proof fn lemma_relay_position(groups: Seq<AuthorsContent>, relay: Seq<char>)
    ensures
        0 <= relay_position(groups, relay) <= groups.len(),
        relay_position(groups, relay) < groups.len() ==> groups[relay_position(
            groups,
            relay,
        )].relay == relay,
    decreases groups.len(),
{
    if groups.len() > 0 && groups[0].relay != relay {
        lemma_relay_position(groups.drop_first(), relay);
    }
}

proof fn lemma_with_author(
    groups: Seq<AuthorsContent>,
    relay: Seq<char>,
    author: Seq<char>,
    other_relay: Seq<char>,
    other: Seq<char>,
)
    ensures
        serves(with_author(groups, relay, author), relay, author),
        serves(groups, other_relay, other) ==> serves(
            with_author(groups, relay, author),
            other_relay,
            other,
        ),
{
    lemma_relay_position(groups, relay);
    let i = relay_position(groups, relay);
    let after = with_author(groups, relay, author);
    if i < groups.len() {
        lemma_push_contains(groups[i].authors, author, author);
        assert(after[i].relay == relay && after[i].authors.contains(author));
    } else {
        assert(after[groups.len() as int].authors[0] == author);
        assert(after[groups.len() as int].relay == relay);
    }
    if serves(groups, other_relay, other) {
        let g = choose|g: int|
            0 <= g < groups.len() && (#[trigger] groups[g]).relay == other_relay
                && groups[g].authors.contains(other);
        if g == i {
            lemma_push_contains(groups[i].authors, author, other);
        } else {
            assert(after[g] == groups[g]);
        }
        assert(after[g].relay == other_relay && after[g].authors.contains(other));
    }
}

proof fn lemma_with_author_of(
    groups: Seq<AuthorsContent>,
    relays: Seq<Seq<char>>,
    author: Seq<char>,
    relay: Seq<char>,
    other_relay: Seq<char>,
    other: Seq<char>,
)
    ensures
        relays.contains(relay) ==> serves(with_author_of(groups, relays, author), relay, author),
        serves(groups, other_relay, other) ==> serves(
            with_author_of(groups, relays, author),
            other_relay,
            other,
        ),
    decreases relays.len(),
{
    if relays.len() > 0 {
        let rest = relays.drop_last();
        let last = relays.last();
        let before = with_author_of(groups, rest, author);
        lemma_with_author_of(groups, rest, author, relay, other_relay, other);
        lemma_with_author(before, last, author, relay, author);
        lemma_with_author(before, last, author, other_relay, other);
        assert(relays =~= rest.push(last));
        lemma_push_contains(rest, last, relay);
    }
}

proof fn lemma_by_relay(
    lists: Seq<(Seq<char>, Seq<Seq<char>>)>,
    k: int,
    relay: Seq<char>,
)
    requires
        0 <= k < lists.len(),
        used_relays(lists[k].1).contains(relay),
    ensures
        serves(by_relay(lists), relay, lists[k].0),
    decreases lists.len(),
{
    let rest = lists.drop_last();
    let last = lists.last();
    let before = by_relay(rest);
    if k < rest.len() {
        assert(rest[k] == lists[k]);
        lemma_by_relay(rest, k, relay);
    }
    lemma_with_author_of(before, used_relays(last.1), last.0, relay, relay, lists[k].0);
}

/// Where there are few enough relays, every author is asked for at each of its relays that
/// are used. Where there are more, those are asked that serve the most authors: one that is
/// left out serves no more of them than any that is asked.
pub proof fn law_relays_with_most_authors_are_asked(
    lists: Seq<(Seq<char>, Seq<Seq<char>>)>,
    k: int,
    relay: Seq<char>,
)
    requires
        0 <= k < lists.len(),
        used_relays(lists[k].1).contains(relay),
        forall|g: int|
            0 <= g < by_relay(lists).len() ==> (#[trigger] by_relay(lists)[g]).authors.len()
                <= u64::MAX,
    ensures
        ({
            let asked = relays_to_ask(lists);
            ||| exists|g: int|
                0 <= g < asked.len() && (#[trigger] asked[g]).relay == relay
                    && asked[g].authors.contains(lists[k].0)
            ||| asked.len() == SEARCH_MAX_WRITE_RELAYS_PER_BATCH && exists|left: AuthorsContent|
                {
                    &&& #[trigger] by_relay(lists).contains(left)
                    &&& left.relay == relay && left.authors.contains(lists[k].0)
                    &&& forall|g: int|
                        0 <= g < asked.len() ==> (#[trigger] asked[g]).authors.len()
                            >= left.authors.len()
                }
        }),
{
    let groups = by_relay(lists);
    let lt = coverage_lt();
    let sorted = sorted_by(groups, lt);
    let asked = relays_to_ask(lists);
    crate::directory::search_graph::lemma_coverage_weak_order();
    lemma_sorted_by(groups, lt);
    lemma_same_elements(sorted, groups);
    lemma_by_relay(lists, k, relay);
    let g = choose|g: int|
        0 <= g < groups.len() && (#[trigger] groups[g]).relay == relay
            && groups[g].authors.contains(lists[k].0);
    assert(groups.contains(groups[g]));
    assert(sorted.contains(groups[g]));
    let m = choose|m: int| 0 <= m < sorted.len() && sorted[m] == groups[g];
    if m < asked.len() {
        assert(asked[m] == sorted[m]);
    } else {
        let left = groups[g];
        assert forall|a: int| 0 <= a < asked.len() implies (#[trigger] asked[a]).authors.len()
            >= left.authors.len() by {
            assert(asked[a] == sorted[a]);
            assert(!lt(sorted[m], sorted[a]));
            assert(sorted.contains(sorted[a]));
            assert(groups.contains(sorted[a]));
            let h = choose|h: int| 0 <= h < groups.len() && groups[h] == sorted[a];
            assert(groups[h].authors.len() <= u64::MAX);
            assert(groups[g].authors.len() <= u64::MAX);
        }
        assert(groups.contains(left));
    }
}

} // verus!
