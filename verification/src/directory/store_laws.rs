//! What the stores of the directory hold, and how an account of this device stands.

use crate::directory::app_entry::{entry_named, hydrated, newer_entry, recency, Gate};
use crate::directory::app_ingest::with_live_package;
use crate::directory::app_laws::{lemma_users_are_listed, users_kept, well_kept};
use crate::directory::app_save::{newer_package, public_entry, saved, stored_account};
use crate::directory::app_state::{
    current_ref_liveness, is_live_revision, lemma_signer_position, local_current_liveness,
    local_revision_liveness, revision_liveness, signer_position, signs, signs_now, slot_retired,
    standing, AccountContent, AppContent, LifecycleContent, Standing,
};
use crate::directory::app_warm::{
    active_ids, collected, collected_caches, directory_of, user_list, upserted,
};
use crate::directory::cache::{
    find, graph_entry, known_follows, lists_by, search_entry, with_entry, with_graph_follows,
    with_graph_record, CacheContent, GraphRecordContent,
};
use crate::directory::entry::{DirectoryKeyPackageContent, EntryContent};
use crate::directory::key_packages::FetchedContent;
use crate::error::ErrorContent;
use crate::text::hex_text;
use vstd::prelude::*;

verus! {

/// An identity is admitted only as an account of this device that has it, can sign, is
/// signed in, and whose session is open. It is a stranger exactly where no account with it
/// can sign.
pub proof fn law_admitted_account_signs(app: AppContent, id: Seq<char>)
    ensures
        standing(app, id) matches Standing::Admitted(i) ==> {
            &&& 0 <= i < app.accounts.len()
            &&& app.accounts[i].account_id_hex == id
            &&& app.accounts[i].local_signing || app.accounts[i].external_signing
            &&& !app.accounts[i].signed_out
            &&& find(app.admissions, app.accounts[i].label) matches Some((owner, open)) ==> owner
                != id || open
        },
        standing(app, id) is Remote <==> forall|i: int|
            0 <= i < app.accounts.len() ==> !((#[trigger] app.accounts[i]).account_id_hex == id && (
            app.accounts[i].local_signing || app.accounts[i].external_signing)),
{
    lemma_signer_position(app.accounts, id);
    lemma_no_signer(app.accounts, id);
    let k = signer_position(app.accounts, id);
    if k < app.accounts.len() {
        assert(app.accounts[k].account_id_hex == id && signs(app.accounts[k]));
    }
}

proof fn lemma_no_signer(accounts: Seq<AccountContent>, id: Seq<char>)
    ensures
        signer_position(accounts, id) == accounts.len() ==> forall|i: int|
            0 <= i < accounts.len() ==> !((#[trigger] accounts[i]).account_id_hex == id && signs(
                accounts[i],
            )),
    decreases accounts.len(),
{
    if accounts.len() > 0 {
        let rest = accounts.drop_first();
        lemma_no_signer(rest, id);
        lemma_signer_position(rest, id);
        if signer_position(accounts, id) == accounts.len() {
            assert forall|i: int| 0 <= i < accounts.len() implies !((
            #[trigger] accounts[i]).account_id_hex == id && signs(accounts[i])) by {
                if i > 0 {
                    assert(accounts[i] == rest[i - 1]);
                }
            }
        }
    }
}

/// A stranger's key package is always live and that of a refused account never. An admitted
/// account's is live as its lifecycle says.
pub proof fn law_liveness_follows_the_standing(
    app: AppContent,
    id: Seq<char>,
    reference: Seq<char>,
    event: Seq<char>,
)
    ensures
        standing(app, id) is Remote ==> local_revision_liveness(app, id, reference, event) == Ok::<
            bool,
            ErrorContent,
        >(true) && local_current_liveness(app, id, reference) == Ok::<bool, ErrorContent>(true),
        standing(app, id) is Refused ==> local_revision_liveness(app, id, reference, event)
            == Ok::<bool, ErrorContent>(false) && local_current_liveness(app, id, reference)
            == Ok::<bool, ErrorContent>(false),
        standing(app, id) matches Standing::Admitted(i) ==> local_revision_liveness(
            app,
            id,
            reference,
            event,
        ) == revision_liveness(app.accounts[i].lifecycle, reference, event)
            && local_current_liveness(app, id, reference) == current_ref_liveness(
            app.accounts[i].lifecycle,
            reference,
        ),
{
}

/// A revision is live exactly where it is the current one or the one that is to replace it,
/// it was not consumed, and its event was not deleted.
pub proof fn law_live_revision_is_current_or_pending(
    lifecycle: LifecycleContent,
    reference: Seq<u8>,
    event: Seq<u8>,
)
    ensures
        is_live_revision(lifecycle, reference, event) <==> {
            &&& !lifecycle.consumed_key_package_refs.contains(reference)
            &&& !lifecycle.deleted_live_revision_event_ids.contains(event)
            &&& {
                ||| lifecycle.current_key_package_ref == Some(reference)
                    && lifecycle.authored_event_id == Some(event) && (
                lifecycle.authored_signed_event_id matches Some(signed) ==> signed == event)
                ||| lifecycle.pending_replacement matches Some(pending) && pending.key_package_ref
                    == reference && pending.signed_event_id == Some(event)
            }
        },
{
}

/// A slot is retired where it was removed itself, or its account was and is not admitted.
pub proof fn law_removed_slots_are_retired(
    app: AppContent,
    id: Seq<char>,
    slot: Seq<char>,
)
    ensures
        app.removed_slots.contains((id, slot)) ==> slot_retired(app, id, slot, true)
            && slot_retired(app, id, slot, false),
        app.removed_accounts.contains(id) ==> slot_retired(app, id, slot, false),
        !app.removed_slots.contains((id, slot)) ==> !slot_retired(app, id, slot, true),
        !app.removed_slots.contains((id, slot)) && !app.removed_accounts.contains(id)
            ==> !slot_retired(app, id, slot, false),
{
}

/// Of two entries the more recent is chosen, the first where neither is; one is as recent
/// as its profile or its key package, whichever is later.
pub proof fn law_more_recent_entry_is_chosen(first: EntryContent, second: EntryContent)
    ensures
        newer_entry(Some(first), Some(second)) == Some(first) || newer_entry(
            Some(first),
            Some(second),
        ) == Some(second),
        recency(newer_entry(Some(first), Some(second))->0) >= recency(first),
        recency(newer_entry(Some(first), Some(second))->0) >= recency(second),
        recency(first) == recency(second) ==> newer_entry(Some(first), Some(second)) == Some(first),
        newer_entry(Some(first), None) == Some(first),
        newer_entry(None, Some(second)) == Some(second),
        first.profile matches Some(profile) ==> recency(first) >= profile.created_at,
        first.key_package matches Some(package) ==> recency(first) >= package.created_at,
        recency(first) == 0 || (first.profile matches Some(profile) && profile.created_at
            == recency(first)) || (first.key_package matches Some(package) && package.created_at
            == recency(first)),
{
}

/// Of two key packages the one that replaces the other is kept, and any rather than none.
pub proof fn law_replacing_package_is_kept(
    current: DirectoryKeyPackageContent,
    candidate: DirectoryKeyPackageContent,
)
    ensures
        candidate.created_at > current.created_at ==> newer_package(Some(current), Some(candidate))
            == Some(candidate),
        candidate.created_at < current.created_at ==> newer_package(Some(current), Some(candidate))
            == Some(current),
        candidate.created_at == current.created_at ==> newer_package(
            Some(current),
            Some(candidate),
        ) == (if crate::order::text_lt(
            candidate.key_package_event_id,
            current.key_package_event_id,
        ) {
            Some(candidate)
        } else {
            Some(current)
        }),
        newer_package(Some(current), None) == Some(current),
        newer_package(None, Some(candidate)) == Some(candidate),
{
}

/// A save writes one entry: the same to the cache of every signed-in account and, without
/// what only this device knows, to the shared storage. It leaves signed-out accounts and
/// every other identity alone, and asks for a new plan where it wrote anything.
pub proof fn law_save_writes_one_entry(
    app: AppContent,
    entry: EntryContent,
    reason: Seq<char>,
    now: i64,
    gate: Gate,
    other: Seq<char>,
)
    requires
        saved(app, entry, reason, now, gate) is Ok,
    ensures
        ({
            let after = saved(app, entry, reason, now, gate)->Ok_0;
            after == app || exists|written: EntryContent|
                {
                    &&& #[trigger] after.shared[written.account_id_hex] == (EntryContent {
                        local_account: None,
                        ..written
                    })
                    &&& after.shared.dom().contains(written.account_id_hex)
                    &&& after.rebuild_requested
                    &&& after.accounts.len() == app.accounts.len()
                    &&& forall|i: int|
                        0 <= i < app.accounts.len() ==> if signs_now(#[trigger] app.accounts[i]) {
                            find(after.accounts[i].cache.users, written.account_id_hex) == Some(
                                written,
                            )
                        } else {
                            after.accounts[i] == app.accounts[i]
                        }
                    &&& other != written.account_id_hex ==> find(after.shared, other) == find(
                        app.shared,
                        other,
                    ) && forall|i: int|
                        0 <= i < app.accounts.len() ==> find(
                            (#[trigger] after.accounts[i]).cache.users,
                            other,
                        ) == find(app.accounts[i].cache.users, other)
                }
        }),
{
    let after = saved(app, entry, reason, now, gate)->Ok_0;
    if after != app {
        let proposed = hydrated(app, entry, gate)->Ok_0;
        let id = proposed.account_id_hex;
        let shared = crate::directory::app_entry::hydrated_option(
            app,
            find(app.shared, id),
            gate,
        )->Ok_0;
        let live = crate::directory::app_save::live_over_caches(
            app,
            app.accounts,
            id,
            gate,
            newer_package(
                proposed.key_package,
                crate::directory::app_save::package_of_option(shared),
            ),
        )->Ok_0;
        let written = crate::directory::app_save::settled_entry(proposed, shared, live);
        assert(after.shared[written.account_id_hex] == public_entry(written));
        assert forall|i: int| 0 <= i < app.accounts.len() implies if signs_now(
            #[trigger] app.accounts[i],
        ) {
            find(after.accounts[i].cache.users, written.account_id_hex) == Some(written)
        } else {
            after.accounts[i] == app.accounts[i]
        } by {
            assert(after.accounts[i] == stored_account(app.accounts[i], written, reason, now));
        }
        if other != written.account_id_hex {
            assert forall|i: int| 0 <= i < app.accounts.len() implies find(
                (#[trigger] after.accounts[i]).cache.users,
                other,
            ) == find(app.accounts[i].cache.users, other) by {
                assert(after.accounts[i] == stored_account(app.accounts[i], written, reason, now));
            }
        }
    }
}

/// When an entry was first stored for a reason is kept; when it was last stored is brought
/// up to date.
pub proof fn law_first_sighting_is_kept(
    cache: CacheContent,
    entry: EntryContent,
    reason: Seq<char>,
    now: i64,
)
    ensures
        ({
            let key = (entry.account_id_hex, reason);
            let after = with_entry(cache, entry, reason, now);
            &&& after.reasons.dom().contains(key)
            &&& after.reasons[key].last_seen_at == now
            &&& after.reasons[key].first_seen_at == (if cache.reasons.dom().contains(key) {
                cache.reasons[key].first_seen_at
            } else {
                now
            })
            &&& forall|k: (Seq<char>, Seq<char>)| #[trigger]
                after.reasons.dom().contains(k) <==> cache.reasons.dom().contains(k) || k == key
        }),
{
}

/// A stored entry is in the search graph too: with its profile, which does not expire, and
/// with who it follows where it follows anyone.
pub proof fn law_stored_entry_enters_the_graph(
    cache: CacheContent,
    entry: EntryContent,
    reason: Seq<char>,
    now: i64,
    later: i64,
    other: Seq<char>,
)
    ensures
        ({
            let after = with_entry(cache, entry, reason, now);
            &&& graph_entry(after, entry.account_id_hex, later) matches Some(found)
                && found.profile == entry.profile && found.npub == entry.npub
            &&& entry.follows.len() > 0 ==> known_follows(after, entry.account_id_hex) == Some(
                entry.follows,
            )
            &&& other != entry.account_id_hex ==> graph_entry(after, other, later) == graph_entry(
                cache,
                other,
                later,
            )
        }),
{
}

/// A record of the search graph replaces the profile that was known of the account. Where it
/// says whom the account follows, that is known; where it does not, what was known stays.
/// Other accounts are left alone.
pub proof fn law_graph_record_is_known(
    cache: CacheContent,
    record: GraphRecordContent,
    now: i64,
    other: Seq<char>,
)
    ensures
        ({
            let after = with_graph_record(cache, record);
            &&& known_follows(after, record.account_id_hex) == (match record.follows {
                Some(follows) => Some(follows),
                None => known_follows(cache, record.account_id_hex),
            })
            &&& record.metadata_expires_at is None ==> (graph_entry(
                after,
                record.account_id_hex,
                now,
            ) matches Some(found) && found.profile == record.profile)
            &&& other != record.account_id_hex ==> known_follows(after, other) == known_follows(
                cache,
                other,
            ) && graph_entry(after, other, now) == graph_entry(cache, other, now)
        }),
{
}

/// To learn whom an account follows leaves its profile in the graph, and every other
/// account, as they were.
pub proof fn law_learned_follows_keep_the_profile(
    cache: CacheContent,
    account: Seq<char>,
    npub: Seq<char>,
    follows: Seq<Seq<char>>,
    now: i64,
    other: Seq<char>,
)
    ensures
        ({
            let after = with_graph_follows(cache, account, npub, follows);
            &&& known_follows(after, account) == Some(follows)
            &&& graph_entry(after, account, now) matches Some(found) && found.profile == (
            match graph_entry(cache, account, now) {
                Some(before) => before.profile,
                None => None,
            })
            &&& other != account ==> graph_entry(after, other, now) == graph_entry(
                cache,
                other,
                now,
            )
        }),
{
}

/// A search finds what is stored of an account before what the graph knows of it.
pub proof fn law_stored_entry_is_found_first(cache: CacheContent, account: Seq<char>, now: i64)
    ensures
        cache.users.dom().contains(account) ==> search_entry(cache, account, now) == Some(
            cache.users[account],
        ),
        !cache.users.dom().contains(account) ==> search_entry(cache, account, now) == graph_entry(
            cache,
            account,
            now,
        ),
{
}

/// A key package of which it was answered that it is the known one is the one that is shown.
pub proof fn law_remembered_package_is_shown(app: AppContent, fetched: FetchedContent, now: i64)
    requires
        with_live_package(app, fetched, now).1 == Ok::<bool, ErrorContent>(true),
    ensures
        ({
            let after = with_live_package(app, fetched, now).0;
            let gate = Gate::Given(standing(app, fetched.account_id_hex) is Admitted);
            &&& standing(app, fetched.account_id_hex) !is Refused
            &&& !slot_retired(
                app,
                fetched.account_id_hex,
                fetched.key_package_id,
                standing(app, fetched.account_id_hex) is Admitted,
            )
            &&& entry_named(after, fetched.account_id_hex, gate) matches Ok(Some(entry))
                && entry.key_package matches Some(shown) && shown.key_package_id
                == fetched.key_package_id && shown.key_package_ref_hex
                == fetched.key_package_ref_hex && shown.key_package_event_id
                == fetched.key_package_event_id && shown.created_at == fetched.created_at
                && shown.key_package_hex == hex_text(fetched.key_package.bytes)
        }),
{
}

spec fn listed(found: Map<Seq<char>, EntryContent>, entry: EntryContent) -> bool {
    &&& found.dom().contains(entry.account_id_hex)
    &&& recency(found[entry.account_id_hex]) >= recency(entry)
}

proof fn lemma_upserted(
    found: Map<Seq<char>, EntryContent>,
    entry: EntryContent,
    other: EntryContent,
)
    ensures
        listed(upserted(found, entry), entry),
        listed(found, other) ==> listed(upserted(found, entry), other),
{
}

proof fn lemma_collected(
    app: AppContent,
    found: Map<Seq<char>, EntryContent>,
    stored: Seq<EntryContent>,
)
    requires
        collected(app, found, stored) is Ok,
    ensures
        forall|other: EntryContent| #[trigger]
            listed(found, other) ==> listed(collected(app, found, stored)->Ok_0, other),
        forall|i: int|
            0 <= i < stored.len() ==> hydrated(app, #[trigger] stored[i], Gate::Inspect) is Ok
                && listed(
                collected(app, found, stored)->Ok_0,
                hydrated(app, stored[i], Gate::Inspect)->Ok_0,
            ),
    decreases stored.len(),
{
    if stored.len() > 0 {
        let rest = stored.drop_first();
        let entry = hydrated(app, stored[0], Gate::Inspect)->Ok_0;
        let next = upserted(found, entry);
        lemma_collected(app, next, rest);
        assert(collected(app, found, stored) == collected(app, next, rest));
        assert forall|other: EntryContent| #[trigger] listed(found, other) implies listed(
            collected(app, found, stored)->Ok_0,
            other,
        ) by {
            lemma_upserted(found, entry, other);
        }
        lemma_upserted(found, entry, entry);
        assert forall|i: int| 0 <= i < stored.len() implies hydrated(
            app,
            #[trigger] stored[i],
            Gate::Inspect,
        ) is Ok && listed(
            collected(app, found, stored)->Ok_0,
            hydrated(app, stored[i], Gate::Inspect)->Ok_0,
        ) by {
            if i > 0 {
                assert(rest[i - 1] == stored[i]);
            } else {
                assert(listed(next, entry));
            }
        }
    }
}

proof fn lemma_collected_caches(
    app: AppContent,
    found: Map<Seq<char>, EntryContent>,
    accounts: Seq<AccountContent>,
)
    requires
        collected_caches(app, found, accounts) is Ok,
        forall|i: int|
            0 <= i < accounts.len() ==> users_kept((#[trigger] accounts[i]).cache.users),
    ensures
        forall|other: EntryContent| #[trigger]
            listed(found, other) ==> listed(collected_caches(app, found, accounts)->Ok_0, other),
        forall|i: int, id: Seq<char>|
            #![trigger accounts[i].cache.users[id]]
            0 <= i < accounts.len() && signs_now(accounts[i])
                && accounts[i].cache.users.dom().contains(id) ==> hydrated(
                app,
                accounts[i].cache.users[id],
                Gate::Inspect,
            ) is Ok && listed(
                collected_caches(app, found, accounts)->Ok_0,
                hydrated(app, accounts[i].cache.users[id], Gate::Inspect)->Ok_0,
            ),
    decreases accounts.len(),
{
    if accounts.len() > 0 {
        let rest = accounts.drop_first();
        let users = accounts[0].cache.users;
        assert(users_kept(users));
        assert forall|i: int| 0 <= i < rest.len() implies users_kept(
            (#[trigger] rest[i]).cache.users,
        ) by {
            assert(rest[i] == accounts[i + 1]);
        }
        let next = if signs_now(accounts[0]) {
            collected(app, found, user_list(users))->Ok_0
        } else {
            found
        };
        lemma_collected_caches(app, next, rest);
        let all = collected_caches(app, found, accounts)->Ok_0;
        assert(all == collected_caches(app, next, rest)->Ok_0);
        if signs_now(accounts[0]) {
            lemma_collected(app, found, user_list(users));
        }
        assert forall|i: int, id: Seq<char>|
            #![trigger accounts[i].cache.users[id]]
            0 <= i < accounts.len() && signs_now(accounts[i])
                && accounts[i].cache.users.dom().contains(id) implies hydrated(
            app,
            accounts[i].cache.users[id],
            Gate::Inspect,
        ) is Ok && listed(
            all,
            hydrated(app, accounts[i].cache.users[id], Gate::Inspect)->Ok_0,
        ) by {
            if i > 0 {
                assert(rest[i - 1] == accounts[i]);
                assert(hydrated(app, rest[i - 1].cache.users[id], Gate::Inspect) is Ok);
            } else {
                let k = lemma_listed_at(users, id);
                assert(hydrated(app, user_list(users)[k], Gate::Inspect) is Ok);
                assert(listed(next, hydrated(app, users[id], Gate::Inspect)->Ok_0));
            }
        }
    }
}

proof fn lemma_listed_at(users: Map<Seq<char>, EntryContent>, id: Seq<char>) -> (k: int)
    requires
        users.dom().finite(),
        users.dom().contains(id),
    ensures
        0 <= k < user_list(users).len(),
        user_list(users)[k] == users[id],
{
    lemma_users_are_listed(users);
    let accounts = choose|accounts: Seq<Seq<char>>| #[trigger]
        lists_by(user_list(users), users, accounts);
    assert(accounts.contains(id));
    let k = choose|k: int| 0 <= k < accounts.len() && accounts[k] == id;
    assert(user_list(users)[k] == users[accounts[k]]);
    k
}

/// The list of the directory has everyone of whom the shared storage or a signed-in
/// account's cache knows, with an entry that is as recent as what any of them shows.
pub proof fn law_directory_lists_everyone(app: AppContent, id: Seq<char>)
    requires
        well_kept(app),
        directory_of(app) is Ok,
    ensures
        app.shared.dom().contains(id) ==> (hydrated(
            app,
            app.shared[id],
            Gate::Inspect,
        ) matches Ok(shown) && directory_of(app)->Ok_0.dom().contains(shown.account_id_hex)
            && recency(directory_of(app)->Ok_0[shown.account_id_hex]) >= recency(shown)),
        forall|i: int|
            0 <= i < app.accounts.len() && signs_now(#[trigger] app.accounts[i])
                && app.accounts[i].cache.users.dom().contains(id) ==> (hydrated(
                app,
                app.accounts[i].cache.users[id],
                Gate::Inspect,
            ) matches Ok(shown) && directory_of(app)->Ok_0.dom().contains(shown.account_id_hex)
                && recency(directory_of(app)->Ok_0[shown.account_id_hex]) >= recency(shown)),
{
    let none = Map::<Seq<char>, EntryContent>::empty();
    let cached = collected_caches(app, none, app.accounts)->Ok_0;
    let all = directory_of(app)->Ok_0;
    lemma_collected_caches(app, none, app.accounts);
    lemma_collected(app, cached, user_list(app.shared));
    if app.shared.dom().contains(id) {
        let k = lemma_listed_at(app.shared, id);
        assert(hydrated(app, user_list(app.shared)[k], Gate::Inspect) is Ok);
        assert(listed(all, hydrated(app, app.shared[id], Gate::Inspect)->Ok_0));
    }
    assert forall|i: int|
        0 <= i < app.accounts.len() && signs_now(#[trigger] app.accounts[i])
            && app.accounts[i].cache.users.dom().contains(id) implies (hydrated(
        app,
        app.accounts[i].cache.users[id],
        Gate::Inspect,
    ) matches Ok(shown) && all.dom().contains(shown.account_id_hex) && recency(
        all[shown.account_id_hex],
    ) >= recency(shown)) by {
        let shown = hydrated(app, app.accounts[i].cache.users[id], Gate::Inspect)->Ok_0;
        assert(listed(cached, shown));
        assert(listed(all, shown));
    }
}

/// The accounts of this device that a plan watches are exactly the signed-in ones.
pub proof fn law_signed_in_accounts_are_watched(accounts: Seq<AccountContent>, id: Seq<char>)
    ensures
        active_ids(accounts).contains(id) <==> exists|i: int|
            0 <= i < accounts.len() && (#[trigger] accounts[i]).account_id_hex == id && (
            accounts[i].local_signing || accounts[i].external_signing) && !accounts[i].signed_out,
    decreases accounts.len(),
{
    if accounts.len() > 0 {
        let rest = accounts.drop_last();
        let last = accounts.last();
        law_signed_in_accounts_are_watched(rest, id);
        assert(accounts[accounts.len() - 1] == last);
        crate::order::lemma_push_contains(active_ids(rest), last.account_id_hex, id);
        if active_ids(rest).contains(id) {
            let i = choose|i: int|
                0 <= i < rest.len() && (#[trigger] rest[i]).account_id_hex == id && (
                rest[i].local_signing || rest[i].external_signing) && !rest[i].signed_out;
            assert(accounts[i] == rest[i]);
        }
        if exists|i: int|
            0 <= i < accounts.len() && (#[trigger] accounts[i]).account_id_hex == id && (
            accounts[i].local_signing || accounts[i].external_signing) && !accounts[i].signed_out {
            let i = choose|i: int|
                0 <= i < accounts.len() && (#[trigger] accounts[i]).account_id_hex == id && (
                accounts[i].local_signing || accounts[i].external_signing)
                    && !accounts[i].signed_out;
            if i < rest.len() {
                assert(rest[i] == accounts[i]);
            }
        }
    }
}

} // verus!
