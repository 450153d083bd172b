//! What a save leaves in the stores of the directory: no live key package is lost.

use crate::directory::app_entry::{
    admits, entry_of, hydrated, hydrated_option, is_written_form, keyed, Gate,
};
use crate::directory::app_laws::{
    lemma_caches_show, lemma_shown_alike, lemma_stored_cached, shows_alike, users_kept, well_kept,
};
use crate::directory::app_save::{
    caches_show, law_no_live_package_is_lost, lemma_live_outlives, lemma_newer_package,
    live_over_caches, newer_package, outlived, outlived_everywhere, package_of_option,
    public_entry, saved, settled_entry, settled_package, stored_account,
};
use crate::directory::app_state::{signs_now, slot_retired, AccountContent, AppContent};
use crate::directory::cache::find;
use crate::directory::entry::{DirectoryKeyPackageContent, EntryContent};
use crate::error::ErrorContent;
use crate::text::public_key_hex;
use vstd::prelude::*;

verus! {

/// Whether there is no key package, or one whose slot was not removed.
spec fn is_live(
    app: AppContent,
    id: Seq<char>,
    package: Option<DirectoryKeyPackageContent>,
    gate: Gate,
) -> bool {
    package is Some ==> !slot_retired(
        app,
        id,
        package->0.key_package_id,
        admits(app, id, gate),
    )
}

/// What is shown of a store is of the identity that it is stored under, with a live key
/// package or none.
proof fn lemma_shown_is_live(
    app: AppContent,
    users: Map<Seq<char>, EntryContent>,
    id: Seq<char>,
    gate: Gate,
)
    requires
        keyed(users),
        public_key_hex(id) == Some(id),
    ensures
        hydrated_option(app, find(users, id), gate) matches Ok(Some(shown)) ==> shown.account_id_hex
            == id && is_live(app, id, shown.key_package, gate),
        hydrated_option(app, find(users, id), gate) matches Ok(shown) ==> is_live(
            app,
            id,
            package_of_option(shown),
            gate,
        ),
{
    if users.dom().contains(id) {
        assert(users[id].account_id_hex == id);
    }
}

proof fn lemma_live_stays_live(
    app: AppContent,
    accounts: Seq<AccountContent>,
    id: Seq<char>,
    gate: Gate,
    live: Option<DirectoryKeyPackageContent>,
)
    requires
        forall|i: int|
            0 <= i < accounts.len() ==> users_kept((#[trigger] accounts[i]).cache.users),
        public_key_hex(id) == Some(id),
        is_live(app, id, live, gate),
        live_over_caches(app, accounts, id, gate, live) is Ok,
    ensures
        is_live(app, id, live_over_caches(app, accounts, id, gate, live)->Ok_0, gate),
    decreases accounts.len(),
{
    if accounts.len() > 0 {
        let rest = accounts.drop_first();
        assert(users_kept(accounts[0].cache.users));
        assert forall|i: int| 0 <= i < rest.len() implies users_kept(
            (#[trigger] rest[i]).cache.users,
        ) by {
            assert(rest[i] == accounts[i + 1]);
        }
        if !signs_now(accounts[0]) {
            lemma_live_stays_live(app, rest, id, gate, live);
        } else {
            let users = accounts[0].cache.users;
            lemma_shown_is_live(app, users, id, gate);
            let cached = package_of_option(hydrated_option(app, find(users, id), gate)->Ok_0);
            lemma_live_stays_live(app, rest, id, gate, newer_package(live, cached));
        }
    }
}

/// What a save settles on is of the identity that was saved, and its key package is live.
proof fn lemma_settled(
    app: AppContent,
    entry: EntryContent,
    reason: Seq<char>,
    now: i64,
    gate: Gate,
)
    requires
        well_kept(app),
        is_written_form(entry.account_id_hex),
        saved(app, entry, reason, now, gate) is Ok,
    ensures
        ({
            let proposed = hydrated(app, entry, gate)->Ok_0;
            let id = proposed.account_id_hex;
            let shared = hydrated_option(app, find(app.shared, id), gate)->Ok_0;
            let live = settled_package(app, entry, gate);
            &&& public_key_hex(id) == Some(id)
            &&& settled_entry(proposed, shared, live).account_id_hex == id
            &&& is_live(app, id, live, gate)
            &&& outlived(proposed.key_package, live)
            &&& outlived(package_of_option(shared), live)
        }),
{
    let proposed = hydrated(app, entry, gate)->Ok_0;
    let id = proposed.account_id_hex;
    let shared = hydrated_option(app, find(app.shared, id), gate)->Ok_0;
    let first = newer_package(proposed.key_package, package_of_option(shared));
    lemma_shown_is_live(app, app.shared, id, gate);
    lemma_live_stays_live(app, app.accounts, id, gate, first);
    lemma_newer_package(proposed.key_package, package_of_option(shared), None);
    lemma_live_outlives(app, app.accounts, id, gate, first, proposed.key_package);
    lemma_live_outlives(app, app.accounts, id, gate, first, package_of_option(shared));
}

/// After a save every store holds a key package that outlived whatever the settled one
/// outlived.
proof fn lemma_stores_hold_settled(
    app: AppContent,
    entry: EntryContent,
    reason: Seq<char>,
    now: i64,
    gate: Gate,
    package: Option<DirectoryKeyPackageContent>,
)
    requires
        well_kept(app),
        is_written_form(entry.account_id_hex),
        saved(app, entry, reason, now, gate) is Ok,
        outlived(package, settled_package(app, entry, gate)),
    ensures
        outlived_everywhere(
            saved(app, entry, reason, now, gate)->Ok_0,
            hydrated(app, entry, gate)->Ok_0.account_id_hex,
            package,
        ),
{
    let proposed = hydrated(app, entry, gate)->Ok_0;
    let id = proposed.account_id_hex;
    let shared = hydrated_option(app, find(app.shared, id), gate)->Ok_0;
    let live = settled_package(app, entry, gate);
    let settled = settled_entry(proposed, shared, live);
    let after = saved(app, entry, reason, now, gate)->Ok_0;
    lemma_settled(app, entry, reason, now, gate);
    let unchanged = find(app.shared, id) == Some(public_entry(settled)) && caches_show(
        app,
        app.accounts,
        id,
        gate,
        settled,
    );
    assert forall|j: int|
        0 <= j < after.accounts.len() && signs_now(#[trigger] after.accounts[j]) implies outlived(
        package,
        package_of_option(find(after.accounts[j].cache.users, id)),
    ) by {
        if unchanged {
            assert(hydrated_option(app, find(app.accounts[j].cache.users, id), gate) == Ok::<
                Option<EntryContent>,
                ErrorContent,
            >(Some(settled)));
        } else {
            assert(after.accounts[j] == stored_account(app.accounts[j], settled, reason, now));
        }
    }
}

/// After a save, what is read of the identity has the key package that the save settled
/// on.
proof fn lemma_settled_is_read(
    app: AppContent,
    entry: EntryContent,
    reason: Seq<char>,
    now: i64,
    gate: Gate,
)
    requires
        well_kept(app),
        is_written_form(entry.account_id_hex),
        saved(app, entry, reason, now, gate) is Ok,
    ensures
        ({
            let after = saved(app, entry, reason, now, gate)->Ok_0;
            let id = hydrated(app, entry, gate)->Ok_0.account_id_hex;
            entry_of(after, id, gate) matches Ok(shown) ==> shown is Some
                && shown->0.key_package == settled_package(app, entry, gate)
        }),
{
    let proposed = hydrated(app, entry, gate)->Ok_0;
    let id = proposed.account_id_hex;
    let shared = hydrated_option(app, find(app.shared, id), gate)->Ok_0;
    let live = settled_package(app, entry, gate);
    let settled = settled_entry(proposed, shared, live);
    let after = saved(app, entry, reason, now, gate)->Ok_0;
    lemma_settled(app, entry, reason, now, gate);
    assert(find(after.shared, id) == Some(public_entry(settled)));
    assert(shows_alike(after, app));
    lemma_shown_alike(after, app, settled, gate);
    lemma_shown_alike(after, app, public_entry(settled), gate);
    if find(app.shared, id) == Some(public_entry(settled)) && caches_show(
        app,
        app.accounts,
        id,
        gate,
        settled,
    ) {
        lemma_caches_show(app, app.accounts, id, gate, settled);
    } else {
        lemma_stored_cached(app.accounts, settled, reason, now, id);
    }
}

/// Whether no key package of before is lost by a save: every store holds it still, or a
/// later one that replaced it, and so it is read.
pub open spec fn survives_save(
    after: AppContent,
    id: Seq<char>,
    gate: Gate,
    package: Option<DirectoryKeyPackageContent>,
) -> bool {
    &&& outlived_everywhere(after, id, package)
    &&& entry_of(after, id, gate) matches Ok(read) ==> outlived(package, package_of_option(read))
}

/// Saving an entry loses no live key package: neither that of the saved entry, nor that of
/// the shared one, nor that in any signed-in account's cache, as they were shown before.
pub proof fn law_saved_state_loses_no_live_package(
    app: AppContent,
    entry: EntryContent,
    reason: Seq<char>,
    now: i64,
    gate: Gate,
)
    requires
        well_kept(app),
        is_written_form(entry.account_id_hex),
        saved(app, entry, reason, now, gate) is Ok,
    ensures
        ({
            let after = saved(app, entry, reason, now, gate)->Ok_0;
            let proposed = hydrated(app, entry, gate)->Ok_0;
            let id = proposed.account_id_hex;
            let shared = hydrated_option(app, find(app.shared, id), gate);
            &&& survives_save(after, id, gate, proposed.key_package)
            &&& shared is Ok && survives_save(after, id, gate, package_of_option(shared->Ok_0))
            &&& forall|i: int|
                0 <= i < app.accounts.len() && signs_now(#[trigger] app.accounts[i]) ==> {
                    let cached = hydrated_option(app, find(app.accounts[i].cache.users, id), gate);
                    cached is Ok && survives_save(
                        after,
                        id,
                        gate,
                        package_of_option(cached->Ok_0),
                    )
                }
        }),
{
    let after = saved(app, entry, reason, now, gate)->Ok_0;
    let proposed = hydrated(app, entry, gate)->Ok_0;
    let id = proposed.account_id_hex;
    let shared = package_of_option(hydrated_option(app, find(app.shared, id), gate)->Ok_0);
    let first = newer_package(proposed.key_package, shared);
    lemma_settled(app, entry, reason, now, gate);
    lemma_settled_is_read(app, entry, reason, now, gate);
    lemma_stores_hold_settled(app, entry, reason, now, gate, proposed.key_package);
    lemma_stores_hold_settled(app, entry, reason, now, gate, shared);
    assert forall|i: int|
        0 <= i < app.accounts.len() && signs_now(#[trigger] app.accounts[i]) implies {
        let cached = hydrated_option(app, find(app.accounts[i].cache.users, id), gate);
        cached is Ok && survives_save(after, id, gate, package_of_option(cached->Ok_0))
    } by {
        lemma_cache_was_read(app, app.accounts, id, gate, first, i);
        law_no_live_package_is_lost(app, app.accounts, id, gate, first, i);
        let cached = package_of_option(
            hydrated_option(app, find(app.accounts[i].cache.users, id), gate)->Ok_0,
        );
        lemma_stores_hold_settled(app, entry, reason, now, gate, cached);
    }
}

/// Where the live key package was found, every cache could be read.
proof fn lemma_cache_was_read(
    app: AppContent,
    accounts: Seq<AccountContent>,
    id: Seq<char>,
    gate: Gate,
    live: Option<DirectoryKeyPackageContent>,
    i: int,
)
    requires
        live_over_caches(app, accounts, id, gate, live) is Ok,
        0 <= i < accounts.len(),
        signs_now(accounts[i]),
    ensures
        hydrated_option(app, find(accounts[i].cache.users, id), gate) is Ok,
    decreases accounts.len(),
{
    let rest = accounts.drop_first();
    if i > 0 {
        assert(rest[i - 1] == accounts[i]);
        let next = if signs_now(accounts[0]) {
            newer_package(
                live,
                package_of_option(
                    hydrated_option(app, find(accounts[0].cache.users, id), gate)->Ok_0,
                ),
            )
        } else {
            live
        };
        lemma_cache_was_read(app, rest, id, gate, next, i - 1);
    }
}

} // verus!
