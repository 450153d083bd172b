//! What holds of the directory over several operations.

use crate::directory::app_entry::{
    app_keyed, cached_entry, empty_entry, entry_named, entry_of, hydrated, hydrated_option,
    is_canonical, is_written_form, keyed, lemma_cached_entry_keyed, live_package, newer_entry,
    normalized_ids, recency, Gate,
};
use crate::directory::app_remember::{
    knows_profile, saved_entry, with_edges, with_newer_profile, with_search_edges,
};
use crate::directory::app_save::{
    caches_show, live_over_caches, newer_package, package_of_option, public_entry, saved,
    settled_entry, stored_account, stored_accounts, stored_everywhere,
};
use crate::directory::app_state::{
    account_position, signer_position, signs_now, standing, AccountContent, AppContent, MarmotApp,
};
use crate::directory::app_warm::{
    accounts_with, cleared, clears, is_stale, lemma_cleared, lemma_stale_slots, migrated, scrub_of,
    shared_with, shown_legacy, stale_slots, user_list, warmed,
};
use crate::directory::cache::{
    find, lemma_bindings_are_finite, lemma_users_are_finite, lists_by, lists_users, scrubbed,
    with_entries,
};
use crate::directory::entry::{EntryContent, ProfileContent};
use crate::order::{
    ascending_set, is_ascending, lemma_ascending_set, lemma_ascending_set_exists,
};
use crate::text::public_key_hex;
use vstd::prelude::*;

verus! {

/// Whether users are stored under their own identities, and finitely many are.
pub open spec fn users_kept(users: Map<Seq<char>, EntryContent>) -> bool {
    keyed(users) && users.dom().finite()
}

/// Whether every store of the directory holds finitely many entries, each under its
/// own identity.
pub open spec fn well_kept(app: AppContent) -> bool {
    &&& users_kept(app.shared)
    &&& forall|i: int|
        0 <= i < app.accounts.len() ==> users_kept((#[trigger] app.accounts[i]).cache.users)
}

/// A directory is well kept where every entry is under its own identity.
pub proof fn law_keyed_directory_is_well_kept(app: MarmotApp)
    requires
        app_keyed(app@),
    ensures
        well_kept(app@),
{
    lemma_bindings_are_finite(app.shared);
    assert forall|i: int| 0 <= i < app@.accounts.len() implies users_kept(
        (#[trigger] app@.accounts[i]).cache.users,
    ) by {
        assert(app@.accounts[i] == app.accounts@[i].deep_view());
        lemma_users_are_finite(app.accounts@[i].cache);
        assert(keyed(app@.accounts[i].cache.users));
    }
}

/// Whether two rosters agree in everything but what is cached.
pub open spec fn same_roster(left: Seq<AccountContent>, right: Seq<AccountContent>) -> bool {
    &&& left.len() == right.len()
    &&& forall|i: int|
        0 <= i < left.len() ==> #[trigger] left[i] == (AccountContent {
            cache: left[i].cache,
            ..right[i]
        })
}

/// Whether two apps agree in everything that decides how an entry is shown.
pub open spec fn shows_alike(left: AppContent, right: AppContent) -> bool {
    &&& same_roster(left.accounts, right.accounts)
    &&& left.admissions == right.admissions
    &&& left.removed_slots == right.removed_slots
    &&& left.removed_accounts == right.removed_accounts
}

proof fn lemma_positions(left: Seq<AccountContent>, right: Seq<AccountContent>, id: Seq<char>)
    requires
        same_roster(left, right),
    ensures
        account_position(left, id) == account_position(right, id),
        signer_position(left, id) == signer_position(right, id),
    decreases left.len(),
{
    if left.len() > 0 {
        let l = left.drop_first();
        let r = right.drop_first();
        assert(left[0] == (AccountContent { cache: left[0].cache, ..right[0] }));
        assert forall|i: int| 0 <= i < l.len() implies #[trigger] l[i] == (AccountContent {
            cache: l[i].cache,
            ..r[i]
        }) by {
            assert(left[i + 1] == (AccountContent { cache: left[i + 1].cache, ..right[i + 1] }));
        }
        lemma_positions(l, r, id);
    }
}

/// What is cached decides neither how an identity stands to this device nor how an
/// entry is shown.
pub proof fn lemma_shown_alike(left: AppContent, right: AppContent, entry: EntryContent, gate: Gate)
    requires
        shows_alike(left, right),
    ensures
        hydrated(left, entry, gate) == hydrated(right, entry, gate),
        is_stale(left, entry) == is_stale(right, entry),
{
    let own = entry.account_id_hex;
    lemma_positions(left.accounts, right.accounts, own);
    let s = signer_position(left.accounts, own);
    if 0 <= s < left.accounts.len() {
        assert(left.accounts[s] == (AccountContent {
            cache: left.accounts[s].cache,
            ..right.accounts[s]
        }));
    }
    assert(standing(left, own) == standing(right, own));
    if let Some(id) = public_key_hex(own) {
        lemma_positions(left.accounts, right.accounts, id);
        let i = account_position(left.accounts, id);
        let k = signer_position(left.accounts, id);
        if 0 <= i < left.accounts.len() {
            assert(left.accounts[i] == (AccountContent {
                cache: left.accounts[i].cache,
                ..right.accounts[i]
            }));
        }
        if 0 <= k < left.accounts.len() {
            assert(left.accounts[k] == (AccountContent {
                cache: left.accounts[k].cache,
                ..right.accounts[k]
            }));
        }
        assert(standing(left, id) == standing(right, id));
    }
}

/// Finitely many users can be listed.
pub proof fn lemma_users_are_listed(users: Map<Seq<char>, EntryContent>)
    requires
        users.dom().finite(),
    ensures
        lists_users(user_list(users), users),
{
    let keys = users.dom().to_seq();
    users.dom().lemma_to_seq_to_set_id();
    let accounts = ascending_set(keys);
    lemma_ascending_set_exists(keys);
    let entries = Seq::new(accounts.len(), |i: int| users[accounts[i]]);
    assert forall|t: Seq<char>| #[trigger] accounts.contains(t) <==> users.dom().contains(t) by {
        assert(keys.to_set().contains(t) <==> keys.contains(t));
    }
    assert(lists_by(entries, users, accounts));
    assert(lists_users(entries, users));
}

/// The scrub leaves no removed key package in a store, and takes nothing else from
/// any entry.
pub proof fn law_scrub_removes_every_removed_package(
    app: AppContent,
    users: Map<Seq<char>, EntryContent>,
    id: Seq<char>,
)
    requires
        users_kept(users),
        users.dom().contains(id),
    ensures
        is_stale(app, users[id]) ==> cleared(
            users,
            stale_slots(app, user_list(users)),
        )[id].key_package is None,
        scrubbed(cleared(users, stale_slots(app, user_list(users)))[id]) == scrubbed(users[id]),
{
    let entries = user_list(users);
    lemma_users_are_listed(users);
    lemma_cleared(users, stale_slots(app, entries), id);
    if is_stale(app, users[id]) {
        let accounts = choose|accounts: Seq<Seq<char>>| #[trigger]
            lists_by(entries, users, accounts);
        assert(accounts.contains(id));
        let i = choose|i: int| 0 <= i < accounts.len() && accounts[i] == id;
        assert(entries[i] == users[id]);
        lemma_stale_slots(app, entries, i);
    }
}

/// Whether users are those of before without the key packages that were removed, and
/// nothing else of them changed.
pub open spec fn is_scrub_of(
    app: AppContent,
    after: Map<Seq<char>, EntryContent>,
    users: Map<Seq<char>, EntryContent>,
) -> bool {
    &&& after.dom() == users.dom()
    &&& forall|id: Seq<char>| #[trigger]
        users.dom().contains(id) ==> after[id] == (if is_stale(app, users[id]) {
            scrubbed(users[id])
        } else {
            users[id]
        })
}

/// A slot that is found removed is one of an entry's.
proof fn lemma_stale_slot_is_of(
    app: AppContent,
    entries: Seq<EntryContent>,
    slot: (Seq<char>, Seq<char>),
)
    requires
        stale_slots(app, entries).contains(slot),
    ensures
        exists|i: int|
            0 <= i < entries.len() && is_stale(app, #[trigger] entries[i]) && slot == (
                entries[i].account_id_hex,
                entries[i].key_package->0.key_package_id,
            ),
    decreases entries.len(),
{
    let all = stale_slots(app, entries);
    let k = choose|k: int| 0 <= k < all.len() && all[k] == slot;
    if entries.len() > 0 {
        let rest = entries.drop_last();
        let before = stale_slots(app, rest);
        if k < before.len() {
            assert(before[k] == slot);
            lemma_stale_slot_is_of(app, rest, slot);
            let i = choose|i: int|
                0 <= i < rest.len() && is_stale(app, #[trigger] rest[i]) && slot == (
                    rest[i].account_id_hex,
                    rest[i].key_package->0.key_package_id,
                );
            assert(entries[i] == rest[i]);
        } else {
            assert(is_stale(app, entries[entries.len() - 1]));
        }
    }
}

proof fn lemma_scrub_is_exact(app: AppContent, users: Map<Seq<char>, EntryContent>)
    requires
        users_kept(users),
    ensures
        is_scrub_of(app, cleared(users, stale_slots(app, user_list(users))), users),
{
    let entries = user_list(users);
    let slots = stale_slots(app, entries);
    let after = cleared(users, slots);
    lemma_cleared_domain(users, slots);
    lemma_users_are_listed(users);
    let accounts = choose|accounts: Seq<Seq<char>>| #[trigger] lists_by(entries, users, accounts);
    assert forall|id: Seq<char>| #[trigger] users.dom().contains(id) implies after[id] == (
    if is_stale(app, users[id]) {
        scrubbed(users[id])
    } else {
        users[id]
    }) by {
        lemma_cleared(users, slots, id);
        law_scrub_removes_every_removed_package(app, users, id);
        let slot = (id, users[id].key_package->0.key_package_id);
        if !is_stale(app, users[id]) && slots.contains(slot) {
            lemma_stale_slot_is_of(app, entries, slot);
            let i = choose|i: int|
                0 <= i < entries.len() && is_stale(app, #[trigger] entries[i]) && slot == (
                    entries[i].account_id_hex,
                    entries[i].key_package->0.key_package_id,
                );
            assert(entries[i] == users[accounts[i]]);
            assert(accounts.contains(accounts[i]));
            assert(users[accounts[i]].account_id_hex == accounts[i]);
        }
    }
}

/// Whether no user's key package was removed.
pub open spec fn none_stale(app: AppContent, users: Map<Seq<char>, EntryContent>) -> bool {
    forall|id: Seq<char>| #[trigger] users.dom().contains(id) ==> !is_stale(app, users[id])
}

proof fn lemma_scrubbed_users(app: AppContent, users: Map<Seq<char>, EntryContent>)
    requires
        users_kept(users),
    ensures
        ({
            let after = cleared(users, stale_slots(app, user_list(users)));
            users_kept(after) && none_stale(app, after)
        }),
{
    let slots = stale_slots(app, user_list(users));
    let after = cleared(users, slots);
    lemma_cleared_domain(users, slots);
    assert forall|id: Seq<char>| #[trigger] after.dom().contains(id) implies !is_stale(
        app,
        after[id],
    ) && after[id].account_id_hex == id by {
        assert(users.dom().contains(id));
        lemma_cleared(users, slots, id);
        law_scrub_removes_every_removed_package(app, users, id);
    }
}

proof fn lemma_cleared_domain(
    users: Map<Seq<char>, EntryContent>,
    slots: Seq<(Seq<char>, Seq<char>)>,
)
    ensures
        cleared(users, slots).dom() == users.dom(),
    decreases slots.len(),
{
    if slots.len() > 0 {
        lemma_cleared_domain(users, slots.drop_last());
        assert(cleared(users, slots).dom() =~= users.dom());
    }
}

proof fn lemma_no_stale_slots(app: AppContent, entries: Seq<EntryContent>)
    requires
        forall|i: int| 0 <= i < entries.len() ==> !is_stale(app, #[trigger] entries[i]),
    ensures
        stale_slots(app, entries) == Seq::<(Seq<char>, Seq<char>)>::empty(),
    decreases entries.len(),
{
    if entries.len() > 0 {
        let rest = entries.drop_last();
        assert forall|i: int| 0 <= i < rest.len() implies !is_stale(app, #[trigger] rest[i]) by {
            assert(rest[i] == entries[i]);
        }
        lemma_no_stale_slots(app, rest);
        assert(!is_stale(app, entries[entries.len() - 1]));
    }
}

/// A store without a removed key package is not changed by the scrub.
proof fn lemma_nothing_to_scrub(app: AppContent, users: Map<Seq<char>, EntryContent>)
    requires
        users.dom().finite(),
        none_stale(app, users),
    ensures
        stale_slots(app, user_list(users)) == Seq::<(Seq<char>, Seq<char>)>::empty(),
        cleared(users, stale_slots(app, user_list(users))) == users,
        !clears(users, stale_slots(app, user_list(users))),
{
    let entries = user_list(users);
    lemma_users_are_listed(users);
    let accounts = choose|accounts: Seq<Seq<char>>| #[trigger] lists_by(entries, users, accounts);
    assert forall|i: int| 0 <= i < entries.len() implies !is_stale(app, #[trigger] entries[i]) by {
        assert(entries[i] == users[accounts[i]]);
        assert(accounts.contains(accounts[i]));
    }
    lemma_no_stale_slots(app, entries);
}

/// What the scrub of the caches leaves: the same roster, well kept, with no removed
/// key package in the cache of a signed-in account.
proof fn lemma_scrub(app: AppContent, accounts: Seq<AccountContent>)
    requires
        forall|i: int|
            0 <= i < accounts.len() ==> users_kept((#[trigger] accounts[i]).cache.users),
    ensures
        ({
            let after = scrub_of(app, accounts).accounts;
            &&& same_roster(after, accounts)
            &&& forall|i: int|
                0 <= i < after.len() ==> users_kept((#[trigger] after[i]).cache.users)
                    && after[i].cache == (crate::directory::cache::CacheContent {
                    users: after[i].cache.users,
                    ..accounts[i].cache
                })
            &&& scrub_of(app, accounts).fault is None ==> forall|i: int|
                0 <= i < after.len() ==> if signs_now(#[trigger] after[i]) {
                    is_scrub_of(app, after[i].cache.users, accounts[i].cache.users) && none_stale(
                        app,
                        after[i].cache.users,
                    ) && !after[i].cache.closed
                } else {
                    after[i] == accounts[i]
                }
        }),
    decreases accounts.len(),
{
    if accounts.len() > 0 {
        let rest = accounts.drop_last();
        let account = accounts.last();
        assert forall|i: int| 0 <= i < rest.len() implies users_kept(
            (#[trigger] rest[i]).cache.users,
        ) by {
            assert(rest[i] == accounts[i]);
        }
        lemma_scrub(app, rest);
        assert(users_kept(accounts[accounts.len() - 1].cache.users));
        lemma_scrubbed_users(app, account.cache.users);
        lemma_scrub_is_exact(app, account.cache.users);
        let before = scrub_of(app, rest).accounts;
        let after = scrub_of(app, accounts).accounts;
        assert forall|i: int| 0 <= i < after.len() implies #[trigger] after[i] == (AccountContent {
            cache: after[i].cache,
            ..accounts[i]
        }) && users_kept(after[i].cache.users) && after[i].cache == (
        crate::directory::cache::CacheContent {
            users: after[i].cache.users,
            ..accounts[i].cache
        }) by {
            if i < before.len() {
                assert(after[i] == before[i]);
                assert(rest[i] == accounts[i]);
            }
        }
        if scrub_of(app, accounts).fault is None {
            assert forall|i: int| 0 <= i < after.len() implies if signs_now(
                #[trigger] after[i],
            ) {
                is_scrub_of(app, after[i].cache.users, accounts[i].cache.users) && none_stale(
                    app,
                    after[i].cache.users,
                ) && !after[i].cache.closed
            } else {
                after[i] == accounts[i]
            } by {
                if i < before.len() {
                    assert(after[i] == before[i]);
                    assert(rest[i] == accounts[i]);
                }
            }
        }
    }
}

/// Caches without a removed key package are not changed by the scrub.
proof fn lemma_scrub_again(app: AppContent, accounts: Seq<AccountContent>)
    requires
        forall|i: int|
            0 <= i < accounts.len() && signs_now(#[trigger] accounts[i]) ==> none_stale(
                app,
                accounts[i].cache.users,
            ) && accounts[i].cache.users.dom().finite() && !accounts[i].cache.closed,
    ensures
        scrub_of(app, accounts).accounts == accounts,
        !scrub_of(app, accounts).changed,
        scrub_of(app, accounts).fault is None,
    decreases accounts.len(),
{
    if accounts.len() > 0 {
        let rest = accounts.drop_last();
        let account = accounts.last();
        assert forall|i: int| 0 <= i < rest.len() && signs_now(#[trigger] rest[i]) implies
            none_stale(app, rest[i].cache.users) && rest[i].cache.users.dom().finite()
            && !rest[i].cache.closed by {
            assert(rest[i] == accounts[i]);
        }
        lemma_scrub_again(app, rest);
        assert(account == accounts[accounts.len() - 1]);
        if signs_now(account) {
            lemma_nothing_to_scrub(app, account.cache.users);
        }
        assert(rest.push(account) =~= accounts);
    }
}

/// Warming leaves no removed key package in the shared storage, nor, where it ends
/// well, in the cache of a signed-in account. Nothing else of any entry changes, and no
/// other cache. It keeps the directory well kept and changes nothing but the stores and
/// the request for a new plan.
pub proof fn law_warming_leaves_no_removed_package(app: AppContent)
    requires
        well_kept(app),
    ensures
        ({
            let (after, fault) = warmed(app);
            &&& well_kept(after)
            &&& none_stale(after, after.shared)
            &&& is_scrub_of(app, after.shared, app.shared)
            &&& fault is None ==> forall|i: int|
                0 <= i < after.accounts.len() ==> if signs_now(#[trigger] after.accounts[i]) {
                    none_stale(after, after.accounts[i].cache.users) && is_scrub_of(
                        app,
                        after.accounts[i].cache.users,
                        app.accounts[i].cache.users,
                    )
                } else {
                    after.accounts[i] == app.accounts[i]
                }
            &&& same_roster(after.accounts, app.accounts)
            &&& after == (AppContent {
                shared: after.shared,
                accounts: after.accounts,
                rebuild_requested: after.rebuild_requested,
                ..app
            })
        }),
{
    let (after, fault) = warmed(app);
    lemma_scrub(app, app.accounts);
    lemma_scrubbed_users(app, app.shared);
    lemma_scrub_is_exact(app, app.shared);
    lemma_none_stale_alike(app, after, after.shared);
    if fault is None {
        assert forall|i: int| 0 <= i < after.accounts.len() implies if signs_now(
            #[trigger] after.accounts[i],
        ) {
            none_stale(after, after.accounts[i].cache.users) && is_scrub_of(
                app,
                after.accounts[i].cache.users,
                app.accounts[i].cache.users,
            )
        } else {
            after.accounts[i] == app.accounts[i]
        } by {
            if signs_now(after.accounts[i]) {
                lemma_none_stale_alike(app, after, after.accounts[i].cache.users);
            }
        }
    }
}

proof fn lemma_none_stale_alike(
    left: AppContent,
    right: AppContent,
    users: Map<Seq<char>, EntryContent>,
)
    requires
        shows_alike(right, left),
        none_stale(left, users),
    ensures
        none_stale(right, users),
{
    assert forall|id: Seq<char>| #[trigger] users.dom().contains(id) implies !is_stale(
        right,
        users[id],
    ) by {
        lemma_shown_alike(right, left, users[id], Gate::Inspect);
    }
}

/// Warming a second time changes nothing and asks for no new plan.
pub proof fn law_warming_again_changes_nothing(app: AppContent, requested: bool)
    requires
        well_kept(app),
        warmed(app).1 is None,
    ensures
        ({
            let once = AppContent { rebuild_requested: requested, ..warmed(app).0 };
            warmed(once) == (once, None::<crate::error::ErrorContent>)
        }),
{
    let first = warmed(app).0;
    let once = AppContent { rebuild_requested: requested, ..first };
    law_warming_leaves_no_removed_package(app);
    lemma_scrub(app, app.accounts);
    lemma_none_stale_alike(first, once, once.shared);
    lemma_nothing_to_scrub(once, once.shared);
    assert forall|i: int|
        0 <= i < once.accounts.len() && signs_now(#[trigger] once.accounts[i]) implies none_stale(
        once,
        once.accounts[i].cache.users,
    ) && once.accounts[i].cache.users.dom().finite() && !once.accounts[i].cache.closed by {
        assert(once.accounts[i] == first.accounts[i]);
        assert(users_kept(first.accounts[i].cache.users));
        lemma_none_stale_alike(first, once, once.accounts[i].cache.users);
    }
    lemma_scrub_again(once, once.accounts);
    assert(warmed(once).0 =~= once);
}

/// A directory without accounts and entries is well kept.
pub proof fn law_empty_directory_is_well_kept(app: AppContent)
    requires
        app.accounts.len() == 0,
        app.shared == Map::<Seq<char>, EntryContent>::empty(),
    ensures
        well_kept(app),
{
}

/// Saving an entry keeps the directory well kept.
pub proof fn law_saving_keeps_the_directory(
    app: AppContent,
    entry: EntryContent,
    reason: Seq<char>,
    now: i64,
    gate: Gate,
)
    requires
        well_kept(app),
        saved(app, entry, reason, now, gate) is Ok,
    ensures
        well_kept(saved(app, entry, reason, now, gate)->Ok_0),
{
    let after = saved(app, entry, reason, now, gate)->Ok_0;
    assert forall|i: int| 0 <= i < after.accounts.len() implies users_kept(
        (#[trigger] after.accounts[i]).cache.users,
    ) by {
        assert(users_kept(app.accounts[i].cache.users));
    }
}

/// Learning a contact list for searches keeps the directory well kept.
pub proof fn law_search_edges_keep_the_directory(
    app: AppContent,
    id: Seq<char>,
    list: crate::directory::app_remember::FollowListContent,
    now: i64,
)
    requires
        well_kept(app),
    ensures
        well_kept(with_search_edges(app, id, list, now).0),
{
    let npub = crate::directory::app_entry::lossy_npub(id);
    lemma_edges_keep_users(app.accounts, id, npub, list.follows);
    let accounts = with_edges(app.accounts, id, npub, list.follows).0;
    let after = AppContent { accounts, ..app };
    assert forall|i: int| 0 <= i < accounts.len() implies users_kept(
        (#[trigger] accounts[i]).cache.users,
    ) by {
        assert(users_kept(app.accounts[i].cache.users));
    }
    assert(well_kept(after));
    if let Ok(Some(entry)) = entry_named(after, id, Gate::Inspect) {
        let kept = crate::directory::app_remember::with_follows(entry, list);
        if saved_entry(after, kept, "directory"@, now) is Ok {
            law_saving_keeps_the_directory(
                after,
                kept,
                "directory"@,
                now,
                Gate::Given(standing(after, kept.account_id_hex) is Admitted),
            );
        }
    }
}

proof fn lemma_edges_keep_users(
    accounts: Seq<AccountContent>,
    id: Seq<char>,
    npub: Seq<char>,
    follows: Seq<Seq<char>>,
)
    ensures
        ({
            let after = with_edges(accounts, id, npub, follows).0;
            after.len() == accounts.len() && forall|i: int|
                0 <= i < after.len() ==> (#[trigger] after[i]).cache.users
                    == accounts[i].cache.users
        }),
    decreases accounts.len(),
{
    if accounts.len() > 0 {
        let rest = accounts.drop_last();
        lemma_edges_keep_users(rest, id, npub, follows);
        let before = with_edges(rest, id, npub, follows).0;
        let after = with_edges(accounts, id, npub, follows).0;
        assert forall|i: int| 0 <= i < after.len() implies (#[trigger] after[i]).cache.users
            == accounts[i].cache.users by {
            if i < before.len() {
                assert(after[i] == before[i]);
                assert(rest[i] == accounts[i]);
            }
        }
    }
}

/// Moving in the entries of an older cache keeps the directory well kept.
pub proof fn law_migration_keeps_the_directory(
    app: AppContent,
    legacy: Option<Seq<EntryContent>>,
    now: i64,
)
    requires
        well_kept(app),
    ensures
        well_kept(migrated(app, legacy, now).0),
{
    if !app.legacy_cache_checked && legacy is Some {
        if let Ok(shown) = shown_legacy(app, legacy->0) {
            lemma_shared_with(app.shared, shown);
            lemma_accounts_with(app.accounts, shown, now);
        }
    }
}

proof fn lemma_shared_with(shared: Map<Seq<char>, EntryContent>, entries: Seq<EntryContent>)
    requires
        users_kept(shared),
    ensures
        users_kept(shared_with(shared, entries)),
    decreases entries.len(),
{
    if entries.len() > 0 {
        lemma_shared_with(shared, entries.drop_last());
    }
}

proof fn lemma_with_entries(
    cache: crate::directory::cache::CacheContent,
    entries: Seq<EntryContent>,
    now: i64,
)
    requires
        users_kept(cache.users),
    ensures
        users_kept(with_entries(cache, entries, "directory"@, now).users),
    decreases entries.len(),
{
    if entries.len() > 0 {
        lemma_with_entries(cache, entries.drop_last(), now);
    }
}

proof fn lemma_accounts_with(
    accounts: Seq<AccountContent>,
    entries: Seq<EntryContent>,
    now: i64,
)
    requires
        forall|i: int|
            0 <= i < accounts.len() ==> users_kept((#[trigger] accounts[i]).cache.users),
    ensures
        forall|i: int|
            0 <= i < accounts_with(accounts, entries, now).0.len() ==> users_kept(
                (#[trigger] accounts_with(accounts, entries, now).0[i]).cache.users,
            ),
    decreases accounts.len(),
{
    if accounts.len() > 0 {
        let rest = accounts.drop_last();
        assert forall|i: int| 0 <= i < rest.len() implies users_kept(
            (#[trigger] rest[i]).cache.users,
        ) by {
            assert(rest[i] == accounts[i]);
        }
        lemma_accounts_with(rest, entries, now);
        let before = accounts_with(rest, entries, now).0;
        let after = accounts_with(accounts, entries, now).0;
        assert(users_kept(accounts[accounts.len() - 1].cache.users));
        lemma_with_entries(accounts.last().cache, entries, now);
        assert forall|i: int| 0 <= i < after.len() implies users_kept(
            (#[trigger] after[i]).cache.users,
        ) by {
            if i < before.len() {
                assert(after[i] == before[i]);
            }
        }
    }
}

/// Whether an identity's profile is at least as recent in a later reading as in an
/// earlier one, and is there if it was.
pub open spec fn no_older(earlier: Option<EntryContent>, later: Option<EntryContent>) -> bool {
    earlier is Some && earlier->0.profile is Some ==> knows_profile(
        later,
        earlier->0.profile->0.created_at,
    )
}

/// Whether a reading succeeded and what it shows, if anything, is canonical. Every
/// reading that succeeds is such a one.
pub open spec fn reads_well(
    reading: Result<Option<EntryContent>, crate::error::ErrorContent>,
) -> bool {
    reading is Ok && (reading->Ok_0 is Some ==> is_canonical(reading->Ok_0->0))
}

/// A canonical entry can be shown, and is shown as a canonical one.
pub proof fn lemma_canonical_is_shown(app: AppContent, entry: EntryContent, gate: Gate)
    requires
        is_canonical(entry),
    ensures
        hydrated(app, entry, gate) is Ok,
        is_canonical(hydrated(app, entry, gate)->Ok_0),
{
    lemma_ascending_set_exists(entry.follow_source_relays);
}

pub proof fn lemma_no_follows()
    ensures
        normalized_ids(Seq::<Seq<char>>::empty()) == Ok::<
            Seq<Seq<char>>,
            crate::error::ErrorContent,
        >(Seq::empty()),
        is_ascending(Seq::<Seq<char>>::empty()),
{
    let none = Seq::<Seq<char>>::empty();
    lemma_ascending_set(none, none);
}

/// Of an identity that parses to itself, what was stored under it is shown alike by
/// looking and by knowing how it stands.
pub proof fn lemma_gates_agree(app: AppContent, entry: EntryContent, id: Seq<char>)
    requires
        public_key_hex(id) == Some(id),
        entry.account_id_hex == id,
    ensures
        hydrated(app, entry, Gate::Given(standing(app, id) is Admitted)) == hydrated(
            app,
            entry,
            Gate::Inspect,
        ),
{
}

/// What the stores hold of an identity after an entry was stored everywhere.
pub proof fn lemma_stored_cached(
    accounts: Seq<AccountContent>,
    entry: EntryContent,
    reason: Seq<char>,
    now: i64,
    id: Seq<char>,
)
    ensures
        id != entry.account_id_hex ==> cached_entry(
            stored_accounts(accounts, entry, reason, now),
            id,
        ) == cached_entry(accounts, id),
        id == entry.account_id_hex ==> (cached_entry(
            stored_accounts(accounts, entry, reason, now),
            id,
        ) matches Ok(Some(cached)) ==> cached == entry),
        id == entry.account_id_hex && cached_entry(accounts, id) is Ok ==> cached_entry(
            stored_accounts(accounts, entry, reason, now),
            id,
        ) is Ok,
    decreases accounts.len(),
{
    if accounts.len() > 0 {
        let after = stored_accounts(accounts, entry, reason, now);
        assert(after[0] == stored_account(accounts[0], entry, reason, now));
        assert(after.drop_first() =~= stored_accounts(accounts.drop_first(), entry, reason, now));
        lemma_stored_cached(accounts.drop_first(), entry, reason, now, id);
    }
}

/// Where every cache shows an entry, what is found in the caches is shown as it.
pub proof fn lemma_caches_show(
    app: AppContent,
    accounts: Seq<AccountContent>,
    id: Seq<char>,
    gate: Gate,
    entry: EntryContent,
)
    requires
        caches_show(app, accounts, id, gate, entry),
    ensures
        cached_entry(accounts, id) matches Ok(Some(cached)) ==> hydrated(app, cached, gate) == Ok::<
            EntryContent,
            crate::error::ErrorContent,
        >(entry),
    decreases accounts.len(),
{
    if accounts.len() > 0 {
        let rest = accounts.drop_first();
        assert(signs_now(accounts[0]) ==> hydrated_option(
            app,
            find(accounts[0].cache.users, id),
            gate,
        ) == Ok::<Option<EntryContent>, crate::error::ErrorContent>(Some(entry)));
        assert forall|i: int| 0 <= i < rest.len() && signs_now(#[trigger] rest[i]) implies
            hydrated_option(app, find(rest[i].cache.users, id), gate) == Ok::<
            Option<EntryContent>,
            crate::error::ErrorContent,
        >(Some(entry)) by {
            assert(rest[i] == accounts[i + 1]);
        }
        lemma_caches_show(app, rest, id, gate, entry);
    }
}

/// What saving a profile that is newer than the shown one does to the stores.
proof fn lemma_newer_profile_is_stored(
    app: AppContent,
    text: Seq<char>,
    id: Seq<char>,
    profile: ProfileContent,
    now: i64,
    shown: Option<EntryContent>,
)
    requires
        well_kept(app),
        public_key_hex(text) == Some(id),
        public_key_hex(id) == Some(id),
        entry_named(app, text, Gate::Inspect) == Ok::<
            Option<EntryContent>,
            crate::error::ErrorContent,
        >(shown),
        !knows_profile(shown, profile.created_at),
        with_newer_profile(app, text, profile, now) is Ok,
    ensures
        exists|settled: EntryContent|
            settled.account_id_hex == id && settled.profile == Some(profile) && (shown is Some
                && !is_canonical(shown->0) || is_canonical(settled)) && with_newer_profile(
                app,
                text,
                profile,
                now,
            )->Ok_0 == #[trigger] stored_everywhere(app, settled, "directory"@, now),
{
    lemma_cached_entry_keyed(app.accounts, id);
    let base = match shown {
        Some(entry) => entry,
        None => empty_entry(app, text),
    };
    let gate = Gate::Given(standing(app, base.account_id_hex) is Admitted);
    let cached = cached_entry(app.accounts, id)->Ok_0;
    let stored = find(app.shared, id);
    if cached is Some {
        lemma_gates_agree(app, cached->0, id);
    }
    if stored is Some {
        assert(app.shared[id].account_id_hex == id);
        lemma_gates_agree(app, stored->0, id);
    }
    assert(shown is Some ==> base.account_id_hex == id);
    assert(shown is None ==> cached is None && stored is None);
    let entry = EntryContent { profile: Some(profile), ..base };
    let proposed = hydrated(app, entry, gate)->Ok_0;
    let shared = hydrated_option(app, stored, gate)->Ok_0;
    let live = live_over_caches(
        app,
        app.accounts,
        id,
        gate,
        newer_package(proposed.key_package, package_of_option(shared)),
    )->Ok_0;
    let settled = settled_entry(proposed, shared, live);
    assert(proposed.key_package == base.key_package) by {
        assert(proposed.key_package == live_package(app, id, base.key_package, gate));
    }
    assert(shared is Some ==> recency(shared->0) <= recency(proposed));
    assert(newer_entry(Some(proposed), shared) == Some(proposed));
    assert(settled.profile == Some(profile) && settled.account_id_hex == id);
    assert(shown is Some && !is_canonical(shown->0) || is_canonical(settled)) by {
        lemma_no_follows();
        lemma_ascending_set_exists(base.follow_source_relays);
    }
    if find(app.shared, id) == Some(public_entry(settled)) && caches_show(
        app,
        app.accounts,
        id,
        gate,
        settled,
    ) {
        lemma_caches_show(app, app.accounts, id, gate, settled);
        assert(shared is Some && shared->0.profile == Some(profile));
        assert(knows_profile(shown, profile.created_at));
    }
    assert(with_newer_profile(app, text, profile, now)->Ok_0 == stored_everywhere(
        app,
        settled,
        "directory"@,
        now,
    ));
}

/// What one profile changes in the reading of an identity.
proof fn lemma_newer_profile(
    app: AppContent,
    text: Seq<char>,
    subject: Seq<char>,
    profile: ProfileContent,
    now: i64,
    id: Seq<char>,
)
    requires
        well_kept(app),
        public_key_hex(text) == Some(subject),
        public_key_hex(subject) == Some(subject),
        public_key_hex(id) == Some(id),
        with_newer_profile(app, text, profile, now) is Ok,
    ensures
        ({
            let after = with_newer_profile(app, text, profile, now)->Ok_0;
            let earlier = entry_named(app, id, Gate::Inspect);
            let later = entry_named(after, id, Gate::Inspect);
            &&& well_kept(after)
            &&& id != subject ==> later == earlier
            &&& reads_well(earlier) ==> reads_well(later) && no_older(
                earlier->Ok_0,
                later->Ok_0,
            )
            &&& id == subject && reads_well(earlier) ==> knows_profile(
                later->Ok_0,
                profile.created_at,
            )
        }),
{
    let after = with_newer_profile(app, text, profile, now)->Ok_0;
    let shown = entry_named(app, text, Gate::Inspect)->Ok_0;
    if !knows_profile(shown, profile.created_at) {
        lemma_newer_profile_is_stored(app, text, subject, profile, now, shown);
        let settled = choose|settled: EntryContent|
            settled.account_id_hex == subject && settled.profile == Some(profile) && (shown is Some
                && !is_canonical(shown->0) || is_canonical(settled)) && after
                == #[trigger] stored_everywhere(app, settled, "directory"@, now);
        assert forall|i: int| 0 <= i < after.accounts.len() implies users_kept(
            (#[trigger] after.accounts[i]).cache.users,
        ) by {
            assert(users_kept(app.accounts[i].cache.users));
        }
        lemma_stored_cached(app.accounts, settled, "directory"@, now, id);
        assert(shows_alike(after, app));
        if id != subject {
            let cached = cached_entry(app.accounts, id);
            if cached is Ok && cached->Ok_0 is Some {
                lemma_shown_alike(after, app, cached->Ok_0->0, Gate::Inspect);
            }
            if app.shared.dom().contains(id) {
                lemma_shown_alike(after, app, app.shared[id], Gate::Inspect);
            }
            assert(find(after.shared, id) == find(app.shared, id));
            assert(entry_of(after, id, Gate::Inspect) == entry_of(app, id, Gate::Inspect));
        } else {
            assert(find(after.shared, id) == Some(public_entry(settled)));
            if reads_well(entry_named(app, id, Gate::Inspect)) {
                lemma_canonical_is_shown(after, settled, Gate::Inspect);
                lemma_canonical_is_shown(after, public_entry(settled), Gate::Inspect);
            }
        }
    }
}

/// The app after a sequence of profiles was offered to it, each under some form of the
/// identity it is of and at a time; one that fails changes nothing.
pub open spec fn with_profiles(app: AppContent, offered: Seq<(Seq<char>, ProfileContent, i64)>)
    -> AppContent
    decreases offered.len(),
{
    if offered.len() == 0 {
        app
    } else {
        let before = with_profiles(app, offered.drop_last());
        let (text, profile, now) = offered.last();
        match with_newer_profile(before, text, profile, now) {
            Ok(after) => after,
            Err(_) => before,
        }
    }
}

/// Whatever profiles are offered, in whatever order, the profile that is shown of an
/// identity never becomes an older one, nor does it go away. Identities may be offered
/// and read in any form.
pub proof fn law_shown_profile_never_becomes_older(
    app: AppContent,
    offered: Seq<(Seq<char>, ProfileContent, i64)>,
    text: Seq<char>,
)
    requires
        well_kept(app),
        is_written_form(text),
        forall|i: int| 0 <= i < offered.len() ==> is_written_form((#[trigger] offered[i]).0),
        reads_well(entry_named(app, text, Gate::Inspect)),
    ensures
        well_kept(with_profiles(app, offered)),
        ({
            let earlier = entry_named(app, text, Gate::Inspect);
            let later = entry_named(with_profiles(app, offered), text, Gate::Inspect);
            &&& reads_well(later)
            &&& no_older(earlier->Ok_0, later->Ok_0)
        }),
    decreases offered.len(),
{
    if offered.len() > 0 {
        let rest = offered.drop_last();
        assert forall|i: int| 0 <= i < rest.len() implies is_written_form(
            (#[trigger] rest[i]).0,
        ) by {
            assert(rest[i] == offered[i]);
        }
        law_shown_profile_never_becomes_older(app, rest, text);
        let before = with_profiles(app, rest);
        let (form, profile, now) = offered.last();
        assert(is_written_form(offered[offered.len() - 1].0));
        if with_newer_profile(before, form, profile, now) is Ok {
            let subject = public_key_hex(form)->0;
            let id = public_key_hex(text)->0;
            lemma_newer_profile(before, form, subject, profile, now, id);
        }
    }
}

/// A profile that is no newer than the shown one changes nothing: of two profiles of one
/// second the first stays.
pub proof fn law_no_newer_profile_changes_nothing(
    app: AppContent,
    text: Seq<char>,
    profile: ProfileContent,
    now: i64,
)
    requires
        entry_named(app, text, Gate::Inspect) is Ok,
        knows_profile(entry_named(app, text, Gate::Inspect)->Ok_0, profile.created_at),
    ensures
        with_newer_profile(app, text, profile, now) == Ok::<AppContent, crate::error::ErrorContent>(
            app,
        ),
{
}

/// Profiles that are no newer than the shown one, however many and whoever else is
/// offered one between them, leave what is shown as it is.
pub proof fn law_no_newer_profiles_keep_the_entry(
    app: AppContent,
    offered: Seq<(Seq<char>, ProfileContent, i64)>,
    text: Seq<char>,
)
    requires
        well_kept(app),
        is_written_form(text),
        forall|i: int| 0 <= i < offered.len() ==> is_written_form((#[trigger] offered[i]).0),
        reads_well(entry_named(app, text, Gate::Inspect)),
        forall|i: int|
            0 <= i < offered.len() && public_key_hex((#[trigger] offered[i]).0) == public_key_hex(
                text,
            ) ==> knows_profile(
                entry_named(app, text, Gate::Inspect)->Ok_0,
                offered[i].1.created_at,
            ),
    ensures
        entry_named(with_profiles(app, offered), text, Gate::Inspect) == entry_named(
            app,
            text,
            Gate::Inspect,
        ),
    decreases offered.len(),
{
    if offered.len() > 0 {
        let rest = offered.drop_last();
        assert forall|i: int| 0 <= i < rest.len() implies is_written_form(
            (#[trigger] rest[i]).0,
        ) by {
            assert(rest[i] == offered[i]);
        }
        assert forall|i: int|
            0 <= i < rest.len() && public_key_hex((#[trigger] rest[i]).0) == public_key_hex(
                text,
            ) implies knows_profile(
            entry_named(app, text, Gate::Inspect)->Ok_0,
            rest[i].1.created_at,
        ) by {
            assert(rest[i] == offered[i]);
        }
        law_no_newer_profiles_keep_the_entry(app, rest, text);
        law_shown_profile_never_becomes_older(app, rest, text);
        let before = with_profiles(app, rest);
        let (form, profile, now) = offered.last();
        assert(is_written_form(offered[offered.len() - 1].0));
        if with_newer_profile(before, form, profile, now) is Ok {
            let subject = public_key_hex(form)->0;
            let id = public_key_hex(text)->0;
            if subject != id {
                lemma_newer_profile(before, form, subject, profile, now, id);
            }
        }
    }
}

/// A profile that was offered is the least that is shown from then on: after a profile
/// was accepted, the shown one is at least as recent, and of other identities nothing
/// changed.
pub proof fn law_offered_profile_is_shown(
    app: AppContent,
    text: Seq<char>,
    profile: ProfileContent,
    now: i64,
    other: Seq<char>,
)
    requires
        well_kept(app),
        is_written_form(text),
        is_written_form(other),
        public_key_hex(other) != public_key_hex(text),
        reads_well(entry_named(app, text, Gate::Inspect)),
        with_newer_profile(app, text, profile, now) is Ok,
    ensures
        ({
            let after = with_newer_profile(app, text, profile, now)->Ok_0;
            &&& reads_well(entry_named(after, text, Gate::Inspect))
            &&& knows_profile(entry_named(after, text, Gate::Inspect)->Ok_0, profile.created_at)
            &&& entry_named(after, other, Gate::Inspect) == entry_named(app, other, Gate::Inspect)
        }),
{
    let subject = public_key_hex(text)->0;
    lemma_newer_profile(app, text, subject, profile, now, subject);
    if let Some(id) = public_key_hex(other) {
        lemma_newer_profile(app, text, subject, profile, now, id);
    }
}

} // verus!
