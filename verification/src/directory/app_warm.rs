//! Walking over the whole directory: every entry, the plan of subscriptions, the
//! scrub of removed key packages and the move out of an older cache.

use crate::collections::{Key, KeyMap};
use crate::directory::app_entry::{hydrated, newer_entry, select_newer_directory_entry, Gate};
use crate::directory::app_save::public_entry;
use crate::directory::app_state::{
    signs_now, slot_retired, standing, AccountContent, AccountState, Admission, AppContent,
    MarmotApp, RemovedSlot,
};
use crate::directory::cache::{
    bindings, closed_error, entry_fault, find, first_entry_fault, list_ascending, lists_by,
    lists_users, scrubbed, with_entries, CacheContent,
};
use crate::directory::entry::{EntryContent, UserDirectoryRecord};
use crate::directory::key_packages::{outcome, verdict};
use crate::directory::sync::{plan_of, DirectorySyncPlan, PlanContent,
    DIRECTORY_SYNC_USER_BATCH_SIZE};
use crate::error::{AppError, ErrorContent};
use crate::order::lemma_ascending_unique;
use vstd::prelude::*;

verus! {

/// The users of a map, ordered by account.
pub open spec fn user_list(users: Map<Seq<char>, EntryContent>) -> Seq<EntryContent> {
    choose|entries: Seq<EntryContent>| lists_users(entries, users)
}

/// There is only one way to list users by account.
pub proof fn lemma_user_list(entries: Seq<EntryContent>, users: Map<Seq<char>, EntryContent>)
    requires
        lists_users(entries, users),
    ensures
        entries == user_list(users),
{
    let other = user_list(users);
    assert(lists_users(other, users));
    let a = choose|accounts: Seq<Seq<char>>| #[trigger] lists_by(entries, users, accounts);
    let b = choose|accounts: Seq<Seq<char>>| #[trigger] lists_by(other, users, accounts);
    assert forall|t: Seq<char>| #![auto] a.contains(t) <==> b.contains(t) by {
        assert(a.contains(t) <==> users.dom().contains(t));
        assert(b.contains(t) <==> users.dom().contains(t));
    }
    lemma_ascending_unique(a, b);
    assert(entries =~= other);
}

/// The collected entries after one more was shown; of one account the more recent
/// stays.
pub open spec fn upserted(found: Map<Seq<char>, EntryContent>, entry: EntryContent) -> Map<
    Seq<char>,
    EntryContent,
> {
    found.insert(
        entry.account_id_hex,
        newer_entry(find(found, entry.account_id_hex), Some(entry))->0,
    )
}

/// The collected entries after a list of stored ones was shown.
pub open spec fn collected(
    app: AppContent,
    found: Map<Seq<char>, EntryContent>,
    stored: Seq<EntryContent>,
) -> Result<Map<Seq<char>, EntryContent>, ErrorContent>
    decreases stored.len(),
{
    if stored.len() == 0 {
        Ok(found)
    } else {
        match hydrated(app, stored[0], Gate::Inspect) {
            Err(error) => Err(error),
            Ok(entry) => collected(app, upserted(found, entry), stored.drop_first()),
        }
    }
}

/// The collected entries after the caches of the signed-in accounts were shown.
pub open spec fn collected_caches(
    app: AppContent,
    found: Map<Seq<char>, EntryContent>,
    accounts: Seq<AccountContent>,
) -> Result<Map<Seq<char>, EntryContent>, ErrorContent>
    decreases accounts.len(),
{
    if accounts.len() == 0 {
        Ok(found)
    } else if !signs_now(accounts[0]) {
        collected_caches(app, found, accounts.drop_first())
    } else if accounts[0].cache.closed {
        Err(closed_error())
    } else {
        match collected(app, found, user_list(accounts[0].cache.users)) {
            Err(error) => Err(error),
            Ok(found) => collected_caches(app, found, accounts.drop_first()),
        }
    }
}

/// Every entry of the directory, by account.
pub open spec fn directory_of(app: AppContent) -> Result<
    Map<Seq<char>, EntryContent>,
    ErrorContent,
> {
    match collected_caches(app, Map::empty(), app.accounts) {
        Err(error) => Err(error),
        Ok(found) => collected(app, found, user_list(app.shared)),
    }
}

/// The identities of the signed-in accounts.
pub open spec fn active_ids(accounts: Seq<AccountContent>) -> Seq<Seq<char>>
    decreases accounts.len(),
{
    if accounts.len() == 0 {
        Seq::empty()
    } else if signs_now(accounts.last()) {
        active_ids(accounts.drop_last()).push(accounts.last().account_id_hex)
    } else {
        active_ids(accounts.drop_last())
    }
}

/// The identities of entries.
pub open spec fn ids_of(entries: Seq<EntryContent>) -> Seq<Seq<char>> {
    entries.map_values(|entry: EntryContent| entry.account_id_hex)
}

/// The plan of subscriptions over the whole directory.
pub open spec fn plan_for(app: AppContent) -> Result<PlanContent, ErrorContent> {
    match directory_of(app) {
        Err(error) => Err(error),
        Ok(found) => {
            let local = active_ids(app.accounts);
            Ok(
                plan_of(
                    app.config.relay_urls,
                    local,
                    ids_of(user_list(found)) + local,
                    None,
                    DIRECTORY_SYNC_USER_BATCH_SIZE as nat,
                ),
            )
        },
    }
}

/// Whether a stored entry's key package was removed.
pub open spec fn is_stale(app: AppContent, entry: EntryContent) -> bool {
    entry.key_package is Some && slot_retired(
        app,
        entry.account_id_hex,
        entry.key_package->0.key_package_id,
        standing(app, entry.account_id_hex) is Admitted,
    )
}

/// The accounts and slots of the key packages that were removed.
pub open spec fn stale_slots(app: AppContent, entries: Seq<EntryContent>) -> Seq<
    (Seq<char>, Seq<char>),
>
    decreases entries.len(),
{
    if entries.len() == 0 {
        Seq::empty()
    } else if is_stale(app, entries.last()) {
        stale_slots(app, entries.drop_last()).push(
            (entries.last().account_id_hex, entries.last().key_package->0.key_package_id),
        )
    } else {
        stale_slots(app, entries.drop_last())
    }
}

/// Whether a user's key package is in a slot.
pub open spec fn occupies(users: Map<Seq<char>, EntryContent>, slot: (Seq<char>, Seq<char>))
    -> bool {
    users.dom().contains(slot.0) && users[slot.0].key_package is Some
        && users[slot.0].key_package->0.key_package_id == slot.1
}

/// Users without the key packages in the given slots.
pub open spec fn cleared(
    users: Map<Seq<char>, EntryContent>,
    slots: Seq<(Seq<char>, Seq<char>)>,
) -> Map<Seq<char>, EntryContent>
    decreases slots.len(),
{
    if slots.len() == 0 {
        users
    } else {
        let before = cleared(users, slots.drop_last());
        let slot = slots.last();
        if occupies(before, slot) {
            before.insert(slot.0, scrubbed(before[slot.0]))
        } else {
            before
        }
    }
}

/// Whether clearing the given slots removes anything.
pub open spec fn clears(
    users: Map<Seq<char>, EntryContent>,
    slots: Seq<(Seq<char>, Seq<char>)>,
) -> bool
    decreases slots.len(),
{
    slots.len() > 0 && (clears(users, slots.drop_last()) || occupies(
        cleared(users, slots.drop_last()),
        slots.last(),
    ))
}

/// What the scrub of the caches does: the accounts after it, whether anything was
/// removed, and what ended it early.
#[verifier::ext_equal]
pub struct Scrub {
    pub accounts: Seq<AccountContent>,
    pub changed: bool,
    pub fault: Option<ErrorContent>,
}

/// The scrub of the caches of the signed-in accounts.
pub open spec fn scrub_of(app: AppContent, accounts: Seq<AccountContent>) -> Scrub
    decreases accounts.len(),
{
    if accounts.len() == 0 {
        Scrub { accounts, changed: false, fault: None }
    } else {
        let before = scrub_of(app, accounts.drop_last());
        let account = accounts.last();
        if before.fault is Some || !signs_now(account) {
            Scrub { accounts: before.accounts.push(account), ..before }
        } else if account.cache.closed {
            Scrub {
                accounts: before.accounts.push(account),
                changed: before.changed,
                fault: Some(closed_error()),
            }
        } else {
            let slots = stale_slots(app, user_list(account.cache.users));
            Scrub {
                accounts: before.accounts.push(
                    AccountContent {
                        cache: CacheContent {
                            users: cleared(account.cache.users, slots),
                            ..account.cache
                        },
                        ..account
                    },
                ),
                changed: before.changed || clears(account.cache.users, slots),
                fault: None,
            }
        }
    }
}

/// The app after removed key packages were scrubbed from every store. A new plan is
/// asked for where that removed anything.
pub open spec fn warmed(app: AppContent) -> (AppContent, Option<ErrorContent>) {
    let slots = stale_slots(app, user_list(app.shared));
    let scrub = scrub_of(app, app.accounts);
    let after = AppContent {
        shared: cleared(app.shared, slots),
        accounts: scrub.accounts,
        ..app
    };
    if scrub.fault is Some {
        (after, scrub.fault)
    } else {
        (
            AppContent {
                rebuild_requested: app.rebuild_requested || clears(app.shared, slots)
                    || scrub.changed,
                ..after
            },
            None,
        )
    }
}

impl MarmotApp {
    fn show_all(
        &self,
        found: &mut KeyMap<String, UserDirectoryRecord>,
        stored: Vec<UserDirectoryRecord>,
    ) -> (result: Result<(), AppError>)
        ensures
            match collected(self@, bindings(*old(found)), stored.deep_view()) {
                Ok(after) => result is Ok && bindings(*final(found)) == after,
                Err(error) => result is Err && result->Err_0.deep_view() == error,
            },
    {
        let ghost start = bindings(*found);
        let ghost all = stored.deep_view();
        let mut i: usize = 0;
        assert(all.skip(0) =~= all);
        while i < stored.len()
            invariant
                i <= stored@.len(),
                all == stored.deep_view(),
                start == bindings(*old(found)),
                collected(self@, start, all) == collected(
                    self@,
                    bindings(*found),
                    all.skip(i as int),
                ),
            decreases stored.len() - i,
        {
            assert(all.skip(i as int)[0] == stored@[i as int].deep_view());
            assert(all.skip(i as int).drop_first() =~= all.skip(i + 1));
            let entry = match self.hydrate_directory_record(stored[i].duplicate(), Gate::Inspect) {
                Err(error) => return Err(error),
                Ok(entry) => entry,
            };
            let ghost before = bindings(*found);
            let ghost e = entry.deep_view();
            let known = match found.get(&entry.account_id_hex) {
                Some(known) => Some(known.duplicate()),
                None => None,
            };
            assert(known.deep_view() == find(before, e.account_id_hex));
            let key = entry.account_id_hex.clone();
            match select_newer_directory_entry(known, Some(entry)) {
                Some(chosen) => {
                    let _ = found.insert(key, chosen);
                    assert(bindings(*found) =~= upserted(before, e));
                },
                None => {
                    assert(false);
                },
            }
            i += 1;
        }
        Ok(())
    }

    /// Every entry of the directory, ordered by account. Of one account the more
    /// recent entry is shown.
    pub fn directory_entries(&self) -> (result: Result<Vec<UserDirectoryRecord>, AppError>)
        ensures
            match (directory_of(self@), result) {
                (Ok(found), Ok(entries)) => entries.deep_view() == user_list(found)
                    && lists_users(entries.deep_view(), found),
                (Err(expected), Err(error)) => error.deep_view() == expected,
                _ => false,
            },
    {
        let mut found: KeyMap<String, UserDirectoryRecord> = KeyMap::new();
        assert(bindings(found) =~= Map::<Seq<char>, EntryContent>::empty());
        let ghost all = self.accounts.deep_view();
        let ghost none = Map::<Seq<char>, EntryContent>::empty();
        let mut i: usize = 0;
        assert(all.skip(0) =~= all);
        while i < self.accounts.len()
            invariant
                i <= self.accounts@.len(),
                all == self.accounts.deep_view(),
                all == self@.accounts,
                none == Map::<Seq<char>, EntryContent>::empty(),
                collected_caches(self@, none, all) == collected_caches(
                    self@,
                    bindings(found),
                    all.skip(i as int),
                ),
            decreases self.accounts.len() - i,
        {
            assert(all.skip(i as int)[0] == self.accounts@[i as int].deep_view());
            assert(all.skip(i as int).drop_first() =~= all.skip(i + 1));
            if self.accounts[i].is_active_signing() {
                let entries = match self.accounts[i].cache.entries() {
                    Err(error) => return Err(error),
                    Ok(entries) => entries,
                };
                proof {
                    lemma_user_list(entries.deep_view(), all[i as int].cache.users);
                }
                if let Err(error) = self.show_all(&mut found, entries) {
                    return Err(error);
                }
            }
            i += 1;
        }
        let shared = list_ascending(&self.shared);
        proof {
            lemma_user_list(shared.deep_view(), self@.shared);
        }
        if let Err(error) = self.show_all(&mut found, shared) {
            return Err(error);
        }
        let entries = list_ascending(&found);
        proof {
            lemma_user_list(entries.deep_view(), bindings(found));
        }
        Ok(entries)
    }

    fn active_account_ids(&self) -> (ids: Vec<String>)
        ensures
            ids.deep_view() == active_ids(self@.accounts),
            ids@.len() <= self.accounts@.len(),
    {
        let ghost all = self.accounts.deep_view();
        let mut ids: Vec<String> = Vec::new();
        let mut i: usize = 0;
        assert(ids.deep_view() =~= active_ids(all.take(0)));
        while i < self.accounts.len()
            invariant
                i <= self.accounts@.len(),
                all == self.accounts.deep_view(),
                ids@.len() <= i,
                ids.deep_view() == active_ids(all.take(i as int)),
            decreases self.accounts.len() - i,
        {
            assert(all.take(i + 1).drop_last() =~= all.take(i as int));
            assert(all.take(i + 1).last() == self.accounts@[i as int].deep_view());
            if self.accounts[i].is_active_signing() {
                let ghost before = ids.deep_view();
                ids.push(self.accounts[i].account_id_hex.clone());
                assert(ids.deep_view() =~= before.push(self.accounts@[i as int].account_id_hex@));
            }
            i += 1;
        }
        assert(all.take(all.len() as int) =~= all);
        ids
    }

    /// Plans the subscriptions over the whole directory. `None` where there are more
    /// accounts than can be counted.
    pub fn directory_sync_plan(&self) -> (result: Result<Option<DirectorySyncPlan>, AppError>)
        ensures
            match (plan_for(self@), result) {
                (Ok(expected), Ok(Some(plan))) => plan.deep_view() == expected,
                (Ok(expected), Ok(None)) => directory_of(self@)->Ok_0.dom().len() + 2
                    * self@.accounts.len() > usize::MAX || !directory_of(self@)->Ok_0.dom().finite(),
                (Err(expected), Err(error)) => error.deep_view() == expected,
                _ => false,
            },
    {
        let local = self.active_account_ids();
        let entries = match self.directory_entries() {
            Err(error) => return Err(error),
            Ok(entries) => entries,
        };
        let ghost found = directory_of(self@)->Ok_0;
        proof {
            lemma_listed_len(entries.deep_view(), found);
        }
        if local.len() > usize::MAX - entries.len() || local.len() > usize::MAX - entries.len()
            - local.len() {
            return Ok(None);
        }
        let mut known: Vec<String> = Vec::new();
        let mut i: usize = 0;
        while i < entries.len()
            invariant
                i <= entries@.len(),
                known@.len() == i,
                forall|j: int|
                    0 <= j < i ==> (#[trigger] known@[j])@ == entries@[j].account_id_hex@,
            decreases entries.len() - i,
        {
            known.push(entries[i].account_id_hex.clone());
            i += 1;
        }
        assert(known.deep_view() =~= ids_of(entries.deep_view()));
        let ghost listed = known.deep_view();
        let mut more = crate::collections::copy_list(&local);
        let ghost l = local.deep_view();
        known.append(&mut more);
        assert(known.deep_view() =~= listed + l);
        let endpoints = crate::collections::copy_list(&self.config.relay_urls);
        Ok(Some(DirectorySyncPlan::from_known_users(endpoints, local, known, None)))
    }

    fn find_stale_slots(&self, entries: &Vec<UserDirectoryRecord>) -> (slots: Vec<RemovedSlot>)
        ensures
            slots.deep_view() == stale_slots(self@, entries.deep_view()),
    {
        let ghost all = entries.deep_view();
        let mut slots: Vec<RemovedSlot> = Vec::new();
        let mut i: usize = 0;
        assert(slots.deep_view() =~= stale_slots(self@, all.take(0)));
        while i < entries.len()
            invariant
                i <= entries@.len(),
                all == entries.deep_view(),
                slots.deep_view() == stale_slots(self@, all.take(i as int)),
            decreases entries.len() - i,
        {
            assert(all.take(i + 1).drop_last() =~= all.take(i as int));
            assert(all.take(i + 1).last() == entries@[i as int].deep_view());
            let entry = &entries[i];
            if let Some(package) = &entry.key_package {
                let admitted = match self.local_key_package_admission(&entry.account_id_hex) {
                    Admission::Admitted(_) => true,
                    _ => false,
                };
                if self.removed_slot_is_retired(
                    &entry.account_id_hex,
                    &package.key_package_id,
                    admitted,
                ) {
                    let ghost before = slots.deep_view();
                    let slot = RemovedSlot {
                        account_id_hex: entry.account_id_hex.clone(),
                        key_package_id: package.key_package_id.clone(),
                    };
                    slots.push(slot);
                    assert(slots.deep_view() =~= before.push(slot.deep_view()));
                }
            }
            i += 1;
        }
        assert(all.take(all.len() as int) =~= all);
        slots
    }

    fn clear_shared_slots(&mut self, slots: &Vec<RemovedSlot>) -> (changed: bool)
        ensures
            *final(self) == (MarmotApp { shared: final(self).shared, ..*old(self) }),
            bindings(final(self).shared) == cleared(
                bindings(old(self).shared),
                slots.deep_view(),
            ),
            changed == clears(bindings(old(self).shared), slots.deep_view()),
    {
        let ghost start = *self;
        let ghost users = bindings(self.shared);
        let ghost all = slots.deep_view();
        let mut changed = false;
        let mut i: usize = 0;
        assert(all.take(0) =~= Seq::<(Seq<char>, Seq<char>)>::empty());
        while i < slots.len()
            invariant
                i <= slots@.len(),
                all == slots.deep_view(),
                users == bindings(start.shared),
                start == *old(self),
                *self == (MarmotApp { shared: self.shared, ..start }),
                bindings(self.shared) == cleared(users, all.take(i as int)),
                changed == clears(users, all.take(i as int)),
            decreases slots.len() - i,
        {
            assert(all.take(i + 1).drop_last() =~= all.take(i as int));
            assert(all.take(i + 1).last() == slots@[i as int].deep_view());
            let ghost before = bindings(self.shared);
            let slot = &slots[i];
            let kept = match self.shared.get(&slot.account_id_hex) {
                None => None,
                Some(entry) => match &entry.key_package {
                    Some(package) => if package.key_package_id.same(&slot.key_package_id) {
                        let mut kept = entry.duplicate();
                        kept.key_package = None;
                        Some(kept)
                    } else {
                        None
                    },
                    None => None,
                },
            };
            if let Some(kept) = kept {
                let _ = self.shared.insert(slot.account_id_hex.clone(), kept);
                assert(bindings(self.shared) =~= before.insert(
                    slot.account_id_hex@,
                    scrubbed(before[slot.account_id_hex@]),
                ));
                changed = true;
            }
            i += 1;
        }
        assert(all.take(all.len() as int) =~= all);
        changed
    }

    /// Scrubs the key packages that were removed from every store, and asks for a
    /// new plan where that removed anything.
    pub fn warm_directory_storage(&mut self) -> (result: Result<(), AppError>)
        ensures
            final(self)@ == warmed(old(self)@).0,
            verdict(result) == warmed(old(self)@).1,
    {
        let ghost app = self@;
        let shared = list_ascending(&self.shared);
        proof {
            lemma_user_list(shared.deep_view(), app.shared);
        }
        let shared_slots = self.find_stale_slots(&shared);
        let ghost given = self.accounts.deep_view();
        let mut found: Vec<Vec<RemovedSlot>> = Vec::new();
        let mut closed = false;
        let mut i: usize = 0;
        while i < self.accounts.len() && !closed
            invariant
                i <= self.accounts@.len(),
                given == self.accounts.deep_view(),
                self@ == app,
                app == old(self)@,
                *self == *old(self),
                given == app.accounts,
                found@.len() == i,
                forall|j: int|
                    0 <= j < i - (if closed {
                        1int
                    } else {
                        0
                    }) ==> signs_now(#[trigger] given[j]) ==> !given[j].cache.closed
                        && found@[j].deep_view() == stale_slots(
                        app,
                        user_list(given[j].cache.users),
                    ),
                forall|j: int|
                    0 <= j < i && !signs_now(#[trigger] given[j]) ==> found@[j]@.len() == 0,
                closed ==> i > 0 && signs_now(given[i - 1]) && given[i - 1].cache.closed,
            decreases self.accounts.len() - i,
        {
            assert(given[i as int] == self.accounts@[i as int].deep_view());
            let mut slots: Vec<RemovedSlot> = Vec::new();
            if self.accounts[i].is_active_signing() {
                match self.accounts[i].cache.entries() {
                    Err(_) => {
                        closed = true;
                    },
                    Ok(entries) => {
                        proof {
                            lemma_user_list(entries.deep_view(), given[i as int].cache.users);
                        }
                        slots = self.find_stale_slots(&entries);
                    },
                }
            }
            found.push(slots);
            i += 1;
        }
        let mut changed = self.clear_shared_slots(&shared_slots);
        let ghost middle = *self;
        let scanned: usize = if closed {
            i - 1
        } else {
            i
        };
        let mut k: usize = 0;
        assert(given.take(0) =~= Seq::<AccountContent>::empty());
        let ghost shared_changed = changed;
        while k < scanned
            invariant
                k <= scanned <= found@.len(),
                scanned <= self.accounts@.len(),
                self.accounts@.len() == given.len(),
                *self == (MarmotApp { accounts: self.accounts, ..middle }),
                given == app.accounts,
                forall|j: int|
                    0 <= j < scanned ==> signs_now(#[trigger] given[j]) ==> !given[j].cache.closed
                        && found@[j].deep_view() == stale_slots(
                        app,
                        user_list(given[j].cache.users),
                    ),
                scrub_of(app, given.take(k as int)).fault is None,
                scrub_of(app, given.take(k as int)).accounts.len() == k,
                changed == (shared_changed || scrub_of(app, given.take(k as int)).changed),
                forall|j: int|
                    0 <= j < given.len() ==> (#[trigger] self.accounts@[j]).deep_view() == (if j
                        < k {
                        scrub_of(app, given.take(k as int)).accounts[j]
                    } else {
                        given[j]
                    }),
            decreases scanned - k,
        {
            assert(given.take(k + 1).drop_last() =~= given.take(k as int));
            assert(given.take(k + 1).last() == given[k as int]);
            let ghost held = self.accounts@;
            assert(held[k as int].deep_view() == given[k as int]);
            if self.accounts[k].is_active_signing() {
                let mut account = self.accounts.remove(k);
                let removed = clear_cache_slots(&mut account, &found[k]);
                changed = changed || removed;
                self.accounts.insert(k, account);
                assert(self.accounts@ =~= held.update(k as int, account));
            }
            k += 1;
        }
        if closed {
            proof {
                let n = scanned as int;
                assert(given.take(n + 1).drop_last() =~= given.take(n));
                assert(given.take(n + 1).last() == given[n]);
                let stopped = scrub_of(app, given.take(n + 1));
                assert(stopped.fault == Some(closed_error()));
                lemma_scrub_stops(app, given, n + 1);
                assert(self.accounts.deep_view() =~= scrub_of(app, given).accounts);
            }
            return Err(AppError::Storage("directory cache is closed".to_owned()));
        }
        assert(given.take(given.len() as int) =~= given);
        assert(self.accounts.deep_view() =~= scrub_of(app, given).accounts);
        if changed {
            self.rebuild_requested = true;
        }
        Ok(())
    }
}

fn clear_cache_slots(account: &mut AccountState, slots: &Vec<RemovedSlot>) -> (changed: bool)
    requires
        !old(account).deep_view().cache.closed,
    ensures
        final(account).deep_view() == (AccountContent {
            cache: CacheContent {
                users: cleared(old(account).deep_view().cache.users, slots.deep_view()),
                ..old(account).deep_view().cache
            },
            ..old(account).deep_view()
        }),
        changed == clears(old(account).deep_view().cache.users, slots.deep_view()),
{
    let ghost start = account.deep_view();
    let ghost all = slots.deep_view();
    let mut changed = false;
    let mut i: usize = 0;
    assert(all.take(0) =~= Seq::<(Seq<char>, Seq<char>)>::empty());
    while i < slots.len()
        invariant
            i <= slots@.len(),
            all == slots.deep_view(),
            !start.cache.closed,
            account.deep_view() == (AccountContent {
                cache: CacheContent {
                    users: cleared(start.cache.users, all.take(i as int)),
                    ..start.cache
                },
                ..start
            }),
            changed == clears(start.cache.users, all.take(i as int)),
        decreases slots.len() - i,
    {
        assert(all.take(i + 1).drop_last() =~= all.take(i as int));
        assert(all.take(i + 1).last() == slots@[i as int].deep_view());
        let slot = &slots[i];
        let removed = account.cache.clear_key_package_if_slot(
            slot.account_id_hex.as_str(),
            Some(slot.key_package_id.clone()),
        );
        match removed {
            Ok(true) => {
                changed = true;
            },
            _ => {},
        }
        i += 1;
    }
    assert(all.take(all.len() as int) =~= all);
    changed
}

proof fn lemma_scrub_stops(app: AppContent, accounts: Seq<AccountContent>, n: int)
    requires
        0 <= n <= accounts.len(),
        scrub_of(app, accounts.take(n)).fault is Some,
        scrub_of(app, accounts.take(n)).accounts.len() == n,
    ensures
        scrub_of(app, accounts).fault == scrub_of(app, accounts.take(n)).fault,
        scrub_of(app, accounts).accounts == scrub_of(app, accounts.take(n)).accounts
            + accounts.skip(n),
    decreases accounts.len() - n,
{
    if n < accounts.len() {
        assert(accounts.take(n + 1).drop_last() =~= accounts.take(n));
        let shorter = scrub_of(app, accounts.take(n)).accounts;
        let longer = scrub_of(app, accounts.take(n + 1)).accounts;
        assert(longer == shorter.push(accounts[n]));
        lemma_scrub_stops(app, accounts, n + 1);
        assert(longer + accounts.skip(n + 1) =~= shorter + accounts.skip(n));
    } else {
        assert(accounts.take(n) =~= accounts);
        assert(scrub_of(app, accounts).accounts =~= scrub_of(app, accounts.take(n)).accounts
            + accounts.skip(n));
    }
}

proof fn lemma_listed_len(entries: Seq<EntryContent>, users: Map<Seq<char>, EntryContent>)
    requires
        lists_users(entries, users),
    ensures
        users.dom().finite(),
        users.dom().len() == entries.len(),
{
    let accounts = choose|accounts: Seq<Seq<char>>| #[trigger] lists_by(entries, users, accounts);
    crate::order::lemma_ascending_distinct(accounts);
    accounts.unique_seq_to_set();
    vstd::seq_lib::seq_to_set_is_finite(accounts);
    assert(accounts.to_set() =~= users.dom());
}

pub proof fn lemma_cleared(
    users: Map<Seq<char>, EntryContent>,
    slots: Seq<(Seq<char>, Seq<char>)>,
    id: Seq<char>,
)
    requires
        users.dom().contains(id),
    ensures
        cleared(users, slots).dom() == users.dom(),
        cleared(users, slots)[id] == users[id] || cleared(users, slots)[id] == scrubbed(users[id]),
        users[id].key_package is Some && slots.contains(
            (id, users[id].key_package->0.key_package_id),
        ) ==> cleared(users, slots)[id] == scrubbed(users[id]),
        !slots.contains((id, users[id].key_package->0.key_package_id)) ==> cleared(
            users,
            slots,
        )[id] == users[id],
    decreases slots.len(),
{
    if slots.len() > 0 {
        let rest = slots.drop_last();
        lemma_cleared(users, rest, id);
        assert(cleared(users, slots).dom() =~= users.dom());
        let wanted = (id, users[id].key_package->0.key_package_id);
        if rest.contains(wanted) {
            let k = choose|k: int| 0 <= k < rest.len() && rest[k] == wanted;
            assert(slots[k] == wanted);
        }
        if slots.contains(wanted) && slots.last() != wanted {
            let k = choose|k: int| 0 <= k < slots.len() && slots[k] == wanted;
            assert(rest[k] == wanted);
        }
        if slots.last() == wanted {
            assert(slots[slots.len() - 1] == wanted);
        }
    } else {
        assert(cleared(users, slots).dom() =~= users.dom());
    }
}

pub proof fn lemma_stale_slots(app: AppContent, entries: Seq<EntryContent>, i: int)
    requires
        0 <= i < entries.len(),
        is_stale(app, entries[i]),
    ensures
        stale_slots(app, entries).contains(
            (entries[i].account_id_hex, entries[i].key_package->0.key_package_id),
        ),
    decreases entries.len(),
{
    let rest = stale_slots(app, entries.drop_last());
    let all = stale_slots(app, entries);
    let wanted = (entries[i].account_id_hex, entries[i].key_package->0.key_package_id);
    if i == entries.len() - 1 {
        assert(all.last() == wanted);
        assert(all[all.len() - 1] == wanted);
    } else {
        assert(entries.drop_last()[i] == entries[i]);
        lemma_stale_slots(app, entries.drop_last(), i);
        let k = choose|k: int| 0 <= k < rest.len() && rest[k] == wanted;
        assert(all[k] == wanted);
    }
}

/// Entries as they are shown where no session is admitted, or the first fault.
pub open spec fn shown_legacy(app: AppContent, entries: Seq<EntryContent>) -> Result<
    Seq<EntryContent>,
    ErrorContent,
>
    decreases entries.len(),
{
    if entries.len() == 0 {
        Ok(Seq::empty())
    } else {
        match shown_legacy(app, entries.drop_last()) {
            Err(error) => Err(error),
            Ok(before) => match hydrated(app, entries.last(), Gate::Given(false)) {
                Err(error) => Err(error),
                Ok(entry) => Ok(before.push(entry)),
            },
        }
    }
}

/// The shared storage after entries were put into it.
pub open spec fn shared_with(
    shared: Map<Seq<char>, EntryContent>,
    entries: Seq<EntryContent>,
) -> Map<Seq<char>, EntryContent>
    decreases entries.len(),
{
    if entries.len() == 0 {
        shared
    } else {
        shared_with(shared, entries.drop_last()).insert(
            entries.last().account_id_hex,
            public_entry(entries.last()),
        )
    }
}

/// The accounts after entries were put into the caches of the signed-in ones; the
/// first closed cache ends it.
pub open spec fn accounts_with(
    accounts: Seq<AccountContent>,
    entries: Seq<EntryContent>,
    now: i64,
) -> (Seq<AccountContent>, Option<ErrorContent>)
    decreases accounts.len(),
{
    if accounts.len() == 0 {
        (accounts, None)
    } else {
        let (before, fault) = accounts_with(accounts.drop_last(), entries, now);
        let account = accounts.last();
        if fault is Some || !signs_now(account) {
            (before.push(account), fault)
        } else if account.cache.closed {
            (before.push(account), Some(closed_error()))
        } else {
            (
                before.push(
                    AccountContent {
                        cache: with_entries(account.cache, entries, "directory"@, now),
                        ..account
                    },
                ),
                None,
            )
        }
    }
}

/// The app after the entries of an older cache were moved in, once.
pub open spec fn migrated(
    app: AppContent,
    legacy: Option<Seq<EntryContent>>,
    now: i64,
) -> (AppContent, Option<ErrorContent>) {
    if app.legacy_cache_checked {
        (app, None)
    } else {
        match legacy {
            None => (AppContent { legacy_cache_checked: true, ..app }, None),
            Some(entries) => match shown_legacy(app, entries) {
                Err(error) => (app, Some(error)),
                Ok(shown) => {
                    let (accounts, fault) = accounts_with(app.accounts, shown, now);
                    let after = AppContent {
                        shared: shared_with(app.shared, shown),
                        accounts,
                        ..app
                    };
                    if fault is Some {
                        (after, fault)
                    } else {
                        (AppContent { legacy_cache_checked: true, ..after }, None)
                    }
                },
            },
        }
    }
}

proof fn lemma_shown_prefix(
    app: AppContent,
    entries: Seq<EntryContent>,
    n: int,
    error: ErrorContent,
)
    requires
        0 <= n <= entries.len(),
        shown_legacy(app, entries.take(n)) == Err::<Seq<EntryContent>, ErrorContent>(error),
    ensures
        shown_legacy(app, entries) == Err::<Seq<EntryContent>, ErrorContent>(error),
    decreases entries.len() - n,
{
    if n < entries.len() {
        assert(entries.take(n + 1).drop_last() =~= entries.take(n));
        lemma_shown_prefix(app, entries, n + 1, error);
    } else {
        assert(entries.take(n) =~= entries);
    }
}

proof fn lemma_accounts_stop(
    accounts: Seq<AccountContent>,
    n: int,
    entries: Seq<EntryContent>,
    now: i64,
)
    requires
        0 <= n <= accounts.len(),
        accounts_with(accounts.take(n), entries, now).1 is Some,
        accounts_with(accounts.take(n), entries, now).0.len() == n,
    ensures
        accounts_with(accounts, entries, now).1 == accounts_with(
            accounts.take(n),
            entries,
            now,
        ).1,
        accounts_with(accounts, entries, now).0 == accounts_with(
            accounts.take(n),
            entries,
            now,
        ).0 + accounts.skip(n),
    decreases accounts.len() - n,
{
    if n < accounts.len() {
        assert(accounts.take(n + 1).drop_last() =~= accounts.take(n));
        let shorter = accounts_with(accounts.take(n), entries, now).0;
        let longer = accounts_with(accounts.take(n + 1), entries, now).0;
        assert(longer == shorter.push(accounts[n]));
        lemma_accounts_stop(accounts, n + 1, entries, now);
        assert(longer + accounts.skip(n + 1) =~= shorter + accounts.skip(n));
    } else {
        assert(accounts.take(n) =~= accounts);
        assert(accounts_with(accounts, entries, now).0 =~= accounts_with(
            accounts.take(n),
            entries,
            now,
        ).0 + accounts.skip(n));
    }
}

proof fn lemma_all_storable(entries: Seq<EntryContent>)
    requires
        forall|j: int| 0 <= j < entries.len() ==> entry_fault(#[trigger] entries[j]) is None,
    ensures
        first_entry_fault(entries) is None,
    decreases entries.len(),
{
    if entries.len() > 0 {
        let rest = entries.drop_first();
        assert forall|j: int| 0 <= j < rest.len() implies entry_fault(
            #[trigger] rest[j],
        ) is None by {
            assert(rest[j] == entries[j + 1]);
        }
        lemma_all_storable(rest);
    }
}

impl MarmotApp {
    fn show_legacy_entries(&self, entries: Vec<UserDirectoryRecord>) -> (result: Result<
        Vec<UserDirectoryRecord>,
        AppError,
    >)
        ensures
            outcome(result) == shown_legacy(self@, entries.deep_view()),
            result matches Ok(shown) ==> first_entry_fault(shown.deep_view()) is None,
    {
        let ghost all = entries.deep_view();
        let mut shown: Vec<UserDirectoryRecord> = Vec::new();
        let mut i: usize = 0;
        assert(shown.deep_view() =~= Seq::<EntryContent>::empty());
        assert(all.take(0) =~= Seq::<EntryContent>::empty());
        while i < entries.len()
            invariant
                i <= entries@.len(),
                all == entries.deep_view(),
                shown_legacy(self@, all.take(i as int)) == Ok::<Seq<EntryContent>, ErrorContent>(
                    shown.deep_view(),
                ),
                forall|j: int|
                    0 <= j < shown.deep_view().len() ==> entry_fault(
                        #[trigger] shown.deep_view()[j],
                    ) is None,
            decreases entries.len() - i,
        {
            assert(all.take(i + 1).drop_last() =~= all.take(i as int));
            assert(all.take(i + 1).last() == entries@[i as int].deep_view());
            match self.hydrate_directory_record(entries[i].duplicate(), Gate::Given(false)) {
                Err(error) => {
                    proof {
                        lemma_shown_prefix(self@, all, i + 1, error.deep_view());
                    }
                    return Err(error);
                },
                Ok(entry) => {
                    proof {
                        crate::directory::app_save::lemma_hydrated_is_storable(
                            self@,
                            all[i as int],
                            Gate::Given(false),
                        );
                    }
                    let ghost before = shown.deep_view();
                    shown.push(entry);
                    assert(shown.deep_view() =~= before.push(entry.deep_view()));
                },
            }
            i += 1;
        }
        assert(all.take(all.len() as int) =~= all);
        proof {
            lemma_all_storable(shown.deep_view());
        }
        Ok(shown)
    }

    fn put_shared_entries(&mut self, entries: &Vec<UserDirectoryRecord>)
        ensures
            *final(self) == (MarmotApp { shared: final(self).shared, ..*old(self) }),
            bindings(final(self).shared) == shared_with(
                bindings(old(self).shared),
                entries.deep_view(),
            ),
    {
        let ghost start = *self;
        let ghost shared = bindings(self.shared);
        let ghost all = entries.deep_view();
        let mut i: usize = 0;
        assert(all.take(0) =~= Seq::<EntryContent>::empty());
        while i < entries.len()
            invariant
                i <= entries@.len(),
                all == entries.deep_view(),
                start == *old(self),
                shared == bindings(start.shared),
                *self == (MarmotApp { shared: self.shared, ..start }),
                bindings(self.shared) == shared_with(shared, all.take(i as int)),
            decreases entries.len() - i,
        {
            assert(all.take(i + 1).drop_last() =~= all.take(i as int));
            assert(all.take(i + 1).last() == entries@[i as int].deep_view());
            let ghost before = bindings(self.shared);
            let mut public = entries[i].duplicate();
            public.local_account = None;
            let _ = self.shared.insert(entries[i].account_id_hex.clone(), public);
            assert(bindings(self.shared) =~= before.insert(
                all[i as int].account_id_hex,
                public_entry(all[i as int]),
            ));
            i += 1;
        }
        assert(all.take(all.len() as int) =~= all);
    }

    /// Moves the entries of an older cache into the shared storage and into the
    /// cache of every signed-in account, once.
    pub fn migrate_legacy_directory_cache_once(
        &mut self,
        legacy: Option<Vec<UserDirectoryRecord>>,
        now: i64,
    ) -> (result: Result<(), AppError>)
        ensures
            final(self)@ == migrated(old(self)@, legacy.deep_view(), now).0,
            verdict(result) == migrated(old(self)@, legacy.deep_view(), now).1,
    {
        if self.legacy_cache_checked {
            return Ok(());
        }
        let entries = match legacy {
            None => {
                self.legacy_cache_checked = true;
                return Ok(());
            },
            Some(entries) => entries,
        };
        let ghost app = self@;
        let shown = match self.show_legacy_entries(entries) {
            Err(error) => return Err(error),
            Ok(shown) => shown,
        };
        self.put_shared_entries(&shown);
        let ghost middle = *self;
        let ghost given = app.accounts;
        let ghost all = shown.deep_view();
        let mut i: usize = 0;
        assert(given.take(0) =~= Seq::<AccountContent>::empty());
        while i < self.accounts.len()
            invariant
                i <= self.accounts@.len(),
                self.accounts@.len() == given.len(),
                *self == (MarmotApp { accounts: self.accounts, ..middle }),
                middle@ == (AppContent { shared: shared_with(app.shared, all), ..app }),
                app == old(self)@,
                !app.legacy_cache_checked,
                given == app.accounts,
                all == shown.deep_view(),
                first_entry_fault(all) is None,
                legacy is Some,
                shown_legacy(app, legacy->0.deep_view()) == Ok::<Seq<EntryContent>, ErrorContent>(
                    all,
                ),
                accounts_with(given.take(i as int), all, now).1 is None,
                accounts_with(given.take(i as int), all, now).0.len() == i,
                forall|j: int|
                    0 <= j < given.len() ==> (#[trigger] self.accounts@[j]).deep_view() == (if j
                        < i {
                        accounts_with(given.take(i as int), all, now).0[j]
                    } else {
                        given[j]
                    }),
            decreases self.accounts.len() - i,
        {
            assert(given.take(i + 1).drop_last() =~= given.take(i as int));
            assert(given.take(i + 1).last() == given[i as int]);
            let ghost held = self.accounts@;
            assert(held[i as int].deep_view() == given[i as int]);
            if self.accounts[i].is_active_signing() {
                let mut account = self.accounts.remove(i);
                let moved = account.cache.migrate_legacy_json_records(&shown, now);
                self.accounts.insert(i, account);
                assert(self.accounts@ =~= held.update(i as int, account));
                if let Err(error) = moved {
                    proof {
                        lemma_accounts_stop(given, i + 1, all, now);
                        assert(self.accounts.deep_view() =~= accounts_with(given, all, now).0);
                    }
                    return Err(error);
                }
            }
            i += 1;
        }
        assert(given.take(given.len() as int) =~= given);
        assert(self.accounts.deep_view() =~= accounts_with(given, all, now).0);
        self.legacy_cache_checked = true;
        Ok(())
    }
}

} // verus!
